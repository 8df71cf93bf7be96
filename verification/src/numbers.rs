//! How counts and durations are written.

use crate::rounding::{
    closest, lemma_rounded_three_times, lemma_tenths_error, lemma_tenths_grow, tenths, tenths_of,
};
use crate::text::{
    chars_of, decimal, decimal_text, digit_char, join, joined, text_between, texts,
};
use vstd::arithmetic::power2::pow2;
use vstd::prelude::*;

verus! {

/// The text with a comma before every third character from the right, the first excepted.
pub open spec fn grouped(s: Seq<char>) -> Seq<char>
    decreases s.len(),
{
    if s.len() <= 3 {
        s
    } else {
        grouped(s.take(s.len() - 3)) + seq![','] + s.skip(s.len() - 3)
    }
}

/// A duration in whole minutes, as the non-zero ones of days, hours and minutes.
pub open spec fn duration_text(secs: nat) -> Seq<char> {
    let days = secs / 86_400;
    let hours = secs % 86_400 / 3600;
    let minutes = secs % 3600 / 60;
    let parts = unit_part(days, 'd') + unit_part(hours, 'h') + unit_part(minutes, 'm');
    if parts.len() == 0 {
        "0m"@
    } else {
        joined(parts, " "@)
    }
}

/// A number of units, if there are any.
pub open spec fn unit_part(n: nat, unit: char) -> Seq<Seq<char>> {
    if n > 0 {
        seq![decimal(n).push(unit)]
    } else {
        seq![]
    }
}

fn grouped_text(chars: &Vec<char>, len: usize) -> (s: String)
    requires
        len <= chars.len(),
    ensures
        s@ == grouped(chars@.take(len as int)),
    decreases len,
{
    let ghost head = chars@.take(len as int);
    if len <= 3 {
        text_between(chars, 0, len)
    } else {
        let mut s = grouped_text(chars, len - 3);
        s.push(',');
        s.append(text_between(chars, len - 3, len).as_str());
        assert(head.take(len - 3) =~= chars@.take(len - 3));
        assert(head.skip(len - 3) =~= chars@.subrange(len - 3, len as int));
        assert(s@ =~= grouped(head));
        s
    }
}

/// A number in decimal notation with a comma between groups of three digits.
pub fn format_num_u64(n: u64) -> (s: String)
    ensures
        s@ == grouped(decimal(n as nat)),
{
    let digits = chars_of(decimal_text(n).as_str());
    assert(digits@.take(digits@.len() as int) =~= digits@);
    grouped_text(&digits, digits.len())
}

/// A number in decimal notation with a comma between groups of three digits.
pub fn format_num(n: u32) -> (s: String)
    ensures
        s@ == grouped(decimal(n as nat)),
{
    format_num_u64(n as u64)
}

/// Adds a number of units to the parts of a duration, if there are any.
fn push_unit(parts: &mut Vec<String>, n: u32, unit: char)
    ensures
        texts(final(parts)@) == texts(old(parts)@) + unit_part(n as nat, unit),
{
    if n > 0 {
        let mut part = decimal_text(n as u64);
        part.push(unit);
        parts.push(part);
    }
    assert(texts(parts@) =~= texts(old(parts)@) + unit_part(n as nat, unit));
}

/// Format a duration in seconds as "3d 6h 4m" (non-zero units only).
pub fn format_duration(secs: u32) -> (s: String)
    ensures
        s@ == duration_text(secs as nat),
{
    let mut parts: Vec<String> = Vec::new();
    push_unit(&mut parts, secs / 86_400, 'd');
    push_unit(&mut parts, secs % 86_400 / 3600, 'h');
    push_unit(&mut parts, secs % 3600 / 60, 'm');
    assert(texts(parts@) =~= unit_part(secs as nat / 86_400, 'd') + unit_part(
        secs as nat % 86_400 / 3600,
        'h',
    ) + unit_part(secs as nat % 3600 / 60, 'm'));
    if parts.len() == 0 {
        "0m".to_owned()
    } else {
        join(&parts, " ")
    }
}

/// A number of tenths, without the decimal where it is zero, and the suffix of a unit.
pub open spec fn tenths_text(tenths: nat, suffix: char) -> Seq<char> {
    if tenths % 10 == 0 {
        decimal(tenths / 10).push(suffix)
    } else {
        decimal(tenths / 10) + seq!['.', digit_char(tenths % 10), suffix]
    }
}

/// A count in full below a thousand, and in tenths of a thousand (`k`), a million (`m`) or a
/// billion (`b`) from there on.
pub open spec fn short_count(n: nat) -> Seq<char> {
    if n >= 1_000_000_000 {
        tenths_text(tenths(n, 1_000_000_000), 'b')
    } else if n >= 1_000_000 {
        tenths_text(tenths(n, 1_000_000), 'm')
    } else if n >= 1_000 {
        tenths_text(tenths(n, 1_000), 'k')
    } else {
        decimal(n)
    }
}

/// Abbreviate a count with k/m/b suffixes (e.g. 1_600 as "1.6k", 45_500_000 as "45.5m").
pub fn format_count_short(n: u64) -> (s: String)
    ensures
        s@ == short_count(n as nat),
{
    let (unit, suffix): (u64, char) = if n >= 1_000_000_000 {
        (1_000_000_000, 'b')
    } else if n >= 1_000_000 {
        (1_000_000, 'm')
    } else if n >= 1_000 {
        (1_000, 'k')
    } else {
        return decimal_text(n);
    };
    let t: u64 = tenths_of(n, unit);
    let mut s = decimal_text(t / 10);
    if t % 10 != 0 {
        s.push('.');
        s.push((48 + (t % 10) as u8) as char);
    }
    s.push(suffix);
    assert(s@ =~= tenths_text(t as nat, suffix));
    s
}

/// A count that is a whole number of tenths of its unit is written exactly.
pub proof fn lemma_whole_tenths_exact(n: nat, unit: nat, t: nat)
    requires
        unit == 1_000 && 1_000 <= n < 1_000_000 || unit == 1_000_000 && 1_000_000 <= n
            < 1_000_000_000 || unit == 1_000_000_000 && 1_000_000_000 <= n <= u64::MAX,
        10 * n == t * unit,
    ensures
        tenths(n, unit) == t,
        short_count(n) == tenths_text(
            t,
            if unit == 1_000 {
                'k'
            } else if unit == 1_000_000 {
                'm'
            } else {
                'b'
            },
        ),
{
    lemma_tenths_error(n, unit);
    let written = tenths(n, unit);
    assert(written == t) by (nonlinear_arith)
        requires
            -51 * unit <= 100 * (written * unit - t * unit) <= 51 * unit,
            unit > 0,
    ;
}

/// The number that digits give.
pub open spec fn digits_value(s: Seq<char>) -> nat
    decreases s.len(),
{
    if s.len() == 0 {
        0
    } else {
        10 * digits_value(s.drop_last()) + (s.last() as nat - 48) as nat
    }
}

/// The unit that a suffix stands for, or 1 for any other character.
pub open spec fn suffix_unit(c: char) -> nat {
    if c == 'k' {
        1_000
    } else if c == 'm' {
        1_000_000
    } else if c == 'b' {
        1_000_000_000
    } else {
        1
    }
}

/// Ten times the number that an abbreviated count stands for: digits, with one decimal or without,
/// times the unit of their suffix.
pub open spec fn tenths_meant(s: Seq<char>) -> nat {
    let unit = suffix_unit(s.last());
    let number = if unit > 1 {
        s.drop_last()
    } else {
        s
    };
    let point = number.len() - 2;
    if point >= 0 && number[point] == '.' {
        (10 * digits_value(number.take(point)) + digits_value(number.skip(point + 1))) * unit
    } else {
        10 * digits_value(number) * unit
    }
}

/// The digits of a number give that number.
proof fn lemma_digits_value(n: nat)
    ensures
        decimal(n).len() > 0,
        digits_value(decimal(n)) == n,
    decreases n,
{
    reveal_with_fuel(digits_value, 2);
    if n >= 10 {
        lemma_digits_value(n / 10);
        assert(decimal(n).drop_last() =~= decimal(n / 10));
    } else {
        assert(decimal(n).drop_last() =~= Seq::<char>::empty());
    }
}

proof fn lemma_tenths_text_meant(t: nat, suffix: char)
    requires
        suffix == 'k' || suffix == 'm' || suffix == 'b',
    ensures
        tenths_meant(tenths_text(t, suffix)) == t * suffix_unit(suffix),
{
    let s = tenths_text(t, suffix);
    let whole = decimal(t / 10);
    let number = s.drop_last();
    let point = number.len() - 2;
    lemma_digits_value(t / 10);
    if t % 10 == 0 {
        assert(number =~= whole);
        if point >= 0 {
            lemma_decimal_digits(t / 10, point);
        }
    } else {
        reveal_with_fuel(digits_value, 2);
        assert(number[point] == '.');
        assert(number.take(point) =~= whole);
        assert(number.skip(point + 1) =~= seq![digit_char(t % 10)]);
        assert(number.skip(point + 1).drop_last() =~= Seq::<char>::empty());
    }
}

/// Ten times the number that is written for a count.
proof fn lemma_short_count_meant(n: nat)
    ensures
        tenths_meant(short_count(n)) == if n >= 1_000_000_000 {
            tenths(n, 1_000_000_000) * 1_000_000_000
        } else if n >= 1_000_000 {
            tenths(n, 1_000_000) * 1_000_000
        } else if n >= 1_000 {
            tenths(n, 1_000) * 1_000
        } else {
            10 * n
        },
{
    if n >= 1_000_000_000 {
        lemma_tenths_text_meant(tenths(n, 1_000_000_000), 'b');
    } else if n >= 1_000_000 {
        lemma_tenths_text_meant(tenths(n, 1_000_000), 'm');
    } else if n >= 1_000 {
        lemma_tenths_text_meant(tenths(n, 1_000), 'k');
    } else {
        let s = decimal(n);
        lemma_digits_value(n);
        lemma_decimal_digits(n, s.len() - 1);
        if s.len() >= 2 {
            lemma_decimal_digits(n, s.len() - 2);
        }
    }
}

/// A larger count is never written as a smaller number, also where its suffix changes.
pub proof fn lemma_short_counts_grow(n: nat, m: nat)
    requires
        n <= m <= u64::MAX,
    ensures
        tenths_meant(short_count(n)) <= tenths_meant(short_count(m)),
{
    lemma_short_count_meant(n);
    lemma_short_count_meant(m);
    // A count is written in one unit as no more than the next unit, and in that as no less.
    lemma_tenths_error(1_000, 1_000);
    lemma_tenths_error(1_000_000, 1_000);
    lemma_tenths_error(1_000_000, 1_000_000);
    lemma_tenths_error(1_000_000_000, 1_000_000);
    lemma_tenths_error(1_000_000_000, 1_000_000_000);
    if n < 1_000_000 {
        lemma_tenths_grow(n, 1_000_000, 1_000);
    }
    if n < 1_000_000_000 {
        lemma_tenths_grow(n, 1_000_000_000, 1_000_000);
    }
    if m >= 1_000_000_000 {
        lemma_tenths_grow(1_000_000_000, m, 1_000_000_000);
    } else if m >= 1_000_000 {
        lemma_tenths_grow(1_000_000, m, 1_000_000);
    } else if m >= 1_000 {
        lemma_tenths_grow(1_000, m, 1_000);
    }
    lemma_tenths_grow(n, m, 1_000);
    lemma_tenths_grow(n, m, 1_000_000);
    lemma_tenths_grow(n, m, 1_000_000_000);
}

/// The days, hours and minutes of a duration make up its whole minutes.
pub proof fn lemma_duration_units(secs: nat)
    ensures
        secs / 86_400 * 1440 + secs % 86_400 / 3600 * 60 + secs % 3600 / 60 == secs / 60,
        secs % 86_400 / 3600 < 24,
        secs % 3600 / 60 < 60,
{
}

/// Every character of a number in decimal notation is a digit.
proof fn lemma_decimal_digits(n: nat, i: int)
    requires
        0 <= i < decimal(n).len(),
    ensures
        '0' <= decimal(n)[i] <= '9',
    decreases n,
{
    if n >= 10 && i < decimal(n).len() - 1 {
        lemma_decimal_digits(n / 10, i);
    }
}

proof fn lemma_grouped_filter(s: Seq<char>)
    requires
        forall|i: int| 0 <= i < s.len() ==> s[i] != ',',
    ensures
        grouped(s).filter(|c: char| c != ',') == s,
    decreases s.len(),
{
    let kept = |c: char| c != ',';
    if s.len() <= 3 {
        lemma_filter_all(s, kept);
    } else {
        let head = s.take(s.len() - 3);
        let tail = s.skip(s.len() - 3);
        lemma_grouped_filter(head);
        lemma_filter_all(tail, kept);
        Seq::filter_distributes_over_add(grouped(head) + seq![','], tail, kept);
        Seq::filter_distributes_over_add(grouped(head), seq![','], kept);
        assert(seq![','].filter(kept) =~= Seq::<char>::empty()) by {
            reveal_with_fuel(Seq::filter, 2);
            assert(!kept(seq![','].last()));
        }
        assert(head + tail =~= s);
    }
}

proof fn lemma_filter_all(s: Seq<char>, kept: spec_fn(char) -> bool)
    requires
        forall|i: int| 0 <= i < s.len() ==> kept(s[i]),
    ensures
        s.filter(kept) == s,
    decreases s.len(),
{
    reveal(Seq::filter);
    if s.len() > 0 {
        lemma_filter_all(s.drop_last(), kept);
        assert(s.drop_last().push(s.last()) =~= s);
    }
}

proof fn lemma_grouped_commas(s: Seq<char>, i: int)
    requires
        forall|j: int| 0 <= j < s.len() ==> s[j] != ',',
        0 <= i < grouped(s).len(),
    ensures
        grouped(s)[i] == ',' <==> (grouped(s).len() - i) % 4 == 0,
    decreases s.len(),
{
    if s.len() > 3 {
        let head = s.take(s.len() - 3);
        if i < grouped(head).len() {
            lemma_grouped_commas(head, i);
        }
    }
}

/// The commas in a number stand before every third digit from the right, and without them it is
/// the number in decimal notation.
pub proof fn lemma_grouped_number(n: nat)
    ensures
        grouped(decimal(n)).filter(|c: char| c != ',') == decimal(n),
        forall|i: int|
            0 <= i < grouped(decimal(n)).len() ==> (#[trigger] grouped(decimal(n))[i] == ',' <==> (
            grouped(decimal(n)).len() - i) % 4 == 0),
{
    assert forall|i: int| 0 <= i < decimal(n).len() implies decimal(n)[i] != ',' by {
        lemma_decimal_digits(n, i);
    }
    lemma_grouped_filter(decimal(n));
    assert forall|i: int| 0 <= i < grouped(decimal(n)).len() implies (#[trigger] grouped(
        decimal(n),
    )[i] == ',' <==> (grouped(decimal(n)).len() - i) % 4 == 0) by {
        lemma_grouped_commas(decimal(n), i);
    }
}

/// A number in decimal notation is made of digits that give that number, without zeros in front.
pub proof fn lemma_decimal_reads_back(n: nat)
    ensures
        decimal(n).len() > 0,
        digits_value(decimal(n)) == n,
        forall|i: int| 0 <= i < decimal(n).len() ==> '0' <= #[trigger] decimal(n)[i] <= '9',
        n > 0 ==> decimal(n)[0] != '0',
        n == 0 ==> decimal(n) == seq!['0'],
    decreases n,
{
    lemma_digits_value(n);
    assert forall|i: int| 0 <= i < decimal(n).len() implies '0' <= #[trigger] decimal(n)[i]
        <= '9' by {
        lemma_decimal_digits(n, i);
    }
    if n >= 10 {
        lemma_decimal_reads_back(n / 10);
    }
}

/// What a suffix follows in the text of a duration: the number in front of it, or 0 where it does
/// not occur, and the number whose suffix is still to come.
pub open spec fn scanned(s: Seq<char>, unit: char) -> (nat, nat)
    decreases s.len(),
{
    if s.len() == 0 {
        (0, 0)
    } else {
        let (found, number) = scanned(s.drop_last(), unit);
        let c = s.last();
        if '0' <= c <= '9' {
            (found, 10 * number + (c as nat - 48) as nat)
        } else if c == unit {
            (number, 0)
        } else {
            (found, 0)
        }
    }
}

/// The number in front of a unit in the text of a duration, or 0 where it does not occur.
pub open spec fn number_of(s: Seq<char>, unit: char) -> nat {
    scanned(s, unit).0
}

proof fn lemma_scanned_number(s: Seq<char>, n: nat, unit: char)
    requires
        scanned(s, unit).1 == 0,
    ensures
        scanned(s + decimal(n), unit) == (scanned(s, unit).0, n),
    decreases n,
{
    let t = s + decimal(n);
    if n >= 10 {
        lemma_scanned_number(s, n / 10, unit);
        assert(t.drop_last() =~= s + decimal(n / 10));
    } else {
        assert(t.drop_last() =~= s);
    }
}

/// What a further unit adds to the text of a duration.
proof fn lemma_scanned_unit(parts: Seq<Seq<char>>, n: nat, suffix: char, unit: char)
    requires
        !('0' <= suffix <= '9'),
        scanned(joined(parts, " "@), unit).1 == 0,
        unit != ' ',
    ensures
        scanned(joined(parts + unit_part(n, suffix), " "@), unit) == (if n > 0 && suffix == unit {
            n
        } else {
            scanned(joined(parts, " "@), unit).0
        }, 0nat),
{
    let before = joined(parts, " "@);
    if n > 0 {
        let part = decimal(n).push(suffix);
        let all = parts + unit_part(n, suffix);
        reveal_strlit(" ");
        assert(all =~= parts.push(part));
        assert(all.drop_last() =~= parts);
        if parts.len() == 0 {
            assert(before =~= Seq::<char>::empty());
            lemma_scanned_number(before, n, unit);
            assert(part.drop_last() =~= before + decimal(n));
        } else {
            let spaced = before + " "@;
            assert(spaced.drop_last() =~= before);
            lemma_scanned_number(spaced, n, unit);
            let text = before + " "@ + part;
            assert(joined(all, " "@) == text);
            assert(text.drop_last() =~= spaced + decimal(n));
        }
    } else {
        assert(parts + unit_part(n, suffix) =~= parts);
    }
}

/// Reading the text of a duration back gives its whole minutes: the numbers in front of `d`, `h`
/// and `m` add up to them, a unit that is left out counts as none, and no number of hours or
/// minutes makes up the next unit.
pub proof fn lemma_duration_reads_back(secs: nat)
    ensures
        ({
            let s = duration_text(secs);
            &&& 1440 * number_of(s, 'd') + 60 * number_of(s, 'h') + number_of(s, 'm') == secs / 60
            &&& number_of(s, 'h') < 24
            &&& number_of(s, 'm') < 60
        }),
{
    let days = secs / 86_400;
    let hours = secs % 86_400 / 3600;
    let minutes = secs % 3600 / 60;
    let none = Seq::<Seq<char>>::empty();
    let (one, two) = (unit_part(days, 'd'), unit_part(days, 'd') + unit_part(hours, 'h'));
    assert(none + one =~= one);
    lemma_scanned_unit(none, days, 'd', 'd');
    lemma_scanned_unit(none, days, 'd', 'h');
    lemma_scanned_unit(none, days, 'd', 'm');
    lemma_scanned_unit(one, hours, 'h', 'd');
    lemma_scanned_unit(one, hours, 'h', 'h');
    lemma_scanned_unit(one, hours, 'h', 'm');
    lemma_scanned_unit(two, minutes, 'm', 'd');
    lemma_scanned_unit(two, minutes, 'm', 'h');
    lemma_scanned_unit(two, minutes, 'm', 'm');
    reveal_strlit("0m");
    reveal_with_fuel(scanned, 3);
    lemma_duration_units(secs);
}

/// A duration is written unit by unit, from days to minutes: what is left after the first is
/// written after a space, if it makes up a minute. Below a minute there is nothing but `0m`.
pub proof fn lemma_duration_by_units(n: nat, rest: nat)
    requires
        n > 0,
    ensures
        rest < 60 ==> duration_text(rest) == "0m"@,
        rest < 60 && n < 60 ==> duration_text(60 * n + rest) == decimal(n) + "m"@,
        rest < 3600 && n < 24 ==> duration_text(3600 * n + rest) == decimal(n) + "h"@ + if rest
            < 60 {
            ""@
        } else {
            " "@ + duration_text(rest)
        },
        rest < 86_400 ==> duration_text(86_400 * n + rest) == decimal(n) + "d"@ + if rest < 60 {
            ""@
        } else {
            " "@ + duration_text(rest)
        },
{
    reveal_strlit("");
    reveal_strlit("d");
    reveal_strlit("h");
    reveal_strlit("m");
    reveal_with_fuel(joined, 4);
    let none = Seq::<Seq<char>>::empty();
    let days = unit_part(n, 'd');
    let hours = unit_part(rest % 86_400 / 3600, 'h');
    let minutes = unit_part(rest % 3600 / 60, 'm');
    if rest < 60 {
        assert(unit_part(0, 'd') + unit_part(0, 'h') + unit_part(0, 'm') =~= none);
        if n < 60 {
            assert((60 * n + rest) % 3600 / 60 == n);
            assert(unit_part(0, 'd') + unit_part(0, 'h') + unit_part(n, 'm') =~= unit_part(n, 'm'));
            assert(decimal(n).push('m') =~= decimal(n) + "m"@);
        }
    }
    if rest < 3600 && n < 24 {
        assert((3600 * n + rest) % 3600 == rest);
        assert((3600 * n + rest) % 86_400 / 3600 == n);
        let first = unit_part(n, 'h');
        assert(unit_part(0, 'd') + first + minutes =~= first + minutes);
        assert(unit_part(0, 'd') + unit_part(0, 'h') + minutes =~= minutes);
        lemma_first_part(decimal(n).push('h'), minutes);
        assert(first + minutes =~= seq![decimal(n).push('h')] + minutes);
        assert(decimal(n).push('h') =~= decimal(n) + "h"@);
        assert(decimal(n) + "h"@ + (" "@ + duration_text(rest)) =~= decimal(n) + "h"@ + " "@
            + duration_text(rest));
        assert(decimal(n) + "h"@ + ""@ =~= decimal(n) + "h"@);
    }
    if rest < 86_400 {
        assert((86_400 * n + rest) / 86_400 == n);
        assert((86_400 * n + rest) % 86_400 == rest);
        assert((86_400 * n + rest) % 3600 == rest % 3600);
        assert(days + hours + minutes =~= seq![decimal(n).push('d')] + (hours + minutes));
        assert(unit_part(0, 'd') + hours + minutes =~= hours + minutes);
        lemma_first_part(decimal(n).push('d'), hours + minutes);
        assert(decimal(n).push('d') =~= decimal(n) + "d"@);
        assert(decimal(n) + "d"@ + (" "@ + duration_text(rest)) =~= decimal(n) + "d"@ + " "@
            + duration_text(rest));
        assert(decimal(n) + "d"@ + ""@ =~= decimal(n) + "d"@);
    }
}

proof fn lemma_first_part(first: Seq<char>, parts: Seq<Seq<char>>)
    ensures
        joined(seq![first] + parts, " "@) == if parts.len() == 0 {
            first
        } else {
            first + " "@ + joined(parts, " "@)
        },
    decreases parts.len(),
{
    let all = seq![first] + parts;
    if parts.len() == 0 {
        assert(all =~= seq![first]);
    } else {
        lemma_first_part(first, parts.drop_last());
        assert(all.drop_last() =~= seq![first] + parts.drop_last());
        assert(joined(all, " "@) =~= first + " "@ + joined(parts, " "@));
    }
}

/// The unit of a count: a billion, a million or a thousand, if it makes up that much.
pub open spec fn unit_for(n: nat) -> nat {
    if n < 1_000 {
        1
    } else if n < 1_000_000 {
        1_000
    } else if n < 1_000_000_000 {
        1_000_000
    } else {
        1_000_000_000
    }
}

/// What is written for a count stands for it to the nearest tenth of its unit, and for one below a
/// thousand exactly. Of counts beyond 2^53 it differs by little more than half a tenth.
pub proof fn lemma_short_count_close(n: nat)
    requires
        n <= u64::MAX,
    ensures
        n < 1_000 ==> tenths_meant(short_count(n)) == 10 * n,
        n < 0x20_0000_0000_0000 ==> -unit_for(n) <= 2 * (tenths_meant(short_count(n)) - 10 * n)
            <= unit_for(n),
        -51 * unit_for(n) <= 100 * (tenths_meant(short_count(n)) - 10 * n) <= 51 * unit_for(n),
{
    lemma_short_count_meant(n);
    if n >= 1_000 {
        lemma_tenths_error(n, unit_for(n));
    }
}

/// How a count is written: in digits alone below a thousand, and from there on with the suffix of
/// its unit, after one decimal at most, which is not 0.
pub proof fn lemma_short_count_form(n: nat) -> (parts: (nat, nat))
    requires
        n <= u64::MAX,
    ensures
        n < 1_000 ==> short_count(n) == decimal(n),
        n >= 1_000 ==> ({
            let s = short_count(n);
            let (whole, tenth) = parts;
            &&& s.len() > 0
            &&& suffix_unit(s.last()) == unit_for(n)
            &&& tenth < 10
            &&& s.drop_last() == if tenth == 0 {
                decimal(whole)
            } else {
                decimal(whole) + seq!['.'] + decimal(tenth)
            }
        }),
{
    if n < 1_000 {
        (0, 0)
    } else {
        let t = tenths(n, unit_for(n));
        let number = short_count(n).drop_last();
        if t % 10 == 0 {
            assert(number =~= decimal(t / 10));
        } else {
            assert(number =~= decimal(t / 10) + seq!['.'] + decimal(t % 10));
        }
        (t / 10, t % 10)
    }
}

/// What is written for a count from a thousand on stands for so many tenths of its unit as three
/// roundings give, of which each takes the closest and of two that are equally close the even: the
/// count to 53 bits, its quotient by the unit to 53 bits, and that to tenths.
pub proof fn lemma_short_count_rounded(n: nat) -> (rounded: (nat, nat, nat, nat, nat, nat))
    requires
        1_000 <= n <= u64::MAX,
    ensures
        ({
            let (written, significand, exponent, count, quotient, shift) = rounded;
            &&& tenths_meant(short_count(n)) == written * unit_for(n)
            &&& count == significand * pow2(exponent)
            &&& closest(significand, n, pow2(exponent))
            &&& significand <= pow2(53)
            &&& exponent > 0 ==> pow2(52) <= significand
            &&& closest(quotient, count * pow2(shift), unit_for(n))
            &&& pow2(52) <= quotient <= pow2(53)
            &&& closest(written, 10 * quotient, pow2(shift))
        }),
{
    let unit = unit_for(n);
    lemma_short_count_meant(n);
    let (significand, exponent, count, quotient, shift) = lemma_rounded_three_times(n, unit);
    (tenths(n, unit), significand, exponent, count, quotient, shift)
}

} // verus!

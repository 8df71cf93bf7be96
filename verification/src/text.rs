//! Plain text operations on sequences of characters.

use vstd::prelude::*;

verus! {

/// [`String::push`]: the character is appended to the end of the string.
pub assume_specification[ String::push ](s: &mut String, c: char)
    ensures
        final(s)@ == old(s)@.push(c),
;

/// The character repeated `n` times.
pub open spec fn repeated(c: char, n: nat) -> Seq<char> {
    Seq::new(n, |i: int| c)
}

/// The character of one decimal digit.
pub open spec fn digit_char(d: nat) -> char {
    (48 + d) as char
}

/// The decimal notation of a number, without leading zeros.
pub open spec fn decimal(n: nat) -> Seq<char>
    decreases n,
{
    if n < 10 {
        seq![digit_char(n)]
    } else {
        decimal(n / 10).push(digit_char(n % 10))
    }
}

/// Text followed by spaces up to a width in characters.
pub open spec fn padded_right(s: Seq<char>, width: nat) -> Seq<char> {
    if s.len() < width {
        s + repeated(' ', (width - s.len()) as nat)
    } else {
        s
    }
}

/// Text preceded by spaces up to a width in characters.
pub open spec fn padded_left(s: Seq<char>, width: nat) -> Seq<char> {
    if s.len() < width {
        repeated(' ', (width - s.len()) as nat) + s
    } else {
        s
    }
}

/// The characters with the Unicode property `White_Space`.
pub open spec fn is_white_space(c: char) -> bool {
    ||| '\u{9}' <= c <= '\u{d}'
    ||| c == ' '
    ||| c == '\u{85}'
    ||| c == '\u{a0}'
    ||| c == '\u{1680}'
    ||| '\u{2000}' <= c <= '\u{200a}'
    ||| c == '\u{2028}'
    ||| c == '\u{2029}'
    ||| c == '\u{202f}'
    ||| c == '\u{205f}'
    ||| c == '\u{3000}'
}

/// The text without its leading white space.
pub open spec fn trimmed_start(s: Seq<char>) -> Seq<char>
    decreases s.len(),
{
    if s.len() > 0 && is_white_space(s.first()) {
        trimmed_start(s.drop_first())
    } else {
        s
    }
}

/// The text without its trailing white space.
pub open spec fn trimmed_end(s: Seq<char>) -> Seq<char>
    decreases s.len(),
{
    if s.len() > 0 && is_white_space(s.last()) {
        trimmed_end(s.drop_last())
    } else {
        s
    }
}

/// The text without leading and trailing white space.
pub open spec fn trimmed(s: Seq<char>) -> Seq<char> {
    trimmed_end(trimmed_start(s))
}

/// The texts that a list of strings holds.
pub open spec fn texts(lines: Seq<String>) -> Seq<Seq<char>> {
    lines.map_values(|line: String| line@)
}

/// The text of a result and of an error.
pub open spec fn outcome(result: Result<String, String>) -> Result<Seq<char>, Seq<char>> {
    match result {
        Ok(s) => Ok(s@),
        Err(s) => Err(s@),
    }
}

/// The texts one after another, with a separator between any two.
pub open spec fn joined(parts: Seq<Seq<char>>, separator: Seq<char>) -> Seq<char>
    decreases parts.len(),
{
    if parts.len() == 0 {
        Seq::empty()
    } else if parts.len() == 1 {
        parts[0]
    } else {
        joined(parts.drop_last(), separator) + separator + parts.last()
    }
}

/// Whether a text occurs at a position of another.
pub open spec fn occurs_at(s: Seq<char>, part: Seq<char>, i: int) -> bool {
    0 <= i && i + part.len() <= s.len() && s.subrange(i, i + part.len()) == part
}

/// Whether a text occurs anywhere in another.
pub open spec fn occurs_in(s: Seq<char>, part: Seq<char>) -> bool {
    exists|i: int| occurs_at(s, part, i)
}

/// Whether a text begins with another.
pub open spec fn begins_with(s: Seq<char>, prefix: Seq<char>) -> bool {
    occurs_at(s, prefix, 0)
}

/// Whether the first occurrence of a text in another is at a position.
pub open spec fn first_occurs_at(s: Seq<char>, part: Seq<char>, i: int) -> bool {
    occurs_at(s, part, i) && forall|j: int| j < i ==> !occurs_at(s, part, j)
}

/// What precedes and what follows the first occurrence of a separator, if it occurs.
pub open spec fn split_at_first(s: Seq<char>, separator: Seq<char>) -> Option<
    (Seq<char>, Seq<char>),
> {
    if exists|i: int| first_occurs_at(s, separator, i) {
        let i = choose|i: int| first_occurs_at(s, separator, i);
        Some((s.take(i), s.skip(i + separator.len())))
    } else {
        None
    }
}

/// The position of the first occurrence determines the split.
pub proof fn lemma_split_at_first(s: Seq<char>, separator: Seq<char>, i: int)
    requires
        first_occurs_at(s, separator, i),
    ensures
        split_at_first(s, separator) == Some((s.take(i), s.skip(i + separator.len()))),
{
    let j = choose|j: int| first_occurs_at(s, separator, j);
    assert(first_occurs_at(s, separator, j));
    assert(i == j);
}

/// The characters of a text, one by one.
pub fn chars_of(s: &str) -> (chars: Vec<char>)
    ensures
        chars@ == s@,
{
    let mut chars: Vec<char> = Vec::new();
    for c in it: s.chars()
        invariant
            it.seq() == s@,
            chars@ == s@.take(it.index() as int),
    {
        chars.push(c);
    }
    chars
}

/// The text made of the characters from one position up to another.
pub fn text_between(chars: &Vec<char>, from: usize, to: usize) -> (s: String)
    requires
        from <= to <= chars.len(),
    ensures
        s@ == chars@.subrange(from as int, to as int),
{
    let mut s = String::new();
    let mut i: usize = from;
    while i < to
        invariant
            from <= i <= to <= chars.len(),
            s@ == chars@.subrange(from as int, i as int),
        decreases to - i,
    {
        s.push(chars[i]);
        i += 1;
    }
    s
}

/// Whether two texts are the same.
pub fn same_text(a: &str, b: &str) -> (same: bool)
    ensures
        same == (a@ == b@),
{
    let a = chars_of(a);
    let b = chars_of(b);
    assert(a@.subrange(0, a@.len() as int) =~= a@);
    a.len() == b.len() && occurs_here(&a, &b, 0)
}

/// Whether `part` occurs in `chars` at position `at`.
pub fn occurs_here(chars: &Vec<char>, part: &Vec<char>, at: usize) -> (found: bool)
    ensures
        found == occurs_at(chars@, part@, at as int),
{
    if at > chars.len() || part.len() > chars.len() - at {
        return false;
    }
    let mut i: usize = 0;
    while i < part.len()
        invariant
            i <= part.len(),
            at + part.len() <= chars.len(),
            forall|j: int| 0 <= j < i ==> chars@[at + j] == #[trigger] part@[j],
        decreases part.len() - i,
    {
        if chars[at + i] != part[i] {
            assert(chars@.subrange(at as int, at + part.len())[i as int] != part@[i as int]);
            return false;
        }
        i += 1;
    }
    assert(chars@.subrange(at as int, at + part.len()) =~= part@);
    true
}

/// The position of the first occurrence of `part`, if it occurs at all.
pub fn find_first(chars: &Vec<char>, part: &Vec<char>) -> (found: Option<usize>)
    ensures
        match found {
            Some(i) => first_occurs_at(chars@, part@, i as int),
            None => !occurs_in(chars@, part@),
        },
{
    let mut i: usize = 0;
    while i < chars.len()
        invariant
            i <= chars.len(),
            forall|j: int| j < i ==> !occurs_at(chars@, part@, j),
        decreases chars.len() - i,
    {
        if occurs_here(chars, part, i) {
            return Some(i);
        }
        i += 1;
    }
    if occurs_here(chars, part, i) {
        return Some(i);
    }
    None
}

/// What precedes and what follows the first occurrence of a separator, if it occurs.
pub fn split_once(s: &str, separator: &str) -> (parts: Option<(String, String)>)
    ensures
        match parts {
            Some(parts) => split_at_first(s@, separator@) == Some((parts.0@, parts.1@)),
            None => split_at_first(s@, separator@) is None,
        },
{
    let chars = chars_of(s);
    let separator = chars_of(separator);
    match find_first(&chars, &separator) {
        Some(i) => {
            proof {
                lemma_split_at_first(s@, separator@, i as int);
            }
            assert(i + separator.len() <= chars.len());
            let after: usize = i + separator.len();
            Some((text_between(&chars, 0, i), text_between(&chars, after, chars.len())))
        },
        None => {
            assert forall|i: int| !first_occurs_at(s@, separator@, i) by {
                assert(!occurs_at(chars@, separator@, i));
            }
            None
        },
    }
}

/// What follows a prefix, if the text begins with it.
pub fn after_prefix(s: &str, prefix: &str) -> (rest: Option<String>)
    ensures
        match rest {
            Some(rest) => begins_with(s@, prefix@) && rest@ == s@.skip(prefix@.len() as int),
            None => !begins_with(s@, prefix@),
        },
{
    let chars = chars_of(s);
    let prefix = chars_of(prefix);
    if occurs_here(&chars, &prefix, 0) {
        Some(text_between(&chars, prefix.len(), chars.len()))
    } else {
        None
    }
}

/// Whether one text occurs in another.
pub fn contains(s: &str, part: &str) -> (found: bool)
    ensures
        found == occurs_in(s@, part@),
{
    let chars = chars_of(s);
    let part = chars_of(part);
    find_first(&chars, &part).is_some()
}

/// Whether a character is white space.
pub fn white_space(c: char) -> (white: bool)
    ensures
        white == is_white_space(c),
{
    ('\u{9}' <= c && c <= '\u{d}') || c == ' ' || c == '\u{85}' || c == '\u{a0}' || c == '\u{1680}'
        || ('\u{2000}' <= c && c <= '\u{200a}') || c == '\u{2028}' || c == '\u{2029}' || c
        == '\u{202f}' || c == '\u{205f}' || c == '\u{3000}'
}

/// The text of `chars` from `from` on, without trailing white space.
pub fn text_before_white_end(chars: &Vec<char>, from: usize) -> (s: String)
    requires
        from <= chars.len(),
    ensures
        s@ == trimmed_end(chars@.skip(from as int)),
{
    let mut to: usize = chars.len();
    assert(chars@.subrange(from as int, to as int) =~= chars@.skip(from as int));
    while to > from && white_space(chars[to - 1])
        invariant
            from <= to <= chars.len(),
            trimmed_end(chars@.subrange(from as int, to as int)) == trimmed_end(
                chars@.skip(from as int),
            ),
        decreases to,
    {
        assert(chars@.subrange(from as int, to as int).drop_last() =~= chars@.subrange(
            from as int,
            to - 1,
        ));
        to -= 1;
    }
    text_between(chars, from, to)
}

/// The text without trailing white space.
pub fn trim_end(chars: &Vec<char>) -> (s: String)
    ensures
        s@ == trimmed_end(chars@),
{
    assert(chars@.skip(0) =~= chars@);
    text_before_white_end(chars, 0)
}

/// The text without leading and trailing white space.
pub fn trim(s: &str) -> (t: String)
    ensures
        t@ == trimmed(s@),
{
    let chars = chars_of(s);
    let mut from: usize = 0;
    assert(chars@.skip(0) =~= chars@);
    while from < chars.len() && white_space(chars[from])
        invariant
            from <= chars.len(),
            trimmed_start(chars@.skip(from as int)) == trimmed_start(chars@),
        decreases chars.len() - from,
    {
        assert(chars@.skip(from as int).drop_first() =~= chars@.skip(from + 1));
        from += 1;
    }
    text_before_white_end(&chars, from)
}

/// The character repeated `n` times.
pub fn repeat_char(c: char, n: usize) -> (s: String)
    ensures
        s@ == repeated(c, n as nat),
{
    let mut s = String::new();
    let mut i: usize = 0;
    while i < n
        invariant
            i <= n,
            s@ == repeated(c, i as nat),
        decreases n - i,
    {
        s.push(c);
        i += 1;
    }
    s
}

/// The text followed by spaces up to a width in characters.
pub fn pad_right(s: &str, width: usize) -> (t: String)
    ensures
        t@ == padded_right(s@, width as nat),
{
    let len: usize = s.unicode_len();
    if len < width {
        s.to_owned().concat(repeat_char(' ', width - len).as_str())
    } else {
        s.to_owned()
    }
}

/// The text preceded by spaces up to a width in characters.
pub fn pad_left(s: &str, width: usize) -> (t: String)
    ensures
        t@ == padded_left(s@, width as nat),
{
    let len: usize = s.unicode_len();
    if len < width {
        repeat_char(' ', width - len).concat(s)
    } else {
        s.to_owned()
    }
}

/// The decimal notation of a number.
pub fn decimal_text(n: u64) -> (s: String)
    ensures
        s@ == decimal(n as nat),
    decreases n,
{
    if n < 10 {
        let mut s = String::new();
        s.push((48 + n as u8) as char);
        assert(s@ =~= decimal(n as nat));
        s
    } else {
        let mut s = decimal_text(n / 10);
        s.push((48 + (n % 10) as u8) as char);
        s
    }
}

/// The strings one after another, with a separator between any two.
pub fn join(parts: &Vec<String>, separator: &str) -> (s: String)
    ensures
        s@ == joined(texts(parts@), separator@),
{
    let mut s = String::new();
    let mut i: usize = 0;
    while i < parts.len()
        invariant
            i <= parts.len(),
            s@ == joined(texts(parts@).take(i as int), separator@),
        decreases parts.len() - i,
    {
        if i > 0 {
            s.append(separator);
        }
        s.append(parts[i].as_str());
        assert(texts(parts@).take(i + 1).drop_last() =~= texts(parts@).take(i as int));
        i += 1;
    }
    assert(texts(parts@).take(i as int) =~= texts(parts@));
    s
}

/// Texts are joined one by one, with the separator before each but the first.
pub proof fn lemma_joined(parts: Seq<Seq<char>>, last: Seq<char>, separator: Seq<char>)
    ensures
        joined(Seq::<Seq<char>>::empty(), separator) == Seq::<char>::empty(),
        joined(seq![last], separator) == last,
        parts.len() > 0 ==> joined(parts.push(last), separator) == joined(parts, separator)
            + separator + last,
{
    assert(parts.push(last).drop_last() =~= parts);
}

/// Text is padded with spaces alone, on its right, and only as far as it has to be.
pub proof fn lemma_padded_right(s: Seq<char>, width: nat)
    ensures
        padded_right(s, width).len() == if s.len() < width {
            width
        } else {
            s.len()
        },
        padded_right(s, width).take(s.len() as int) == s,
        forall|i: int|
            s.len() <= i < padded_right(s, width).len() ==> #[trigger] padded_right(s, width)[i]
                == ' ',
{
    assert(padded_right(s, width).take(s.len() as int) =~= s);
}

/// Text is padded with spaces alone, on its left, and only as far as it has to be.
pub proof fn lemma_padded_left(s: Seq<char>, width: nat)
    ensures
        padded_left(s, width).len() == if s.len() < width {
            width
        } else {
            s.len()
        },
        padded_left(s, width).skip(padded_left(s, width).len() - s.len()) == s,
        forall|i: int|
            0 <= i < padded_left(s, width).len() - s.len() ==> #[trigger] padded_left(s, width)[i]
                == ' ',
{
    assert(padded_left(s, width).skip(padded_left(s, width).len() - s.len()) =~= s);
}

/// What is cut off the end of a text is white space, and none is left there.
pub proof fn lemma_trimmed_end(s: Seq<char>)
    ensures
        trimmed_end(s).len() <= s.len(),
        trimmed_end(s) == s.take(trimmed_end(s).len() as int),
        forall|i: int|
            trimmed_end(s).len() <= i < s.len() ==> is_white_space(#[trigger] s[i]),
        trimmed_end(s).len() > 0 ==> !is_white_space(trimmed_end(s).last()),
    decreases s.len(),
{
    if s.len() > 0 && is_white_space(s.last()) {
        let rest = s.drop_last();
        lemma_trimmed_end(rest);
        assert(rest.take(trimmed_end(s).len() as int) =~= s.take(trimmed_end(s).len() as int));
        assert forall|i: int| trimmed_end(s).len() <= i < s.len() implies is_white_space(
            #[trigger] s[i],
        ) by {
            if i < rest.len() {
                assert(is_white_space(rest[i]));
            }
        }
    } else {
        assert(s.take(s.len() as int) =~= s);
    }
}

proof fn lemma_trimmed_start(s: Seq<char>)
    ensures
        trimmed_start(s).len() <= s.len(),
        trimmed_start(s) == s.skip(s.len() - trimmed_start(s).len()),
        forall|i: int|
            0 <= i < s.len() - trimmed_start(s).len() ==> is_white_space(#[trigger] s[i]),
        trimmed_start(s).len() > 0 ==> !is_white_space(trimmed_start(s).first()),
    decreases s.len(),
{
    if s.len() > 0 && is_white_space(s.first()) {
        let rest = s.drop_first();
        lemma_trimmed_start(rest);
        let kept = trimmed_start(s);
        assert(rest.skip(rest.len() - kept.len()) =~= s.skip(s.len() - kept.len()));
        assert forall|i: int| 0 <= i < s.len() - kept.len() implies is_white_space(
            #[trigger] s[i],
        ) by {
            if i > 0 {
                assert(is_white_space(rest[i - 1]));
            }
        }
    } else {
        assert(s.skip(0) =~= s);
    }
}

/// What is cut off both ends of a text is white space, and what is left begins and ends with
/// something else.
pub proof fn lemma_trimmed(s: Seq<char>) -> (from: int)
    ensures
        0 <= from,
        from + trimmed(s).len() <= s.len(),
        trimmed(s) == s.subrange(from, from + trimmed(s).len()),
        forall|i: int| 0 <= i < from ==> is_white_space(#[trigger] s[i]),
        forall|i: int| from + trimmed(s).len() <= i < s.len() ==> is_white_space(#[trigger] s[i]),
        trimmed(s).len() > 0 ==> !is_white_space(trimmed(s).first()) && !is_white_space(
            trimmed(s).last(),
        ),
{
    let started = trimmed_start(s);
    let from = s.len() - started.len();
    let t = trimmed(s);
    lemma_trimmed_start(s);
    lemma_trimmed_end(started);
    assert(t =~= s.subrange(from, from + t.len()));
    assert forall|i: int| from + t.len() <= i < s.len() implies is_white_space(#[trigger] s[i]) by {
        assert(is_white_space(started[i - from]));
    }
    from
}

/// A text is made up of what precedes the first separator, the separator, and what follows it; it
/// is not split if there is none.
pub proof fn lemma_split_parts(s: Seq<char>, separator: Seq<char>)
    ensures
        match split_at_first(s, separator) {
            Some((before, after)) => {
                &&& s == before + separator + after
                &&& forall|i: int| 0 <= i < before.len() ==> !occurs_at(s, separator, i)
            },
            None => forall|i: int| !occurs_at(s, separator, i),
        },
{
    if exists|i: int| first_occurs_at(s, separator, i) {
        let i = choose|i: int| first_occurs_at(s, separator, i);
        lemma_split_at_first(s, separator, i);
        assert(s =~= s.take(i) + s.subrange(i, i + separator.len()) + s.skip(
            i + separator.len(),
        ));
    } else {
        assert forall|i: int| !occurs_at(s, separator, i) by {
            if 0 <= i {
                lemma_none_first(s, separator, i);
            }
        }
    }
}

proof fn lemma_none_first(s: Seq<char>, part: Seq<char>, i: int)
    requires
        0 <= i,
        forall|j: int| !first_occurs_at(s, part, j),
    ensures
        forall|j: int| j <= i ==> !occurs_at(s, part, j),
    decreases i,
{
    if i > 0 {
        lemma_none_first(s, part, i - 1);
    }
    assert(!first_occurs_at(s, part, i));
}

/// A character that is repeated is as often there as it is asked for, and nothing else is.
pub proof fn lemma_repeated(c: char, n: nat)
    ensures
        repeated(c, n).len() == n,
        forall|i: int| 0 <= i < n ==> #[trigger] repeated(c, n)[i] == c,
{
}

} // verus!

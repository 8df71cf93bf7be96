//! How dark the cells of a row are.
//!
//! Each row is shaded over the quartiles of its own values that are not 0: both lines and spend
//! are heavily skewed, so a linear scale would give most cells the same shade.

use crate::style::{GRAY, RESET};
use crate::text::{join, joined, texts};
use vstd::prelude::*;
use vstd::relations::sorted_by;
use vstd::seq_lib::lemma_sorted_unique;

verus! {

/// The values that are not 0, from the lowest to the highest.
pub open spec fn ranked(values: Seq<u64>) -> Seq<u64> {
    values.filter(|v: u64| v > 0).sort_by(|a: u64, b: u64| a <= b)
}

/// The value up to which so many quarters of the ranked values reach, to the nearest rank.
pub open spec fn threshold(ranks: Seq<u64>, quarters: int) -> u64 {
    if ranks.len() == 0 {
        0
    } else {
        ranks[((ranks.len() - 1) * quarters + 2) / 4]
    }
}

/// The shade of a value: 0 for 0, and 1 to 4 for the quarter of the ranked values it falls in.
pub open spec fn level(v: u64, ranks: Seq<u64>) -> int {
    if v == 0 {
        0
    } else if v <= threshold(ranks, 1) {
        1
    } else if v <= threshold(ranks, 2) {
        2
    } else if v <= threshold(ranks, 3) {
        3
    } else {
        4
    }
}

/// The character of a shade.
pub open spec fn level_char(level: int) -> char {
    if level == 0 {
        '·'
    } else if level == 1 {
        '░'
    } else if level == 2 {
        '▒'
    } else if level == 3 {
        '▓'
    } else {
        '█'
    }
}

/// A cell in the color of its row, or in gray where there is nothing to show.
pub open spec fn cell(level: int, color: Seq<char>) -> Seq<char> {
    (if level == 0 {
        GRAY@
    } else {
        color
    }).push(level_char(level)) + RESET@
}

/// The cells of a row of values.
pub open spec fn cells(values: Seq<u64>, color: Seq<char>) -> Seq<Seq<char>> {
    Seq::new(values.len(), |i: int| cell(level(values[i], ranked(values)), color))
}

/// A row of values as a row of cells.
pub open spec fn row_text(values: Seq<u64>, color: Seq<char>, separator: Seq<char>) -> Seq<char> {
    joined(cells(values, color), separator)
}

proof fn lemma_u64_order()
    ensures
        vstd::relations::total_ordering(|a: u64, b: u64| a <= b),
{
}

/// The values that are not 0, from the lowest to the highest.
fn rank(values: &Vec<u64>) -> (ranks: Vec<u64>)
    ensures
        ranks@ == ranked(values@),
{
    let ghost kept = |v: u64| v > 0;
    let ghost leq = |a: u64, b: u64| a <= b;
    let mut ranks: Vec<u64> = Vec::new();
    let mut i: usize = 0;
    proof {
        reveal(Seq::filter);
        assert(values@.take(0).filter(kept) =~= Seq::<u64>::empty());
    }
    while i < values.len()
        invariant
            i <= values.len(),
            kept == (|v: u64| v > 0),
            leq == (|a: u64, b: u64| a <= b),
            sorted_by(ranks@, leq),
            ranks@.to_multiset() == values@.take(i as int).filter(kept).to_multiset(),
        decreases values.len() - i,
    {
        let v: u64 = values[i];
        let ghost before = ranks@;
        let ghost seen = values@.take(i as int).filter(kept);
        proof {
            reveal(Seq::filter);
            assert(values@.take(i + 1).drop_last() =~= values@.take(i as int));
            assert(values@.take(i + 1).last() == v);
        }
        if v > 0 {
            let mut at: usize = 0;
            while at < ranks.len() && ranks[at] <= v
                invariant
                    at <= ranks.len(),
                    ranks@ == before,
                    forall|j: int| 0 <= j < at ==> ranks@[j] <= v,
                ensures
                    at < ranks.len() ==> ranks@[at as int] > v,
                decreases ranks.len() - at,
            {
                at += 1;
            }
            ranks.insert(at, v);
            proof {
                vstd::seq_lib::to_multiset_insert(before, at as int, v);
                vstd::seq_lib::to_multiset_build(seen, v);
                assert forall|j: int, k: int| 0 <= j < k < ranks@.len() implies #[trigger] leq(
                    ranks@[j],
                    ranks@[k],
                ) by {
                    if at < before.len() && at < k {
                        assert(leq(before[at as int], before[k - 1]) || k - 1 == at);
                    }
                    if j < at && at < k && at < before.len() {
                        assert(leq(before[j], before[k - 1]));
                    }
                    if k < at {
                        assert(leq(before[j], before[k]));
                    }
                    if j > at {
                        assert(leq(before[j - 1], before[k - 1]));
                    }
                }
            }
        }
        i += 1;
    }
    proof {
        assert(values@.take(i as int) =~= values@);
        lemma_u64_order();
        values@.filter(kept).lemma_sort_by_ensures(leq);
        lemma_sorted_unique(ranks@, ranked(values@), leq);
    }
    ranks
}

fn threshold_of(ranks: &Vec<u64>, quarters: u64) -> (v: u64)
    requires
        quarters <= 3,
    ensures
        v == threshold(ranks@, quarters as int),
{
    if ranks.len() == 0 {
        return 0;
    }
    let last: u128 = (ranks.len() - 1) as u128;
    assert(0 <= last * quarters <= 3 * last) by (nonlinear_arith)
        requires
            0 <= quarters <= 3,
            0 <= last,
    ;
    let at: usize = ((last * quarters as u128 + 2) / 4) as usize;
    ranks[at]
}

/// A row of values as a row of cells.
pub fn render_row(values: &Vec<u64>, color: &str, separator: &str) -> (row: String)
    ensures
        row@ == row_text(values@, color@, separator@),
{
    let ranks = rank(values);
    let low: u64 = threshold_of(&ranks, 1);
    let middle: u64 = threshold_of(&ranks, 2);
    let high: u64 = threshold_of(&ranks, 3);
    let mut row: Vec<String> = Vec::new();
    let mut i: usize = 0;
    while i < values.len()
        invariant
            i <= values.len(),
            ranks@ == ranked(values@),
            low == threshold(ranks@, 1),
            middle == threshold(ranks@, 2),
            high == threshold(ranks@, 3),
            texts(row@) == cells(values@, color@).take(i as int),
        decreases values.len() - i,
    {
        let v: u64 = values[i];
        let shade = if v == 0 {
            '·'
        } else if v <= low {
            '░'
        } else if v <= middle {
            '▒'
        } else if v <= high {
            '▓'
        } else {
            '█'
        };
        let mut text = if v == 0 {
            GRAY.to_owned()
        } else {
            color.to_owned()
        };
        text.push(shade);
        text.append(RESET);
        assert(text@ == cells(values@, color@)[i as int]);
        let ghost shown = texts(row@);
        row.push(text);
        assert(texts(row@) =~= shown.push(text@));
        assert(texts(row@) =~= cells(values@, color@).take(i + 1));
        i += 1;
    }
    assert(texts(row@) =~= cells(values@, color@));
    join(&row, separator)
}

/// Only what is not 0 is shaded, and what is higher is not shaded lighter.
pub proof fn lemma_levels_follow_values(v: u64, w: u64, ranks: Seq<u64>)
    ensures
        level(v, ranks) == 0 <==> v == 0,
        0 <= level(v, ranks) <= 4,
        v <= w ==> level(v, ranks) <= level(w, ranks),
{
}

/// The lowest values that are not 0 have the lightest shade.
pub proof fn lemma_lowest_is_lightest(values: Seq<u64>, i: int)
    requires
        0 <= i < values.len(),
        values[i] > 0,
        forall|j: int| 0 <= j < values.len() && values[j] > 0 ==> values[i] <= #[trigger] values[j],
    ensures
        level(values[i], ranked(values)) == 1,
{
    let kept = |v: u64| v > 0;
    let leq = |a: u64, b: u64| a <= b;
    let ranks = ranked(values);
    lemma_u64_order();
    values.filter(kept).lemma_sort_by_ensures(leq);
    values.lemma_filter_contains(kept, i);
    vstd::seq_lib::to_multiset_len(ranks);
    vstd::seq_lib::to_multiset_len(values.filter(kept));
    let at = ((ranks.len() - 1) + 2) / 4;
    let t = ranks[at];
    assert(ranks.contains(t));
    assert(values.filter(kept).contains(t));
    let k = choose|k: int| 0 <= k < values.filter(kept).len() && values.filter(kept)[k] == t;
    values.lemma_filter_pred(kept, k);
    values.lemma_filter_contains_rev(kept, t);
}

/// Whether each value is so many times as high as another.
pub open spec fn multiplied(values: Seq<u64>, k: nat, products: Seq<u64>) -> bool {
    &&& products.len() == values.len()
    &&& forall|i: int| 0 <= i < values.len() ==> #[trigger] products[i] == k * values[i]
}

proof fn lemma_multiplied_filter(values: Seq<u64>, k: nat, products: Seq<u64>)
    requires
        multiplied(values, k, products),
        k >= 1,
    ensures
        multiplied(values.filter(|v: u64| v > 0), k, products.filter(|v: u64| v > 0)),
    decreases values.len(),
{
    let kept = |v: u64| v > 0;
    reveal(Seq::filter);
    if values.len() > 0 {
        let (v, p) = (values.last(), products.last());
        lemma_multiplied_filter(values.drop_last(), k, products.drop_last());
        assert(p == k * v);
        assert(p > 0 <==> v > 0) by (nonlinear_arith)
            requires
                p == k * v,
                k >= 1,
        ;
        assert(kept(v) == kept(p));
    }
}

/// A value occurs as often as its product.
proof fn lemma_multiplied_count(values: Seq<u64>, k: nat, products: Seq<u64>, v: u64, p: u64)
    requires
        multiplied(values, k, products),
        k >= 1,
        p == k * v,
    ensures
        products.to_multiset().count(p) == values.to_multiset().count(v),
    decreases values.len(),
{
    broadcast use vstd::multiset::group_multiset_axioms;

    if values.len() == 0 {
        assert(values =~= Seq::<u64>::empty());
        assert(products =~= Seq::<u64>::empty());
        values.to_multiset_ensures();
        products.to_multiset_ensures();
        assert(!values.contains(v));
        assert(!products.contains(p));
    } else {
        let (w, q) = (values.last(), products.last());
        lemma_multiplied_count(values.drop_last(), k, products.drop_last(), v, p);
        assert(values =~= values.drop_last().push(w));
        assert(products =~= products.drop_last().push(q));
        vstd::seq_lib::to_multiset_build(values.drop_last(), w);
        vstd::seq_lib::to_multiset_build(products.drop_last(), q);
        assert(q == k * w);
        assert(p == q <==> v == w) by (nonlinear_arith)
            requires
                p == k * v,
                q == k * w,
                k >= 1,
        ;
    }
}

/// The products of values rank as the values do.
proof fn lemma_multiplied_ranks(values: Seq<u64>, k: nat, products: Seq<u64>)
    requires
        multiplied(values, k, products),
        k >= 1,
    ensures
        multiplied(ranked(values), k, ranked(products)),
{
    broadcast use vstd::multiset::group_multiset_axioms;

    let kept = |v: u64| v > 0;
    let leq = |a: u64, b: u64| a <= b;
    let (lows, highs) = (values.filter(kept), products.filter(kept));
    let ranks = ranked(values);
    lemma_u64_order();
    lows.lemma_sort_by_ensures(leq);
    highs.lemma_sort_by_ensures(leq);
    lemma_multiplied_filter(values, k, products);
    lows.to_multiset_ensures();
    highs.to_multiset_ensures();
    ranks.to_multiset_ensures();
    let expected = Seq::new(ranks.len(), |i: int| (k * ranks[i]) as u64);
    expected.to_multiset_ensures();
    assert forall|i: int| 0 <= i < ranks.len() implies #[trigger] expected[i] == k * ranks[i] by {
        assert(ranks.contains(ranks[i]));
        assert(lows.contains(ranks[i]));
        let j = choose|j: int| 0 <= j < lows.len() && lows[j] == ranks[i];
        assert(highs[j] == k * lows[j]);
    }
    assert(multiplied(ranks, k, expected));
    assert forall|p: u64| expected.to_multiset().count(p) == highs.to_multiset().count(p) by {
        if expected.contains(p) {
            let i = choose|i: int| 0 <= i < expected.len() && expected[i] == p;
            lemma_multiplied_count(ranks, k, expected, ranks[i], p);
            lemma_multiplied_count(lows, k, highs, ranks[i], p);
        } else if highs.contains(p) {
            let j = choose|j: int| 0 <= j < highs.len() && highs[j] == p;
            lemma_multiplied_count(ranks, k, expected, lows[j], p);
            lemma_multiplied_count(lows, k, highs, lows[j], p);
        }
    }
    assert(expected.to_multiset() =~= highs.to_multiset());
    assert forall|i: int, j: int| 0 <= i < j < expected.len() implies #[trigger] leq(
        expected[i],
        expected[j],
    ) by {
        let (v, w) = (ranks[i], ranks[j]);
        assert(leq(v, w));
        assert(k * v <= k * w) by (nonlinear_arith)
            requires
                v <= w,
        ;
    }
    lemma_sorted_unique(expected, ranked(products), leq);
}

/// A row shows proportions: it looks the same if all of its values are multiplied alike.
pub proof fn lemma_row_shows_proportions(
    values: Seq<u64>,
    k: nat,
    products: Seq<u64>,
    color: Seq<char>,
    separator: Seq<char>,
)
    requires
        multiplied(values, k, products),
        k >= 1,
    ensures
        row_text(values, color, separator) == row_text(products, color, separator),
{
    let (low, high) = (ranked(values), ranked(products));
    lemma_multiplied_ranks(values, k, products);
    assert forall|i: int| 0 <= i < values.len() implies level(values[i], low) == level(
        #[trigger] products[i],
        high,
    ) by {
        lemma_multiplied_threshold(values[i], low, k, products[i], high, 1);
        lemma_multiplied_threshold(values[i], low, k, products[i], high, 2);
        lemma_multiplied_threshold(values[i], low, k, products[i], high, 3);
    }
    assert(cells(values, color) =~= cells(products, color));
}

proof fn lemma_multiplied_threshold(
    v: u64,
    low: Seq<u64>,
    k: nat,
    p: u64,
    high: Seq<u64>,
    quarters: int,
)
    requires
        multiplied(low, k, high),
        k >= 1,
        p == k * v,
        1 <= quarters <= 3,
    ensures
        p == 0 <==> v == 0,
        v <= threshold(low, quarters) <==> p <= threshold(high, quarters),
{
    let (t, u) = (threshold(low, quarters), threshold(high, quarters));
    if low.len() > 0 {
        let at = ((low.len() - 1) * quarters + 2) / 4;
        assert(0 <= at < low.len()) by (nonlinear_arith)
            requires
                at == ((low.len() - 1) * quarters + 2) / 4,
                1 <= quarters <= 3,
                low.len() > 0,
        ;
        assert(high[at] == k * low[at]);
    } else {
        assert(k * t == 0) by (nonlinear_arith)
            requires
                t == 0,
        ;
    }
    assert((p == 0 <==> v == 0) && (v <= t <==> p <= u)) by (nonlinear_arith)
        requires
            p == k * v,
            u == k * t,
            k >= 1,
    ;
}

/// As many values are chosen of two rows that hold the same values in different orders.
proof fn lemma_chosen_in_any_order(a: Seq<u64>, b: Seq<u64>, chosen: spec_fn(u64) -> bool)
    requires
        a.to_multiset() == b.to_multiset(),
    ensures
        a.filter(chosen).len() == b.filter(chosen).len(),
    decreases a.len(),
{
    broadcast use vstd::multiset::group_multiset_axioms;

    a.to_multiset_ensures();
    b.to_multiset_ensures();
    reveal(Seq::filter);
    if a.len() > 0 {
        let x = a.last();
        assert(a.contains(x));
        assert(a.to_multiset().count(x) > 0);
        assert(b.to_multiset().count(x) > 0);
        assert(b.contains(x));
        let i = choose|i: int| 0 <= i < b.len() && b[i] == x;
        let (before, after) = (b.take(i), b.skip(i + 1));
        assert(a.remove(a.len() - 1) =~= a.drop_last());
        vstd::seq_lib::to_multiset_remove(a, a.len() - 1);
        vstd::seq_lib::to_multiset_remove(b, i);
        lemma_chosen_in_any_order(a.drop_last(), b.remove(i), chosen);
        assert(b =~= before + seq![x] + after);
        assert(b.remove(i) =~= before + after);
        Seq::filter_distributes_over_add(before + seq![x], after, chosen);
        Seq::filter_distributes_over_add(before, seq![x], chosen);
        Seq::filter_distributes_over_add(before, after, chosen);
        assert(seq![x].drop_last() =~= Seq::<u64>::empty());
        assert(seq![x].filter(chosen).len() == if chosen(x) {
            1nat
        } else {
            0
        }) by {
            reveal_with_fuel(Seq::filter, 2);
        }
    } else {
        assert(b.len() == 0);
    }
}

/// Choosing among the values that are chosen is choosing by both.
proof fn lemma_chosen_twice(
    values: Seq<u64>,
    first: spec_fn(u64) -> bool,
    second: spec_fn(u64) -> bool,
    both: spec_fn(u64) -> bool,
)
    requires
        forall|v: u64| #[trigger] both(v) <==> first(v) && second(v),
    ensures
        values.filter(first).filter(second) == values.filter(both),
    decreases values.len(),
{
    reveal(Seq::filter);
    if values.len() > 0 {
        let rest = values.drop_last();
        lemma_chosen_twice(rest, first, second, both);
        let v = values.last();
        if first(v) {
            let kept = rest.filter(first).push(v);
            assert(kept.drop_last() =~= rest.filter(first));
        }
        assert(both(v) <==> first(v) && second(v));
    }
}

/// All of the values up to a position are chosen, and from there on none is.
proof fn lemma_chosen_before(values: Seq<u64>, at: int, chosen: spec_fn(u64) -> bool)
    requires
        0 <= at <= values.len(),
    ensures
        (forall|i: int| 0 <= i < at ==> chosen(#[trigger] values[i])) ==> values.filter(chosen).len()
            >= at,
        (forall|i: int| at <= i < values.len() ==> !chosen(#[trigger] values[i])) ==> values.filter(
            chosen,
        ).len() <= at,
    decreases values.len(),
{
    reveal(Seq::filter);
    if values.len() > 0 {
        let rest = values.drop_last();
        let last = values.len() - 1;
        assert(rest.len() == last);
        lemma_chosen_before(rest, if at > last {
            last
        } else {
            at
        }, chosen);
        if forall|i: int| 0 <= i < at ==> chosen(#[trigger] values[i]) {
            assert forall|i: int| 0 <= i < at && i < last implies chosen(#[trigger] rest[i]) by {
                assert(chosen(values[i]));
            }
            if at > last {
                assert(chosen(values[last]));
            }
        }
        if forall|i: int| at <= i < values.len() ==> !chosen(#[trigger] values[i]) {
            assert forall|i: int| at <= i < rest.len() implies !chosen(#[trigger] rest[i]) by {
                assert(!chosen(values[i]));
            }
            if at <= last {
                assert(!chosen(values[last]));
            }
        }
    }
}

/// The ranked values are those that are not 0, each as often as in the row, and in order.
proof fn lemma_ranked(values: Seq<u64>)
    ensures
        ranked(values).to_multiset() == values.filter(|v: u64| v > 0).to_multiset(),
        ranked(values).len() == values.filter(|v: u64| v > 0).len(),
        forall|i: int, j: int|
            0 <= i <= j < ranked(values).len() ==> #[trigger] ranked(values)[i]
                <= #[trigger] ranked(values)[j],
{
    let leq = |a: u64, b: u64| a <= b;
    let kept = values.filter(|v: u64| v > 0);
    let ranks = ranked(values);
    lemma_u64_order();
    kept.lemma_sort_by_ensures(leq);
    kept.to_multiset_ensures();
    ranks.to_multiset_ensures();
    assert forall|i: int, j: int| 0 <= i <= j < ranks.len() implies #[trigger] ranks[i]
        <= #[trigger] ranks[j] by {
        if i < j {
            assert(leq(ranks[i], ranks[j]));
        }
    }
}

/// How many values that are not 0 lie below another decides whether a threshold reaches it.
proof fn lemma_threshold_by_counting(values: Seq<u64>, v: u64, quarters: int)
    requires
        v > 0,
        values.filter(|u: u64| u > 0).len() > 0,
        1 <= quarters <= 3,
    ensures
        v <= threshold(ranked(values), quarters) <==> 4 * values.filter(
            |u: u64| 0 < u && u < v,
        ).len() <= (values.filter(|u: u64| u > 0).len() - 1) * quarters + 2,
{
    let kept = |u: u64| u > 0;
    let below = |u: u64| u < v;
    let both = |u: u64| 0 < u && u < v;
    let ranks = ranked(values);
    let last = ranks.len() - 1;
    lemma_ranked(values);
    lemma_chosen_twice(values, kept, below, both);
    lemma_chosen_in_any_order(ranks, values.filter(kept), below);
    let at = (last * quarters + 2) / 4;
    assert(0 <= at <= last && 4 * at <= last * quarters + 2 < 4 * at + 4) by (nonlinear_arith)
        requires
            at == (last * quarters + 2) / 4,
            0 <= last,
            1 <= quarters <= 3,
    ;
    if v <= ranks[at] {
        assert forall|i: int| at <= i < ranks.len() implies !below(#[trigger] ranks[i]) by {
            assert(ranks[at] <= ranks[i]);
        }
        lemma_chosen_before(ranks, at, below);
    } else {
        assert forall|i: int| 0 <= i < at + 1 implies below(#[trigger] ranks[i]) by {
            assert(ranks[i] <= ranks[at]);
        }
        lemma_chosen_before(ranks, at + 1, below);
    }
}

proof fn lemma_some_active(values: Seq<u64>, i: int)
    requires
        0 <= i < values.len(),
        values[i] > 0,
    ensures
        values.filter(|u: u64| u > 0).len() > 0,
{
    let kept = |u: u64| u > 0;
    values.lemma_filter_contains(kept, i);
    assert(values.filter(kept).contains(values[i]));
}

/// The shade of a value is decided by how many of the row's values lie below it: it is in the
/// first, the second or the third quarter or before exactly if those that are lower make up no
/// more of the others than so many quarters, to the nearest rank.
pub proof fn lemma_shade_by_counting(values: Seq<u64>, i: int, quarters: int)
    requires
        0 <= i < values.len(),
        values[i] > 0,
        1 <= quarters <= 3,
    ensures
        ({
            let active = values.filter(|u: u64| u > 0).len();
            let lower = values.filter(|u: u64| 0 < u && u < values[i]).len();
            level(values[i], ranked(values)) <= quarters <==> 4 * lower <= (active - 1) * quarters
                + 2
        }),
{
    lemma_some_active(values, i);
    lemma_threshold_by_counting(values, values[i], 1);
    lemma_threshold_by_counting(values, values[i], 2);
    lemma_threshold_by_counting(values, values[i], 3);
}

/// What a cell shows: a gray dot for nothing, and otherwise, in the color of the row, a darker
/// block the more of the row's values are lower.
pub proof fn lemma_cells_by_counting(values: Seq<u64>, color: Seq<char>, i: int)
    requires
        0 <= i < values.len(),
    ensures
        cells(values, color).len() == values.len(),
        ({
            let shown = cells(values, color)[i];
            let active = values.filter(|u: u64| u > 0).len();
            let lower = values.filter(|u: u64| 0 < u && u < values[i]).len();
            if values[i] == 0 {
                shown == GRAY@ + seq!['·'] + RESET@
            } else if 4 * lower <= active + 1 {
                shown == color + seq!['░'] + RESET@
            } else if 4 * lower <= 2 * active {
                shown == color + seq!['▒'] + RESET@
            } else if 4 * lower <= 3 * active - 1 {
                shown == color + seq!['▓'] + RESET@
            } else {
                shown == color + seq!['█'] + RESET@
            }
        }),
{
    let shown = cells(values, color)[i];
    if values[i] > 0 {
        lemma_shade_by_counting(values, i, 1);
        lemma_shade_by_counting(values, i, 2);
        lemma_shade_by_counting(values, i, 3);
        let c = level_char(level(values[i], ranked(values)));
        assert(shown =~= color + seq![c] + RESET@);
    } else {
        assert(shown =~= GRAY@ + seq!['·'] + RESET@);
    }
}

/// How many of the values that are not 0 are shaded no darker than a level.
pub open spec fn shaded_up_to(values: Seq<u64>, darkest: int) -> nat {
    values.filter(|v: u64| v > 0 && level(v, ranked(values)) <= darkest).len()
}

/// The shades split the values that are not 0 into quarters. At least so many quarters of them are
/// in the first quarters; where no two are equal, little more are.
pub proof fn lemma_quarters(values: Seq<u64>, quarters: int)
    requires
        0 <= quarters <= 4,
    ensures
        4 * shaded_up_to(values, quarters) >= quarters * values.filter(|v: u64| v > 0).len(),
        shaded_up_to(values, 0) == 0,
        shaded_up_to(values, 4) == values.filter(|v: u64| v > 0).len(),
        (forall|i: int, j: int|
            0 <= i < j < values.len() && values[i] > 0 ==> #[trigger] values[i]
                != #[trigger] values[j]) ==> 4 * shaded_up_to(values, quarters) <= quarters
            * values.filter(|v: u64| v > 0).len() + 5,
{
    let kept = |v: u64| v > 0;
    let ranks = ranked(values);
    let n = ranks.len() as int;
    lemma_ranked(values);
    lemma_shaded(values, 0, |v: u64| false);
    lemma_shaded(values, 4, |v: u64| true);
    lemma_chosen_before(ranks, 0, |v: u64| false);
    lemma_chosen_before(ranks, n, |v: u64| true);
    ranks.lemma_filter_len(|v: u64| true);
    assert(n == 0 ==> quarters * n == 0) by (nonlinear_arith);
    assert(quarters == 0 ==> quarters * n == 0) by (nonlinear_arith);
    assert(quarters == 4 ==> quarters * n == 4 * n) by (nonlinear_arith);
    if 1 <= quarters <= 3 {
        let t = threshold(ranks, quarters);
        let reached = |v: u64| v <= t;
        if n > 0 {
            let at = ((n - 1) * quarters + 2) / 4;
            assert(0 <= at < n && 4 * at <= (n - 1) * quarters + 2 < 4 * at + 4) by (nonlinear_arith)
                requires
                    at == ((n - 1) * quarters + 2) / 4,
                    0 < n,
                    1 <= quarters <= 3,
            ;
            lemma_thresholds_in_order(ranks);
            lemma_shaded(values, quarters, reached);
            assert forall|i: int| 0 <= i < at + 1 implies reached(#[trigger] ranks[i]) by {
                assert(ranks[i] <= ranks[at]);
            }
            lemma_chosen_before(ranks, at + 1, reached);
            assert((n - 1) * quarters == n * quarters - quarters) by (nonlinear_arith);
            assert(n * quarters == quarters * n) by (nonlinear_arith);
            if forall|i: int, j: int|
                0 <= i < j < values.len() && values[i] > 0 ==> #[trigger] values[i]
                    != #[trigger] values[j] {
                lemma_ranks_distinct(values);
                assert forall|i: int| at + 1 <= i < n implies !reached(#[trigger] ranks[i]) by {
                    assert(ranks[at] <= ranks[i] && ranks[at] != ranks[i]);
                }
            }
        } else {
            values.filter(kept).lemma_filter_len(|v: u64| level(v, ranks) <= quarters);
            lemma_chosen_twice(
                values,
                kept,
                |v: u64| level(v, ranks) <= quarters,
                |v: u64| v > 0 && level(v, ranks) <= quarters,
            );
        }
    }
}

proof fn lemma_thresholds_in_order(ranks: Seq<u64>)
    requires
        ranks.len() > 0,
        forall|i: int, j: int|
            0 <= i <= j < ranks.len() ==> #[trigger] ranks[i] <= #[trigger] ranks[j],
    ensures
        threshold(ranks, 1) <= threshold(ranks, 2) <= threshold(ranks, 3),
{
    let last = ranks.len() - 1;
    assert(0 <= (last * 1 + 2) / 4 <= (last * 2 + 2) / 4 <= (last * 3 + 2) / 4 <= last);
    assert(ranks[(last * 1 + 2) / 4] <= ranks[(last * 2 + 2) / 4]);
    assert(ranks[(last * 2 + 2) / 4] <= ranks[(last * 3 + 2) / 4]);
}

/// The values of a row that are shaded no darker than a level are as many as the ranked ones.
proof fn lemma_shaded(values: Seq<u64>, darkest: int, reached: spec_fn(u64) -> bool)
    requires
        forall|v: u64|
            v > 0 ==> (#[trigger] reached(v) <==> level(v, ranked(values)) <= darkest),
    ensures
        shaded_up_to(values, darkest) == ranked(values).filter(reached).len(),
{
    let kept = |v: u64| v > 0;
    let ranks = ranked(values);
    let both = |v: u64| v > 0 && level(v, ranks) <= darkest;
    lemma_ranked(values);
    lemma_chosen_in_any_order(ranks, values.filter(kept), reached);
    assert forall|v: u64| #[trigger] both(v) <==> kept(v) && reached(v) by {
        let r = reached(v);
    }
    lemma_chosen_twice(values, kept, reached, both);
}

/// Where no two values that are not 0 are equal, no two ranked ones are.
proof fn lemma_ranks_distinct(values: Seq<u64>)
    requires
        forall|i: int, j: int|
            0 <= i < j < values.len() && values[i] > 0 ==> #[trigger] values[i]
                != #[trigger] values[j],
    ensures
        forall|i: int, j: int|
            0 <= i < j < ranked(values).len() ==> #[trigger] ranked(values)[i]
                != #[trigger] ranked(values)[j],
{
    let kept = values.filter(|v: u64| v > 0);
    let ranks = ranked(values);
    lemma_ranked(values);
    lemma_filter_distinct(values);
    kept.lemma_multiset_has_no_duplicates();
    assert forall|x: u64| ranks.to_multiset().contains(x) implies ranks.to_multiset().count(x)
        == 1 by {
        assert(kept.to_multiset().contains(x));
    }
    ranks.lemma_multiset_has_no_duplicates_conv();
}

proof fn lemma_filter_distinct(values: Seq<u64>)
    requires
        forall|i: int, j: int|
            0 <= i < j < values.len() && values[i] > 0 ==> #[trigger] values[i]
                != #[trigger] values[j],
    ensures
        values.filter(|v: u64| v > 0).no_duplicates(),
    decreases values.len(),
{
    let kept = |v: u64| v > 0;
    reveal(Seq::filter);
    if values.len() > 0 {
        let rest = values.drop_last();
        assert forall|i: int, j: int| 0 <= i < j < rest.len() && rest[i] > 0 implies #[trigger] rest[i]
            != #[trigger] rest[j] by {
            assert(values[i] != values[j]);
        }
        lemma_filter_distinct(rest);
        let v = values.last();
        if v > 0 {
            assert forall|i: int| 0 <= i < rest.filter(kept).len() implies #[trigger] rest.filter(
                kept,
            )[i] != v by {
                let x = rest.filter(kept)[i];
                rest.lemma_filter_pred(kept, i);
                assert(rest.filter(kept).contains(x));
                rest.lemma_filter_contains_rev(kept, x);
                let j = choose|j: int| 0 <= j < rest.len() && rest[j] == x;
                assert(values[j] != values[values.len() - 1]);
            }
        }
    }
}

/// Of values that are not 0, no two of which are equal, each shade is given to a quarter, within
/// two of them.
pub proof fn lemma_even_shades(values: Seq<u64>, shade: int)
    requires
        1 <= shade <= 4,
        forall|i: int, j: int|
            0 <= i < j < values.len() && values[i] > 0 ==> #[trigger] values[i]
                != #[trigger] values[j],
    ensures
        ({
            let active = values.filter(|v: u64| v > 0).len();
            let given = values.filter(|v: u64| v > 0 && level(v, ranked(values)) == shade).len();
            active - 8 < 4 * given < active + 8
        }),
{
    let ranks = ranked(values);
    let active = values.filter(|v: u64| v > 0).len();
    let given = |v: u64| v > 0 && level(v, ranks) == shade;
    let lighter = |v: u64| v > 0 && level(v, ranks) <= shade - 1;
    let up_to = |v: u64| v > 0 && level(v, ranks) <= shade;
    lemma_quarters(values, shade);
    lemma_quarters(values, shade - 1);
    lemma_chosen_apart(values, lighter, given, up_to);
    assert((shade - 1) * active == shade * active - active) by (nonlinear_arith);
}

proof fn lemma_chosen_apart(
    values: Seq<u64>,
    first: spec_fn(u64) -> bool,
    second: spec_fn(u64) -> bool,
    either: spec_fn(u64) -> bool,
)
    requires
        forall|v: u64| #[trigger] either(v) <==> first(v) || second(v),
        forall|v: u64| !(#[trigger] first(v) && second(v)),
    ensures
        values.filter(either).len() == values.filter(first).len() + values.filter(second).len(),
    decreases values.len(),
{
    reveal(Seq::filter);
    if values.len() > 0 {
        lemma_chosen_apart(values.drop_last(), first, second, either);
        let v = values.last();
        assert(either(v) <==> first(v) || second(v));
        assert(!(first(v) && second(v)));
    }
}

} // verus!

//! The order of numbers and what is taken from it, said of encodings.

use crate::order_statistics::{ranked_features, RankedFeature};
use crate::point_ids::{completed_ids, is_next_free, lemma_completed_ids, next_free};
use crate::scalar::Real32;
use crate::sorting::{is_sorting_of, lemma_sorting_contains, Ranked};
use crate::text::{decimal, trimmed, trimmed_end, trimmed_start, white_space};
use vstd::prelude::*;

verus! {

/// Numbers of positive sign are ordered as their encodings are, those of negative
/// sign the other way round, and these stand below. Both zeros are the same number.
/// What is not a number is neither below nor above.
pub proof fn law_order_of_numbers(a: Real32, b: Real32)
    ensures
        a.bits <= 0x7f80_0000 && b.bits <= 0x7f80_0000 ==> (a.below(b) <==> a.bits < b.bits),
        0x8000_0000 <= a.bits <= 0xff80_0000 && 0x8000_0000 <= b.bits <= 0xff80_0000 ==> (
        a.below(b) <==> a.bits > b.bits),
        0x8000_0000 < a.bits <= 0xff80_0000 && b.bits <= 0x7f80_0000 ==> a.below(b),
        a.bits <= 0x7f80_0000 && 0x8000_0000 <= b.bits ==> !a.below(b),
        a.bits == 0x8000_0000 && b.bits == 0 ==> !a.below(b) && a.at_most(b) && b.at_most(a),
        0x7f80_0000 < a.bits < 0x8000_0000 || 0xff80_0000 < a.bits ==> !a.below(b) && !b.below(a)
            && !a.at_most(b) && !b.at_most(a),
        !a.nan() && !b.nan() ==> (a.at_most(b) <==> !b.below(a)),
        a.nan() <==> 0x7f80_0000 < a.bits < 0x8000_0000 || 0xff80_0000 < a.bits,
        a.finite() <==> a.bits < 0x7f80_0000 || 0x8000_0000 <= a.bits < 0xff80_0000,
{
}

/// In ascending order no number stands behind one that is above it. So no number
/// ahead of a position is above the one there, and none behind it is below.
pub proof fn law_positions_in_order(
    sorted: Seq<Real32>,
    values: Seq<Real32>,
    position: int,
    i: int,
)
    requires
        is_sorting_of(sorted, values),
        forall|j: int| 0 <= j < values.len() ==> !(#[trigger] values[j]).nan(),
        0 <= position < sorted.len(),
        0 <= i < sorted.len(),
    ensures
        sorted.len() == values.len(),
        values.contains(sorted[position]),
        i <= position ==> sorted[i].at_most(sorted[position]),
        i >= position ==> sorted[position].at_most(sorted[i]),
{
    lemma_sorting_contains(sorted, values);
    assert(sorted.contains(sorted[position]) && sorted.contains(sorted[i]));
    let x = choose|x: int| 0 <= x < values.len() && values[x] == sorted[position];
    let y = choose|y: int| 0 <= y < values.len() && values[y] == sorted[i];
    assert(!values[x].nan() && !values[y].nan());
    if i < position {
        assert(!sorted[position].before(sorted[i]));
    }
    if position < i {
        assert(!sorted[i].before(sorted[position]));
    }
}

/// Of two features the one of the stronger response stands ahead, and of two of
/// the same response the earlier one.
pub proof fn law_strong_features(
    responses: Seq<Real32>,
    sorted: Seq<RankedFeature>,
    i: int,
    j: int,
)
    requires
        responses.len() <= usize::MAX,
        is_sorting_of(sorted, ranked_features(responses)),
        forall|x: int| 0 <= x < responses.len() ==> !(#[trigger] responses[x]).nan(),
        0 <= i < sorted.len(),
        0 <= j < sorted.len(),
    ensures
        sorted.len() == responses.len(),
        sorted[i].index < responses.len(),
        responses[sorted[j].index as int].below(responses[sorted[i].index as int]) ==> i < j,
        responses[sorted[j].index as int].at_most(responses[sorted[i].index as int])
            && sorted[i].index < sorted[j].index ==> i < j,
{
    let given = ranked_features(responses);
    lemma_sorting_contains(sorted, given);
    assert(sorted.contains(sorted[i]) && sorted.contains(sorted[j]));
    let x = choose|x: int| 0 <= x < given.len() && given[x] == sorted[i];
    let y = choose|y: int| 0 <= y < given.len() && given[y] == sorted[j];
    assert(!responses[x].nan() && !responses[y].nan());
    assert(sorted[i].index == x && sorted[j].index == y);
    if j < i {
        assert(!sorted[i].before(sorted[j]));
    }
}

/// Trimming cuts white space from both ends and nothing else: what is left is a
/// part of the text that neither begins nor ends with white space, and all that
/// stood around it was white space.
pub proof fn law_trimming(text: Seq<char>)
    ensures
        exists|from: int, to: int| #[trigger] is_core(text, from, to) && trimmed(text)
            == text.subrange(from, to),
{
    lemma_start(text);
    let start = trimmed_start(text);
    let from = text.len() - start.len();
    lemma_end(start);
    let to = from + trimmed_end(start).len();
    assert forall|i: int| to <= i < text.len() implies white_space(#[trigger] text[i]) by {
        assert(start[i - from] == text[i]);
    }
    assert(trimmed(text) =~= text.subrange(from, to));
    if from < to {
        assert(trimmed_end(start)[0] == start[0]);
        assert(trimmed_end(start).last() == text[to - 1]);
    }
    assert(is_core(text, from, to));
}

/// Whether a part of a text neither begins nor ends with white space while all
/// around it is white space.
pub open spec fn is_core(text: Seq<char>, from: int, to: int) -> bool {
    &&& 0 <= from <= to <= text.len()
    &&& forall|i: int| 0 <= i < from ==> white_space(#[trigger] text[i])
    &&& forall|i: int| to <= i < text.len() ==> white_space(#[trigger] text[i])
    &&& from < to ==> !white_space(text[from]) && !white_space(text[to - 1])
}

proof fn lemma_start(text: Seq<char>)
    ensures
        ({
            let start = trimmed_start(text);
            let n = text.len() - start.len();
            &&& 0 <= n
            &&& start == text.subrange(n, text.len() as int)
            &&& forall|i: int| 0 <= i < n ==> white_space(#[trigger] text[i])
            &&& start.len() > 0 ==> !white_space(start[0])
        }),
    decreases text.len(),
{
    if text.len() > 0 && white_space(text[0]) {
        let rest = text.drop_first();
        lemma_start(rest);
        let start = trimmed_start(text);
        let n = text.len() - start.len();
        assert(start =~= text.subrange(n, text.len() as int));
        assert forall|i: int| 0 <= i < n implies white_space(#[trigger] text[i]) by {
            if i > 0 {
                assert(rest[i - 1] == text[i]);
            }
        }
    } else {
        assert(text =~= text.subrange(0, text.len() as int));
    }
}

proof fn lemma_end(text: Seq<char>)
    ensures
        ({
            let end = trimmed_end(text);
            let n = end.len() as int;
            &&& n <= text.len()
            &&& end == text.subrange(0, n)
            &&& forall|i: int| n <= i < text.len() ==> white_space(#[trigger] text[i])
            &&& n > 0 ==> !white_space(end[n - 1])
        }),
    decreases text.len(),
{
    if text.len() > 0 && white_space(text.last()) {
        let rest = text.drop_last();
        lemma_end(rest);
        let end = trimmed_end(text);
        let n = end.len() as int;
        assert(end =~= text.subrange(0, n));
        assert forall|i: int| n <= i < text.len() implies white_space(#[trigger] text[i]) by {
            if i < text.len() - 1 {
                assert(rest[i] == text[i]);
            }
        }
    } else {
        assert(text =~= text.subrange(0, text.len() as int));
    }
}

/// The number that decimal digits stand for.
pub open spec fn decimal_value(digits: Seq<char>) -> int
    decreases digits.len(),
{
    if digits.len() == 0 {
        0
    } else {
        10 * decimal_value(digits.drop_last()) + (digits.last() as int - 48)
    }
}

/// The decimal digits of a number stand for the number.
pub proof fn law_decimal_digits(n: nat)
    ensures
        decimal_value(decimal(n)) == n,
        decimal(n).len() > 0,
    decreases n,
{
    if n < 10 {
        assert(decimal(n).drop_last() =~= Seq::empty());
        assert(decimal_value(Seq::empty()) == 0);
    } else {
        law_decimal_digits(n / 10);
        assert(decimal(n).drop_last() =~= decimal(n / 10));
    }
}

/// A new identifier is the least one above the number of points that is free.
pub proof fn law_free_identifiers(ids: Seq<u64>, id: u64, other: u64)
    requires
        is_next_free(ids, id),
    ensures
        id > ids.len(),
        !ids.contains(id),
        ids.len() < other && !ids.contains(other) ==> id <= other,
{
}

/// Completing a table keeps its identifiers and adds the next free one as long as
/// entries are missing.
pub proof fn law_completed_tables(ids: Seq<u64>, n: nat, k: int)
    requires
        n <= 0x7fff_ffff_ffff_ffff,
        ids.len() < n,
        0 <= k < ids.len(),
    ensures
        completed_ids(ids, n).len() == n,
        completed_ids(ids, n)[k] == ids[k],
        completed_ids(ids, n)[ids.len() as int] == next_free(ids),
{
    lemma_completed_ids(ids, n);
    let more = ids.push(next_free(ids));
    lemma_completed_ids(more, n);
    assert(completed_ids(more, n)[ids.len() as int] == more[ids.len() as int]);
}

} // verus!

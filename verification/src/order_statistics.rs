//! Values picked from a list by their rank.

use crate::scalar::Real32;
use crate::sorting::{is_sorting_of, lemma_sorting_contains, sort, Ranked};
use vstd::prelude::*;

verus! {

impl Ranked for Real32 {
    /// Ascending by value.
    open spec fn before(self, other: Real32) -> bool {
        self.position() < other.position()
    }

    proof fn asymmetric(a: Real32, b: Real32) {
    }

    proof fn negatively_transitive(a: Real32, b: Real32, c: Real32) {
    }

    fn precedes(&self, other: &Real32) -> (b: bool) {
        self.signed_position() < other.signed_position()
    }
}

/// The middle of some numbers, the upper one of two; zero if there are none.
pub fn median_f32(values: Vec<Real32>) -> (median: Real32)
    requires
        forall|i: int| 0 <= i < values@.len() ==> !(#[trigger] values@[i]).nan(),
    ensures
        values@.len() == 0 ==> median.bits == 0,
        values@.len() > 0 ==> exists|sorted: Seq<Real32>|
            is_sorting_of(sorted, values@) && #[trigger] sorted[values@.len() as int / 2] == median,
{
    if values.len() == 0 {
        return Real32 { bits: 0 };
    }
    let ghost given = values@;
    let mut sorted: Vec<Real32> = values;
    sort(&mut sorted);
    proof {
        lemma_sorting_contains(sorted@, given);
    }
    let middle: usize = sorted.len() / 2;
    let median: Real32 = sorted[middle];
    assert(sorted@[given.len() as int / 2] == median);
    median
}

/// The value at a position once the numbers are in ascending order.
pub fn percentile_f32(values: Vec<Real32>, position: usize) -> (value: Option<Real32>)
    requires
        forall|i: int| 0 <= i < values@.len() ==> !(#[trigger] values@[i]).nan(),
    ensures
        value is Some <==> position < values@.len(),
        value matches Some(v) ==> exists|sorted: Seq<Real32>|
            is_sorting_of(sorted, values@) && #[trigger] sorted[position as int] == v,
{
    let ghost given = values@;
    let mut sorted: Vec<Real32> = values;
    sort(&mut sorted);
    proof {
        lemma_sorting_contains(sorted@, given);
    }
    if position < sorted.len() {
        let value: Real32 = sorted[position];
        assert(sorted@[position as int] == value);
        Some(value)
    } else {
        None
    }
}

/// A feature with its strength.
#[derive(Debug, Clone, Copy, PartialEq, Eq, Structural)]
pub struct RankedFeature {
    pub strength: i64,
    pub index: usize,
}

impl Ranked for RankedFeature {
    /// Stronger features first, then lower indices.
    open spec fn before(self, other: RankedFeature) -> bool {
        if self.strength != other.strength {
            self.strength > other.strength
        } else {
            self.index < other.index
        }
    }

    proof fn asymmetric(a: RankedFeature, b: RankedFeature) {
    }

    proof fn negatively_transitive(a: RankedFeature, b: RankedFeature, c: RankedFeature) {
    }

    fn precedes(&self, other: &RankedFeature) -> (b: bool) {
        if self.strength != other.strength {
            self.strength > other.strength
        } else {
            self.index < other.index
        }
    }
}

/// All features with their strengths.
pub open spec fn ranked_features(responses: Seq<Real32>) -> Seq<RankedFeature> {
    Seq::new(
        responses.len(),
        |i: int| RankedFeature { strength: responses[i].position() as i64, index: i as usize },
    )
}

/// The strongest features, strongest first; earlier ones first among equals.
pub fn strong_feature_indices(responses: &[Real32], limit: usize) -> (indices: Vec<usize>)
    requires
        forall|i: int| 0 <= i < responses@.len() ==> !(#[trigger] responses@[i]).nan(),
    ensures
        indices@.len() == (if limit <= responses@.len() {
            limit as nat
        } else {
            responses@.len()
        }),
        exists|sorted: Seq<RankedFeature>| #[trigger]
            is_sorting_of(sorted, ranked_features(responses@)) && indices@ == Seq::new(
                indices@.len(),
                |i: int| sorted[i].index,
            ),
{
    let mut sorted: Vec<RankedFeature> = Vec::new();
    for i in 0..responses.len()
        invariant
            sorted@ == ranked_features(responses@).take(i as int),
    {
        sorted.push(RankedFeature { strength: responses[i].signed_position(), index: i });
        assert(sorted@ =~= ranked_features(responses@).take(i + 1));
    }
    let ghost given = sorted@;
    assert(given =~= ranked_features(responses@));
    sort(&mut sorted);
    proof {
        lemma_sorting_contains(sorted@, given);
    }
    let n: usize = if limit <= sorted.len() {
        limit
    } else {
        sorted.len()
    };
    let mut indices: Vec<usize> = Vec::new();
    for i in 0..n
        invariant
            n <= sorted@.len(),
            indices@ == Seq::new(i as nat, |j: int| sorted@[j].index),
    {
        indices.push(sorted[i].index);
        assert(indices@ =~= Seq::new((i + 1) as nat, |j: int| sorted@[j].index));
    }
    indices
}

} // verus!

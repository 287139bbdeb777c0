//! Statistics of image pairs, found by the pair of image indices.

use std::collections::HashMap;
use vstd::prelude::*;

verus! {

/// Counts of an image pair.
#[derive(Debug, Clone, Copy, PartialEq, Eq, Structural)]
pub struct ImagePairStat {
    pub num_tri_corrs: usize,
    pub num_total_corrs: usize,
}

impl Default for ImagePairStat {
    fn default() -> (stat: ImagePairStat)
        ensures
            stat == (ImagePairStat { num_tri_corrs: 0, num_total_corrs: 0 }),
    {
        ImagePairStat { num_tri_corrs: 0, num_total_corrs: 0 }
    }
}

/// The key under which a pair of indices is stored.
pub open spec fn pair_key(pair: (usize, usize)) -> u128 {
    (pair.0 * 0x1_0000_0000_0000_0000 + pair.1) as u128
}

/// Distinct pairs have distinct keys.
pub proof fn lemma_pair_key_injective(a: (usize, usize), b: (usize, usize))
    requires
        pair_key(a) == pair_key(b),
    ensures
        a == b,
{
    assert(a.0 * 0x1_0000_0000_0000_0000 + a.1 <= u128::MAX);
    assert(b.0 * 0x1_0000_0000_0000_0000 + b.1 <= u128::MAX);
}

fn make_pair_key(pair: &(usize, usize)) -> (key: u128)
    ensures
        key == pair_key(*pair),
{
    pair.0 as u128 * 0x1_0000_0000_0000_0000u128 + pair.1 as u128
}

/// A map from pairs of indices to pair statistics.
#[derive(Debug)]
pub struct PairStats {
    stats: HashMap<u128, ImagePairStat>,
}

impl View for PairStats {
    type V = Map<(usize, usize), ImagePairStat>;

    closed spec fn view(&self) -> Map<(usize, usize), ImagePairStat> {
        Map::new(
            |pair: (usize, usize)| self.stats@.contains_key(pair_key(pair)),
            |pair: (usize, usize)| self.stats@[pair_key(pair)],
        )
    }
}

impl Default for PairStats {
    fn default() -> (stats: PairStats)
        ensures
            stats@ == Map::<(usize, usize), ImagePairStat>::empty(),
    {
        PairStats::new()
    }
}

impl Clone for PairStats {
    fn clone(&self) -> (stats: PairStats)
        ensures
            stats@ == self@,
    {
        PairStats { stats: self.stats.clone() }
    }
}

impl PairStats {
    pub fn new() -> (stats: PairStats)
        ensures
            stats@ == Map::<(usize, usize), ImagePairStat>::empty(),
    {
        broadcast use vstd::std_specs::hash::group_hash_axioms;

        let stats = PairStats { stats: HashMap::new() };
        assert(stats@ =~= Map::<(usize, usize), ImagePairStat>::empty());
        stats
    }

    pub fn insert(&mut self, pair: (usize, usize), stat: ImagePairStat)
        ensures
            final(self)@ == old(self)@.insert(pair, stat),
    {
        broadcast use vstd::std_specs::hash::group_hash_axioms;

        let key: u128 = make_pair_key(&pair);
        self.stats.insert(key, stat);
        proof {
            assert forall|other: (usize, usize)| pair_key(other) == key implies other == pair by {
                lemma_pair_key_injective(other, pair);
            }
            assert(self@ =~= old(self)@.insert(pair, stat));
        }
    }

    pub fn get(&self, pair: &(usize, usize)) -> (stat: Option<&ImagePairStat>)
        ensures
            match stat {
                Some(stat) => self@.contains_key(*pair) && self@[*pair] == *stat,
                None => !self@.contains_key(*pair),
            },
    {
        broadcast use vstd::std_specs::hash::group_hash_axioms;

        let key: u128 = make_pair_key(pair);
        self.stats.get(&key)
    }
}

} // verus!

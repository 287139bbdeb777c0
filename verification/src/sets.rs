//! Copies of sets of indices and identifiers.

use std::collections::HashSet;
use std::hash::Hash;
use vstd::prelude::*;
use vstd::std_specs::hash::obeys_key_model;

verus! {

/// A set with the same members.
pub(crate) fn copy_set<K: Copy + Eq + Hash>(set: &HashSet<K>) -> (out: HashSet<K>)
    requires
        obeys_key_model::<K>(),
    ensures
        out@ == set@,
{
    broadcast use vstd::std_specs::hash::group_hash_axioms;

    let mut out: HashSet<K> = HashSet::new();
    for member in iter: set.iter()
        invariant
            obeys_key_model::<K>(),
            iter.seq().unref().to_set() == set@,
            forall|j: int| 0 <= j < iter.index() ==> out@.contains(*(#[trigger] iter.seq()[j])),
            out@.subset_of(set@),
    {
        proof {
            assert(iter.seq().unref()[iter.index() as int] == *member);
            assert(iter.seq().unref().contains(*member));
        }
        out.insert(*member);
    }
    assert(out@ =~= set@);
    out
}

} // verus!

//! Stable identifiers of points.
//!
//! Points are addressed by position, and each has an identifier that survives
//! the removal of other points. The identifiers of a table are kept distinct.

use crate::types::Reconstruction;
use std::collections::HashSet;
use vstd::prelude::*;

verus! {

/// `id` is the least number above the table's length that the table lacks.
pub open spec fn is_next_free(ids: Seq<u64>, id: u64) -> bool {
    &&& id > ids.len()
    &&& !ids.contains(id)
    &&& forall|other: u64| ids.len() < other < id ==> #[trigger] ids.contains(other)
}

pub open spec fn next_free(ids: Seq<u64>) -> u64 {
    choose|id: u64| is_next_free(ids, id)
}

/// The table extended to `n` entries, each new one the next free number.
pub open spec fn completed_ids(ids: Seq<u64>, n: nat) -> Seq<u64>
    decreases n - ids.len(),
{
    if ids.len() >= n {
        ids
    } else {
        completed_ids(ids.push(next_free(ids)), n)
    }
}

/// The largest identifier of a table, 0 for an empty one.
pub open spec fn max_id(ids: Seq<u64>) -> u64
    decreases ids.len(),
{
    if ids.len() == 0 {
        0
    } else {
        let rest = max_id(ids.drop_last());
        if ids.last() > rest {
            ids.last()
        } else {
            rest
        }
    }
}

/// Whether new identifiers can be found for a table of `n` points: a machine
/// limit on the number of points and on the identifiers in use.
pub open spec fn ids_fit(ids: Seq<u64>, n: nat) -> bool {
    &&& n <= 0x7fff_ffff_ffff_ffff
    &&& forall|k: int| 0 <= k < ids.len() ==> ids[k] < u64::MAX
}

pub proof fn lemma_max_id(ids: Seq<u64>)
    ensures
        forall|k: int| 0 <= k < ids.len() ==> ids[k] <= max_id(ids),
        ids.len() > 0 ==> ids.contains(max_id(ids)),
        ids.len() == 0 ==> max_id(ids) == 0,
    decreases ids.len(),
{
    if ids.len() > 0 {
        let rest = ids.drop_last();
        lemma_max_id(rest);
        assert forall|k: int| 0 <= k < ids.len() implies ids[k] <= max_id(ids) by {
            if k < rest.len() {
                assert(ids[k] == rest[k]);
            }
        }
        if ids.last() > max_id(rest) {
            assert(ids[ids.len() - 1] == max_id(ids));
        } else if rest.len() > 0 {
            let k = choose|k: int| 0 <= k < rest.len() && rest[k] == max_id(rest);
            assert(ids[k] == max_id(ids));
        } else {
            assert(ids[0] == max_id(ids));
        }
    }
}

/// A run of distinct numbers that all occur in a table is no longer than the table.
proof fn lemma_run_length(ids: Seq<u64>, low: int, high: int)
    requires
        0 <= low <= high <= u64::MAX,
        forall|other: u64| low <= other < high ==> #[trigger] ids.contains(other),
    ensures
        high - low <= ids.len(),
    decreases high - low,
{
    let run = Seq::new((high - low) as nat, |k: int| (low + k) as u64);
    assert(run.no_duplicates());
    run.unique_seq_to_set();
    ids.lemma_cardinality_of_set();
    vstd::seq_lib::seq_to_set_is_finite(ids);
    assert(run.to_set().subset_of(ids.to_set())) by {
        assert forall|x: u64| run.to_set().contains(x) implies ids.to_set().contains(x) by {
            let k = choose|k: int| 0 <= k < run.len() && run[k] == x;
            assert(low <= x < high);
            assert(ids.contains(x));
        }
    }
    vstd::set_lib::lemma_len_subset(run.to_set(), ids.to_set());
}

proof fn lemma_next_free_unique(ids: Seq<u64>, id: u64)
    requires
        is_next_free(ids, id),
    ensures
        next_free(ids) == id,
{
    let chosen = next_free(ids);
    assert(is_next_free(ids, chosen));
    if chosen < id {
        assert(ids.contains(chosen));
    } else if id < chosen {
        assert(ids.contains(id));
    }
}

fn used_ids(ids: &Vec<u64>) -> (used: HashSet<u64>)
    ensures
        used@ == ids@.to_set(),
{
    broadcast use vstd::std_specs::hash::group_hash_axioms;

    let mut used: HashSet<u64> = HashSet::new();
    assert(used@ =~= ids@.take(0).to_set());
    for k in 0..ids.len()
        invariant
            used@ == ids@.take(k as int).to_set(),
    {
        proof {
            lemma_to_set_push(ids@.take(k as int), ids@[k as int]);
            assert(ids@.take(k + 1) =~= ids@.take(k as int).push(ids@[k as int]));
        }
        used.insert(ids[k]);
    }
    assert(ids@.take(ids@.len() as int) =~= ids@);
    used
}

proof fn lemma_to_set_push(ids: Seq<u64>, id: u64)
    ensures
        ids.push(id).to_set() == ids.to_set().insert(id),
{
    let after = ids.push(id);
    assert forall|x: u64| after.to_set().contains(x) <==> ids.to_set().insert(id).contains(x) by {
        if ids.contains(x) {
            let j = choose|j: int| 0 <= j < ids.len() && ids[j] == x;
            assert(after[j] == x);
        }
        assert(after[ids.len() as int] == id);
        if after.contains(x) && x != id {
            let j = choose|j: int| 0 <= j < after.len() && after[j] == x;
            assert(ids[j] == x);
        }
    }
    assert(after.to_set() =~= ids.to_set().insert(id));
}

/// Gives an identifier to every point that has none.
pub fn ensure_point_id_table(reconstruction: &mut Reconstruction)
    requires
        old(reconstruction)@.points.len() <= 0x7fff_ffff_ffff_ffff,
    ensures
        final(reconstruction)@ == (crate::types::ReconstructionView {
            point_ids: completed_ids(
                old(reconstruction)@.point_ids,
                old(reconstruction)@.points.len(),
            ),
            ..old(reconstruction)@
        }),
{
    broadcast use vstd::std_specs::hash::group_hash_axioms;

    let mut used: HashSet<u64> = used_ids(&reconstruction.point_ids);
    let total: usize = reconstruction.points.len();
    while reconstruction.point_ids.len() < total
        invariant
            total == old(reconstruction)@.points.len(),
            total <= 0x7fff_ffff_ffff_ffff,
            used@ == reconstruction.point_ids@.to_set(),
            completed_ids(reconstruction.point_ids@, total as nat) == completed_ids(
                old(reconstruction).point_ids@,
                total as nat,
            ),
            reconstruction@ == (crate::types::ReconstructionView {
                point_ids: reconstruction.point_ids@,
                ..old(reconstruction)@
            }),
        decreases total - reconstruction.point_ids.len(),
    {
        let ghost ids = reconstruction.point_ids@;
        let mut point3d_id: u64 = reconstruction.point_ids.len() as u64 + 1;
        while used.contains(&point3d_id)
            invariant
                ids.len() < total,
                total <= 0x7fff_ffff_ffff_ffff,
                used@ == ids.to_set(),
                ids.len() < point3d_id <= 2 * ids.len() + 1,
                forall|other: u64| ids.len() < other < point3d_id ==> #[trigger] ids.contains(
                    other,
                ),
            decreases 2 * ids.len() + 2 - point3d_id,
        {
            proof {
                assert(ids.contains(point3d_id));
                assert(forall|other: u64|
                    ids.len() + 1 <= other < point3d_id + 1 ==> #[trigger] ids.contains(other));
                lemma_run_length(ids, ids.len() as int + 1, point3d_id + 1);
            }
            point3d_id = point3d_id + 1;
        }
        proof {
            lemma_next_free_unique(ids, point3d_id);
        }
        reconstruction.point_ids.push(point3d_id);
        used.insert(point3d_id);
        proof {
            lemma_to_set_push(ids, point3d_id);
        }
    }
}

/// The completed table extends the old one, stays free of repetitions, and its
/// new identifiers are small.
pub proof fn lemma_completed_ids(ids: Seq<u64>, n: nat)
    requires
        n <= 0x7fff_ffff_ffff_ffff,
    ensures
        completed_ids(ids, n).len() == (if ids.len() >= n {
            ids.len()
        } else {
            n
        }),
        forall|k: int| 0 <= k < ids.len() ==> #[trigger] completed_ids(ids, n)[k] == ids[k],
        ids.no_duplicates() ==> completed_ids(ids, n).no_duplicates(),
        ids_fit(ids, n) ==> ids_fit(completed_ids(ids, n), n),
    decreases n - ids.len(),
{
    if ids.len() < n {
        lemma_next_free_exists(ids);
        let id = next_free(ids);
        let longer = ids.push(id);
        lemma_completed_ids(longer, n);
        assert forall|k: int| 0 <= k < ids.len() implies #[trigger] completed_ids(ids, n)[k]
            == ids[k] by {
            assert(longer[k] == ids[k]);
        }
    }
}

proof fn lemma_next_free_exists(ids: Seq<u64>)
    requires
        ids.len() < 0x7fff_ffff_ffff_ffff,
    ensures
        is_next_free(ids, next_free(ids)),
        next_free(ids) <= 2 * ids.len() + 1,
{
    lemma_find_free(ids, (ids.len() + 1) as u64);
}

proof fn lemma_find_free(ids: Seq<u64>, start: u64)
    requires
        ids.len() < 0x7fff_ffff_ffff_ffff,
        ids.len() < start <= 2 * ids.len() + 1,
        forall|other: u64| ids.len() < other < start ==> #[trigger] ids.contains(other),
    ensures
        is_next_free(ids, next_free(ids)),
        next_free(ids) <= 2 * ids.len() + 1,
    decreases 2 * ids.len() + 2 - start,
{
    if ids.contains(start) {
        assert(forall|other: u64|
            ids.len() + 1 <= other < start + 1 ==> #[trigger] ids.contains(other));
        lemma_run_length(ids, ids.len() as int + 1, start + 1);
        lemma_find_free(ids, (start + 1) as u64);
    } else {
        assert(is_next_free(ids, start));
        lemma_next_free_unique(ids, start);
    }
}

/// The identifier for a new point: one above the largest in use.
pub fn next_point3d_id(reconstruction: &Reconstruction) -> (id: u64)
    requires
        forall|k: int|
            0 <= k < reconstruction@.point_ids.len() ==> #[trigger] reconstruction@.point_ids[k]
                < u64::MAX,
    ensures
        id == max_id(reconstruction@.point_ids) + 1,
        !reconstruction@.point_ids.contains(id),
{
    let mut largest: u64 = 0;
    for k in 0..reconstruction.point_ids.len()
        invariant
            largest == max_id(reconstruction.point_ids@.take(k as int)),
    {
        proof {
            let after = reconstruction.point_ids@.take(k + 1);
            assert(after.drop_last() =~= reconstruction.point_ids@.take(k as int));
        }
        if reconstruction.point_ids[k] > largest {
            largest = reconstruction.point_ids[k];
        }
    }
    proof {
        assert(reconstruction.point_ids@.take(reconstruction.point_ids@.len() as int)
            =~= reconstruction.point_ids@);
        lemma_max_id(reconstruction.point_ids@);
        if reconstruction.point_ids@.len() > 0 {
            let k = choose|k: int|
                0 <= k < reconstruction.point_ids@.len() && reconstruction.point_ids@[k] == largest;
            assert(reconstruction@.point_ids[k] < u64::MAX);
        }
    }
    largest + 1
}

} // verus!

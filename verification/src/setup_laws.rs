//! Setups, databases and runs, said of names, identifiers and choices.

use crate::camera_setup::{
    first_unsupported, image_assignment, known_names, last_index, model_frame, DatabaseCamera,
    KnownImage, ReferenceCameraSetup,
};
use crate::database_keypoints::{database_features, list_names, took_over, NamedKeypoints};
use crate::database_records::{
    camera_record, feature_matches, geometry_record, geometry_records_upto, image_record,
    match_record, pair_rows, GeometryRecord,
};
use crate::pair_graph::{image_id_of_name, NamedImage};
use crate::pair_laws::law_last_position;
use crate::reconstruction_run::{
    database_choice, first_existing, rests_on_poses, DatabaseChoice, RunError,
};
use crate::types::{ImageFrame, Match, PairGeometry, Pose, ReconstructionView};
use vstd::prelude::*;

verus! {

/// An image takes identifier, camera and frame from the last known image of its
/// name. An unknown one gets the next number, the first camera and no frame; an
/// unknown camera counts as the first.
pub proof fn law_image_assignment(
    images: Seq<KnownImage>,
    camera_ids: Seq<u32>,
    name: Seq<char>,
    position: int,
    k: int,
)
    requires
        images.len() <= usize::MAX,
        camera_ids.len() <= usize::MAX,
        0 <= position < u32::MAX,
    ensures
        ({
            let (id, camera, frame) = image_assignment(images, camera_ids, name, position);
            &&& (forall|j: int| 0 <= j < images.len() ==> (#[trigger] images[j]).name@ != name)
                ==> id == position + 1 && camera == 0 && frame is None
            &&& 0 <= k < images.len() && images[k].name@ == name && (forall|j: int|
                k < j < images.len() ==> (#[trigger] images[j]).name@ != name) ==> {
                &&& id == images[k].image_id
                &&& frame == images[k].frame_index
                &&& camera_ids.contains(images[k].camera_id) ==> camera < camera_ids.len()
                    && camera_ids[camera as int] == images[k].camera_id
                &&& !camera_ids.contains(images[k].camera_id) ==> camera == 0
            }
        }),
{
    let names = known_names(images);
    law_last_position(names, name);
    if names.contains(name) {
        let i = last_index(names, name)->0 as int;
        assert(images[i].name@ == name);
        law_last_position(camera_ids, images[i].camera_id);
        if 0 <= k < images.len() && images[k].name@ == name && (forall|j: int|
            k < j < images.len() ==> (#[trigger] images[j]).name@ != name) {
            assert(names[k] == name);
            if k < i {
                assert(images[i].name@ != name);
            }
        }
    } else if 0 <= k < images.len() && images[k].name@ == name {
        assert(names[k] == name);
        assert(names.contains(names[k]));
    }
}

/// The frame of an image of a model is that of the last entry of its identifier
/// that both tables have.
pub proof fn law_model_frames(model: ReconstructionView, id: u32, k: int)
    requires
        0 <= k < model.image_ids.len(),
        k < model.image_frame_indices.len(),
        model.image_ids.len() <= usize::MAX,
        model.image_ids[k] == id,
        forall|j: int|
            k < j < model.image_ids.len() && j < model.image_frame_indices.len()
                ==> #[trigger] model.image_ids[j] != id,
    ensures
        model_frame(model, id) == model.image_frame_indices[k],
{
    let n = if model.image_ids.len() <= model.image_frame_indices.len() {
        model.image_ids.len() as int
    } else {
        model.image_frame_indices.len() as int
    };
    let ids = model.image_ids.take(n);
    law_last_position(ids, id);
    assert(ids[k] == id);
    assert(ids.contains(ids[k]));
    let i = last_index(ids, id)->0 as int;
    if k < i {
        assert(model.image_ids[i] != id);
    }
}

/// The camera that is named as unsupported is the first without a model; none is
/// named if all have one.
pub proof fn law_unsupported_cameras(cameras: Seq<DatabaseCamera>, from: int)
    requires
        0 <= from,
    ensures
        first_unsupported(cameras, from) is None <==> forall|j: int|
            from <= j < cameras.len() ==> (#[trigger] cameras[j]).camera is Some,
        forall|i: int|
            from <= i < cameras.len() && (#[trigger] cameras[i]).camera is None && (forall|j: int|
                from <= j < i ==> (#[trigger] cameras[j]).camera is Some) ==> first_unsupported(
                cameras,
                from,
            ) == Some(cameras[i].camera_id),
    decreases cameras.len() - from,
{
    if from < cameras.len() {
        if cameras[from].camera is Some {
            law_unsupported_cameras(cameras, from + 1);
        } else {
            assert(cameras[from].camera is None);
        }
    }
}

/// A configured database must exist unless it is to be written. Without one the
/// first usual place that has one counts, else a new one if it is to be written.
pub proof fn law_database_choice(candidates: Seq<bool>, writes: bool, i: usize)
    requires
        candidates.len() <= usize::MAX,
    ensures
        database_choice(Some(true), candidates, writes) == Ok::<DatabaseChoice, RunError>(
            DatabaseChoice::Configured,
        ),
        database_choice(Some(false), candidates, true) == Ok::<DatabaseChoice, RunError>(
            DatabaseChoice::Configured,
        ),
        database_choice(Some(false), candidates, false) == Err::<DatabaseChoice, RunError>(
            RunError::DatabaseMissing,
        ),
        i < candidates.len() && candidates[i as int] && (forall|j: int|
            0 <= j < i ==> !#[trigger] candidates[j]) ==> database_choice(None, candidates, writes)
            == Ok::<DatabaseChoice, RunError>(DatabaseChoice::Candidate(i)),
        (forall|j: int| 0 <= j < candidates.len() ==> !#[trigger] candidates[j]) ==> {
            &&& database_choice(None, candidates, true) == Ok::<DatabaseChoice, RunError>(
                DatabaseChoice::NewInInput,
            )
            &&& database_choice(None, candidates, false) == Ok::<DatabaseChoice, RunError>(
                DatabaseChoice::Nowhere,
            )
        },
{
    lemma_first_existing(candidates, 0, i as int);
}

proof fn lemma_first_existing(candidates: Seq<bool>, from: int, i: int)
    requires
        0 <= from,
        candidates.len() <= usize::MAX,
    ensures
        from <= i < candidates.len() && candidates[i] && (forall|j: int|
            from <= j < i ==> !#[trigger] candidates[j]) ==> first_existing(candidates, from)
            == Some(i as usize),
        (forall|j: int| from <= j < candidates.len() ==> !#[trigger] candidates[j])
            ==> first_existing(candidates, from) is None,
    decreases candidates.len() - from,
{
    if from < candidates.len() && !candidates[from] {
        lemma_first_existing(candidates, from + 1, i);
    }
}

/// A model that rests on poses has exactly those, no points and no observations,
/// and is otherwise the same.
pub proof fn law_restart(
    r: ReconstructionView,
    before: ReconstructionView,
    frames: Seq<ImageFrame>,
    poses: Seq<Pose>,
    i: int,
    f: int,
)
    requires
        rests_on_poses(r, before, frames, poses),
    ensures
        r.poses.len() == poses.len(),
        0 <= i < poses.len() ==> r.poses[i] == Some(poses[i]),
        r.points.len() == 0 && r.point_ids.len() == 0,
        r.observed(i, f) is None,
        r.observations.len() == frames.len(),
        0 <= i < frames.len() ==> r.observations[i].len() == frames[i].keypoints@.len(),
        r.cameras == before.cameras && r.camera == before.camera && r.rigs == before.rigs
            && r.frames == before.frames && r.image_ids == before.image_ids,
{
}

/// An image takes over the features of the last list of its name, unless there is
/// none or it is empty.
pub proof fn law_database_features(
    after: ImageFrame,
    before: ImageFrame,
    lists: Seq<NamedKeypoints>,
    k: int,
)
    requires
        lists.len() <= usize::MAX,
        took_over(after, before, lists),
    ensures
        (forall|j: int| 0 <= j < lists.len() ==> (#[trigger] lists[j]).name@ != before.name@)
            ==> after == before,
        0 <= k < lists.len() && lists[k].name@ == before.name@ && (forall|j: int|
            k < j < lists.len() ==> (#[trigger] lists[j]).name@ != before.name@) ==> {
            &&& lists[k].keypoints@.len() > 0 ==> after.keypoints@ == lists[k].keypoints@
                && after.name == before.name && after.width == before.width && after.height
                == before.height && after.strong_feature_indices@.len() == 0
            &&& lists[k].keypoints@.len() == 0 ==> after == before
        },
{
    let names = list_names(lists);
    law_last_position(names, before.name@);
    if names.contains(before.name@) {
        let i = last_index(names, before.name@)->0 as int;
        assert(lists[i].name@ == before.name@);
        if 0 <= k < lists.len() && lists[k].name@ == before.name@ && (forall|j: int|
            k < j < lists.len() ==> (#[trigger] lists[j]).name@ != before.name@) {
            assert(names[k] == before.name@);
            if k < i {
                assert(lists[i].name@ != before.name@);
            }
        }
    } else if 0 <= k < lists.len() && lists[k].name@ == before.name@ {
        assert(names[k] == before.name@);
        assert(names.contains(names[k]));
    }
    assert(database_features(lists, before.name@) is None ==> after == before);
}

/// A stored match names the features of the match, that of the left image first.
pub proof fn law_stored_matches(matches: Seq<Match>, i: int)
    requires
        0 <= i < matches.len(),
    ensures
        feature_matches(matches).len() == matches.len(),
        feature_matches(matches)[i].point2d_idx1 == matches[i].query_idx,
        feature_matches(matches)[i].point2d_idx2 == matches[i].train_idx,
{
}

/// A pair is stored just if the database knows both images by name, under their
/// identifiers.
pub proof fn law_geometry_records(
    frames: Seq<ImageFrame>,
    images: Seq<NamedImage>,
    pairs: Seq<PairGeometry>,
    k: nat,
    x: GeometryRecord,
)
    requires
        k <= pairs.len() <= usize::MAX,
    ensures
        geometry_records_upto(frames, images, pairs, k).contains(x) <==> {
            let pair = pairs[x.pair as int];
            &&& x.pair < k
            &&& pair.left < frames.len() && pair.right < frames.len()
            &&& image_id_of_name(images, frames[pair.left as int].name@) == Some(x.left_image_id)
            &&& image_id_of_name(images, frames[pair.right as int].name@) == Some(
                x.right_image_id,
            )
        },
    decreases k,
{
    if k > 0 {
        law_geometry_records(frames, images, pairs, (k - 1) as nat, x);
        let rest = geometry_records_upto(frames, images, pairs, (k - 1) as nat);
        let all = geometry_records_upto(frames, images, pairs, k);
        let own = geometry_record(frames, images, pairs, k - 1);
        if rest.contains(x) {
            let y = choose|y: int| 0 <= y < rest.len() && rest[y] == x;
            assert(all[y] == x);
        }
        if own == Some(x) {
            assert(all[rest.len() as int] == x);
        }
        if all.contains(x) {
            let y = choose|y: int| 0 <= y < all.len() && all[y] == x;
            if y < rest.len() {
                assert(rest[y] == x);
            }
        }
    }
}

/// Records name the identifiers of what they stand for.
pub proof fn law_local_records(
    setup: ReferenceCameraSetup,
    pairs: Seq<PairGeometry>,
    i: usize,
)
    ensures
        camera_record(setup, i as int).camera == i,
        camera_record(setup, i as int).camera_id == setup.camera_ids@[i as int],
        camera_record(setup, i as int).has_prior_focal_length <==> i
            >= setup.camera_has_prior_focal_length@.len()
            || setup.camera_has_prior_focal_length@[i as int],
        image_record(setup, i as int).frame == i,
        image_record(setup, i as int).image_id == setup.image_ids@[i as int],
        image_record(setup, i as int).camera_id
            == setup.camera_ids@[setup.image_camera_indices@[i as int] as int],
        match_record(setup, pairs, i as int).pair == i,
        match_record(setup, pairs, i as int).left_image_id
            == setup.image_ids@[pairs[i as int].left as int],
        match_record(setup, pairs, i as int).right_image_id
            == setup.image_ids@[pairs[i as int].right as int],
        match_record(setup, pairs, i as int).has_matches <==> pairs[i as int].matches@.len() > 0,
{
}

/// A further pair takes one row, and another one if it has matches.
pub proof fn law_rows_add_up(pairs: Seq<PairGeometry>, pair: PairGeometry)
    ensures
        pair.matches@.len() == 0 ==> pair_rows(pairs.push(pair), pairs.len() + 1) == pair_rows(
            pairs,
            pairs.len(),
        ) + 1,
        pair.matches@.len() > 0 ==> pair_rows(pairs.push(pair), pairs.len() + 1) == pair_rows(
            pairs,
            pairs.len(),
        ) + 2,
        pair_rows(Seq::empty(), 0) == 0,
{
    lemma_rows_congruent(pairs, pairs.push(pair), pairs.len());
    assert(pairs.push(pair)[pairs.len() as int] == pair);
}

proof fn lemma_rows_congruent(a: Seq<PairGeometry>, b: Seq<PairGeometry>, k: nat)
    requires
        k <= a.len(),
        k <= b.len(),
        forall|i: int| 0 <= i < k ==> a[i] == b[i],
    ensures
        pair_rows(a, k) == pair_rows(b, k),
    decreases k,
{
    if k > 0 {
        lemma_rows_congruent(a, b, (k - 1) as nat);
    }
}

} // verus!

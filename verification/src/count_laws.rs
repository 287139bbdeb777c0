//! Counts of registrations, said of images, cameras and rigs themselves.

use crate::indices::{
    count_where, lemma_count_bound, lemma_count_positive, lemma_count_turned_on,
    lemma_where_congruent,
};
use crate::registration_stats::{
    count_at, counters_have_room, counts_as_registered, counts_once, frame_deregistered,
    frame_has_pose, frame_registered, frames_with_rig, image_deregistered, image_registered,
    images_registered, lookup, members_of, members_with_camera, registered_frames,
    registered_members, unit_deregistered, unit_registered, StatsView,
};
use crate::session::{
    count_after, members_with_id, pair_tried, registered_at_least, registrations_of, trial_added,
    trials_stored, unit_members,
};
use crate::types::ReconstructionView;
use vstd::prelude::*;

verus! {

/// Registering an image counts one for it and one for its camera, and for no
/// other. It counts as new the first time and as shared later.
pub proof fn law_image_counted(
    s: StatsView,
    r: ReconstructionView,
    image: usize,
    other: int,
    camera: u32,
)
    requires
        counters_have_room(s, 1),
    ensures
        ({
            let t = image_registered(s, r, image);
            let known = image < r.poses.len();
            let before = count_at(s.registrations, image as int);
            &&& !known ==> t == s
            &&& known ==> count_at(t.registrations, image as int) == before + 1
            &&& other != image ==> count_at(t.registrations, other) == count_at(
                s.registrations,
                other,
            )
            &&& known && camera == r.camera_id_of(image as int) ==> lookup(
                t.images_per_camera,
                camera,
            ) == lookup(s.images_per_camera, camera) + 1
            &&& camera != r.camera_id_of(image as int) ==> lookup(t.images_per_camera, camera)
                == lookup(s.images_per_camera, camera)
            &&& known && before == 0 ==> t.total == s.total + 1 && t.shared == s.shared
            &&& known && before > 0 ==> t.total == s.total && t.shared == s.shared + 1
            &&& t.trials == s.trials && t.tried_pairs == s.tried_pairs && t.existing == s.existing
            &&& t.frames_per_rig == s.frames_per_rig
        }),
{
    assert(lookup(s.images_per_camera, r.camera_id_of(image as int)) + 1 <= usize::MAX);
    assert(count_at(s.registrations, image as int) + 1 <= usize::MAX);
}

/// Taking a registration back counts one less for the image and its camera, but
/// never less than none.
pub proof fn law_image_taken_back(
    s: StatsView,
    r: ReconstructionView,
    image: usize,
    other: int,
    camera: u32,
)
    ensures
        ({
            let t = image_deregistered(s, r, image);
            let known = image < r.poses.len();
            let before = count_at(s.registrations, image as int);
            let used = lookup(s.images_per_camera, camera);
            &&& !known ==> t == s
            &&& known && before > 0 ==> count_at(t.registrations, image as int) == before - 1
            &&& before == 0 ==> t.registrations == s.registrations && t.total == s.total
                && t.shared == s.shared
            &&& other != image ==> count_at(t.registrations, other) == count_at(
                s.registrations,
                other,
            )
            &&& known && camera == r.camera_id_of(image as int) && used > 0 ==> lookup(
                t.images_per_camera,
                camera,
            ) == used - 1
            &&& camera != r.camera_id_of(image as int) || used == 0 ==> lookup(
                t.images_per_camera,
                camera,
            ) == used
            &&& known && before == 1 && s.total > 0 ==> t.total == s.total - 1 && t.shared
                == s.shared
            &&& known && before > 1 && s.shared > 0 ==> t.total == s.total && t.shared == s.shared
                - 1
            &&& t.trials == s.trials && t.tried_pairs == s.tried_pairs && t.existing == s.existing
            &&& t.frames_per_rig == s.frames_per_rig
        }),
{
}

/// Selects the positions at which an image is listed.
pub open spec fn is_listed(images: Seq<usize>, image: int) -> spec_fn(int) -> bool {
    |i: int| images[i] == image
}

/// Selects the positions at which an image of a camera is listed that exists.
pub open spec fn lists_camera(
    r: ReconstructionView,
    images: Seq<usize>,
    camera: u32,
) -> spec_fn(int) -> bool {
    |i: int| images[i] < r.poses.len() && r.camera_id_of(images[i] as int) == camera
}

/// Registering a list of images counts each as often as it is listed, and each
/// camera as often as one of its images is.
pub proof fn law_images_counted(
    s: StatsView,
    r: ReconstructionView,
    images: Seq<usize>,
    k: nat,
    image: int,
    camera: u32,
)
    requires
        k <= images.len(),
        counters_have_room(s, k),
        0 <= image < r.poses.len(),
    ensures
        ({
            let t = images_registered(s, r, images, k);
            &&& count_at(t.registrations, image) == count_at(s.registrations, image)
                + count_where(k, is_listed(images, image))
            &&& lookup(t.images_per_camera, camera) == lookup(s.images_per_camera, camera)
                + count_where(k, lists_camera(r, images, camera))
            &&& t.frames_per_rig == s.frames_per_rig
            &&& t.trials == s.trials && t.tried_pairs == s.tried_pairs && t.existing == s.existing
        }),
    decreases k,
{
    if k > 0 {
        assert(counters_have_room(s, (k - 1) as nat)) by {
            assert forall|key: u32| #[trigger] lookup(s.frames_per_rig, key) + (k - 1)
                <= usize::MAX by {}
            assert forall|key: u32| #[trigger] lookup(s.images_per_camera, key) + (k - 1)
                <= usize::MAX by {}
            assert forall|i: int| #[trigger] count_at(s.registrations, i) + (k - 1)
                <= usize::MAX by {}
        }
        law_images_counted(s, r, images, (k - 1) as nat, image, camera);
        let rest = images_registered(s, r, images, (k - 1) as nat);
        let own = images[k - 1];
        lemma_count_bound((k - 1) as nat, is_listed(images, image));
        lemma_count_bound((k - 1) as nat, lists_camera(r, images, camera));
        assert(count_at(s.registrations, image) + k <= usize::MAX);
        assert(lookup(s.images_per_camera, camera) + k <= usize::MAX);
    }
}

/// Registering a frame counts one for its rig. Taking it back counts one less.
pub proof fn law_frame_counted(s: StatsView, r: ReconstructionView, frame: usize, rig: u32)
    requires
        counters_have_room(s, r.images_of_frame(frame).len() + 1),
        r.poses.len() > 0,
    ensures
        ({
            let t = frame_registered(s, r, frame);
            &&& frame >= r.frames.len() ==> t == s
            &&& frame < r.frames.len() && rig == r.frames[frame as int].rig_id ==> lookup(
                t.frames_per_rig,
                rig,
            ) == lookup(s.frames_per_rig, rig) + 1
            &&& frame < r.frames.len() && rig != r.frames[frame as int].rig_id ==> lookup(
                t.frames_per_rig,
                rig,
            ) == lookup(s.frames_per_rig, rig)
        }),
{
    if frame < r.frames.len() {
        let own = r.frames[frame as int].rig_id;
        let images = r.images_of_frame(frame);
        let n = images.len();
        let t = StatsView {
            frames_per_rig: s.frames_per_rig.insert(
                own,
                (lookup(s.frames_per_rig, own) + 1) as usize,
            ),
            ..s
        };
        assert(lookup(s.frames_per_rig, own) + (n + 1) <= usize::MAX);
        assert(counters_have_room(t, n)) by {
            assert forall|key: u32| #[trigger] lookup(t.frames_per_rig, key) + n
                <= usize::MAX by {
                assert(lookup(s.frames_per_rig, key) + (n + 1) <= usize::MAX);
            }
            assert forall|key: u32| #[trigger] lookup(t.images_per_camera, key) + n
                <= usize::MAX by {
                assert(lookup(s.images_per_camera, key) + (n + 1) <= usize::MAX);
            }
            assert forall|i: int| #[trigger] count_at(t.registrations, i) + n <= usize::MAX by {
                assert(count_at(s.registrations, i) + (n + 1) <= usize::MAX);
            }
        }
        law_images_counted(t, r, images, n, 0, 0);
    }
}

/// A unit without a frame counts as its image, a unit with one as its frame.
pub proof fn law_units_counted(s: StatsView, r: ReconstructionView, image: usize)
    ensures
        r.frame_of(image as int) is None ==> unit_registered(s, r, image) == image_registered(
            s,
            r,
            image,
        ) && unit_deregistered(s, r, image) == image_deregistered(s, r, image),
        r.frame_of(image as int) matches Some(frame) ==> unit_registered(s, r, image)
            == frame_registered(s, r, frame) && unit_deregistered(s, r, image)
            == frame_deregistered(s, r, frame),
{
}

/// An image counts as registered just if an image of its unit is, and its frame
/// exists if it names one.
pub proof fn law_counted_images(r: ReconstructionView, m: int)
    ensures
        counts_as_registered(r, m) <==> {
            &&& exists|j: int| #[trigger] r.registered(j) && r.same_unit(m, j)
            &&& r.frame_of(m) matches Some(frame) ==> frame < r.frames.len()
        },
{
    if r.unit_registered(m) {
        let j = choose|j: int| #[trigger] r.registered(j) && r.same_unit(m, j);
        assert(r.registered(j));
    }
    if exists|j: int| #[trigger] r.registered(j) && r.same_unit(m, j) {
        let j = choose|j: int| #[trigger] r.registered(j) && r.same_unit(m, j);
        assert(r.registered(j) && r.same_unit(j, m));
    }
}

/// A trial counts one for its image and none for the others.
pub proof fn law_trial_added(trials: Seq<usize>, image: usize, other: int)
    requires
        count_at(trials, image as int) < usize::MAX,
    ensures
        count_at(trial_added(trials, image), image as int) == count_at(trials, image as int) + 1,
        other != image ==> count_at(trial_added(trials, image), other) == count_at(trials, other),
{
}

/// A pair that is tried adds its identifier, if it has one, and nothing else.
pub proof fn law_pair_tried(
    tried: Set<u64>,
    r: ReconstructionView,
    left: usize,
    right: usize,
    id: u64,
)
    ensures
        pair_tried(tried, r, left, right).contains(id) <==> tried.contains(id) || r.pair_id_of(
            left,
            right,
        ) == Some(id),
{
}

/// Keeping a model adds its registrations to a count, discarding it takes them
/// away, down to none.
pub proof fn law_count_after(count: usize, n: nat)
    ensures
        count_after(count, n, false) == count + n,
        count >= n ==> count_after(count, n, true) == count - n,
        count < n ==> count_after(count, n, true) == 0,
{
}

/// Where no image has a frame and identifiers are distinct, a registered image
/// counts once, and one that is not registered does not count.
pub proof fn law_single_registrations(r: ReconstructionView, image: int)
    requires
        forall|i: int| #[trigger] r.frame_of(i) is None,
        forall|a: int, b: int|
            0 <= a < b < r.image_limit() ==> #[trigger] r.image_id_of(a) != #[trigger]
                r.image_id_of(b),
        0 <= image < r.poses.len(),
    ensures
        r.poses[image] is Some ==> registrations_of(r, r.image_id_of(image)) == 1,
        r.poses[image] is None ==> registrations_of(r, r.image_id_of(image)) == 0,
{
    let id = r.image_id_of(image);
    let n = r.image_limit();
    let q = members_with_id(r, unit_members(r), id);
    let none = |i: int| false;
    lemma_count_positive(n, none);
    lemma_count_positive(n, q);
    assert(r.unit_registered(image) <==> r.registered(image)) by {
        if r.unit_registered(image) {
            let j = choose|j: int| #[trigger] r.registered(j) && r.same_unit(image, j);
            assert(r.frame_of(image) is None);
        }
        if r.registered(image) {
            assert(r.same_unit(image, image));
        }
    }
    assert forall|i: int| 0 <= i < n && i != image implies #[trigger] none(i) == q(i) by {
        if i < image {
            assert(r.image_id_of(i) != r.image_id_of(image));
        } else {
            assert(r.image_id_of(image) != r.image_id_of(i));
        }
    }
    if r.poses[image] is Some {
        assert(q(image));
        lemma_count_turned_on(n, none, q, image);
    } else {
        assert(!q(image));
        assert forall|i: int| 0 <= i < n implies !#[trigger] q(i) by {
            if i != image {
                assert(none(i) == q(i));
            }
        }
    }
}

/// An image is shared just if it is registered and its count is high enough.
pub proof fn law_shared_images(
    r: ReconstructionView,
    registrations: Map<u32, usize>,
    min_count: usize,
    i: int,
)
    requires
        0 <= i < r.poses.len(),
        min_count > 0,
    ensures
        registered_at_least(r, registrations, min_count)(i) <==> {
            &&& r.poses[i] is Some
            &&& registrations.contains_key(r.image_id_of(i))
            &&& registrations[r.image_id_of(i)] >= min_count
        },
{
}

/// Stored trials are those of the last image of an identifier; those of other
/// identifiers stay.
pub proof fn law_trials_stored(
    trials: Map<u32, usize>,
    r: ReconstructionView,
    counts: Seq<usize>,
    n: nat,
    id: u32,
)
    ensures
        (forall|i: int| 0 <= i < n ==> #[trigger] r.image_id_of(i) != id) ==> lookup(
            trials_stored(trials, r, counts, n),
            id,
        ) == lookup(trials, id),
        forall|i: int|
            0 <= i < n && #[trigger] r.image_id_of(i) == id && (forall|j: int|
                i < j < n ==> #[trigger] r.image_id_of(j) != id) ==> lookup(
                trials_stored(trials, r, counts, n),
                id,
            ) == count_at(counts, i),
    decreases n,
{
    if n > 0 {
        law_trials_stored(trials, r, counts, (n - 1) as nat, id);
        let rest = trials_stored(trials, r, counts, (n - 1) as nat);
        let own = r.image_id_of(n - 1);
        if own != id {
            assert(lookup(trials_stored(trials, r, counts, n), id) == lookup(rest, id));
        }
        assert forall|i: int|
            0 <= i < n && #[trigger] r.image_id_of(i) == id && (forall|j: int|
                i < j < n ==> #[trigger] r.image_id_of(j) != id) implies lookup(
            trials_stored(trials, r, counts, n),
            id,
        ) == count_at(counts, i) by {
            if i < n - 1 {
                assert(own != id);
            }
        }
    }
}

/// Whether an image is in a registered unit whose frame, if it names one, exists.
pub open spec fn is_counted(r: ReconstructionView, m: int) -> bool {
    &&& exists|j: int| #[trigger] r.registered(j) && r.same_unit(m, j)
    &&& r.frame_of(m) matches Some(frame) ==> frame < r.frames.len()
}

/// Selects the counted images of a camera.
pub open spec fn is_counted_with(r: ReconstructionView, camera: u32) -> spec_fn(int) -> bool {
    |m: int| is_counted(r, m) && r.camera_id_of(m) == camera
}

/// Selects the counted images.
pub open spec fn counted_images(r: ReconstructionView) -> spec_fn(int) -> bool {
    |m: int| is_counted(r, m)
}

/// Selects the frames of a rig that have a registered image.
pub open spec fn is_posed_with(r: ReconstructionView, rig: u32) -> spec_fn(int) -> bool {
    |f: int|
        r.frames[f].rig_id == rig && exists|j: int| #[trigger]
            r.registered(j) && r.frame_of(j) == Some(f as usize)
}

/// The statistics of a model count each image of a registered unit once, for
/// itself, in total and for its camera, and each frame with a registered image once
/// for its rig. No image is shared.
pub proof fn law_counts_of_a_model(
    s: StatsView,
    r: ReconstructionView,
    m: int,
    camera: u32,
    rig: u32,
)
    requires
        counts_once(s, r, registered_members(r), registered_frames(r)),
        0 <= m < r.poses.len(),
    ensures
        is_counted(r, m) ==> s.registrations[m] == 1,
        !is_counted(r, m) ==> s.registrations[m] == 0,
        s.total == count_where(r.poses.len(), counted_images(r)),
        s.shared == 0,
        lookup(s.images_per_camera, camera) == count_where(
            r.poses.len(),
            is_counted_with(r, camera),
        ),
        lookup(s.frames_per_rig, rig) == count_where(r.frames.len(), is_posed_with(r, rig)),
{
    let members = registered_members(r);
    let frames = registered_frames(r);
    assert forall|i: int| members.contains(i) == is_counted(r, i) by {
        law_counted_images(r, i);
    }
    assert forall|i: int| 0 <= i < r.poses.len() implies #[trigger] members_of(members)(i)
        == counted_images(r)(i) by {}
    lemma_where_congruent(r.poses.len(), members_of(members), counted_images(r));
    assert forall|i: int| 0 <= i < r.poses.len() implies #[trigger] members_with_camera(
        r,
        members,
        camera,
    )(i) == is_counted_with(r, camera)(i) by {}
    lemma_where_congruent(
        r.poses.len(),
        members_with_camera(r, members, camera),
        is_counted_with(r, camera),
    );
    assert forall|f: int| 0 <= f < r.frames.len() implies #[trigger] frames_with_rig(
        r,
        frames,
        rig,
    )(f) == is_posed_with(r, rig)(f) by {
        assert(frames.contains(f) == frame_has_pose(r, f));
    }
    lemma_where_congruent(r.frames.len(), frames_with_rig(r, frames, rig), is_posed_with(r, rig));
    assert(members.contains(m) == is_counted(r, m));
}

} // verus!

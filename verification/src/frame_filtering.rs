//! Removal of registration units that no longer support the model.

use crate::config::MapperConfig;
use crate::indices::indices_where;
use crate::links::links_fit;
use crate::observation_manager::{
    deregistered, observations_deleted, observing_features, points_fit, Edited, ObservationManager,
};
use crate::registration_stats::{unit_deregistered, RegistrationStats, StatsView};
use crate::registration_units::{
    lemma_unit_members, registered_frame_count, registered_units, registration_unit_is_registered,
    registration_unit_key, RegistrationUnitKey, UnitSet,
};
use crate::types::{ImageFrame, PairGeometry, Reconstruction, ReconstructionView};
use vstd::prelude::*;

verus! {

/// Below this number of registered units nothing is filtered.
pub const MIN_NUM_REGISTERED_FRAMES_FOR_FILTERING: usize = 20;

/// Whether a registered image of the unit has an implausible camera.
pub open spec fn unit_has_bogus_camera(r: ReconstructionView, image: usize) -> bool {
    exists|m: int| #[trigger]
        r.registered(m) && r.same_unit(image as int, m) && r.camera_of(m).bogus
}

/// Whether a registered image of the unit observes a point.
pub open spec fn unit_observes(r: ReconstructionView, image: usize) -> bool {
    exists|m: int, f: int|
        r.registered(m) && r.same_unit(image as int, m) && #[trigger] r.observed(m, f) is Some
}

/// Whether a unit is to be removed: a camera drifted, or no point is observed.
pub open spec fn unit_unsupported(r: ReconstructionView, image: usize) -> bool {
    unit_has_bogus_camera(r, image) || !unit_observes(r, image)
}

fn image_observes(reconstruction: &Reconstruction, image: usize) -> (b: bool)
    ensures
        b <==> exists|f: int| #[trigger] reconstruction@.observed(image as int, f) is Some,
{
    if image >= reconstruction.observations.len() {
        return false;
    }
    let width: usize = reconstruction.observations[image].len();
    for f in 0..width
        invariant
            image < reconstruction@.observations.len(),
            width == reconstruction@.observations[image as int].len(),
            forall|g: int|
                0 <= g < f ==> #[trigger] reconstruction@.observed(image as int, g) is None,
    {
        if reconstruction.observed_point(image, f).is_some() {
            assert(reconstruction@.observed(image as int, f as int) is Some);
            return true;
        }
    }
    assert forall|g: int| #[trigger] reconstruction@.observed(image as int, g) is None by {
        if 0 <= g < width {
            assert(reconstruction@.observed(image as int, g) is None);
        }
    }
    false
}

pub fn registered_unit_should_be_filtered(reconstruction: &Reconstruction, image: usize) -> (b:
    bool)
    ensures
        b == unit_unsupported(reconstruction@, image),
{
    let ghost r = reconstruction@;
    let limit: usize = reconstruction.image_frame_indices.len();
    let num_images: usize = reconstruction.poses.len();
    let unit: Vec<usize> = reconstruction.image_indices_for_registration_unit(image);
    proof {
        lemma_unit_members(r, image);
    }
    let mut observes: bool = false;
    for k in 0..unit.len()
        invariant
            r == reconstruction@,
            unit@ == r.unit_of(image),
            forall|m: usize| #[trigger]
                r.unit_of(image).contains(m) <==> r.same_unit(image as int, m as int),
            observes ==> unit_observes(r, image),
            !observes ==> forall|j: int, f: int|
                0 <= j < k && r.registered(unit@[j] as int) ==> #[trigger] r.observed(
                    unit@[j] as int,
                    f,
                ) is None,
            forall|j: int|
                0 <= j < k && r.registered(#[trigger] unit@[j] as int) ==> !r.camera_of(
                    unit@[j] as int,
                ).bogus,
    {
        let m: usize = unit[k];
        assert(r.unit_of(image).contains(unit@[k as int]));
        if reconstruction.is_registered(m) {
            if reconstruction.camera_for_image(m).bogus {
                assert(r.registered(m as int));
                return true;
            }
            if image_observes(reconstruction, m) {
                proof {
                    let f = choose|f: int| #[trigger] r.observed(m as int, f) is Some;
                    assert(r.observed(m as int, f) is Some);
                }
                observes = true;
            }
        }
    }
    proof {
        assert forall|m: int| r.registered(m) && r.same_unit(image as int, m) implies exists|k: int|
            0 <= k < unit@.len() && #[trigger] unit@[k] == m by {
            assert(r.unit_of(image).contains(m as usize));
            let k = choose|k: int| 0 <= k < unit@.len() && unit@[k] == m as usize;
            assert(unit@[k] == m);
        }
        if unit_has_bogus_camera(r, image) {
            let m = choose|m: int| #[trigger]
                r.registered(m) && r.same_unit(image as int, m) && r.camera_of(m).bogus;
            let k = choose|k: int| 0 <= k < unit@.len() && #[trigger] unit@[k] == m;
            assert(r.registered(unit@[k] as int));
        }
        if !observes && unit_observes(r, image) {
            let (m, f) = choose|m: int, f: int|
                r.registered(m) && r.same_unit(image as int, m) && #[trigger] r.observed(m, f) is Some;
            let k = choose|k: int| 0 <= k < unit@.len() && #[trigger] unit@[k] == m;
            assert(r.observed(unit@[k] as int, f) is None);
        }
    }
    !observes
}

/// The effect of deregistering the first `k` of a list of images; images
/// without a pose slot are passed over.
pub open spec fn images_cleared(s: Edited, images: Seq<usize>, k: nat) -> Edited
    decreases k,
{
    if k == 0 {
        s
    } else {
        let rest = images_cleared(s, images, (k - 1) as nat);
        if images[k - 1] < rest.r.poses.len() {
            deregistered(rest, images[k - 1])
        } else {
            rest
        }
    }
}

/// The effect of deregistering the unit of an image.
pub open spec fn unit_cleared(s: Edited, image: usize) -> Edited {
    let images = s.r.unit_of(image);
    images_cleared(s, images, images.len())
}

/// What deregistering leaves alone.
pub open spec fn same_layout(a: ReconstructionView, b: ReconstructionView) -> bool {
    &&& a.poses.len() == b.poses.len()
    &&& a.image_frame_indices == b.image_frame_indices
    &&& a.frames == b.frames
    &&& a.rigs == b.rigs
    &&& a.camera_ids == b.camera_ids
    &&& a.image_camera_indices == b.image_camera_indices
    &&& a.points.len() <= b.points.len()
}

proof fn lemma_deletions_layout(s: Edited, image: usize, features: Seq<usize>, k: nat)
    ensures
        same_layout(observations_deleted(s, image, features, k).r, s.r),
        observations_deleted(s, image, features, k).r.poses == s.r.poses,
    decreases k,
{
    if k > 0 {
        lemma_deletions_layout(s, image, features, (k - 1) as nat);
    }
}

pub proof fn lemma_deregistered_layout(s: Edited, image: usize)
    requires
        image < s.r.poses.len(),
    ensures
        !deregistered(s, image).r.registered(image as int),
        same_layout(deregistered(s, image).r, s.r),
        forall|m: int| m != image && 0 <= m < s.r.poses.len() ==> #[trigger] deregistered(
            s,
            image,
        ).r.poses[m] == s.r.poses[m],
{
    let features = observing_features(s.r, image);
    lemma_deletions_layout(s, image, features, features.len());
}

proof fn lemma_cleared_layout(s: Edited, images: Seq<usize>, k: nat)
    ensures
        same_layout(images_cleared(s, images, k).r, s.r),
    decreases k,
{
    if k > 0 {
        lemma_cleared_layout(s, images, (k - 1) as nat);
        let rest = images_cleared(s, images, (k - 1) as nat);
        if images[k - 1] < rest.r.poses.len() {
            lemma_deregistered_layout(rest, images[k - 1]);
        }
    }
}

/// Clearing images leaves none of them registered and registers no other.
proof fn lemma_cleared_poses(s: Edited, images: Seq<usize>, k: nat)
    requires
        k <= images.len(),
    ensures
        forall|j: int|
            0 <= j < k ==> !images_cleared(s, images, k).r.registered(
                #[trigger] images[j] as int,
            ),
        forall|m: int| #[trigger]
            images_cleared(s, images, k).r.registered(m) ==> s.r.registered(m),
    decreases k,
{
    if k > 0 {
        lemma_cleared_poses(s, images, (k - 1) as nat);
        let rest = images_cleared(s, images, (k - 1) as nat);
        let all = images_cleared(s, images, k);
        if images[k - 1] < rest.r.poses.len() {
            lemma_deregistered_layout(rest, images[k - 1]);
            assert forall|m: int| #[trigger] all.r.registered(m) implies rest.r.registered(m) by {
                if m != images[k - 1] {
                    assert(deregistered(rest, images[k - 1]).r.poses[m] == rest.r.poses[m]);
                }
            }
            assert forall|j: int| 0 <= j < k implies !all.r.registered(
                #[trigger] images[j] as int,
            ) by {
                if all.r.registered(images[j] as int) {
                    assert(rest.r.registered(images[j] as int));
                }
            }
        }
    }
}

impl ObservationManager {
    /// Takes the unit of an image out of the model. Fails if none of its
    /// images exists.
    pub fn deregister_frame_for_image(
        &mut self,
        frames: &[ImageFrame],
        pairs: &[PairGeometry],
        reconstruction: &mut Reconstruction,
        image: usize,
    ) -> (done: bool)
        requires
            links_fit(pairs@),
            points_fit(old(reconstruction)@),
        ensures
            done <==> exists|m: int|
                0 <= m < old(reconstruction)@.poses.len() && #[trigger] old(
                    reconstruction,
                )@.same_unit(image as int, m),
            final(self).edited(final(reconstruction)@) == unit_cleared(
                old(self).edited(old(reconstruction)@),
                image,
            ),
            done ==> final(self).reflects(frames@, pairs@, final(reconstruction)@),
            !done ==> *final(reconstruction) == *old(reconstruction) && *final(self) == *old(self),
    {
        let ghost start = old(self).edited(old(reconstruction)@);
        let limit: usize = reconstruction.image_frame_indices.len();
        let num_images: usize = reconstruction.poses.len();
        let images: Vec<usize> = reconstruction.image_indices_for_registration_unit(image);
        proof {
            lemma_unit_members(start.r, image);
        }
        let mut done: bool = false;
        for k in 0..images.len()
            invariant
                links_fit(pairs@),
                start == old(self).edited(old(reconstruction)@),
                points_fit(start.r),
                num_images == start.r.poses.len(),
                images@ == start.r.unit_of(image),
                self.edited(reconstruction@) == images_cleared(start, images@, k as nat),
                done <==> exists|j: int| 0 <= j < k && #[trigger] images@[j] < num_images,
                done ==> self.reflects(frames@, pairs@, reconstruction@),
                !done ==> *reconstruction == *old(reconstruction) && *self == *old(self),
        {
            let ghost before = self.edited(reconstruction@);
            proof {
                lemma_cleared_layout(start, images@, k as nat);
                assert(before.r == reconstruction@);
            }
            let ghost had = done;
            if self.deregister_image(frames, pairs, reconstruction, images[k]) {
                assert(images@[k as int] < num_images);
                done = true;
            }
            proof {
                if had {
                    let j = choose|j: int| 0 <= j < k && #[trigger] images@[j] < num_images;
                    assert(0 <= j < k + 1 && images@[j] < num_images);
                }
            }
        }
        proof {
            let r = start.r;
            if done {
                let j = choose|j: int| 0 <= j < images@.len() && #[trigger] images@[j] < num_images;
                assert(r.unit_of(image).contains(images@[j]));
                assert(r.same_unit(image as int, images@[j] as int));
            }
            if exists|m: int| 0 <= m < r.poses.len() && #[trigger] r.same_unit(image as int, m) {
                let m = choose|m: int|
                    0 <= m < r.poses.len() && #[trigger] r.same_unit(image as int, m);
                assert(r.unit_of(image).contains(m as usize));
                let j = choose|j: int| 0 <= j < images@.len() && images@[j] == m as usize;
                assert(images@[j] < num_images);
            }
        }
        done
    }
}

/// Selects the images that stand for a unit to be removed: the first of an
/// unsupported registered unit, unless the unit is protected.
pub open spec fn to_be_filtered(
    r: ReconstructionView,
    protected: Set<RegistrationUnitKey>,
) -> spec_fn(int) -> bool {
    |i: int|
        {
            &&& r.unit_registered(i)
            &&& !(exists|j: int| 0 <= j < i && #[trigger] r.same_unit(j, i))
            &&& unit_unsupported(r, i as usize)
            &&& !protected.contains(r.unit_key(i as usize))
        }
}

/// A reconstruction, its statistics and the units removed so far.
#[verifier::ext_equal]
pub struct Filtering {
    pub model: Edited,
    pub stats: StatsView,
    pub removed: Set<RegistrationUnitKey>,
    pub count: nat,
}

/// The effect of removing the units of the first `k` of a list of images.
pub open spec fn units_filtered(s: Filtering, images: Seq<usize>, k: nat) -> Filtering
    decreases k,
{
    if k == 0 {
        s
    } else {
        let rest = units_filtered(s, images, (k - 1) as nat);
        let image = images[k - 1];
        if !rest.model.r.unit_registered(image as int) {
            rest
        } else {
            let model = unit_cleared(rest.model, image);
            Filtering {
                model,
                stats: unit_deregistered(rest.stats, model.r, image),
                removed: rest.removed.insert(rest.model.r.unit_key(image)),
                count: rest.count + 1,
            }
        }
    }
}

/// The units that filtering must leave alone.
pub open spec fn protected_units(config: MapperConfig, stats: StatsView) -> Set<
    RegistrationUnitKey,
> {
    if config.fix_existing_frames {
        stats.existing
    } else {
        Set::empty()
    }
}

/// The effect of filtering a reconstruction.
pub open spec fn frames_filtered(s: Filtering, config: MapperConfig) -> Filtering {
    if registered_units(s.model.r) < MIN_NUM_REGISTERED_FRAMES_FOR_FILTERING {
        s
    } else {
        let images = indices_where(
            s.model.r.poses.len(),
            to_be_filtered(s.model.r, protected_units(config, s.stats)),
        );
        units_filtered(s, images, images.len())
    }
}

fn filter_candidates(
    reconstruction: &Reconstruction,
    config: &MapperConfig,
    registration_stats: &RegistrationStats,
) -> (images: Vec<usize>)
    ensures
        images@ == indices_where(
            reconstruction@.poses.len(),
            to_be_filtered(reconstruction@, protected_units(*config, registration_stats@)),
        ),
{
    let ghost r = reconstruction@;
    let ghost protected = protected_units(*config, registration_stats@);
    let mut seen = UnitSet::new();
    let mut images: Vec<usize> = Vec::new();
    for image in 0..reconstruction.poses.len()
        invariant
            r == reconstruction@,
            protected == protected_units(*config, registration_stats@),
            images@ == indices_where(image as nat, to_be_filtered(r, protected)),
            forall|m: usize|
                seen@.contains(#[trigger] r.unit_key(m)) <==> r.unit_registered(m as int)
                    && exists|j: int| 0 <= j < image && #[trigger] r.same_unit(j, m as int),
    {
        let ghost marks = seen@;
        let ghost i = image as int;
        if registration_unit_is_registered(reconstruction, image) {
            let unit = registration_unit_key(reconstruction, image);
            assert(seen@.contains(r.unit_key(image)) <==> r.unit_registered(i) && exists|j: int|
                0 <= j < image && #[trigger] r.same_unit(j, i));
            let fresh: bool = seen.insert(unit);
            if fresh && registered_unit_should_be_filtered(reconstruction, image) && !(
            config.fix_existing_frames && registration_stats.is_existing_registration_unit(
                reconstruction,
                image,
            )) {
                images.push(image);
            }
        }
        proof {
            assert forall|m: usize|
                seen@.contains(#[trigger] r.unit_key(m)) <==> r.unit_registered(m as int)
                    && exists|j: int| 0 <= j < image + 1 && #[trigger] r.same_unit(j, m as int) by {
                assert(marks.contains(r.unit_key(m)) <==> r.unit_registered(m as int)
                    && exists|j: int| 0 <= j < image && #[trigger] r.same_unit(j, m as int));
                crate::registration_units::law_units_partition(r, image, m, m);
                if exists|j: int| 0 <= j < image && #[trigger] r.same_unit(j, m as int) {
                    let j = choose|j: int| 0 <= j < image && #[trigger] r.same_unit(j, m as int);
                    assert(0 <= j < image + 1 && r.same_unit(j, m as int));
                }
                if r.same_unit(i, m as int) {
                    lemma_unit_registered_shared(r, i, m as int);
                    assert(exists|j: int| 0 <= j < image + 1 && #[trigger] r.same_unit(
                        j,
                        m as int,
                    ));
                }
            }
        }
    }
    images
}

/// Images of one unit are registered together.
proof fn lemma_unit_registered_shared(r: ReconstructionView, a: int, b: int)
    requires
        r.same_unit(a, b),
    ensures
        r.unit_registered(a) == r.unit_registered(b),
{
    if r.unit_registered(a) {
        let j = choose|j: int| #[trigger] r.registered(j) && r.same_unit(j, a);
        assert(r.registered(j) && r.same_unit(j, b));
    }
    if r.unit_registered(b) {
        let j = choose|j: int| #[trigger] r.registered(j) && r.same_unit(j, b);
        assert(r.registered(j) && r.same_unit(j, a));
    }
}

proof fn lemma_filtering_layout(s: Filtering, images: Seq<usize>, k: nat)
    ensures
        same_layout(units_filtered(s, images, k).model.r, s.model.r),
        units_filtered(s, images, k).count <= s.count + k,
    decreases k,
{
    if k > 0 {
        lemma_filtering_layout(s, images, (k - 1) as nat);
        let rest = units_filtered(s, images, (k - 1) as nat);
        let unit = rest.model.r.unit_of(images[k - 1]);
        lemma_cleared_layout(rest.model, unit, unit.len());
    }
}

/// Removes the unsupported units of a model that is large enough, takes their
/// registrations back and records their keys. Gives the number of removed
/// units.
pub fn filter_registered_frames(
    frames: &[ImageFrame],
    pairs: &[PairGeometry],
    reconstruction: &mut Reconstruction,
    config: &MapperConfig,
    registration_stats: &mut RegistrationStats,
    filtered_units: &mut UnitSet,
    observation_manager: &mut ObservationManager,
) -> (filtered: usize)
    requires
        links_fit(pairs@),
        points_fit(old(reconstruction)@),
    ensures
        (Filtering {
            model: final(observation_manager).edited(final(reconstruction)@),
            stats: final(registration_stats)@,
            removed: final(filtered_units)@,
            count: filtered as nat,
        }) == frames_filtered(
            (Filtering {
                model: old(observation_manager).edited(old(reconstruction)@),
                stats: old(registration_stats)@,
                removed: old(filtered_units)@,
                count: 0,
            }),
            *config,
        ),
        filtered > 0 ==> final(observation_manager).reflects(
            frames@,
            pairs@,
            final(reconstruction)@,
        ),
        filtered == 0 ==> *final(observation_manager) == *old(observation_manager)
            && final(reconstruction)@ == old(reconstruction)@,
{
    let ghost start = Filtering {
        model: observation_manager.edited(reconstruction@),
        stats: registration_stats@,
        removed: filtered_units@,
        count: 0,
    };
    if registered_frame_count(reconstruction) < MIN_NUM_REGISTERED_FRAMES_FOR_FILTERING {
        return 0;
    }
    let images: Vec<usize> = filter_candidates(reconstruction, config, registration_stats);
    let num_images: usize = reconstruction.poses.len();
    proof {
        crate::indices::lemma_indices_where(
            start.model.r.poses.len(),
            to_be_filtered(start.model.r, protected_units(*config, start.stats)),
        );
    }
    let mut filtered: usize = 0;
    for k in 0..images.len()
        invariant
            links_fit(pairs@),
            points_fit(start.model.r),
            num_images == start.model.r.poses.len(),
            start.count == 0,
            images@ == indices_where(
                start.model.r.poses.len(),
                to_be_filtered(start.model.r, protected_units(*config, start.stats)),
            ),
            forall|x: usize| #[trigger] images@.contains(x) ==> x < num_images,
            (Filtering {
                model: observation_manager.edited(reconstruction@),
                stats: registration_stats@,
                removed: filtered_units@,
                count: filtered as nat,
            }) == units_filtered(start, images@, k as nat),
            filtered <= k,
            filtered > 0 ==> observation_manager.reflects(frames@, pairs@, reconstruction@),
            filtered == 0 ==> *observation_manager == *old(observation_manager)
                && reconstruction@ == old(reconstruction)@,
    {
        let image: usize = images[k];
        let ghost rest = units_filtered(start, images@, k as nat);
        proof {
            lemma_filtering_layout(start, images@, k as nat);
            assert(rest.model.r == reconstruction@);
            assert(images@.contains(images@[k as int]));
        }
        if registration_unit_is_registered(reconstruction, image) {
            let unit = registration_unit_key(reconstruction, image);
            proof {
                assert(reconstruction@.same_unit(image as int, image as int));
                let members = rest.model.r.unit_of(image);
                lemma_cleared_layout(rest.model, members, members.len());
            }
            observation_manager.deregister_frame_for_image(frames, pairs, reconstruction, image);
            registration_stats.deregister_frame_for_image_event(reconstruction, image);
            filtered_units.insert(unit);
            filtered = filtered + 1;
        }
    }
    filtered
}

/// Filtering removes every unit it selected, registers nothing, and keeps the
/// layout of the model.
pub proof fn law_filtered_units_are_gone(s: Filtering, config: MapperConfig, image: usize)
    requires
        s.model.r.poses.len() <= usize::MAX,
        s.model.r.image_frame_indices.len() <= usize::MAX,
        registered_units(s.model.r) >= MIN_NUM_REGISTERED_FRAMES_FOR_FILTERING,
        image < s.model.r.poses.len(),
        to_be_filtered(s.model.r, protected_units(config, s.stats))(image as int),
    ensures
        !frames_filtered(s, config).model.r.unit_registered(image as int),
        forall|m: int| #[trigger]
            frames_filtered(s, config).model.r.registered(m) ==> s.model.r.registered(m),
        same_layout(frames_filtered(s, config).model.r, s.model.r),
{
    let p = to_be_filtered(s.model.r, protected_units(config, s.stats));
    let images = indices_where(s.model.r.poses.len(), p);
    crate::indices::lemma_indices_where(s.model.r.poses.len(), p);
    assert(p(image as int));
    assert(images.contains(image));
    lemma_filtering_layout(s, images, images.len());
    lemma_filtering_poses(s, images, images.len());
    let k = choose|k: int| 0 <= k < images.len() && images[k] == image;
    assert(!units_filtered(s, images, images.len()).model.r.unit_registered(images[k] as int));
}

proof fn lemma_filtering_poses(s: Filtering, images: Seq<usize>, k: nat)
    requires
        k <= images.len(),
        s.model.r.image_frame_indices.len() <= usize::MAX,
        s.model.r.poses.len() <= usize::MAX,
    ensures
        forall|j: int|
            0 <= j < k ==> !units_filtered(s, images, k).model.r.unit_registered(
                #[trigger] images[j] as int,
            ),
        forall|m: int| #[trigger]
            units_filtered(s, images, k).model.r.registered(m) ==> s.model.r.registered(m),
    decreases k,
{
    if k > 0 {
        lemma_filtering_poses(s, images, (k - 1) as nat);
        lemma_filtering_layout(s, images, (k - 1) as nat);
        lemma_filtering_layout(s, images, k);
        let rest = units_filtered(s, images, (k - 1) as nat).model.r;
        let all = units_filtered(s, images, k).model.r;
        let image = images[k - 1];
        let unit = rest.unit_of(image);
        if rest.unit_registered(image as int) {
            lemma_cleared_poses(units_filtered(s, images, (k - 1) as nat).model, unit, unit.len());
            lemma_unit_members(rest, image);
            assert forall|m: int| #[trigger] all.registered(m) implies rest.registered(m)
                && !rest.same_unit(image as int, m) by {
                if rest.same_unit(image as int, m) {
                    assert(unit.contains(m as usize));
                    let j = choose|j: int| 0 <= j < unit.len() && unit[j] == m as usize;
                    assert(!all.registered(unit[j] as int));
                }
            }
            assert forall|j: int| 0 <= j < k implies !all.unit_registered(
                #[trigger] images[j] as int,
            ) by {
                if all.unit_registered(images[j] as int) {
                    let m = choose|m: int| #[trigger]
                        all.registered(m) && all.same_unit(m, images[j] as int);
                    assert(rest.registered(m) && rest.same_unit(m, images[j] as int));
                    assert(rest.unit_registered(images[j] as int));
                }
            }
        }
    }
}

} // verus!

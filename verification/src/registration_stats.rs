//! Registration counts of a reconstruction, per image, camera and rig.

use crate::indices::{
    count_where, indices_where, lemma_count_bound, lemma_count_turned_on, lemma_where_congruent,
};
use crate::registration_units::{
    lemma_unit_members, lemma_unit_seen_step, registration_unit_key, unit_seen, RegistrationUnitKey,
    UnitSet,
};
use crate::sets::copy_set;
use crate::types::{Reconstruction, ReconstructionView};
use std::collections::{HashMap, HashSet};
use vstd::prelude::*;

verus! {

/// The count stored under a key, 0 if there is none.
pub open spec fn lookup(counts: Map<u32, usize>, key: u32) -> usize {
    if counts.contains_key(key) {
        counts[key]
    } else {
        0
    }
}

/// The count stored at a position, 0 beyond the end.
pub open spec fn count_at(counts: Seq<usize>, i: int) -> usize {
    if 0 <= i < counts.len() {
        counts[i]
    } else {
        0
    }
}

/// A count list long enough for an image.
pub open spec fn widened(counts: Seq<usize>, image: usize) -> Seq<usize> {
    if image < counts.len() {
        counts
    } else {
        counts + Seq::new((image + 1 - counts.len()) as nat, |i: int| 0usize)
    }
}

#[derive(Debug)]
pub struct RegistrationStats {
    pub init_num_reg_trials: Vec<usize>,
    pub init_image_pairs: HashSet<u64>,
    pub existing_registration_units: UnitSet,
    pub num_reg_frames_per_rig: HashMap<u32, usize>,
    pub num_reg_images_per_camera: HashMap<u32, usize>,
    pub num_registrations: Vec<usize>,
    pub num_total_reg_images: usize,
    pub num_shared_reg_images: usize,
}

/// What registration statistics hold.
#[verifier::ext_equal]
pub struct StatsView {
    pub trials: Seq<usize>,
    pub tried_pairs: Set<u64>,
    pub existing: Set<RegistrationUnitKey>,
    pub frames_per_rig: Map<u32, usize>,
    pub images_per_camera: Map<u32, usize>,
    pub registrations: Seq<usize>,
    pub total: usize,
    pub shared: usize,
}

impl View for RegistrationStats {
    type V = StatsView;

    open spec fn view(&self) -> StatsView {
        StatsView {
            trials: self.init_num_reg_trials@,
            tried_pairs: self.init_image_pairs@,
            existing: self.existing_registration_units@,
            frames_per_rig: self.num_reg_frames_per_rig@,
            images_per_camera: self.num_reg_images_per_camera@,
            registrations: self.num_registrations@,
            total: self.num_total_reg_images,
            shared: self.num_shared_reg_images,
        }
    }
}

/// The statistics after an image was registered once more.
pub open spec fn image_registered(s: StatsView, r: ReconstructionView, image: usize) -> StatsView {
    if image >= r.poses.len() {
        s
    } else {
        let camera = r.camera_id_of(image as int);
        let wide = widened(s.registrations, image);
        StatsView {
            images_per_camera: s.images_per_camera.insert(
                camera,
                (lookup(s.images_per_camera, camera) + 1) as usize,
            ),
            registrations: wide.update(image as int, (wide[image as int] + 1) as usize),
            total: if wide[image as int] == 0 {
                (s.total + 1) as usize
            } else {
                s.total
            },
            shared: if wide[image as int] == 0 {
                s.shared
            } else {
                (s.shared + 1) as usize
            },
            ..s
        }
    }
}

pub open spec fn saturating_dec(n: usize) -> usize {
    if n > 0 {
        (n - 1) as usize
    } else {
        0
    }
}

/// The statistics after one registration of an image was taken back.
pub open spec fn image_deregistered(
    s: StatsView,
    r: ReconstructionView,
    image: usize,
) -> StatsView {
    if image >= r.poses.len() {
        s
    } else {
        let camera = r.camera_id_of(image as int);
        let had = count_at(s.registrations, image as int);
        StatsView {
            images_per_camera: if s.images_per_camera.contains_key(camera) {
                s.images_per_camera.insert(camera, saturating_dec(s.images_per_camera[camera]))
            } else {
                s.images_per_camera
            },
            registrations: if had > 0 {
                s.registrations.update(image as int, (had - 1) as usize)
            } else {
                s.registrations
            },
            total: if had == 1 {
                saturating_dec(s.total)
            } else {
                s.total
            },
            shared: if had > 1 {
                saturating_dec(s.shared)
            } else {
                s.shared
            },
            ..s
        }
    }
}

/// The first `k` of a list of images registered one after the other.
pub open spec fn images_registered(
    s: StatsView,
    r: ReconstructionView,
    images: Seq<usize>,
    k: nat,
) -> StatsView
    decreases k,
{
    if k == 0 {
        s
    } else {
        image_registered(images_registered(s, r, images, (k - 1) as nat), r, images[k - 1])
    }
}

pub open spec fn images_deregistered(
    s: StatsView,
    r: ReconstructionView,
    images: Seq<usize>,
    k: nat,
) -> StatsView
    decreases k,
{
    if k == 0 {
        s
    } else {
        image_deregistered(images_deregistered(s, r, images, (k - 1) as nat), r, images[k - 1])
    }
}

/// The statistics after a frame was registered with all its images.
pub open spec fn frame_registered(s: StatsView, r: ReconstructionView, frame: usize) -> StatsView {
    if frame >= r.frames.len() {
        s
    } else {
        let rig = r.frames[frame as int].rig_id;
        let images = r.images_of_frame(frame);
        images_registered(
            StatsView {
                frames_per_rig: s.frames_per_rig.insert(
                    rig,
                    (lookup(s.frames_per_rig, rig) + 1) as usize,
                ),
                ..s
            },
            r,
            images,
            images.len(),
        )
    }
}

pub open spec fn frame_deregistered(
    s: StatsView,
    r: ReconstructionView,
    frame: usize,
) -> StatsView {
    if frame >= r.frames.len() {
        s
    } else {
        let rig = r.frames[frame as int].rig_id;
        let images = r.images_of_frame(frame);
        images_deregistered(
            StatsView {
                frames_per_rig: if s.frames_per_rig.contains_key(rig) {
                    s.frames_per_rig.insert(rig, saturating_dec(s.frames_per_rig[rig]))
                } else {
                    s.frames_per_rig
                },
                ..s
            },
            r,
            images,
            images.len(),
        )
    }
}

/// The statistics after the unit of an image was registered.
pub open spec fn unit_registered(s: StatsView, r: ReconstructionView, image: usize) -> StatsView {
    match r.frame_of(image as int) {
        Some(frame) => frame_registered(s, r, frame),
        None => image_registered(s, r, image),
    }
}

pub open spec fn unit_deregistered(s: StatsView, r: ReconstructionView, image: usize) -> StatsView {
    match r.frame_of(image as int) {
        Some(frame) => frame_deregistered(s, r, frame),
        None => image_deregistered(s, r, image),
    }
}

/// Whether the counters can take `n` more registrations.
pub open spec fn counters_have_room(s: StatsView, n: nat) -> bool {
    &&& forall|key: u32| #[trigger] lookup(s.frames_per_rig, key) + n <= usize::MAX
    &&& forall|key: u32| #[trigger] lookup(s.images_per_camera, key) + n <= usize::MAX
    &&& forall|i: int| #[trigger] count_at(s.registrations, i) + n <= usize::MAX
    &&& s.total + n <= usize::MAX
    &&& s.shared + n <= usize::MAX
}

/// Counters that grow by no more than the room they give up have the rest left.
proof fn lemma_room_shrinks(s: StatsView, n: nat, t: StatsView, m: nat)
    requires
        counters_have_room(s, n),
        forall|key: u32| #[trigger]
            lookup(t.frames_per_rig, key) + m <= lookup(s.frames_per_rig, key) + n,
        forall|key: u32| #[trigger]
            lookup(t.images_per_camera, key) + m <= lookup(s.images_per_camera, key) + n,
        forall|i: int| #[trigger]
            count_at(t.registrations, i) + m <= count_at(s.registrations, i) + n,
        t.total + m <= s.total + n,
        t.shared + m <= s.shared + n,
    ensures
        counters_have_room(t, m),
{
}

proof fn lemma_room_after_image(s: StatsView, r: ReconstructionView, image: usize, n: nat)
    requires
        counters_have_room(s, (n + 1) as nat),
    ensures
        counters_have_room(image_registered(s, r, image), n),
{
    lemma_room_shrinks(s, (n + 1) as nat, image_registered(s, r, image), n);
}

fn widen(counts: &mut Vec<usize>, image: usize)
    requires
        image < usize::MAX,
    ensures
        final(counts)@ == widened(old(counts)@, image),
{
    let ghost before = counts@;
    while counts.len() <= image
        invariant
            image < usize::MAX,
            before.len() <= counts@.len(),
            image < before.len() ==> counts@ == before,
            image >= before.len() ==> counts@.len() <= image + 1,
            forall|i: int| 0 <= i < before.len() ==> counts@[i] == before[i],
            forall|i: int| before.len() <= i < counts@.len() ==> counts@[i] == 0,
        decreases image + 1 - counts.len(),
    {
        counts.push(0);
    }
    assert(counts@ =~= widened(before, image));
}

/// The stored count of a key.
fn read(counts: &HashMap<u32, usize>, key: u32) -> (n: usize)
    ensures
        n == lookup(counts@, key),
{
    broadcast use vstd::std_specs::hash::group_hash_axioms;

    match counts.get(&key) {
        Some(n) => *n,
        None => 0,
    }
}

impl Default for RegistrationStats {
    fn default() -> (stats: RegistrationStats)
        ensures
            stats@ == (StatsView {
                trials: Seq::empty(),
                tried_pairs: Set::empty(),
                existing: Set::empty(),
                frames_per_rig: Map::empty(),
                images_per_camera: Map::empty(),
                registrations: Seq::empty(),
                total: 0,
                shared: 0,
            }),
    {
        RegistrationStats::new()
    }
}

impl Clone for RegistrationStats {
    fn clone(&self) -> (stats: RegistrationStats)
        ensures
            stats@ == self@,
    {
        broadcast use vstd::std_specs::hash::group_hash_axioms;

        let stats = RegistrationStats {
            init_num_reg_trials: self.init_num_reg_trials.clone(),
            init_image_pairs: copy_set(&self.init_image_pairs),
            existing_registration_units: self.existing_registration_units.clone(),
            num_reg_frames_per_rig: self.num_reg_frames_per_rig.clone(),
            num_reg_images_per_camera: self.num_reg_images_per_camera.clone(),
            num_registrations: self.num_registrations.clone(),
            num_total_reg_images: self.num_total_reg_images,
            num_shared_reg_images: self.num_shared_reg_images,
        };
        assert(stats@ =~= self@);
        stats
    }
}

impl RegistrationStats {
    pub fn new() -> (stats: RegistrationStats)
        ensures
            stats@ == (StatsView {
                trials: Seq::empty(),
                tried_pairs: Set::empty(),
                existing: Set::empty(),
                frames_per_rig: Map::empty(),
                images_per_camera: Map::empty(),
                registrations: Seq::empty(),
                total: 0,
                shared: 0,
            }),
    {
        broadcast use vstd::std_specs::hash::group_hash_axioms;

        RegistrationStats {
            init_num_reg_trials: Vec::new(),
            init_image_pairs: HashSet::new(),
            existing_registration_units: UnitSet::new(),
            num_reg_frames_per_rig: HashMap::new(),
            num_reg_images_per_camera: HashMap::new(),
            num_registrations: Vec::new(),
            num_total_reg_images: 0,
            num_shared_reg_images: 0,
        }
    }

    /// Counts a registration of an image.
    pub fn register_image_event(&mut self, reconstruction: &Reconstruction, image: usize)
        requires
            counters_have_room(old(self)@, 1),
        ensures
            final(self)@ == image_registered(old(self)@, reconstruction@, image),
    {
        broadcast use vstd::std_specs::hash::group_hash_axioms;

        if image >= reconstruction.poses.len() {
            return;
        }
        let camera_id: u32 = reconstruction.camera_id_for_image(image);
        let in_camera: usize = read(&self.num_reg_images_per_camera, camera_id);
        assert(lookup(self@.images_per_camera, camera_id) + 1 <= usize::MAX);
        assert(count_at(self@.registrations, image as int) + 1 <= usize::MAX);
        self.num_reg_images_per_camera.insert(camera_id, in_camera + 1);
        widen(&mut self.num_registrations, image);
        self.num_registrations[image] = self.num_registrations[image] + 1;
        if self.num_registrations[image] == 1 {
            self.num_total_reg_images = self.num_total_reg_images + 1;
        } else {
            self.num_shared_reg_images = self.num_shared_reg_images + 1;
        }
        assert(self@ =~= image_registered(old(self)@, reconstruction@, image));
    }

    /// Takes back a registration of an image.
    pub fn deregister_image_event(&mut self, reconstruction: &Reconstruction, image: usize)
        ensures
            final(self)@ == image_deregistered(old(self)@, reconstruction@, image),
    {
        broadcast use vstd::std_specs::hash::group_hash_axioms;

        if image >= reconstruction.poses.len() {
            return;
        }
        let camera_id: u32 = reconstruction.camera_id_for_image(image);
        if self.num_reg_images_per_camera.contains_key(&camera_id) {
            let in_camera: usize = read(&self.num_reg_images_per_camera, camera_id);
            let left: usize = if in_camera > 0 {
                in_camera - 1
            } else {
                0
            };
            self.num_reg_images_per_camera.insert(camera_id, left);
        }
        if image < self.num_registrations.len() && self.num_registrations[image] > 0 {
            self.num_registrations[image] = self.num_registrations[image] - 1;
            if self.num_registrations[image] == 0 {
                if self.num_total_reg_images > 0 {
                    self.num_total_reg_images = self.num_total_reg_images - 1;
                }
            } else if self.num_shared_reg_images > 0 {
                self.num_shared_reg_images = self.num_shared_reg_images - 1;
            }
        }
        assert(self@ =~= image_deregistered(old(self)@, reconstruction@, image));
    }

    /// Counts a registration of a frame with all its images.
    pub fn register_frame_event(&mut self, reconstruction: &Reconstruction, frame_idx: usize)
        requires
            counters_have_room(old(self)@, reconstruction@.images_of_frame(frame_idx).len() + 1),
        ensures
            final(self)@ == frame_registered(old(self)@, reconstruction@, frame_idx),
    {
        broadcast use vstd::std_specs::hash::group_hash_axioms;

        if frame_idx >= reconstruction.frames.len() {
            return;
        }
        let rig_id: u32 = reconstruction.frames[frame_idx].rig_id;
        let in_rig: usize = read(&self.num_reg_frames_per_rig, rig_id);
        assert(lookup(self@.frames_per_rig, rig_id) + 1 <= usize::MAX);
        self.num_reg_frames_per_rig.insert(rig_id, in_rig + 1);
        let ghost start = self@;
        let images: Vec<usize> = reconstruction.image_indices_for_frame_index(frame_idx);
        proof {
            lemma_room_shrinks(old(self)@, images@.len() + 1, start, images@.len());
        }
        for k in 0..images.len()
            invariant
                self@ == images_registered(start, reconstruction@, images@, k as nat),
                counters_have_room(self@, (images@.len() - k) as nat),
        {
            let ghost before = self@;
            proof {
                let n = (images@.len() - k - 1) as nat;
                lemma_room_after_image(before, reconstruction@, images@[k as int], n);
                lemma_room_shrinks(before, n + 1, before, 1);
            }
            self.register_image_event(reconstruction, images[k]);
        }
    }

    /// Takes back a registration of a frame with all its images.
    pub fn deregister_frame_event(&mut self, reconstruction: &Reconstruction, frame_idx: usize)
        ensures
            final(self)@ == frame_deregistered(old(self)@, reconstruction@, frame_idx),
    {
        broadcast use vstd::std_specs::hash::group_hash_axioms;

        if frame_idx >= reconstruction.frames.len() {
            return;
        }
        let rig_id: u32 = reconstruction.frames[frame_idx].rig_id;
        if self.num_reg_frames_per_rig.contains_key(&rig_id) {
            let in_rig: usize = read(&self.num_reg_frames_per_rig, rig_id);
            let left: usize = if in_rig > 0 {
                in_rig - 1
            } else {
                0
            };
            self.num_reg_frames_per_rig.insert(rig_id, left);
        }
        let ghost start = self@;
        let images: Vec<usize> = reconstruction.image_indices_for_frame_index(frame_idx);
        for k in 0..images.len()
            invariant
                self@ == images_deregistered(start, reconstruction@, images@, k as nat),
        {
            self.deregister_image_event(reconstruction, images[k]);
        }
    }

    /// Counts a registration of the unit of an image.
    pub fn register_frame_for_image_event(&mut self, reconstruction: &Reconstruction, image: usize)
        requires
            counters_have_room(old(self)@, reconstruction@.unit_of(image).len() + 1),
        ensures
            final(self)@ == unit_registered(old(self)@, reconstruction@, image),
    {
        match reconstruction.frame_index_for_image(image) {
            Some(frame_idx) => self.register_frame_event(reconstruction, frame_idx),
            None => {
                proof {
                    lemma_room_shrinks(self@, 2, self@, 1);
                }
                self.register_image_event(reconstruction, image)
            },
        }
    }

    /// Takes back a registration of the unit of an image.
    pub fn deregister_frame_for_image_event(
        &mut self,
        reconstruction: &Reconstruction,
        image: usize,
    )
        ensures
            final(self)@ == unit_deregistered(old(self)@, reconstruction@, image),
    {
        match reconstruction.frame_index_for_image(image) {
            Some(frame_idx) => self.deregister_frame_event(reconstruction, frame_idx),
            None => self.deregister_image_event(reconstruction, image),
        }
    }

    pub fn registered_frames_with_rig_id(&self, rig_id: u32) -> (n: usize)
        ensures
            n == lookup(self@.frames_per_rig, rig_id),
    {
        read(&self.num_reg_frames_per_rig, rig_id)
    }

    pub fn registered_images_with_camera_id(&self, camera_id: u32) -> (n: usize)
        ensures
            n == lookup(self@.images_per_camera, camera_id),
    {
        read(&self.num_reg_images_per_camera, camera_id)
    }
}

/// Whether the tables are no larger than memory allows.
pub open spec fn sizes_fit(r: ReconstructionView) -> bool {
    r.poses.len() + r.image_frame_indices.len() + r.frames.len() + 2 <= usize::MAX
}

/// Whether an image counts as registered: its unit is, and its frame, if it
/// names one, exists.
pub open spec fn counts_as_registered(r: ReconstructionView, m: int) -> bool {
    r.unit_registered(m) && frame_exists(r, m)
}

pub open spec fn frame_exists(r: ReconstructionView, m: int) -> bool {
    match r.frame_of(m) {
        Some(frame) => frame < r.frames.len(),
        None => true,
    }
}

/// Whether a frame has a registered image.
pub open spec fn frame_has_pose(r: ReconstructionView, frame: int) -> bool {
    exists|j: int| #[trigger] r.registered(j) && r.frame_of(j) == Some(frame as usize)
}

/// Selects the images of a set that are taken with a camera.
pub open spec fn members_with_camera(
    r: ReconstructionView,
    members: Set<int>,
    camera: u32,
) -> spec_fn(int) -> bool {
    |m: int| members.contains(m) && r.camera_id_of(m) == camera
}

pub open spec fn members_of(members: Set<int>) -> spec_fn(int) -> bool {
    |m: int| members.contains(m)
}

/// Selects the frames of a set that belong to a rig.
pub open spec fn frames_with_rig(
    r: ReconstructionView,
    members: Set<int>,
    rig: u32,
) -> spec_fn(int) -> bool {
    |f: int| members.contains(f) && r.frames[f].rig_id == rig
}

/// The counts of a reconstruction in which exactly the images `members` and
/// the frames `frames` have been registered, each once.
pub open spec fn counts_once(
    s: StatsView,
    r: ReconstructionView,
    members: Set<int>,
    frames: Set<int>,
) -> bool {
    &&& s.registrations.len() == r.poses.len()
    &&& forall|m: int|
        0 <= m < r.poses.len() ==> #[trigger] s.registrations[m] == (if members.contains(m) {
            1usize
        } else {
            0usize
        })
    &&& forall|camera: u32| #[trigger]
        lookup(s.images_per_camera, camera) == count_where(
            r.poses.len(),
            members_with_camera(r, members, camera),
        )
    &&& forall|rig: u32| #[trigger]
        lookup(s.frames_per_rig, rig) == count_where(
            r.frames.len(),
            frames_with_rig(r, frames, rig),
        )
    &&& s.total == count_where(r.poses.len(), members_of(members))
    &&& s.shared == 0
}

/// The images and frames of a reconstruction that count as registered.
pub open spec fn registered_members(r: ReconstructionView) -> Set<int> {
    Set::new(|m: int| counts_as_registered(r, m))
}

pub open spec fn registered_frames(r: ReconstructionView) -> Set<int> {
    Set::new(|f: int| 0 <= f < r.frames.len() && frame_has_pose(r, f))
}

proof fn lemma_count_once_room(
    s: StatsView,
    r: ReconstructionView,
    members: Set<int>,
    frames: Set<int>,
    n: nat,
)
    requires
        counts_once(s, r, members, frames),
        sizes_fit(r),
        n <= r.image_frame_indices.len() + 2,
    ensures
        counters_have_room(s, n),
{
    assert forall|key: u32| #[trigger] lookup(s.frames_per_rig, key) + n <= usize::MAX by {
        lemma_count_bound(r.frames.len(), frames_with_rig(r, frames, key));
    }
    assert forall|key: u32| #[trigger] lookup(s.images_per_camera, key) + n <= usize::MAX by {
        lemma_count_bound(r.poses.len(), members_with_camera(r, members, key));
    }
    assert forall|i: int| #[trigger] count_at(s.registrations, i) + n <= usize::MAX by {
        if 0 <= i < r.poses.len() {
            assert(s.registrations[i] <= 1);
        }
    }
    lemma_count_bound(r.poses.len(), members_of(members));
}

/// Registering an image that is not counted yet adds it to the members.
proof fn lemma_count_once_image(
    s: StatsView,
    r: ReconstructionView,
    members: Set<int>,
    frames: Set<int>,
    image: usize,
)
    requires
        counts_once(s, r, members, frames),
        sizes_fit(r),
        !members.contains(image as int),
    ensures
        counts_once(image_registered(s, r, image), r, members.insert(image as int), frames),
{
    let after = image_registered(s, r, image);
    let more = members.insert(image as int);
    let n = r.poses.len();
    if image >= n {
        assert forall|camera: u32| #[trigger]
            lookup(after.images_per_camera, camera) == count_where(
                n,
                members_with_camera(r, more, camera),
            ) by {
            assert(lookup(s.images_per_camera, camera) == count_where(
                n,
                members_with_camera(r, members, camera),
            ));
            lemma_where_congruent(
                n,
                members_with_camera(r, members, camera),
                members_with_camera(r, more, camera),
            );
        }
        lemma_where_congruent(n, members_of(members), members_of(more));
        assert forall|m: int| 0 <= m < n implies #[trigger] after.registrations[m] == (
        if more.contains(m) {
            1usize
        } else {
            0usize
        }) by {
            assert(s.registrations[m] == after.registrations[m]);
        }
    } else {
        let own = r.camera_id_of(image as int);
        assert(s.registrations[image as int] == 0);
        assert(widened(s.registrations, image) == s.registrations);
        lemma_count_bound(n, members_of(more));
        assert forall|camera: u32| #[trigger]
            lookup(after.images_per_camera, camera) == count_where(
                n,
                members_with_camera(r, more, camera),
            ) by {
            let p = members_with_camera(r, members, camera);
            let q = members_with_camera(r, more, camera);
            assert(lookup(s.images_per_camera, camera) == count_where(n, p));
            lemma_count_bound(n, q);
            if camera == own {
                lemma_count_turned_on(n, p, q, image as int);
            } else {
                lemma_where_congruent(n, p, q);
            }
        }
        lemma_count_turned_on(n, members_of(members), members_of(more), image as int);
        assert forall|m: int| 0 <= m < n implies #[trigger] after.registrations[m] == (
        if more.contains(m) {
            1usize
        } else {
            0usize
        }) by {
            assert(s.registrations[m] == (if members.contains(m) {
                1usize
            } else {
                0usize
            }));
        }
    }
    assert forall|rig: u32| #[trigger] lookup(after.frames_per_rig, rig) == count_where(
        r.frames.len(),
        frames_with_rig(r, frames, rig),
    ) by {
        assert(lookup(s.frames_per_rig, rig) == lookup(after.frames_per_rig, rig));
    }
}

/// A set of images with the first `k` of a list added.
spec fn with_first(members: Set<int>, images: Seq<usize>, k: nat) -> Set<int> {
    members.union(Set::new(|m: int| exists|j: int| 0 <= j < k && #[trigger] images[j] == m))
}

proof fn lemma_count_once_images(
    s: StatsView,
    r: ReconstructionView,
    members: Set<int>,
    frames: Set<int>,
    images: Seq<usize>,
    k: nat,
)
    requires
        counts_once(s, r, members, frames),
        sizes_fit(r),
        k <= images.len(),
        images.no_duplicates(),
        forall|j: int| 0 <= j < images.len() ==> !members.contains(#[trigger] images[j] as int),
    ensures
        counts_once(
            images_registered(s, r, images, k),
            r,
            with_first(members, images, k),
            frames,
        ),
    decreases k,
{
    if k == 0 {
        assert(with_first(members, images, 0) =~= members);
    } else {
        let prev = (k - 1) as nat;
        lemma_count_once_images(s, r, members, frames, images, prev);
        let image = images[k - 1];
        assert(!members.contains(images[k - 1] as int));
        assert(!with_first(members, images, prev).contains(image as int)) by {
            if exists|j: int| 0 <= j < prev && #[trigger] images[j] == image as int {
                let j = choose|j: int| 0 <= j < prev && #[trigger] images[j] == image as int;
                assert(images[j] == images[k - 1]);
            }
        }
        lemma_count_once_image(
            images_registered(s, r, images, prev),
            r,
            with_first(members, images, prev),
            frames,
            image,
        );
        assert(with_first(members, images, prev).insert(image as int) =~= with_first(
            members,
            images,
            k,
        )) by {
            assert forall|m: int| #[trigger]
                with_first(members, images, prev).insert(image as int).contains(m) <==> with_first(
                members,
                images,
                k,
            ).contains(m) by {
                if exists|j: int| 0 <= j < prev && #[trigger] images[j] == m {
                    let j = choose|j: int| 0 <= j < prev && #[trigger] images[j] == m;
                    assert(0 <= j < k && images[j] == m);
                }
                assert(images[k - 1] == image);
            }
        }
    }
}

/// The members and frames counted once the first `n` images have been visited.
spec fn members_seen(r: ReconstructionView, n: int) -> Set<int> {
    Set::new(|m: int| unit_seen(r, n, m) && frame_exists(r, m))
}

spec fn frames_seen(r: ReconstructionView, n: int) -> Set<int> {
    Set::new(
        |f: int|
            0 <= f < r.frames.len() && exists|j: int|
                0 <= j < n && #[trigger] r.registered(j) && r.frame_of(j) == Some(f as usize),
    )
}

/// Visiting a further image adds the members of its unit, if it is registered.
proof fn lemma_seen_step(r: ReconstructionView, n: int)
    requires
        0 <= n,
    ensures
        forall|m: int| #[trigger]
            members_seen(r, n + 1).contains(m) <==> members_seen(r, n).contains(m) || (r.registered(
                n,
            ) && r.same_unit(n, m) && frame_exists(r, m)),
        forall|f: int| #[trigger]
            frames_seen(r, n + 1).contains(f) <==> frames_seen(r, n).contains(f) || (r.registered(
                n,
            ) && 0 <= f < r.frames.len() && r.frame_of(n) == Some(f as usize)),
{
    assert forall|m: int| #[trigger]
        members_seen(r, n + 1).contains(m) <==> members_seen(r, n).contains(m) || (r.registered(n)
            && r.same_unit(n, m) && frame_exists(r, m)) by {
        lemma_unit_seen_step(r, n, m);
    }
    assert forall|f: int| #[trigger]
        frames_seen(r, n + 1).contains(f) <==> frames_seen(r, n).contains(f) || (r.registered(n) && 0
            <= f < r.frames.len() && r.frame_of(n) == Some(f as usize)) by {
        if frames_seen(r, n + 1).contains(f) {
            let j = choose|j: int|
                0 <= j < n + 1 && #[trigger] r.registered(j) && r.frame_of(j) == Some(f as usize);
            if j < n {
                assert(0 <= j < n && r.registered(j));
            }
        }
        if frames_seen(r, n).contains(f) {
            let j = choose|j: int|
                0 <= j < n && #[trigger] r.registered(j) && r.frame_of(j) == Some(f as usize);
            assert(0 <= j < n + 1 && r.registered(j));
        }
    }
}

/// Registering the unit of the next unit leader.
proof fn lemma_leader_registered(s: StatsView, r: ReconstructionView, n: usize)
    requires
        counts_once(s, r, members_seen(r, n as int), frames_seen(r, n as int)),
        sizes_fit(r),
        r.registered(n as int),
        !unit_seen(r, n as int, n as int),
    ensures
        counts_once(
            unit_registered(s, r, n),
            r,
            members_seen(r, n + 1),
            frames_seen(r, n + 1),
        ),
{
    let members = members_seen(r, n as int);
    let frames = frames_seen(r, n as int);
    lemma_seen_step(r, n as int);
    match r.frame_of(n as int) {
        None => {
            lemma_count_once_image(s, r, members, frames, n);
            assert(members.insert(n as int) =~= members_seen(r, n + 1));
            assert(frames =~= frames_seen(r, n + 1));
        },
        Some(frame) => {
            if frame >= r.frames.len() {
                assert(members =~= members_seen(r, n + 1));
                assert(frames =~= frames_seen(r, n + 1));
            } else {
                let images = r.images_of_frame(frame);
                lemma_unit_members(r, n);
                assert(r.unit_of(n) == images);
                assert forall|j: int| 0 <= j < images.len() implies !members.contains(
                    #[trigger] images[j] as int,
                ) by {
                    assert(images.contains(images[j]));
                    assert(r.same_unit(n as int, images[j] as int));
                    if unit_seen(r, n as int, images[j] as int) {
                        let i = choose|i: int|
                            0 <= i < n && #[trigger] r.registered(i) && r.same_unit(
                                i,
                                images[j] as int,
                            );
                        assert(r.same_unit(i, n as int));
                        assert(unit_seen(r, n as int, n as int));
                    }
                }
                let more = frames.insert(frame as int);
                let rig = r.frames[frame as int].rig_id;
                let start = StatsView {
                    frames_per_rig: s.frames_per_rig.insert(
                        rig,
                        (lookup(s.frames_per_rig, rig) + 1) as usize,
                    ),
                    ..s
                };
                assert(!frames.contains(frame as int)) by {
                    if frames.contains(frame as int) {
                        let i = choose|i: int|
                            0 <= i < n && #[trigger] r.registered(i) && r.frame_of(i) == Some(
                                frame as int as usize,
                            );
                        assert(r.same_unit(i, n as int));
                        assert(unit_seen(r, n as int, n as int));
                    }
                }
                assert(counts_once(start, r, members, more)) by {
                    assert forall|g: u32| #[trigger]
                        lookup(start.frames_per_rig, g) == count_where(
                            r.frames.len(),
                            frames_with_rig(r, more, g),
                        ) by {
                        let p = frames_with_rig(r, frames, g);
                        let q = frames_with_rig(r, more, g);
                        assert(lookup(s.frames_per_rig, g) == count_where(r.frames.len(), p));
                        lemma_count_bound(r.frames.len(), q);
                        if g == rig {
                            lemma_count_turned_on(r.frames.len(), p, q, frame as int);
                        } else {
                            lemma_where_congruent(r.frames.len(), p, q);
                        }
                    }
                    assert forall|camera: u32| #[trigger]
                        lookup(start.images_per_camera, camera) == count_where(
                            r.poses.len(),
                            members_with_camera(r, members, camera),
                        ) by {
                        assert(lookup(s.images_per_camera, camera) == lookup(
                            start.images_per_camera,
                            camera,
                        ));
                    }
                }
                lemma_count_once_images(start, r, members, more, images, images.len());
                let union = with_first(members, images, images.len());
                assert(union =~= members_seen(r, n + 1)) by {
                    assert forall|m: int| union.contains(m) <==> members_seen(r, n + 1).contains(
                        m,
                    ) by {
                        if exists|j: int| 0 <= j < images.len() && #[trigger] images[j] == m {
                            let j = choose|j: int|
                                0 <= j < images.len() && #[trigger] images[j] == m;
                            assert(images.contains(images[j]));
                            assert(r.unit_of(n).contains(images[j]));
                        }
                        if r.same_unit(n as int, m) {
                            assert(0 <= m < r.image_frame_indices.len());
                            assert(images.contains(m as usize));
                            let j = choose|j: int| 0 <= j < images.len() && images[j] == m as usize;
                            assert(images[j] == m);
                        }
                    }
                }
                assert(more =~= frames_seen(r, n + 1));
            }
        },
    }
}

impl RegistrationStats {
    /// The statistics of a reconstruction, every unit with a registered image
    /// counted once.
    pub fn from_reconstruction(reconstruction: &Reconstruction) -> (stats: RegistrationStats)
        requires
            sizes_fit(reconstruction@),
        ensures
            counts_once(
                stats@,
                reconstruction@,
                registered_members(reconstruction@),
                registered_frames(reconstruction@),
            ),
            stats@.trials == Seq::new(reconstruction@.poses.len(), |i: int| 0usize),
            stats@.tried_pairs == Set::<u64>::empty(),
            stats@.existing == Set::<RegistrationUnitKey>::empty(),
    {
        let ghost r = reconstruction@;
        let mut stats = RegistrationStats::new();
        let num_images: usize = reconstruction.poses.len();
        for i in 0..num_images
            invariant
                num_images == r.poses.len(),
                stats@.trials == Seq::new(i as nat, |j: int| 0usize),
                stats@ == (StatsView {
                    trials: stats@.trials,
                    tried_pairs: Set::empty(),
                    existing: Set::empty(),
                    frames_per_rig: Map::empty(),
                    images_per_camera: Map::empty(),
                    registrations: stats@.trials,
                    total: 0,
                    shared: 0,
                }),
        {
            stats.init_num_reg_trials.push(0);
            stats.num_registrations.push(0);
            assert(stats@.trials =~= Seq::new((i + 1) as nat, |j: int| 0usize));
        }
        let mut seen = UnitSet::new();
        proof {
            lemma_nothing_counted(stats@, r);
        }
        for image in 0..num_images
            invariant
                r == reconstruction@,
                num_images == r.poses.len(),
                sizes_fit(r),
                counts_once(
                    stats@,
                    r,
                    members_seen(r, image as int),
                    frames_seen(r, image as int),
                ),
                stats@.trials == Seq::new(num_images as nat, |j: int| 0usize),
                stats@.tried_pairs == Set::<u64>::empty(),
                stats@.existing == Set::<RegistrationUnitKey>::empty(),
                forall|m: usize|
                    seen@.contains(#[trigger] r.unit_key(m)) <==> unit_seen(
                        r,
                        image as int,
                        m as int,
                    ),
        {
            proof {
                lemma_seen_step(r, image as int);
            }
            let ghost marks = seen@;
            if reconstruction.poses[image].is_some() {
                let key = registration_unit_key(reconstruction, image);
                assert(r.registered(image as int));
                assert(seen@.contains(r.unit_key(image)) <==> unit_seen(
                    r,
                    image as int,
                    image as int,
                ));
                if seen.insert(key) {
                    proof {
                        lemma_leader_registered(stats@, r, image);
                        lemma_unit_size(r, image);
                        lemma_count_once_room(
                            stats@,
                            r,
                            members_seen(r, image as int),
                            frames_seen(r, image as int),
                            r.unit_of(image).len() + 1,
                        );
                        lemma_unit_registered_frame(stats@, r, image);
                    }
                    stats.register_frame_for_image_event(reconstruction, image);
                } else {
                    proof {
                        lemma_follower(r, image);
                    }
                }
            } else {
                proof {
                    assert(!r.registered(image as int));
                    assert(members_seen(r, image + 1) =~= members_seen(r, image as int));
                    assert(frames_seen(r, image + 1) =~= frames_seen(r, image as int));
                }
            }
            proof {
                assert forall|m: usize|
                    seen@.contains(#[trigger] r.unit_key(m)) <==> unit_seen(
                        r,
                        image + 1,
                        m as int,
                    ) by {
                    lemma_unit_seen_step(r, image as int, m as int);
                    assert(marks.contains(r.unit_key(m)) <==> unit_seen(
                        r,
                        image as int,
                        m as int,
                    ));
                    crate::registration_units::law_units_partition(r, image, m, m);
                }
            }
        }
        proof {
            let n = num_images as int;
            assert(members_seen(r, n) =~= registered_members(r)) by {
                assert forall|m: int| unit_seen(r, n, m) <==> #[trigger] r.unit_registered(m) by {
                    if r.unit_registered(m) {
                        let j = choose|j: int| #[trigger] r.registered(j) && r.same_unit(j, m);
                        assert(0 <= j < n && r.registered(j));
                    }
                    if unit_seen(r, n, m) {
                        let j = choose|j: int|
                            0 <= j < n && #[trigger] r.registered(j) && r.same_unit(j, m);
                        assert(r.registered(j) && r.same_unit(j, m));
                    }
                }
            }
            assert(frames_seen(r, n) =~= registered_frames(r)) by {
                assert forall|f: int| frames_seen(r, n).contains(f) <==> registered_frames(
                    r,
                ).contains(f) by {
                    if registered_frames(r).contains(f) {
                        let j = choose|j: int| #[trigger]
                            r.registered(j) && r.frame_of(j) == Some(f as usize);
                        assert(0 <= j < n && r.registered(j));
                    }
                }
            }
        }
        stats
    }

    pub fn set_initial_pair_selection_state(
        &mut self,
        init_num_reg_trials: Vec<usize>,
        init_image_pairs: HashSet<u64>,
    )
        ensures
            final(self)@ == (StatsView {
                trials: init_num_reg_trials@,
                tried_pairs: init_image_pairs@,
                ..old(self)@
            }),
    {
        self.init_num_reg_trials = init_num_reg_trials;
        self.init_image_pairs = init_image_pairs;
    }

    /// Remembers the units that are registered now.
    pub fn set_existing_registration_units_from_reconstruction(
        &mut self,
        reconstruction: &Reconstruction,
    )
        ensures
            final(self)@ == (StatsView {
                existing: registered_keys(reconstruction@),
                ..old(self)@
            }),
    {
        let ghost r = reconstruction@;
        self.existing_registration_units.clear();
        for image in 0..reconstruction.poses.len()
            invariant
                r == reconstruction@,
                self@ == (StatsView { existing: self@.existing, ..old(self)@ }),
                forall|key: RegistrationUnitKey| #[trigger]
                    self@.existing.contains(key) <==> keyed_below(r, image as int, key),
        {
            let ghost before = self@.existing;
            if reconstruction.poses[image].is_some() {
                let key = registration_unit_key(reconstruction, image);
                self.existing_registration_units.insert(key);
            }
            proof {
                assert forall|key: RegistrationUnitKey| #[trigger]
                    self@.existing.contains(key) <==> keyed_below(r, image + 1, key) by {
                    assert(before.contains(key) <==> keyed_below(r, image as int, key));
                    if keyed_below(r, image as int, key) {
                        let j = choose|j: usize|
                            j < image && #[trigger] r.registered(j as int) && r.unit_key(j) == key;
                        assert(j < image + 1 && r.registered(j as int));
                    }
                    if r.registered(image as int) && r.unit_key(image) == key {
                        assert(keyed_below(r, image + 1, key));
                    }
                }
            }
        }
        let num_images: usize = reconstruction.poses.len();
        proof {
            assert forall|key: RegistrationUnitKey| self@.existing.contains(key)
                <==> registered_keys(r).contains(key) by {
                if registered_keys(r).contains(key) {
                    let j = choose|j: usize| #[trigger]
                        r.registered(j as int) && r.unit_key(j) == key;
                    assert(j < num_images && r.registered(j as int));
                }
            }
            assert(self@.existing =~= registered_keys(r));
        }
    }

    pub fn is_existing_registration_unit(
        &self,
        reconstruction: &Reconstruction,
        image: usize,
    ) -> (b: bool)
        ensures
            b == self@.existing.contains(reconstruction@.unit_key(image)),
    {
        self.existing_registration_units.contains(&registration_unit_key(reconstruction, image))
    }

    /// The registered images of remembered units.
    pub fn existing_registered_images(&self, reconstruction: &Reconstruction) -> (images: Vec<
        usize,
    >)
        ensures
            images@ == indices_where(
                reconstruction@.poses.len(),
                in_existing_unit(reconstruction@, self@.existing),
            ),
    {
        let mut images: Vec<usize> = Vec::new();
        for image in 0..reconstruction.poses.len()
            invariant
                images@ == indices_where(
                    image as nat,
                    in_existing_unit(reconstruction@, self@.existing),
                ),
        {
            if reconstruction.poses[image].is_some() && self.is_existing_registration_unit(
                reconstruction,
                image,
            ) {
                images.push(image);
            }
        }
        images
    }
}

/// Selects the registered images of units in a set.
pub open spec fn in_existing_unit(
    r: ReconstructionView,
    existing: Set<RegistrationUnitKey>,
) -> spec_fn(int) -> bool {
    |i: int| r.registered(i) && existing.contains(r.unit_key(i as usize))
}

/// The keys of the units with a registered image.
pub open spec fn registered_keys(r: ReconstructionView) -> Set<RegistrationUnitKey> {
    Set::new(
        |key: RegistrationUnitKey|
            exists|j: usize| #[trigger] r.registered(j as int) && r.unit_key(j) == key,
    )
}

spec fn keyed_below(r: ReconstructionView, n: int, key: RegistrationUnitKey) -> bool {
    exists|j: usize| j < n && #[trigger] r.registered(j as int) && r.unit_key(j) == key
}

proof fn lemma_nothing_counted(s: StatsView, r: ReconstructionView)
    requires
        s.registrations == Seq::new(r.poses.len(), |i: int| 0usize),
        s.images_per_camera == Map::<u32, usize>::empty(),
        s.frames_per_rig == Map::<u32, usize>::empty(),
        s.total == 0,
        s.shared == 0,
    ensures
        counts_once(s, r, members_seen(r, 0), frames_seen(r, 0)),
{
    let members = members_seen(r, 0);
    let frames = frames_seen(r, 0);
    assert forall|camera: u32| #[trigger] lookup(s.images_per_camera, camera) == count_where(
        r.poses.len(),
        members_with_camera(r, members, camera),
    ) by {
        crate::indices::lemma_count_positive(
            r.poses.len(),
            members_with_camera(r, members, camera),
        );
    }
    assert forall|rig: u32| #[trigger] lookup(s.frames_per_rig, rig) == count_where(
        r.frames.len(),
        frames_with_rig(r, frames, rig),
    ) by {
        crate::indices::lemma_count_positive(r.frames.len(), frames_with_rig(r, frames, rig));
    }
    crate::indices::lemma_count_positive(r.poses.len(), members_of(members));
}

/// A unit is no larger than the table of frames plus one.
proof fn lemma_unit_size(r: ReconstructionView, image: usize)
    ensures
        r.unit_of(image).len() <= r.image_frame_indices.len() + 1,
{
    match r.frame_of(image as int) {
        Some(frame) => {
            let p = crate::types::in_frame(r.image_frame_indices, frame);
            lemma_count_bound(r.image_frame_indices.len(), p);
            lemma_listing_len(r.image_frame_indices.len(), p);
        },
        None => {},
    }
}

proof fn lemma_listing_len(n: nat, p: spec_fn(int) -> bool)
    ensures
        indices_where(n, p).len() == count_where(n, p),
    decreases n,
{
    if n > 0 {
        lemma_listing_len((n - 1) as nat, p);
    }
}

/// A registered image behind its unit leader adds nothing.
proof fn lemma_follower(r: ReconstructionView, image: usize)
    requires
        unit_seen(r, image as int, image as int),
    ensures
        members_seen(r, image + 1) == members_seen(r, image as int),
        frames_seen(r, image + 1) == frames_seen(r, image as int),
{
    let n = image as int;
    lemma_seen_step(r, n);
    let i = choose|i: int| 0 <= i < n && #[trigger] r.registered(i) && r.same_unit(i, n);
    assert forall|m: int| r.same_unit(n, m) implies unit_seen(r, n, m) by {
        assert(r.same_unit(i, m));
        assert(r.registered(i));
    }
    assert(members_seen(r, n + 1) =~= members_seen(r, n));
    assert forall|f: int|
        0 <= f < r.frames.len() && r.frame_of(n) == Some(f as usize) implies frames_seen(
        r,
        n,
    ).contains(f) by {
        assert(i != n);
        assert(r.frame_of(i) == Some(f as usize));
    }
    assert(frames_seen(r, n + 1) =~= frames_seen(r, n));
}

/// Registering a unit leaves trials, pairs and remembered units alone.
proof fn lemma_unit_registered_frame(s: StatsView, r: ReconstructionView, image: usize)
    ensures
        unit_registered(s, r, image).trials == s.trials,
        unit_registered(s, r, image).tried_pairs == s.tried_pairs,
        unit_registered(s, r, image).existing == s.existing,
{
    match r.frame_of(image as int) {
        Some(frame) => {
            if frame < r.frames.len() {
                let rig = r.frames[frame as int].rig_id;
                let start = StatsView {
                    frames_per_rig: s.frames_per_rig.insert(
                        rig,
                        (lookup(s.frames_per_rig, rig) + 1) as usize,
                    ),
                    ..s
                };
                lemma_images_registered_frame(
                    start,
                    r,
                    r.images_of_frame(frame),
                    r.images_of_frame(frame).len(),
                );
            }
        },
        None => {},
    }
}

proof fn lemma_images_registered_frame(
    s: StatsView,
    r: ReconstructionView,
    images: Seq<usize>,
    k: nat,
)
    ensures
        images_registered(s, r, images, k).trials == s.trials,
        images_registered(s, r, images, k).tried_pairs == s.tried_pairs,
        images_registered(s, r, images, k).existing == s.existing,
        images_registered(s, r, images, k).frames_per_rig == s.frames_per_rig,
    decreases k,
{
    if k > 0 {
        lemma_images_registered_frame(s, r, images, (k - 1) as nat);
    }
}

/// Taking back the last registration of an image restores every count.
pub proof fn law_deregister_undoes_register(
    s: StatsView,
    r: ReconstructionView,
    image: usize,
    camera: u32,
    i: int,
)
    requires
        counters_have_room(s, 1),
    ensures
        ({
            let back = image_deregistered(image_registered(s, r, image), r, image);
            &&& lookup(back.images_per_camera, camera) == lookup(s.images_per_camera, camera)
            &&& count_at(back.registrations, i) == count_at(s.registrations, i)
            &&& back.total == s.total
            &&& back.shared == s.shared
            &&& back.frames_per_rig == s.frames_per_rig
        }),
{
    assert(lookup(s.images_per_camera, r.camera_id_of(image as int)) + 1 <= usize::MAX);
    assert(count_at(s.registrations, image as int) + 1 <= usize::MAX);
}

} // verus!

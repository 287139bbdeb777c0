//! Registration units: the images of a rig frame are registered together, an
//! image without a frame on its own.

use crate::ascending::{ascending, insert_ascending, lists};
use crate::indices::{count_where, lemma_indices_where};
use crate::sets::copy_set;
use crate::types::{in_frame, Reconstruction, ReconstructionView};
use std::collections::HashSet;
use vstd::prelude::*;

verus! {

#[derive(Debug, Clone, Copy, PartialEq, Eq, Structural, Hash)]
pub enum RegistrationUnitKey {
    Image(usize),
    Frame(usize),
}

impl ReconstructionView {
    pub open spec fn unit_key(self, image: usize) -> RegistrationUnitKey {
        match self.frame_of(image as int) {
            Some(frame) => RegistrationUnitKey::Frame(frame),
            None => RegistrationUnitKey::Image(image),
        }
    }

    pub open spec fn same_unit(self, a: int, b: int) -> bool {
        a == b || (self.frame_of(a) is Some && self.frame_of(a) == self.frame_of(b))
    }

    /// Whether an image of the unit of `image` is registered.
    pub open spec fn unit_registered(self, image: int) -> bool {
        exists|j: int| #[trigger] self.registered(j) && self.same_unit(j, image)
    }

    /// The number of images known by pose or by frame.
    pub open spec fn image_limit(self) -> nat {
        if self.poses.len() >= self.image_frame_indices.len() {
            self.poses.len()
        } else {
            self.image_frame_indices.len()
        }
    }
}

/// The unit of an image holds exactly the images of the same unit.
pub proof fn lemma_unit_members(r: ReconstructionView, image: usize)
    requires
        r.image_frame_indices.len() <= usize::MAX,
    ensures
        forall|m: usize| #[trigger]
            r.unit_of(image).contains(m) <==> r.same_unit(image as int, m as int),
        r.unit_of(image).contains(image),
        r.unit_of(image).no_duplicates(),
{
    match r.frame_of(image as int) {
        Some(frame) => {
            let p = in_frame(r.image_frame_indices, frame);
            lemma_indices_where(r.image_frame_indices.len(), p);
            assert forall|m: usize| #[trigger]
                r.unit_of(image).contains(m) <==> r.same_unit(image as int, m as int) by {
                if r.same_unit(image as int, m as int) {
                    assert(p(m as int));
                }
            }
        },
        None => {
            let unit = seq![image];
            assert(unit[0] == image);
            assert forall|m: usize| #[trigger]
                r.unit_of(image).contains(m) <==> r.same_unit(image as int, m as int) by {
                if r.unit_of(image).contains(m) {
                    assert(m == image);
                }
            }
        },
    }
}

/// Being of the same unit is an equivalence, and units are keyed.
pub proof fn law_units_partition(r: ReconstructionView, a: usize, b: usize, c: usize)
    ensures
        r.same_unit(a as int, a as int),
        r.same_unit(a as int, b as int) ==> r.same_unit(b as int, a as int),
        r.same_unit(a as int, b as int) && r.same_unit(b as int, c as int) ==> r.same_unit(
            a as int,
            c as int,
        ),
        r.same_unit(a as int, b as int) <==> r.unit_key(a) == r.unit_key(b),
{
}

pub fn registration_unit_key(reconstruction: &Reconstruction, image: usize) -> (key:
    RegistrationUnitKey)
    ensures
        key == reconstruction@.unit_key(image),
{
    match reconstruction.frame_index_for_image(image) {
        Some(frame) => RegistrationUnitKey::Frame(frame),
        None => RegistrationUnitKey::Image(image),
    }
}

/// Whether any image of the unit has a pose.
pub fn registration_unit_is_registered(reconstruction: &Reconstruction, image: usize) -> (b: bool)
    ensures
        b == reconstruction@.unit_registered(image as int),
{
    let unit: Vec<usize> = reconstruction.image_indices_for_registration_unit(image);
    let limit: usize = reconstruction.image_frame_indices.len();
    let ghost r = reconstruction@;
    proof {
        lemma_unit_members(r, image);
    }
    for k in 0..unit.len()
        invariant
            r == reconstruction@,
            limit == r.image_frame_indices.len(),
            unit@ == r.unit_of(image),
            forall|m: usize| #[trigger]
                r.unit_of(image).contains(m) <==> r.same_unit(image as int, m as int),
            forall|j: int| 0 <= j < k ==> !r.registered(#[trigger] unit@[j] as int),
    {
        if reconstruction.is_registered(unit[k]) {
            assert(r.unit_of(image).contains(unit@[k as int]));
            assert(r.registered(unit@[k as int] as int));
            return true;
        }
    }
    let num_images: usize = reconstruction.poses.len();
    proof {
        if r.unit_registered(image as int) {
            let j = choose|j: int| #[trigger] r.registered(j) && r.same_unit(j, image as int);
            assert(r.unit_of(image).contains(j as usize));
            let k = choose|k: int| 0 <= k < unit@.len() && unit@[k] == j as usize;
            assert(!r.registered(unit@[k] as int));
        }
    }
    false
}

/// Trial counts with those of a unit set to zero.
pub open spec fn trials_reset(r: ReconstructionView, image: usize, trials: Seq<usize>) -> Seq<
    usize,
> {
    Seq::new(
        trials.len(),
        |m: int|
            if r.same_unit(image as int, m) {
                0
            } else {
                trials[m]
            },
    )
}

/// Trial counts with those of a unit raised by one.
pub open spec fn trials_raised(r: ReconstructionView, image: usize, trials: Seq<usize>) -> Seq<
    usize,
> {
    Seq::new(
        trials.len(),
        |m: int|
            if r.same_unit(image as int, m) {
                (trials[m] + 1) as usize
            } else {
                trials[m]
            },
    )
}

/// The largest trial count of a unit; 0 if none of its images has one.
pub open spec fn is_unit_trials(
    r: ReconstructionView,
    image: usize,
    trials: Seq<usize>,
    n: usize,
) -> bool {
    &&& forall|m: int|
        0 <= m < trials.len() && r.same_unit(image as int, m) ==> #[trigger] trials[m] <= n
    &&& n > 0 ==> exists|m: int|
        0 <= m < trials.len() && r.same_unit(image as int, m) && #[trigger] trials[m] == n
}

pub fn reset_registration_unit_trials(
    reconstruction: &Reconstruction,
    image: usize,
    reg_trials: &mut Vec<usize>,
)
    ensures
        final(reg_trials)@ == trials_reset(reconstruction@, image, old(reg_trials)@),
{
    let unit: Vec<usize> = reconstruction.image_indices_for_registration_unit(image);
    let limit: usize = reconstruction.image_frame_indices.len();
    let len: usize = reg_trials.len();
    let ghost r = reconstruction@;
    let ghost before = reg_trials@;
    proof {
        lemma_unit_members(r, image);
    }
    for k in 0..unit.len()
        invariant
            r == reconstruction@,
            unit@ == r.unit_of(image),
            len == reg_trials@.len(),
            before.len() == len,
            forall|m: int|
                0 <= m < len ==> #[trigger] reg_trials@[m] == (if unit@.take(k as int).contains(
                    m as usize,
                ) {
                    0
                } else {
                    before[m]
                }),
    {
        let m: usize = unit[k];
        if m < reg_trials.len() {
            reg_trials[m] = 0;
        }
        proof {
            lemma_take_contains(unit@, k as int);
        }
    }
    proof {
        assert(unit@.take(unit@.len() as int) =~= unit@);
        assert(reg_trials@ =~= trials_reset(r, image, before));
    }
}

/// One more item of a prefix.
pub proof fn lemma_take_contains(s: Seq<usize>, k: int)
    requires
        0 <= k < s.len(),
    ensures
        forall|x: usize| #[trigger]
            s.take(k + 1).contains(x) <==> s.take(k).contains(x) || x == s[k],
{
    let a = s.take(k);
    let b = s.take(k + 1);
    assert forall|x: usize| #[trigger] b.contains(x) <==> a.contains(x) || x == s[k] by {
        if a.contains(x) {
            let j = choose|j: int| 0 <= j < a.len() && a[j] == x;
            assert(b[j] == x);
        }
        assert(b[k] == s[k]);
        if b.contains(x) && x != s[k] {
            let j = choose|j: int| 0 <= j < b.len() && b[j] == x;
            assert(a[j] == x);
        }
    }
}

pub fn increment_registration_unit_trials(
    reconstruction: &Reconstruction,
    image: usize,
    reg_trials: &mut Vec<usize>,
)
    requires
        forall|m: int|
            0 <= m < old(reg_trials)@.len() && reconstruction@.same_unit(image as int, m)
                ==> #[trigger] old(reg_trials)@[m] < usize::MAX,
    ensures
        final(reg_trials)@ == trials_raised(reconstruction@, image, old(reg_trials)@),
{
    let unit: Vec<usize> = reconstruction.image_indices_for_registration_unit(image);
    let limit: usize = reconstruction.image_frame_indices.len();
    let len: usize = reg_trials.len();
    let ghost r = reconstruction@;
    let ghost before = reg_trials@;
    proof {
        lemma_unit_members(r, image);
    }
    for k in 0..unit.len()
        invariant
            r == reconstruction@,
            unit@ == r.unit_of(image),
            unit@.no_duplicates(),
            len == reg_trials@.len(),
            before.len() == len,
            forall|m: usize| #[trigger]
                r.unit_of(image).contains(m) <==> r.same_unit(image as int, m as int),
            forall|m: int|
                0 <= m < len && r.same_unit(image as int, m) ==> #[trigger] before[m]
                    < usize::MAX,
            forall|m: int|
                0 <= m < len ==> #[trigger] reg_trials@[m] == (if unit@.take(k as int).contains(
                    m as usize,
                ) {
                    (before[m] + 1) as usize
                } else {
                    before[m]
                }),
    {
        let m: usize = unit[k];
        proof {
            lemma_take_contains(unit@, k as int);
            assert(r.unit_of(image).contains(m));
            if unit@.take(k as int).contains(m) {
                let j = choose|j: int| 0 <= j < k && unit@.take(k as int)[j] == m;
                assert(unit@[j] == unit@[k as int]);
            }
        }
        if m < reg_trials.len() {
            reg_trials[m] = reg_trials[m] + 1;
        }
    }
    proof {
        assert(unit@.take(unit@.len() as int) =~= unit@);
        assert(reg_trials@ =~= trials_raised(r, image, before));
    }
}

pub fn registration_unit_num_trials(
    reconstruction: &Reconstruction,
    image: usize,
    reg_trials: &Vec<usize>,
) -> (n: usize)
    ensures
        is_unit_trials(reconstruction@, image, reg_trials@, n),
{
    let unit: Vec<usize> = reconstruction.image_indices_for_registration_unit(image);
    let limit: usize = reconstruction.image_frame_indices.len();
    let len: usize = reg_trials.len();
    let ghost r = reconstruction@;
    proof {
        lemma_unit_members(r, image);
    }
    let mut n: usize = 0;
    for k in 0..unit.len()
        invariant
            r == reconstruction@,
            unit@ == r.unit_of(image),
            forall|m: usize| #[trigger]
                r.unit_of(image).contains(m) <==> r.same_unit(image as int, m as int),
            forall|j: int|
                0 <= j < k && unit@[j] < reg_trials@.len() ==> reg_trials@[#[trigger] unit@[j] as int]
                    <= n,
            n > 0 ==> exists|m: int|
                0 <= m < reg_trials@.len() && r.same_unit(image as int, m)
                    && #[trigger] reg_trials@[m] == n,
    {
        let m: usize = unit[k];
        if m < reg_trials.len() && reg_trials[m] > n {
            n = reg_trials[m];
            assert(r.unit_of(image).contains(unit@[k as int]));
            assert(reg_trials@[m as int] == n);
        }
    }
    proof {
        assert forall|m: int|
            0 <= m < reg_trials@.len() && r.same_unit(image as int, m) implies #[trigger] reg_trials@[m]
            <= n by {
            assert(len == reg_trials@.len());
            assert(r.unit_of(image).contains(m as usize));
            let k = choose|k: int| 0 <= k < unit@.len() && unit@[k] == m as usize;
            assert(reg_trials@[unit@[k] as int] <= n);
        }
    }
    n
}

/// Raising the trials of a unit raises its trial count by one, and resetting
/// them makes it zero.
pub proof fn law_unit_trials(
    r: ReconstructionView,
    image: usize,
    trials: Seq<usize>,
    before: usize,
    raised: usize,
    reset: usize,
)
    requires
        image < trials.len() <= usize::MAX,
        before < usize::MAX,
        is_unit_trials(r, image, trials, before),
        is_unit_trials(r, image, trials_raised(r, image, trials), raised),
        is_unit_trials(r, image, trials_reset(r, image, trials), reset),
    ensures
        raised == before + 1,
        reset == 0,
{
    let up = trials_raised(r, image, trials);
    assert(trials[image as int] <= before);
    assert(up[image as int] == trials[image as int] + 1);
    let w = if before > 0 {
        choose|m: int|
            0 <= m < trials.len() && r.same_unit(image as int, m) && #[trigger] trials[m] == before
    } else {
        image as int
    };
    assert(trials[w] == before);
    assert(up[w] == before + 1);
    assert(up[w] <= raised);
    let v = choose|m: int|
        0 <= m < up.len() && r.same_unit(image as int, m) && #[trigger] up[m] == raised;
    assert(trials[v] <= before);
    if reset > 0 {
        let down = trials_reset(r, image, trials);
        let u = choose|m: int|
            0 <= m < down.len() && r.same_unit(image as int, m) && #[trigger] down[m] == reset;
        assert(down[u] == 0);
    }
}

/// A set of registration units.
#[derive(Debug)]
pub struct UnitSet {
    images: HashSet<usize>,
    frames: HashSet<usize>,
}

impl View for UnitSet {
    type V = Set<RegistrationUnitKey>;

    closed spec fn view(&self) -> Set<RegistrationUnitKey> {
        Set::new(
            |key: RegistrationUnitKey|
                match key {
                    RegistrationUnitKey::Image(image) => self.images@.contains(image),
                    RegistrationUnitKey::Frame(frame) => self.frames@.contains(frame),
                },
        )
    }
}

impl Default for UnitSet {
    fn default() -> (units: UnitSet)
        ensures
            units@ == Set::<RegistrationUnitKey>::empty(),
    {
        UnitSet::new()
    }
}

impl Clone for UnitSet {
    fn clone(&self) -> (units: UnitSet)
        ensures
            units@ == self@,
    {
        broadcast use vstd::std_specs::hash::group_hash_axioms;

        UnitSet { images: copy_set(&self.images), frames: copy_set(&self.frames) }
    }
}

impl UnitSet {
    pub fn new() -> (units: UnitSet)
        ensures
            units@ == Set::<RegistrationUnitKey>::empty(),
    {
        broadcast use vstd::std_specs::hash::group_hash_axioms;

        let units = UnitSet { images: HashSet::new(), frames: HashSet::new() };
        assert(units@ =~= Set::<RegistrationUnitKey>::empty());
        units
    }

    pub fn insert(&mut self, key: RegistrationUnitKey) -> (fresh: bool)
        ensures
            final(self)@ == old(self)@.insert(key),
            fresh == !old(self)@.contains(key),
    {
        broadcast use vstd::std_specs::hash::group_hash_axioms;

        let fresh = match key {
            RegistrationUnitKey::Image(image) => self.images.insert(image),
            RegistrationUnitKey::Frame(frame) => self.frames.insert(frame),
        };
        assert(self@ =~= old(self)@.insert(key));
        fresh
    }

    pub fn remove(&mut self, key: &RegistrationUnitKey) -> (held: bool)
        ensures
            final(self)@ == old(self)@.remove(*key),
            held == old(self)@.contains(*key),
    {
        broadcast use vstd::std_specs::hash::group_hash_axioms;

        let held = match key {
            RegistrationUnitKey::Image(image) => self.images.remove(image),
            RegistrationUnitKey::Frame(frame) => self.frames.remove(frame),
        };
        assert(self@ =~= old(self)@.remove(*key));
        held
    }

    pub fn contains(&self, key: &RegistrationUnitKey) -> (b: bool)
        ensures
            b == self@.contains(*key),
    {
        broadcast use vstd::std_specs::hash::group_hash_axioms;

        match key {
            RegistrationUnitKey::Image(image) => self.images.contains(image),
            RegistrationUnitKey::Frame(frame) => self.frames.contains(frame),
        }
    }

    pub fn clear(&mut self)
        ensures
            final(self)@ == Set::<RegistrationUnitKey>::empty(),
    {
        broadcast use vstd::std_specs::hash::group_hash_axioms;

        self.images.clear();
        self.frames.clear();
        assert(self@ =~= Set::<RegistrationUnitKey>::empty());
    }
}

/// Selects the images that lead their unit: registered, with no registered
/// image of the unit ahead of them.
pub open spec fn leads_unit(r: ReconstructionView) -> spec_fn(int) -> bool {
    |i: int| r.registered(i) && !unit_seen(r, i, i)
}

/// Whether one of the first `n` images is registered and of the unit of `image`.
pub open spec fn unit_seen(r: ReconstructionView, n: int, image: int) -> bool {
    exists|j: int| 0 <= j < n && #[trigger] r.registered(j) && r.same_unit(j, image)
}

/// The number of registered units.
pub open spec fn registered_units(r: ReconstructionView) -> nat {
    count_where(r.poses.len(), leads_unit(r))
}

/// Counts the registered units: frames with a registered image, and registered
/// images without a frame.
pub fn registered_frame_count(reconstruction: &Reconstruction) -> (n: usize)
    ensures
        n == registered_units(reconstruction@),
{
    broadcast use vstd::std_specs::hash::group_hash_axioms;

    let ghost r = reconstruction@;
    let mut seen = UnitSet::new();
    let mut n: usize = 0;
    for image in 0..reconstruction.poses.len()
        invariant
            r == reconstruction@,
            n == count_where(image as nat, leads_unit(r)),
            n <= image,
            forall|m: usize|
                seen@.contains(#[trigger] r.unit_key(m)) <==> unit_seen(r, image as int, m as int),
    {
        if reconstruction.poses[image].is_some() {
            let key = registration_unit_key(reconstruction, image);
            assert(r.registered(image as int));
            assert(seen@.contains(r.unit_key(image)) <==> unit_seen(
                r,
                image as int,
                image as int,
            ));
            let ghost before = seen@;
            if seen.insert(key) {
                n = n + 1;
            }
            proof {
                assert forall|m: usize|
                    seen@.contains(#[trigger] r.unit_key(m)) <==> unit_seen(
                        r,
                        image + 1,
                        m as int,
                    ) by {
                    lemma_unit_seen_step(r, image as int, m as int);
                    law_units_partition(r, image, m, m);
                }
            }
        } else {
            proof {
                assert forall|m: usize|
                    seen@.contains(#[trigger] r.unit_key(m)) <==> unit_seen(
                        r,
                        image + 1,
                        m as int,
                    ) by {
                    lemma_unit_seen_step(r, image as int, m as int);
                }
            }
        }
    }
    n
}

pub proof fn lemma_unit_seen_step(r: ReconstructionView, n: int, image: int)
    requires
        0 <= n,
    ensures
        unit_seen(r, n + 1, image) <==> unit_seen(r, n, image) || (r.registered(n) && r.same_unit(
            n,
            image,
        )),
{
    if unit_seen(r, n + 1, image) {
        let j = choose|j: int| 0 <= j < n + 1 && #[trigger] r.registered(j) && r.same_unit(j, image);
        if j < n {
            assert(unit_seen(r, n, image));
        }
    }
    if unit_seen(r, n, image) {
        let j = choose|j: int| 0 <= j < n && #[trigger] r.registered(j) && r.same_unit(j, image);
        assert(0 <= j < n + 1 && r.registered(j));
    }
}

/// The images of the units of a list of images.
pub open spec fn expanded(r: ReconstructionView, images: Seq<usize>) -> Set<usize> {
    Set::new(
        |m: usize|
            exists|k: int|
                0 <= k < images.len() && r.same_unit(#[trigger] images[k] as int, m as int),
    )
}

/// Adds to each image the other images of its unit, in ascending order and
/// without repetitions.
pub fn expand_images_to_registration_frames(
    reconstruction: &Reconstruction,
    images: &[usize],
) -> (out: Vec<usize>)
    ensures
        lists(out@, expanded(reconstruction@, images@)),
{
    let ghost r = reconstruction@;
    let limit: usize = reconstruction.image_frame_indices.len();
    let mut out: Vec<usize> = Vec::new();
    for k in 0..images.len()
        invariant
            r == reconstruction@,
            limit == r.image_frame_indices.len(),
            lists(out@, expanded(r, images@.take(k as int))),
    {
        let unit: Vec<usize> = reconstruction.image_indices_for_registration_unit(images[k]);
        let ghost before = expanded(r, images@.take(k as int));
        proof {
            lemma_unit_members(r, images@[k as int]);
        }
        for u in 0..unit.len()
            invariant
                ascending(out@),
                forall|x: usize| #[trigger]
                    out@.contains(x) <==> before.contains(x) || unit@.take(u as int).contains(x),
        {
            insert_ascending(&mut out, unit[u]);
            proof {
                lemma_take_contains(unit@, u as int);
            }
        }
        proof {
            assert(unit@.take(unit@.len() as int) =~= unit@);
            assert forall|m: usize| #[trigger] out@.contains(m) <==> expanded(
                r,
                images@.take(k + 1),
            ).contains(m) by {
                let a = images@.take(k as int);
                let b = images@.take(k + 1);
                if before.contains(m) {
                    let j = choose|j: int|
                        0 <= j < a.len() && r.same_unit(#[trigger] a[j] as int, m as int);
                    assert(b[j] == a[j]);
                }
                assert(b[k as int] == images@[k as int]);
                if expanded(r, b).contains(m) {
                    let j = choose|j: int|
                        0 <= j < b.len() && r.same_unit(#[trigger] b[j] as int, m as int);
                    if j < k {
                        assert(a[j] == b[j]);
                    }
                }
                assert(unit@.contains(m) <==> r.same_unit(images@[k as int] as int, m as int));
            }
        }
    }
    assert(images@.take(images@.len() as int) =~= images@);
    out
}

/// Expanding keeps every image and is idempotent.
pub proof fn law_expansion_closed(r: ReconstructionView, images: Seq<usize>, out: Seq<usize>)
    requires
        lists(out, expanded(r, images)),
    ensures
        forall|k: int| 0 <= k < images.len() ==> out.contains(#[trigger] images[k]),
        expanded(r, out) == expanded(r, images),
{
    assert forall|k: int| 0 <= k < images.len() implies out.contains(#[trigger] images[k]) by {
        assert(r.same_unit(images[k] as int, images[k] as int));
        assert(expanded(r, images).contains(images[k]));
    }
    assert forall|m: usize| expanded(r, out).contains(m) <==> expanded(r, images).contains(m) by {
        if expanded(r, out).contains(m) {
            let j = choose|j: int|
                0 <= j < out.len() && r.same_unit(#[trigger] out[j] as int, m as int);
            assert(out.contains(out[j]));
            let k = choose|k: int|
                0 <= k < images.len() && r.same_unit(#[trigger] images[k] as int, out[j] as int);
            assert(r.same_unit(images[k] as int, m as int));
        }
        if expanded(r, images).contains(m) {
            let k = choose|k: int|
                0 <= k < images.len() && r.same_unit(#[trigger] images[k] as int, m as int);
            assert(out.contains(images[k]));
            let j = choose|j: int| 0 <= j < out.len() && out[j] == images[k];
            assert(r.same_unit(out[j] as int, m as int));
        }
    }
    assert(expanded(r, out) =~= expanded(r, images));
}

} // verus!

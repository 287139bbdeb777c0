//! What a run remembers from one reconstruction to the next: which images were
//! tried as a seed and which are part of a kept model.

use crate::indices::{count_where, lemma_count_bound, lemma_count_positive, lemma_count_turned_on, lemma_where_congruent};
use crate::pair_ids::initial_image_pair_id;
use crate::registration_stats::{count_at, lookup, widened};
use crate::registration_units::{
    law_units_partition, lemma_unit_members, lemma_unit_seen_step, registration_unit_key,
    unit_seen, UnitSet,
};
use crate::sets::copy_set;
use crate::types::{Reconstruction, ReconstructionView};
use std::collections::{HashMap, HashSet};
use vstd::prelude::*;

verus! {

/// Why a seed pair was not found or given up.
#[derive(Debug, Clone, Copy, PartialEq, Eq, Structural)]
pub enum InitialPairFailure {
    NoInitialPair,
    BadInitialPair,
}

impl InitialPairFailure {
    pub open spec fn text(self) -> Seq<char> {
        match self {
            InitialPairFailure::NoInitialPair => "no initial pair"@,
            InitialPairFailure::BadInitialPair => "bad initial pair"@,
        }
    }

    pub fn message(&self) -> (message: &'static str)
        ensures
            message@ == self.text(),
    {
        match self {
            InitialPairFailure::NoInitialPair => "no initial pair",
            InitialPairFailure::BadInitialPair => "bad initial pair",
        }
    }
}

/// What the choice of a seed pair depends on besides the pairs.
#[derive(Debug)]
pub struct InitialPairSelectionState {
    pub init_num_reg_trials: Vec<usize>,
    pub num_registrations: Vec<usize>,
    pub init_image_pairs: HashSet<u64>,
}

#[verifier::ext_equal]
pub struct SelectionView {
    pub trials: Seq<usize>,
    pub registrations: Seq<usize>,
    pub tried: Set<u64>,
}

impl View for InitialPairSelectionState {
    type V = SelectionView;

    open spec fn view(&self) -> SelectionView {
        SelectionView {
            trials: self.init_num_reg_trials@,
            registrations: self.num_registrations@,
            tried: self.init_image_pairs@,
        }
    }
}

pub open spec fn zeros(n: nat) -> Seq<usize> {
    Seq::new(n, |i: int| 0usize)
}

/// Trial counts with that of one image raised.
pub open spec fn trial_added(trials: Seq<usize>, image: usize) -> Seq<usize> {
    let wide = widened(trials, image);
    wide.update(image as int, (wide[image as int] + 1) as usize)
}

/// The pairs tried once another one is.
pub open spec fn pair_tried(
    tried: Set<u64>,
    r: ReconstructionView,
    left: usize,
    right: usize,
) -> Set<u64> {
    match r.pair_id_of(left, right) {
        Some(id) => tried.insert(id),
        None => tried,
    }
}

impl Default for InitialPairSelectionState {
    fn default() -> (state: InitialPairSelectionState)
        ensures
            state@ == (SelectionView {
                trials: Seq::empty(),
                registrations: Seq::empty(),
                tried: Set::empty(),
            }),
    {
        InitialPairSelectionState {
            init_num_reg_trials: Vec::new(),
            num_registrations: Vec::new(),
            init_image_pairs: HashSet::new(),
        }
    }
}

impl Clone for InitialPairSelectionState {
    fn clone(&self) -> (state: InitialPairSelectionState)
        ensures
            state@ == self@,
    {
        broadcast use vstd::std_specs::hash::group_hash_axioms;

        let state = InitialPairSelectionState {
            init_num_reg_trials: self.init_num_reg_trials.clone(),
            num_registrations: self.num_registrations.clone(),
            init_image_pairs: copy_set(&self.init_image_pairs),
        };
        assert(state@ =~= self@);
        state
    }
}

impl InitialPairSelectionState {
    pub fn from_reconstruction(reconstruction: &Reconstruction) -> (state:
        InitialPairSelectionState)
        ensures
            state@ == (SelectionView {
                trials: zeros(reconstruction@.poses.len()),
                registrations: zeros(reconstruction@.poses.len()),
                tried: Set::empty(),
            }),
    {
        broadcast use vstd::std_specs::hash::group_hash_axioms;

        let mut trials: Vec<usize> = Vec::new();
        let mut registrations: Vec<usize> = Vec::new();
        for i in 0..reconstruction.poses.len()
            invariant
                trials@ == zeros(i as nat),
                registrations@ == zeros(i as nat),
        {
            trials.push(0);
            registrations.push(0);
            assert(trials@ =~= zeros((i + 1) as nat));
            assert(registrations@ =~= zeros((i + 1) as nat));
        }
        InitialPairSelectionState {
            init_num_reg_trials: trials,
            num_registrations: registrations,
            init_image_pairs: HashSet::new(),
        }
    }

    pub fn init_trials_for_image(&self, image: usize) -> (n: usize)
        ensures
            n == count_at(self@.trials, image as int),
    {
        if image < self.init_num_reg_trials.len() {
            self.init_num_reg_trials[image]
        } else {
            0
        }
    }

    pub fn num_registrations_for_image(&self, image: usize) -> (n: usize)
        ensures
            n == count_at(self@.registrations, image as int),
    {
        if image < self.num_registrations.len() {
            self.num_registrations[image]
        } else {
            0
        }
    }

    /// Whether an image can be the first of a seed pair.
    pub fn first_image_available_for_initialization(
        &self,
        image: usize,
        init_max_reg_trials: usize,
    ) -> (b: bool)
        ensures
            b <==> count_at(self@.trials, image as int) < init_max_reg_trials && count_at(
                self@.registrations,
                image as int,
            ) == 0,
    {
        self.init_trials_for_image(image) < init_max_reg_trials
            && self.num_registrations_for_image(image) == 0
    }

    pub fn image_not_registered_in_other_reconstruction(&self, image: usize) -> (b: bool)
        ensures
            b <==> count_at(self@.registrations, image as int) == 0,
    {
        self.num_registrations_for_image(image) == 0
    }

    /// Marks a pair as tried; tells whether it was not tried before.
    pub fn mark_initial_pair_tried(
        &mut self,
        reconstruction: &Reconstruction,
        left: usize,
        right: usize,
    ) -> (fresh: bool)
        ensures
            final(self)@ == (SelectionView {
                tried: pair_tried(old(self)@.tried, reconstruction@, left, right),
                ..old(self)@
            }),
            fresh <==> match reconstruction@.pair_id_of(left, right) {
                Some(id) => !old(self)@.tried.contains(id),
                None => false,
            },
    {
        broadcast use vstd::std_specs::hash::group_hash_axioms;

        match initial_image_pair_id(reconstruction, left, right) {
            Some(id) => self.init_image_pairs.insert(id),
            None => false,
        }
    }

    /// Counts a seed trial for both images and marks the pair as tried.
    pub fn register_initial_pair(
        &mut self,
        reconstruction: &Reconstruction,
        left: usize,
        right: usize,
    )
        requires
            left < usize::MAX,
            right < usize::MAX,
            count_at(old(self)@.trials, left as int) < usize::MAX - 1,
            count_at(old(self)@.trials, right as int) < usize::MAX - 1,
        ensures
            final(self)@ == (SelectionView {
                trials: trial_added(trial_added(old(self)@.trials, left), right),
                tried: pair_tried(old(self)@.tried, reconstruction@, left, right),
                ..old(self)@
            }),
    {
        self.increment_init_trial(left);
        self.increment_init_trial(right);
        self.mark_initial_pair_tried(reconstruction, left, right);
    }

    fn increment_init_trial(&mut self, image: usize)
        requires
            image < usize::MAX,
            count_at(old(self)@.trials, image as int) < usize::MAX,
        ensures
            final(self)@ == (SelectionView {
                trials: trial_added(old(self)@.trials, image),
                ..old(self)@
            }),
    {
        let ghost before = self.init_num_reg_trials@;
        while self.init_num_reg_trials.len() <= image
            invariant
                image < usize::MAX,
                before == old(self)@.trials,
                self@ == (SelectionView { trials: self.init_num_reg_trials@, ..old(self)@ }),
                before.len() <= self.init_num_reg_trials@.len(),
                image < before.len() ==> self.init_num_reg_trials@ == before,
                image >= before.len() ==> self.init_num_reg_trials@.len() <= image + 1,
                forall|i: int|
                    0 <= i < before.len() ==> self.init_num_reg_trials@[i] == before[i],
                forall|i: int|
                    before.len() <= i < self.init_num_reg_trials@.len()
                        ==> self.init_num_reg_trials@[i] == 0,
            decreases image + 1 - self.init_num_reg_trials.len(),
        {
            self.init_num_reg_trials.push(0);
        }
        assert(self.init_num_reg_trials@ =~= widened(before, image));
        self.init_num_reg_trials[image] = self.init_num_reg_trials[image] + 1;
    }
}

/// State kept over all reconstructions of a run, by image identifier.
#[derive(Debug)]
pub struct IncrementalMapperSession {
    init_num_reg_trials: HashMap<u32, usize>,
    init_image_pairs: HashSet<u64>,
    num_registrations: HashMap<u32, usize>,
    current_num_shared_reg_images: usize,
    current_reconstruction_committed: bool,
}

#[verifier::ext_equal]
pub struct SessionView {
    pub trials: Map<u32, usize>,
    pub tried: Set<u64>,
    pub registrations: Map<u32, usize>,
    pub shared: usize,
    pub committed: bool,
}

impl View for IncrementalMapperSession {
    type V = SessionView;

    closed spec fn view(&self) -> SessionView {
        SessionView {
            trials: self.init_num_reg_trials@,
            tried: self.init_image_pairs@,
            registrations: self.num_registrations@,
            shared: self.current_num_shared_reg_images,
            committed: self.current_reconstruction_committed,
        }
    }
}

/// Only positive registration counts are stored.
pub open spec fn session_well_formed(s: SessionView) -> bool {
    &&& s.registrations.dom().finite()
    &&& forall|id: u32| #[trigger] s.registrations.contains_key(id) ==> s.registrations[id] > 0
}

/// Selects the images of a set with an identifier.
pub open spec fn members_with_id(
    r: ReconstructionView,
    members: Set<int>,
    id: u32,
) -> spec_fn(int) -> bool {
    |m: int| members.contains(m) && r.image_id_of(m) == id
}

/// The images whose unit is registered.
pub open spec fn unit_members(r: ReconstructionView) -> Set<int> {
    Set::new(|m: int| r.unit_registered(m))
}

/// How many images with an identifier are in registered units.
pub open spec fn registrations_of(r: ReconstructionView, id: u32) -> nat {
    count_where(r.image_limit(), members_with_id(r, unit_members(r), id))
}

/// A count after `n` registrations were added or taken back.
pub open spec fn count_after(count: usize, n: nat, discard: bool) -> int {
    if !discard {
        count + n
    } else if count >= n {
        count - n
    } else {
        0
    }
}

/// Selects the registered images that have at least `min_count` registrations.
pub open spec fn registered_at_least(
    r: ReconstructionView,
    registrations: Map<u32, usize>,
    min_count: usize,
) -> spec_fn(int) -> bool {
    |i: int| r.registered(i) && lookup(registrations, r.image_id_of(i)) >= min_count
}

/// The trial counts of the first `n` images stored by image identifier; zeros
/// are left out.
pub open spec fn trials_stored(
    trials: Map<u32, usize>,
    r: ReconstructionView,
    counts: Seq<usize>,
    n: nat,
) -> Map<u32, usize>
    decreases n,
{
    if n == 0 {
        trials
    } else {
        let rest = trials_stored(trials, r, counts, (n - 1) as nat);
        let id = r.image_id_of(n - 1);
        let count = count_at(counts, n - 1);
        if count == 0 {
            rest.remove(id)
        } else {
            rest.insert(id, count)
        }
    }
}

/// Counts of the first images, read by image identifier.
pub open spec fn counts_by_image(r: ReconstructionView, counts: Map<u32, usize>) -> Seq<usize> {
    Seq::new(r.poses.len(), |i: int| lookup(counts, r.image_id_of(i)))
}

fn read(counts: &HashMap<u32, usize>, key: u32) -> (n: usize)
    ensures
        n == lookup(counts@, key),
{
    broadcast use vstd::std_specs::hash::group_hash_axioms;

    match counts.get(&key) {
        Some(n) => *n,
        None => 0,
    }
}

impl Default for IncrementalMapperSession {
    fn default() -> (session: IncrementalMapperSession)
        ensures
            session@ == (SessionView {
                trials: Map::empty(),
                tried: Set::empty(),
                registrations: Map::empty(),
                shared: 0,
                committed: false,
            }),
    {
        IncrementalMapperSession::new()
    }
}

impl Clone for IncrementalMapperSession {
    fn clone(&self) -> (session: IncrementalMapperSession)
        ensures
            session@ == self@,
    {
        broadcast use vstd::std_specs::hash::group_hash_axioms;

        IncrementalMapperSession {
            init_num_reg_trials: self.init_num_reg_trials.clone(),
            init_image_pairs: copy_set(&self.init_image_pairs),
            num_registrations: self.num_registrations.clone(),
            current_num_shared_reg_images: self.current_num_shared_reg_images,
            current_reconstruction_committed: self.current_reconstruction_committed,
        }
    }
}

impl IncrementalMapperSession {
    pub fn new() -> (session: IncrementalMapperSession)
        ensures
            session@ == (SessionView {
                trials: Map::empty(),
                tried: Set::empty(),
                registrations: Map::empty(),
                shared: 0,
                committed: false,
            }),
            session_well_formed(session@),
    {
        broadcast use vstd::std_specs::hash::group_hash_axioms;

        IncrementalMapperSession {
            init_num_reg_trials: HashMap::new(),
            init_image_pairs: HashSet::new(),
            num_registrations: HashMap::new(),
            current_num_shared_reg_images: 0,
            current_reconstruction_committed: false,
        }
    }

    /// Forgets which images and pairs were tried as a seed.
    pub fn reset_initialization_stats(&mut self)
        ensures
            final(self)@ == (SessionView {
                trials: Map::empty(),
                tried: Set::empty(),
                ..old(self)@
            }),
    {
        broadcast use vstd::std_specs::hash::group_hash_axioms;

        self.init_num_reg_trials.clear();
        self.init_image_pairs.clear();
    }

    /// The number of images that are part of a kept model.
    pub fn num_total_registered_images(&self) -> (n: usize)
        requires
            session_well_formed(self@),
        ensures
            n == self@.registrations.dom().len(),
            forall|id: u32| #[trigger]
                self@.registrations.dom().contains(id) <==> lookup(self@.registrations, id) > 0,
    {
        broadcast use vstd::std_specs::hash::group_hash_axioms;

        self.num_registrations.len()
    }

    pub fn num_shared_registered_image_events(&self) -> (n: usize)
        ensures
            n == self@.shared,
    {
        self.current_num_shared_reg_images
    }

    /// Starts a reconstruction: counts its images that are part of a kept model.
    pub fn begin_reconstruction(&mut self, reconstruction: &Reconstruction)
        ensures
            final(self)@ == (SessionView {
                shared: count_where(
                    reconstruction@.poses.len(),
                    registered_at_least(reconstruction@, old(self)@.registrations, 1),
                ) as usize,
                committed: false,
                ..old(self)@
            }),
    {
        self.current_num_shared_reg_images =
        self.num_current_reconstruction_images_with_registration_count(reconstruction, 1);
        self.current_reconstruction_committed = false;
    }

    fn num_current_reconstruction_images_with_registration_count(
        &self,
        reconstruction: &Reconstruction,
        min_count: usize,
    ) -> (n: usize)
        ensures
            n == count_where(
                reconstruction@.poses.len(),
                registered_at_least(reconstruction@, self@.registrations, min_count),
            ),
    {
        let mut n: usize = 0;
        for image in 0..reconstruction.poses.len()
            invariant
                n == count_where(
                    image as nat,
                    registered_at_least(reconstruction@, self@.registrations, min_count),
                ),
                n <= image,
        {
            if reconstruction.poses[image].is_some() && read(
                &self.num_registrations,
                reconstruction.image_id(image),
            ) >= min_count {
                n = n + 1;
            }
        }
        n
    }

    /// The state for choosing a seed pair of a reconstruction.
    pub fn initial_pair_selection_state(&self, reconstruction: &Reconstruction) -> (state:
        InitialPairSelectionState)
        ensures
            state@ == (SelectionView {
                trials: counts_by_image(reconstruction@, self@.trials),
                registrations: counts_by_image(reconstruction@, self@.registrations),
                tried: self@.tried,
            }),
    {
        let mut trials: Vec<usize> = Vec::new();
        let mut registrations: Vec<usize> = Vec::new();
        let num_images: usize = reconstruction.poses.len();
        for image in 0..num_images
            invariant
                num_images == reconstruction@.poses.len(),
                trials@ == counts_by_image(reconstruction@, self@.trials).take(image as int),
                registrations@ == counts_by_image(reconstruction@, self@.registrations).take(
                    image as int,
                ),
        {
            let image_id: u32 = reconstruction.image_id(image);
            trials.push(read(&self.init_num_reg_trials, image_id));
            registrations.push(read(&self.num_registrations, image_id));
        }
        let state = InitialPairSelectionState {
            init_num_reg_trials: trials,
            num_registrations: registrations,
            init_image_pairs: copy_set(&self.init_image_pairs),
        };
        assert(state@.trials =~= counts_by_image(reconstruction@, self@.trials));
        assert(state@.registrations =~= counts_by_image(reconstruction@, self@.registrations));
        state
    }

    /// Takes over the seed trials and tried pairs of a selection state.
    pub fn commit_initial_pair_selection_state(
        &mut self,
        reconstruction: &Reconstruction,
        state: &InitialPairSelectionState,
    )
        ensures
            final(self)@ == (SessionView {
                trials: trials_stored(
                    old(self)@.trials,
                    reconstruction@,
                    state@.trials,
                    reconstruction@.poses.len(),
                ),
                tried: state@.tried,
                ..old(self)@
            }),
    {
        broadcast use vstd::std_specs::hash::group_hash_axioms;

        for image in 0..reconstruction.poses.len()
            invariant
                self@ == (SessionView {
                    trials: trials_stored(
                        old(self)@.trials,
                        reconstruction@,
                        state@.trials,
                        image as nat,
                    ),
                    ..old(self)@
                }),
        {
            let image_id: u32 = reconstruction.image_id(image);
            let count: usize = state.init_trials_for_image(image);
            if count == 0 {
                self.init_num_reg_trials.remove(&image_id);
            } else {
                self.init_num_reg_trials.insert(image_id, count);
            }
        }
        self.init_image_pairs = copy_set(&state.init_image_pairs);
    }

    fn apply_image_registration_event(
        &mut self,
        reconstruction: &Reconstruction,
        image: usize,
        discard: bool,
    )
        requires
            session_well_formed(old(self)@),
            !discard ==> lookup(
                old(self)@.registrations,
                reconstruction@.image_id_of(image as int),
            ) < usize::MAX,
        ensures
            session_well_formed(final(self)@),
            final(self)@ == (SessionView {
                registrations: final(self)@.registrations,
                ..old(self)@
            }),
            forall|id: u32| #[trigger]
                lookup(final(self)@.registrations, id) == (if id == reconstruction@.image_id_of(
                    image as int,
                ) {
                    count_after(lookup(old(self)@.registrations, id), 1, discard)
                } else {
                    lookup(old(self)@.registrations, id) as int
                }),
    {
        broadcast use vstd::std_specs::hash::group_hash_axioms;

        let image_id: u32 = reconstruction.image_id(image);
        let count: usize = read(&self.num_registrations, image_id);
        if !discard {
            self.num_registrations.insert(image_id, count + 1);
        } else if count > 1 {
            self.num_registrations.insert(image_id, count - 1);
        } else {
            self.num_registrations.remove(&image_id);
        }
    }

    fn apply_frame_registration_event(
        &mut self,
        reconstruction: &Reconstruction,
        image: usize,
        discard: bool,
        Ghost(before): Ghost<Map<u32, usize>>,
        Ghost(n): Ghost<int>,
    )
        requires
            session_well_formed(old(self)@),
            reconstruction@.image_limit() <= usize::MAX,
            0 <= n == image < reconstruction@.poses.len(),
            registrations_fit(before, reconstruction@, discard),
            applied(
                before,
                old(self)@.registrations,
                reconstruction@,
                visited(reconstruction@, n),
                discard,
            ),
            reconstruction@.registered(n),
            !unit_seen(reconstruction@, n, n),
        ensures
            session_well_formed(final(self)@),
            final(self)@ == (SessionView {
                registrations: final(self)@.registrations,
                ..old(self)@
            }),
            applied(
                before,
                final(self)@.registrations,
                reconstruction@,
                visited(reconstruction@, n + 1),
                discard,
            ),
    {
        let ghost r = reconstruction@;
        let ghost start = visited(r, n);
        let images: Vec<usize> = reconstruction.image_indices_for_registration_unit(image);
        proof {
            lemma_unit_members(r, image);
            assert(with_first(start, images@, 0) =~= start);
        }
        for k in 0..images.len()
            invariant
                r == reconstruction@,
                start == visited(r, n),
                r.image_limit() <= usize::MAX,
                n == image,
                image < r.poses.len(),
                !unit_seen(r, n, n),
                images@ == r.unit_of(image),
                images@.no_duplicates(),
                forall|m: usize| #[trigger]
                    r.unit_of(image).contains(m) <==> r.same_unit(image as int, m as int),
                registrations_fit(before, r, discard),
                session_well_formed(self@),
                self@ == (SessionView { registrations: self@.registrations, ..old(self)@ }),
                applied(
                    before,
                    self@.registrations,
                    r,
                    with_first(start, images@, k as nat),
                    discard,
                ),
        {
            let ghost current = self@.registrations;
            let ghost members = with_first(start, images@, k as nat);
            let ghost m = images@[k as int] as int;
            proof {
                assert(images@.contains(images@[k as int]));
                assert(r.same_unit(n, m));
                assert(!members.contains(m)) by {
                    if unit_seen(r, n, m) {
                        let i = choose|i: int|
                            0 <= i < n && #[trigger] r.registered(i) && r.same_unit(i, m);
                        assert(r.same_unit(i, n));
                        assert(unit_seen(r, n, n));
                    }
                    if exists|j: int| 0 <= j < k && #[trigger] images@[j] == m {
                        let j = choose|j: int| 0 <= j < k && #[trigger] images@[j] == m;
                        assert(images@[j] == images@[k as int]);
                    }
                }
                lemma_applied_room(before, current, r, members, m, discard);
            }
            self.apply_image_registration_event(reconstruction, images[k], discard);
            proof {
                lemma_applied_step(before, current, self@.registrations, r, members, m, discard);
                assert(members.insert(m) =~= with_first(start, images@, (k + 1) as nat)) by {
                    assert forall|x: int| #[trigger]
                        members.insert(m).contains(x) <==> with_first(
                            start,
                            images@,
                            (k + 1) as nat,
                        ).contains(x) by {
                        if exists|j: int| 0 <= j < k && #[trigger] images@[j] == x {
                            let j = choose|j: int| 0 <= j < k && #[trigger] images@[j] == x;
                            assert(0 <= j < k + 1 && images@[j] == x);
                        }
                        assert(images@[k as int] == m);
                    }
                }
            }
        }
        proof {
            let all = with_first(start, images@, images@.len());
            assert(all =~= visited(r, n + 1)) by {
                assert forall|x: int| #[trigger] all.contains(x) <==> visited(r, n + 1).contains(
                    x,
                ) by {
                    lemma_unit_seen_step(r, n, x);
                    if exists|j: int| 0 <= j < images@.len() && #[trigger] images@[j] == x {
                        let j = choose|j: int| 0 <= j < images@.len() && #[trigger] images@[j] == x;
                        assert(images@.contains(images@[j]));
                    }
                    if r.same_unit(n, x) {
                        assert(0 <= x < r.image_limit());
                        assert(images@.contains(x as usize));
                        let j = choose|j: int| 0 <= j < images@.len() && images@[j] == x as usize;
                        assert(images@[j] == x);
                    }
                }
            }
        }
    }

    /// Ends a reconstruction. If it is kept, every image of its registered
    /// units is counted once more; if it is discarded after it was kept, the
    /// counts are taken back.
    pub fn end_reconstruction(&mut self, reconstruction: &Reconstruction, discard: bool)
        requires
            session_well_formed(old(self)@),
            registrations_fit(old(self)@.registrations, reconstruction@, discard),
        ensures
            session_well_formed(final(self)@),
            final(self)@.trials == old(self)@.trials,
            final(self)@.tried == old(self)@.tried,
            discard && !old(self)@.committed ==> final(self)@ == (SessionView {
                shared: 0,
                ..old(self)@
            }),
            !discard || old(self)@.committed ==> {
                &&& forall|id: u32| #[trigger]
                    lookup(final(self)@.registrations, id) == count_after(
                        lookup(old(self)@.registrations, id),
                        registrations_of(reconstruction@, id),
                        discard,
                    )
                &&& final(self)@.committed == !discard
                &&& discard ==> final(self)@.shared == 0
                &&& !discard ==> final(self)@.shared == count_where(
                    reconstruction@.poses.len(),
                    registered_at_least(reconstruction@, final(self)@.registrations, 2),
                )
            },
    {
        if discard && !self.current_reconstruction_committed {
            self.current_num_shared_reg_images = 0;
            return;
        }
        let ghost r = reconstruction@;
        let ghost before = self@.registrations;
        let num_images: usize = reconstruction.poses.len();
        let num_framed: usize = reconstruction.image_frame_indices.len();
        let mut seen = UnitSet::new();
        proof {
            lemma_applied_none(before, r, discard);
        }
        for image in 0..num_images
            invariant
                r == reconstruction@,
                num_images == r.poses.len(),
                num_framed == r.image_frame_indices.len(),
                before == old(self)@.registrations,
                registrations_fit(before, r, discard),
                session_well_formed(self@),
                self@ == (SessionView { registrations: self@.registrations, ..old(self)@ }),
                applied(before, self@.registrations, r, visited(r, image as int), discard),
                forall|m: usize|
                    seen@.contains(#[trigger] r.unit_key(m)) <==> unit_seen(
                        r,
                        image as int,
                        m as int,
                    ),
        {
            let ghost marks = seen@;
            if reconstruction.poses[image].is_some() {
                assert(r.registered(image as int));
                let key = registration_unit_key(reconstruction, image);
                assert(seen@.contains(r.unit_key(image)) <==> unit_seen(
                    r,
                    image as int,
                    image as int,
                ));
                if seen.insert(key) {
                    self.apply_frame_registration_event(
                        reconstruction,
                        image,
                        discard,
                        Ghost(before),
                        Ghost(image as int),
                    );
                } else {
                    proof {
                        let n = image as int;
                        let i = choose|i: int|
                            0 <= i < n && #[trigger] r.registered(i) && r.same_unit(i, n);
                        assert forall|m: int| #[trigger]
                            visited(r, n + 1).contains(m) <==> visited(r, n).contains(m) by {
                            lemma_unit_seen_step(r, n, m);
                            if r.same_unit(n, m) {
                                assert(r.same_unit(i, m));
                                assert(r.registered(i));
                            }
                        }
                        assert(visited(r, n + 1) =~= visited(r, n));
                    }
                }
            } else {
                proof {
                    assert(!r.registered(image as int));
                    assert forall|m: int| #[trigger]
                        visited(r, image + 1).contains(m) <==> visited(r, image as int).contains(
                            m,
                        ) by {
                        lemma_unit_seen_step(r, image as int, m);
                    }
                    assert(visited(r, image + 1) =~= visited(r, image as int));
                }
            }
            proof {
                assert forall|m: usize|
                    seen@.contains(#[trigger] r.unit_key(m)) <==> unit_seen(
                        r,
                        image + 1,
                        m as int,
                    ) by {
                    lemma_unit_seen_step(r, image as int, m as int);
                    assert(marks.contains(r.unit_key(m)) <==> unit_seen(
                        r,
                        image as int,
                        m as int,
                    ));
                    law_units_partition(r, image, m, m);
                }
            }
        }
        proof {
            let n = num_images as int;
            assert(visited(r, n) =~= unit_members(r)) by {
                assert forall|m: int| #[trigger] visited(r, n).contains(m) <==> unit_members(
                    r,
                ).contains(m) by {
                    if r.unit_registered(m) {
                        let j = choose|j: int| #[trigger] r.registered(j) && r.same_unit(j, m);
                        assert(0 <= j < n && r.registered(j));
                    }
                    if unit_seen(r, n, m) {
                        let j = choose|j: int|
                            0 <= j < n && #[trigger] r.registered(j) && r.same_unit(j, m);
                        assert(r.registered(j) && r.same_unit(j, m));
                    }
                }
            }
        }
        self.current_num_shared_reg_images =
        if discard {
            0
        } else {
            self.num_current_reconstruction_images_with_registration_count(reconstruction, 2)
        };
        self.current_reconstruction_committed = !discard;
    }
}

/// Whether the counts can take one more registration per image.
pub open spec fn registrations_fit(
    counts: Map<u32, usize>,
    r: ReconstructionView,
    discard: bool,
) -> bool {
    !discard ==> forall|id: u32| #[trigger] lookup(counts, id) + r.image_limit() <= usize::MAX
}

spec fn visited(r: ReconstructionView, n: int) -> Set<int> {
    Set::new(|m: int| unit_seen(r, n, m))
}

spec fn with_first(members: Set<int>, images: Seq<usize>, k: nat) -> Set<int> {
    members.union(Set::new(|m: int| exists|j: int| 0 <= j < k && #[trigger] images[j] == m))
}

/// The counts once each image of a set has been counted.
spec fn applied(
    before: Map<u32, usize>,
    after: Map<u32, usize>,
    r: ReconstructionView,
    members: Set<int>,
    discard: bool,
) -> bool {
    forall|id: u32| #[trigger]
        lookup(after, id) == count_after(
            lookup(before, id),
            count_where(r.image_limit(), members_with_id(r, members, id)),
            discard,
        )
}

proof fn lemma_applied_none(before: Map<u32, usize>, r: ReconstructionView, discard: bool)
    ensures
        applied(before, before, r, visited(r, 0), discard),
{
    assert forall|id: u32| #[trigger] lookup(before, id) == count_after(
        lookup(before, id),
        count_where(r.image_limit(), members_with_id(r, visited(r, 0), id)),
        discard,
    ) by {
        lemma_count_positive(r.image_limit(), members_with_id(r, visited(r, 0), id));
    }
}

proof fn lemma_applied_room(
    before: Map<u32, usize>,
    current: Map<u32, usize>,
    r: ReconstructionView,
    members: Set<int>,
    m: int,
    discard: bool,
)
    requires
        applied(before, current, r, members, discard),
        registrations_fit(before, r, discard),
        !members.contains(m),
        0 <= m < r.image_limit(),
    ensures
        !discard ==> lookup(current, r.image_id_of(m)) < usize::MAX,
{
    let id = r.image_id_of(m);
    let p = members_with_id(r, members, id);
    let q = members_with_id(r, members.insert(m), id);
    lemma_count_turned_on(r.image_limit(), p, q, m);
    lemma_count_bound(r.image_limit(), q);
    assert(lookup(current, id) == count_after(
        lookup(before, id),
        count_where(r.image_limit(), p),
        discard,
    ));
    if !discard {
        assert(lookup(before, id) + r.image_limit() <= usize::MAX);
    }
}

proof fn lemma_applied_step(
    before: Map<u32, usize>,
    current: Map<u32, usize>,
    after: Map<u32, usize>,
    r: ReconstructionView,
    members: Set<int>,
    m: int,
    discard: bool,
)
    requires
        applied(before, current, r, members, discard),
        !members.contains(m),
        0 <= m < r.image_limit(),
        forall|id: u32| #[trigger]
            lookup(after, id) == (if id == r.image_id_of(m) {
                count_after(lookup(current, id), 1, discard)
            } else {
                lookup(current, id) as int
            }),
    ensures
        applied(before, after, r, members.insert(m), discard),
{
    assert forall|id: u32| #[trigger] lookup(after, id) == count_after(
        lookup(before, id),
        count_where(r.image_limit(), members_with_id(r, members.insert(m), id)),
        discard,
    ) by {
        let p = members_with_id(r, members, id);
        let q = members_with_id(r, members.insert(m), id);
        assert(lookup(current, id) == count_after(
            lookup(before, id),
            count_where(r.image_limit(), p),
            discard,
        ));
        if id == r.image_id_of(m) {
            lemma_count_turned_on(r.image_limit(), p, q, m);
        } else {
            lemma_where_congruent(r.image_limit(), p, q);
        }
    }
}

/// Discarding a reconstruction right after it was kept restores every
/// registration count.
pub proof fn law_discard_undoes_keep(count: usize, r: ReconstructionView, id: u32, kept: usize)
    requires
        kept == count_after(count, registrations_of(r, id), false),
    ensures
        count_after(kept, registrations_of(r, id), true) == count,
{
}

/// Where image identifiers are distinct, the trials read back after a commit
/// are those that were committed.
pub proof fn law_commit_then_read(
    trials: Map<u32, usize>,
    r: ReconstructionView,
    counts: Seq<usize>,
)
    requires
        counts.len() == r.poses.len(),
        forall|a: int, b: int|
            0 <= a < b < r.poses.len() ==> #[trigger] r.image_id_of(a) != #[trigger] r.image_id_of(
                b,
            ),
    ensures
        counts_by_image(r, trials_stored(trials, r, counts, r.poses.len())) == counts,
{
    lemma_stored_prefix(trials, r, counts, r.poses.len());
    assert(counts_by_image(r, trials_stored(trials, r, counts, r.poses.len())) =~= counts);
}

proof fn lemma_stored_prefix(
    trials: Map<u32, usize>,
    r: ReconstructionView,
    counts: Seq<usize>,
    n: nat,
)
    requires
        n <= r.poses.len(),
        counts.len() == r.poses.len(),
        forall|a: int, b: int|
            0 <= a < b < r.poses.len() ==> #[trigger] r.image_id_of(a) != #[trigger] r.image_id_of(
                b,
            ),
    ensures
        forall|i: int|
            0 <= i < n ==> lookup(
                trials_stored(trials, r, counts, n),
                #[trigger] r.image_id_of(i),
            ) == counts[i],
    decreases n,
{
    if n > 0 {
        lemma_stored_prefix(trials, r, counts, (n - 1) as nat);
        assert forall|i: int| 0 <= i < n implies lookup(
            trials_stored(trials, r, counts, n),
            #[trigger] r.image_id_of(i),
        ) == counts[i] by {
            if i < n - 1 {
                assert(r.image_id_of(i) != r.image_id_of(n - 1));
            }
        }
    }
}

} // verus!

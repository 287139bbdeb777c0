//! Choice of the image pair that a reconstruction starts from.

use crate::config::MapperConfig;
use crate::pair_inversion::{copy_pair_geometry, invert_pair_geometry, inverted, PairView};
use crate::registration_stats::count_at;
use crate::session::{InitialPairFailure, InitialPairSelectionState, SelectionView};
use crate::registration_units::{registered_frame_count, registered_units};
use crate::sorting::{is_sorted, lemma_sorting_contains, sort, Ranked};
use crate::types::{PairGeometry, Reconstruction, ReconstructionView};
use vstd::prelude::*;

verus! {

/// Two-view configuration of a pair verified with calibrated cameras.
pub const TWO_VIEW_CALIBRATED: i32 = 2;

/// Two-view configuration of a pair verified with calibrated rigs.
pub const TWO_VIEW_CALIBRATED_RIG: i32 = 9;

/// How an image ranks as part of a seed pair.
#[derive(Debug, Clone, Copy, PartialEq, Eq, Structural)]
pub struct InitialImageInfo {
    pub image: usize,
    pub prior_focal_length: bool,
    pub num_correspondences: usize,
}

impl Ranked for InitialImageInfo {
    /// Images with a known focal length come first, then those with more
    /// correspondences, then those with a smaller index.
    open spec fn before(self, other: InitialImageInfo) -> bool {
        if self.prior_focal_length != other.prior_focal_length {
            self.prior_focal_length
        } else if self.num_correspondences != other.num_correspondences {
            self.num_correspondences > other.num_correspondences
        } else {
            self.image < other.image
        }
    }

    proof fn asymmetric(a: InitialImageInfo, b: InitialImageInfo) {
    }

    proof fn negatively_transitive(
        a: InitialImageInfo,
        b: InitialImageInfo,
        c: InitialImageInfo,
    ) {
    }

    fn precedes(&self, other: &InitialImageInfo) -> (b: bool) {
        if self.prior_focal_length != other.prior_focal_length {
            self.prior_focal_length
        } else if self.num_correspondences != other.num_correspondences {
            self.num_correspondences > other.num_correspondences
        } else {
            self.image < other.image
        }
    }
}

/// Whether the camera of an image has a known focal length; cameras without a
/// flag count as known.
pub open spec fn has_prior_focal(r: ReconstructionView, image: usize, flags: Seq<bool>) -> bool {
    let camera = r.camera_index_of(image as int);
    if camera < flags.len() {
        flags[camera as int]
    } else {
        true
    }
}

pub fn image_has_prior_focal_length(
    reconstruction: &Reconstruction,
    image: usize,
    camera_has_prior_focal_length: &[bool],
) -> (b: bool)
    ensures
        b == has_prior_focal(reconstruction@, image, camera_has_prior_focal_length@),
{
    let camera: usize = reconstruction.camera_index_for_image(image);
    if camera < camera_has_prior_focal_length.len() {
        camera_has_prior_focal_length[camera]
    } else {
        true
    }
}

/// The inliers of the first `k` pairs, all together.
pub open spec fn inliers_upto(pairs: Seq<PairGeometry>, k: nat) -> nat
    decreases k,
{
    if k == 0 {
        0
    } else {
        inliers_upto(pairs, (k - 1) as nat) + pairs[k - 1].inliers as nat
    }
}

/// Whether sums of inliers fit the counters.
pub open spec fn inliers_fit(pairs: Seq<PairGeometry>) -> bool {
    2 * inliers_upto(pairs, pairs.len()) <= usize::MAX
}

proof fn lemma_inliers_monotone(pairs: Seq<PairGeometry>, j: nat, k: nat)
    requires
        j <= k,
    ensures
        inliers_upto(pairs, j) <= inliers_upto(pairs, k),
    decreases k,
{
    if j < k {
        lemma_inliers_monotone(pairs, j, (k - 1) as nat);
    }
}

/// The inliers that the first `k` pairs give to an image.
pub open spec fn correspondences_of(pairs: Seq<PairGeometry>, k: nat, image: int) -> nat
    decreases k,
{
    if k == 0 {
        0
    } else {
        let pair = pairs[k - 1];
        correspondences_of(pairs, (k - 1) as nat, image) + (if pair.left == image {
            pair.inliers as nat
        } else {
            0
        }) + (if pair.right == image {
            pair.inliers as nat
        } else {
            0
        })
    }
}

/// The image at the other end of a pair.
pub open spec fn other_end(pair: PairGeometry, image: usize) -> Option<usize> {
    if pair.left == image {
        Some(pair.right)
    } else if pair.right == image {
        Some(pair.left)
    } else {
        None
    }
}

/// The inliers that the first `k` pairs give to an image together with `first`.
pub open spec fn shared_correspondences(
    pairs: Seq<PairGeometry>,
    k: nat,
    first: usize,
    image: int,
) -> nat
    decreases k,
{
    if k == 0 {
        0
    } else {
        shared_correspondences(pairs, (k - 1) as nat, first, image) + (match other_end(
            pairs[k - 1],
            first,
        ) {
            Some(other) => if other == image {
                pairs[k - 1].inliers as nat
            } else {
                0
            },
            None => 0,
        })
    }
}

/// The correspondences of each of the first `n` images.
pub fn image_correspondence_counts(pairs: &[PairGeometry], n: usize) -> (counts: Vec<usize>)
    requires
        inliers_fit(pairs@),
    ensures
        counts@.len() == n,
        forall|i: int|
            0 <= i < n ==> #[trigger] counts@[i] == correspondences_of(pairs@, pairs@.len(), i),
{
    let mut counts: Vec<usize> = Vec::new();
    for i in 0..n
        invariant
            counts@.len() == i,
            forall|j: int| 0 <= j < i ==> counts@[j] == 0,
    {
        counts.push(0);
    }
    for k in 0..pairs.len()
        invariant
            inliers_fit(pairs@),
            counts@.len() == n,
            forall|i: int|
                0 <= i < n ==> #[trigger] counts@[i] == correspondences_of(pairs@, k as nat, i),
            forall|i: int| 0 <= i < n ==> #[trigger] counts@[i] <= 2 * inliers_upto(pairs@, k as nat),
    {
        proof {
            lemma_inliers_monotone(pairs@, (k + 1) as nat, pairs@.len());
        }
        let left: usize = pairs[k].left;
        let right: usize = pairs[k].right;
        let inliers: usize = pairs[k].inliers;
        if left < n {
            counts[left] = counts[left] + inliers;
        }
        if right < n {
            counts[right] = counts[right] + inliers;
        }
    }
    counts
}

fn shared_correspondence_counts(pairs: &[PairGeometry], n: usize, first: usize) -> (counts: Vec<
    usize,
>)
    requires
        inliers_fit(pairs@),
    ensures
        counts@.len() == n,
        forall|i: int|
            0 <= i < n ==> #[trigger] counts@[i] == shared_correspondences(
                pairs@,
                pairs@.len(),
                first,
                i,
            ),
{
    let mut counts: Vec<usize> = Vec::new();
    for i in 0..n
        invariant
            counts@.len() == i,
            forall|j: int| 0 <= j < i ==> counts@[j] == 0,
    {
        counts.push(0);
    }
    for k in 0..pairs.len()
        invariant
            inliers_fit(pairs@),
            counts@.len() == n,
            forall|i: int|
                0 <= i < n ==> #[trigger] counts@[i] == shared_correspondences(
                    pairs@,
                    k as nat,
                    first,
                    i,
                ),
            forall|i: int| 0 <= i < n ==> #[trigger] counts@[i] <= inliers_upto(pairs@, k as nat),
    {
        proof {
            lemma_inliers_monotone(pairs@, (k + 1) as nat, pairs@.len());
        }
        let inliers: usize = pairs[k].inliers;
        let other: usize = if pairs[k].left == first {
            pairs[k].right
        } else if pairs[k].right == first {
            pairs[k].left
        } else {
            n
        };
        if other < n {
            counts[other] = counts[other] + inliers;
        }
    }
    counts
}

/// What decides about seed pairs.
pub struct SeedContext {
    pub r: ReconstructionView,
    pub pairs: Seq<PairGeometry>,
    pub flags: Seq<bool>,
    pub trials: Seq<usize>,
    pub registrations: Seq<usize>,
    pub config: MapperConfig,
}

impl SeedContext {
    pub open spec fn first_info(self, image: usize) -> InitialImageInfo {
        InitialImageInfo {
            image,
            prior_focal_length: has_prior_focal(self.r, image, self.flags),
            num_correspondences: correspondences_of(
                self.pairs,
                self.pairs.len(),
                image as int,
            ) as usize,
        }
    }

    pub open spec fn second_info(self, first: usize, image: usize) -> InitialImageInfo {
        InitialImageInfo {
            image,
            prior_focal_length: has_prior_focal(self.r, image, self.flags),
            num_correspondences: shared_correspondences(
                self.pairs,
                self.pairs.len(),
                first,
                image as int,
            ) as usize,
        }
    }

    /// Whether an image can be the first of a seed pair: it has
    /// correspondences, trials left, and is in no kept model.
    pub open spec fn can_be_first(self, image: usize) -> bool {
        &&& image < self.r.poses.len()
        &&& correspondences_of(self.pairs, self.pairs.len(), image as int) > 0
        &&& count_at(self.trials, image as int) < self.config.init_max_reg_trials
        &&& count_at(self.registrations, image as int) == 0
    }

    /// Whether an image can be the second of a seed pair: it shares enough
    /// inliers with the first and is in no kept model.
    pub open spec fn can_be_second(self, first: usize, image: usize) -> bool {
        &&& image < self.r.poses.len()
        &&& exists|k: int|
            0 <= k < self.pairs.len() && other_end(#[trigger] self.pairs[k], first) == Some(image)
        &&& shared_correspondences(self.pairs, self.pairs.len(), first, image as int)
            >= self.config.init_min_num_inliers
        &&& count_at(self.registrations, image as int) == 0
    }

    /// `images` are the candidates for the first image, best first.
    pub open spec fn ranks_first(self, images: Seq<usize>) -> bool {
        &&& forall|x: usize| #[trigger] images.contains(x) <==> self.can_be_first(x)
        &&& forall|i: int, j: int|
            0 <= i < j < images.len() ==> self.first_info(#[trigger] images[i]).before(
                self.first_info(#[trigger] images[j]),
            )
    }

    /// `images` are the candidates for the second image, best first.
    pub open spec fn ranks_second(self, first: usize, images: Seq<usize>) -> bool {
        &&& forall|x: usize| #[trigger] images.contains(x) <==> self.can_be_second(first, x)
        &&& forall|i: int, j: int|
            0 <= i < j < images.len() ==> self.second_info(first, #[trigger] images[i]).before(
                self.second_info(first, #[trigger] images[j]),
            )
    }

    pub open spec fn first_images(self) -> Seq<usize> {
        choose|images: Seq<usize>| self.ranks_first(images)
    }

    pub open spec fn second_images(self, first: usize) -> Seq<usize> {
        choose|images: Seq<usize>| self.ranks_second(first, images)
    }

    /// Whether two images, in this order, make a good seed pair.
    pub open spec fn accepts(self, left: usize, right: usize) -> bool {
        match oriented(self.pairs, self.pairs.len(), left, right) {
            Some(pair) => is_good_seed(pair, self.r, self.config),
            None => false,
        }
    }

    /// Whether a pair is worth trying, given the pairs tried so far.
    pub open spec fn untried(self, tried: Set<u64>, left: usize, right: usize) -> bool {
        match self.r.pair_id_of(left, right) {
            Some(id) => !tried.contains(id),
            None => false,
        }
    }

    /// Searches the second images from position `k` on. Gives the image that
    /// completes a seed pair, if any, and the pairs tried then.
    pub open spec fn search_second(
        self,
        first: usize,
        images: Seq<usize>,
        k: nat,
        tried: Set<u64>,
    ) -> (Option<usize>, Set<u64>)
        decreases images.len() - k,
    {
        if k >= images.len() {
            (None, tried)
        } else {
            let second = images[k as int];
            let after = crate::session::pair_tried(tried, self.r, first, second);
            if self.untried(tried, first, second) && self.accepts(first, second) {
                (Some(second), after)
            } else {
                self.search_second(first, images, k + 1, after)
            }
        }
    }

    /// Searches the first images from position `k` on.
    pub open spec fn search_first(self, images: Seq<usize>, k: nat, tried: Set<u64>) -> (
        Option<(usize, usize)>,
        Set<u64>,
    )
        decreases images.len() - k,
    {
        if k >= images.len() {
            (None, tried)
        } else {
            let first = images[k as int];
            match self.search_second(first, self.second_images(first), 0, tried) {
                (Some(second), after) => (Some((first, second)), after),
                (None, after) => self.search_first(images, k + 1, after),
            }
        }
    }

    /// The seed pair and the pairs tried until it was found.
    pub open spec fn search(self, tried: Set<u64>) -> (Option<(usize, usize)>, Set<u64>) {
        self.search_first(self.first_images(), 0, tried)
    }
}

/// The first of the first `k` pairs that joins two images, as seen from `left`.
pub open spec fn oriented(
    pairs: Seq<PairGeometry>,
    k: nat,
    left: usize,
    right: usize,
) -> Option<PairView>
    decreases k,
{
    if k == 0 {
        None
    } else {
        match oriented(pairs, (k - 1) as nat, left, right) {
            Some(pair) => Some(pair),
            None => {
                let pair = pairs[k - 1];
                if pair.left == left && pair.right == right {
                    Some(pair@)
                } else if pair.left == right && pair.right == left {
                    Some(inverted(pair@))
                } else {
                    None
                }
            },
        }
    }
}

pub fn oriented_initial_pair(pairs: &[PairGeometry], left: usize, right: usize) -> (out: Option<
    PairGeometry,
>)
    ensures
        match out {
            Some(pair) => oriented(pairs@, pairs@.len(), left, right) == Some(pair@),
            None => oriented(pairs@, pairs@.len(), left, right) is None,
        },
{
    for k in 0..pairs.len()
        invariant
            oriented(pairs@, k as nat, left, right) is None,
    {
        let pair = &pairs[k];
        if pair.left == left && pair.right == right {
            proof {
                lemma_oriented_stays(pairs@, (k + 1) as nat, pairs@.len(), left, right);
            }
            return Some(copy_pair_geometry(pair));
        } else if pair.left == right && pair.right == left {
            proof {
                lemma_oriented_stays(pairs@, (k + 1) as nat, pairs@.len(), left, right);
            }
            return Some(invert_pair_geometry(pair));
        }
    }
    None
}

proof fn lemma_oriented_stays(
    pairs: Seq<PairGeometry>,
    j: nat,
    k: nat,
    left: usize,
    right: usize,
)
    requires
        j <= k,
        oriented(pairs, j, left, right) is Some,
    ensures
        oriented(pairs, k, left, right) == oriented(pairs, j, left, right),
    decreases k,
{
    if j < k {
        lemma_oriented_stays(pairs, j, (k - 1) as nat, left, right);
    }
}

/// Whether two different images are of the same frame.
pub open spec fn in_same_frame(r: ReconstructionView, left: usize, right: usize) -> bool {
    left != right && r.frame_of(left as int) is Some && r.frame_of(left as int) == r.frame_of(
        right as int,
    )
}

/// Whether the first rig with an identifier has several sensors.
pub open spec fn rig_is_non_trivial(
    rigs: Seq<crate::types::Rig>,
    rig_id: u32,
    from: int,
) -> bool
    decreases rigs.len() - from,
{
    if from < 0 || from >= rigs.len() {
        false
    } else if rigs[from].rig_id == rig_id {
        rigs[from].sensors@.len() > 1
    } else {
        rig_is_non_trivial(rigs, rig_id, from + 1)
    }
}

/// Whether an image is taken with a rig of several sensors.
pub open spec fn in_non_trivial_rig(r: ReconstructionView, image: usize) -> bool {
    match r.frame_of(image as int) {
        Some(frame) => frame < r.frames.len() && rig_is_non_trivial(
            r.rigs,
            r.frames[frame as int].rig_id,
            0,
        ),
        None => false,
    }
}

pub fn same_registration_frame(reconstruction: &Reconstruction, left: usize, right: usize) -> (b:
    bool)
    ensures
        b == in_same_frame(reconstruction@, left, right),
{
    if left == right {
        return false;
    }
    match (
        reconstruction.frame_index_for_image(left),
        reconstruction.frame_index_for_image(right),
    ) {
        (Some(left_frame), Some(right_frame)) => left_frame == right_frame,
        _ => false,
    }
}

pub fn non_trivial_registration_rig(reconstruction: &Reconstruction, image: usize) -> (b: bool)
    ensures
        b == in_non_trivial_rig(reconstruction@, image),
{
    let frame: usize = match reconstruction.frame_index_for_image(image) {
        Some(frame) => frame,
        None => {
            return false;
        },
    };
    if frame >= reconstruction.frames.len() {
        return false;
    }
    let rig_id: u32 = reconstruction.frames[frame].rig_id;
    let mut k: usize = 0;
    while k < reconstruction.rigs.len()
        invariant
            reconstruction@.frame_of(image as int) == Some(frame),
            frame < reconstruction@.frames.len(),
            rig_id == reconstruction@.frames[frame as int].rig_id,
            k <= reconstruction.rigs@.len(),
            rig_is_non_trivial(reconstruction.rigs@, rig_id, 0) == rig_is_non_trivial(
                reconstruction.rigs@,
                rig_id,
                k as int,
            ),
        decreases reconstruction.rigs.len() - k,
    {
        if reconstruction.rigs[k].rig_id == rig_id {
            return reconstruction.rigs[k].sensors.len() > 1;
        }
        k = k + 1;
    }
    false
}

/// Pairs of images in rigs must have been verified with the rigs.
pub open spec fn rig_gate(pair: PairView, r: ReconstructionView) -> bool {
    in_non_trivial_rig(r, pair.left) || in_non_trivial_rig(r, pair.right)
        ==> pair.two_view_config == TWO_VIEW_CALIBRATED_RIG
}

pub fn generalized_initial_pair_gate(pair: &PairGeometry, reconstruction: &Reconstruction) -> (b:
    bool)
    ensures
        b == rig_gate(pair@, reconstruction@),
{
    if non_trivial_registration_rig(reconstruction, pair.left) || non_trivial_registration_rig(
        reconstruction,
        pair.right,
    ) {
        pair.two_view_config == TWO_VIEW_CALIBRATED_RIG
    } else {
        true
    }
}

/// Whether a pair has the inliers, points, parallax and motion of a seed.
pub open spec fn is_good_seed(pair: PairView, r: ReconstructionView, config: MapperConfig) -> bool {
    &&& pair.inliers >= config.init_min_num_inliers
    &&& config.init_min_tri_angle_deg.below(pair.median_triangulation_angle_deg)
    &&& pair.triangulated >= config.min_triangulated
    &&& pair.forward.forward_motion.below(config.init_max_forward_motion)
    &&& !in_same_frame(r, pair.left, pair.right)
    &&& rig_gate(pair, r)
}

pub fn is_colmap_style_initial_pair(
    pair: &PairGeometry,
    reconstruction: &Reconstruction,
    config: &MapperConfig,
) -> (b: bool)
    ensures
        b == is_good_seed(pair@, reconstruction@, *config),
{
    pair.inliers >= config.init_min_num_inliers && config.init_min_tri_angle_deg.lt(
        &pair.median_triangulation_angle_deg,
    ) && pair.triangulated >= config.min_triangulated && pair.forward.forward_motion.lt(
        &config.init_max_forward_motion,
    ) && !same_registration_frame(reconstruction, pair.left, pair.right)
        && generalized_initial_pair_gate(pair, reconstruction)
}

/// The context given by the arguments of the search.
pub open spec fn seed_context(
    pairs: Seq<PairGeometry>,
    r: ReconstructionView,
    config: MapperConfig,
    flags: Seq<bool>,
    state: SelectionView,
) -> SeedContext {
    SeedContext {
        r,
        pairs,
        flags,
        trials: state.trials,
        registrations: state.registrations,
        config,
    }
}

proof fn lemma_first_unique(c: SeedContext, a: Seq<usize>, b: Seq<usize>)
    requires
        c.ranks_first(a),
        c.ranks_first(b),
    ensures
        a == b,
{
    lemma_ranked_unique(a, b, |x: usize| c.first_info(x), |x: usize| c.can_be_first(x));
}

proof fn lemma_second_unique(c: SeedContext, first: usize, a: Seq<usize>, b: Seq<usize>)
    requires
        c.ranks_second(first, a),
        c.ranks_second(first, b),
    ensures
        a == b,
{
    lemma_ranked_unique(
        a,
        b,
        |x: usize| c.second_info(first, x),
        |x: usize| c.can_be_second(first, x),
    );
}

/// A strict ranking of a set is unique.
proof fn lemma_ranked_unique(
    a: Seq<usize>,
    b: Seq<usize>,
    info: spec_fn(usize) -> InitialImageInfo,
    member: spec_fn(usize) -> bool,
)
    requires
        forall|x: usize| #[trigger] a.contains(x) <==> member(x),
        forall|x: usize| #[trigger] b.contains(x) <==> member(x),
        forall|i: int, j: int|
            0 <= i < j < a.len() ==> info(#[trigger] a[i]).before(info(#[trigger] a[j])),
        forall|i: int, j: int|
            0 <= i < j < b.len() ==> info(#[trigger] b[i]).before(info(#[trigger] b[j])),
    ensures
        a == b,
    decreases a.len(),
{
    if a.len() == 0 {
        if b.len() > 0 {
            assert(b.contains(b[0]));
            assert(a.contains(b[0]));
        }
        assert(a =~= b);
    } else {
        assert(a.contains(a.last()));
        assert(b.contains(a.last()));
        assert(b.contains(b.last()));
        assert(a.contains(b.last()));
        let i = choose|i: int| 0 <= i < a.len() && a[i] == b.last();
        let j = choose|j: int| 0 <= j < b.len() && b[j] == a.last();
        if a.last() != b.last() {
            assert(info(a[i]).before(info(a[a.len() - 1])));
            assert(info(b[j]).before(info(b[b.len() - 1])));
            InitialImageInfo::asymmetric(info(a[i]), info(a[a.len() - 1]));
        }
        let x = a.last();
        let rest = |y: usize| member(y) && y != x;
        lemma_ranked_drop(a, info, member);
        lemma_ranked_drop(b, info, member);
        lemma_ranked_unique(a.drop_last(), b.drop_last(), info, rest);
        assert(a =~= a.drop_last().push(x));
        assert(b =~= b.drop_last().push(x));
    }
}

proof fn lemma_ranked_drop(
    a: Seq<usize>,
    info: spec_fn(usize) -> InitialImageInfo,
    member: spec_fn(usize) -> bool,
)
    requires
        a.len() > 0,
        forall|x: usize| #[trigger] a.contains(x) <==> member(x),
        forall|i: int, j: int|
            0 <= i < j < a.len() ==> info(#[trigger] a[i]).before(info(#[trigger] a[j])),
    ensures
        forall|y: usize| #[trigger]
            a.drop_last().contains(y) <==> member(y) && y != a.last(),
{
    let d = a.drop_last();
    assert forall|y: usize| #[trigger] d.contains(y) <==> member(y) && y != a.last() by {
        if d.contains(y) {
            let k = choose|k: int| 0 <= k < d.len() && d[k] == y;
            assert(a[k] == y);
            assert(a.contains(y));
            assert(info(a[k]).before(info(a[a.len() - 1])));
            InitialImageInfo::asymmetric(info(a[k]), info(a[a.len() - 1]));
        }
        if member(y) && y != a.last() {
            assert(a.contains(y));
            let k = choose|k: int| 0 <= k < a.len() && a[k] == y;
            assert(d[k] == y);
        }
    }
}

/// The images of sorted infos, which are strictly ranked.
fn images_of(infos: Vec<InitialImageInfo>) -> (images: Vec<usize>)
    requires
        is_sorted(infos@),
        forall|i: int, j: int|
            0 <= i < infos@.len() && 0 <= j < infos@.len() && i != j
                ==> (#[trigger] infos@[i]).image != (#[trigger] infos@[j]).image,
    ensures
        images@.len() == infos@.len(),
        forall|i: int| 0 <= i < images@.len() ==> #[trigger] images@[i] == infos@[i].image,
        forall|i: int, j: int|
            0 <= i < j < infos@.len() ==> (#[trigger] infos@[i]).before(#[trigger] infos@[j]),
{
    let mut images: Vec<usize> = Vec::new();
    for i in 0..infos.len()
        invariant
            images@.len() == i,
            forall|k: int| 0 <= k < i ==> #[trigger] images@[k] == infos@[k].image,
    {
        images.push(infos[i].image);
    }
    assert forall|i: int, j: int| 0 <= i < j < infos@.len() implies (#[trigger] infos@[i]).before(
        #[trigger] infos@[j],
    ) by {
        assert(!infos@[j].before(infos@[i]));
        assert(infos@[i].image != infos@[j].image);
    }
    images
}

/// The candidates for the first image of a seed pair, best first.
pub fn sorted_initial_image_ids(
    pairs: &[PairGeometry],
    reconstruction: &Reconstruction,
    config: &MapperConfig,
    camera_has_prior_focal_length: &[bool],
    selection_state: &InitialPairSelectionState,
) -> (images: Vec<usize>)
    requires
        inliers_fit(pairs@),
    ensures
        seed_context(
            pairs@,
            reconstruction@,
            *config,
            camera_has_prior_focal_length@,
            selection_state@,
        ).ranks_first(images@),
{
    let ghost c = seed_context(
        pairs@,
        reconstruction@,
        *config,
        camera_has_prior_focal_length@,
        selection_state@,
    );
    let n: usize = reconstruction.poses.len();
    let counts: Vec<usize> = image_correspondence_counts(pairs, n);
    let mut infos: Vec<InitialImageInfo> = Vec::new();
    for image in 0..n
        invariant
            n == c.r.poses.len(),
            c == seed_context(
                pairs@,
                reconstruction@,
                *config,
                camera_has_prior_focal_length@,
                selection_state@,
            ),
            counts@.len() == n,
            forall|i: int|
                0 <= i < n ==> #[trigger] counts@[i] == correspondences_of(pairs@, pairs@.len(), i),
            forall|k: int|
                0 <= k < infos@.len() ==> {
                    &&& (#[trigger] infos@[k]).image < image
                    &&& infos@[k] == c.first_info(infos@[k].image)
                    &&& c.can_be_first(infos@[k].image)
                },
            forall|x: usize|
                x < image && #[trigger] c.can_be_first(x) ==> infos@.contains(c.first_info(x)),
            forall|i: int, j: int|
                0 <= i < j < infos@.len() ==> (#[trigger] infos@[i]).image
                    < (#[trigger] infos@[j]).image,
    {
        assert(counts@[image as int] == correspondences_of(pairs@, pairs@.len(), image as int));
        let ghost before = infos@;
        if counts[image] > 0 && selection_state.first_image_available_for_initialization(
            image,
            config.init_max_reg_trials,
        ) {
            let info = InitialImageInfo {
                image,
                prior_focal_length: image_has_prior_focal_length(
                    reconstruction,
                    image,
                    camera_has_prior_focal_length,
                ),
                num_correspondences: counts[image],
            };
            infos.push(info);
            assert(infos@[before.len() as int] == c.first_info(image));
        }
        proof {
            assert forall|x: usize|
                x < image + 1 && #[trigger] c.can_be_first(x) implies infos@.contains(
                c.first_info(x),
            ) by {
                if x < image {
                    let k = choose|k: int| 0 <= k < before.len() && before[k] == c.first_info(x);
                    assert(infos@[k] == c.first_info(x));
                }
            }
        }
    }
    let ghost listed = infos@;
    sort(&mut infos);
    proof {
        lemma_sorting_contains(infos@, listed);
        lemma_sorted_distinct(infos@, listed);
    }
    let ghost sorted = infos@;
    let images: Vec<usize> = images_of(infos);
    proof {
        assert forall|k: int| 0 <= k < sorted.len() implies #[trigger] sorted[k] == c.first_info(
            images@[k],
        ) && c.can_be_first(images@[k]) by {
            assert(sorted.contains(sorted[k]));
            assert(listed.contains(sorted[k]));
            let j = choose|j: int| 0 <= j < listed.len() && listed[j] == sorted[k];
            assert(listed[j].image == images@[k]);
        }
        assert forall|x: usize| #[trigger] images@.contains(x) <==> c.can_be_first(x) by {
            if images@.contains(x) {
                let k = choose|k: int| 0 <= k < images@.len() && images@[k] == x;
                assert(sorted[k] == c.first_info(images@[k]));
            }
            if c.can_be_first(x) {
                assert(listed.contains(c.first_info(x)));
                assert(sorted.contains(c.first_info(x)));
                let k = choose|k: int| 0 <= k < sorted.len() && sorted[k] == c.first_info(x);
                assert(images@[k] == x);
            }
        }
        assert forall|i: int, j: int| 0 <= i < j < images@.len() implies c.first_info(
            #[trigger] images@[i],
        ).before(c.first_info(#[trigger] images@[j])) by {
            assert(sorted[i] == c.first_info(images@[i]));
            assert(sorted[j] == c.first_info(images@[j]));
        }
    }
    images
}

/// Sorting keeps images distinct.
proof fn lemma_sorted_distinct(sorted: Seq<InitialImageInfo>, listed: Seq<InitialImageInfo>)
    requires
        sorted.to_multiset() == listed.to_multiset(),
        forall|i: int, j: int|
            0 <= i < j < listed.len() ==> (#[trigger] listed[i]).image < (#[trigger] listed[j]).image,
    ensures
        forall|i: int, j: int|
            0 <= i < sorted.len() && 0 <= j < sorted.len() && i != j
                ==> (#[trigger] sorted[i]).image != (#[trigger] sorted[j]).image,
{
    lemma_sorting_contains(sorted, listed);
    assert(listed.no_duplicates());
    listed.lemma_multiset_has_no_duplicates();
    sorted.lemma_multiset_has_no_duplicates_conv();
    assert forall|i: int, j: int|
        0 <= i < sorted.len() && 0 <= j < sorted.len() && i != j implies (#[trigger] sorted[i]).image
        != (#[trigger] sorted[j]).image by {
        assert(sorted.contains(sorted[i]));
        assert(sorted.contains(sorted[j]));
        let a = choose|a: int| 0 <= a < listed.len() && listed[a] == sorted[i];
        let b = choose|b: int| 0 <= b < listed.len() && listed[b] == sorted[j];
        assert(sorted[i] != sorted[j]);
        assert(a != b);
        if a < b {
            assert(listed[a].image < listed[b].image);
        } else {
            assert(listed[b].image < listed[a].image);
        }
    }
}

/// The candidates for the second image of a seed pair, best first.
pub fn sorted_second_initial_image_ids(
    pairs: &[PairGeometry],
    reconstruction: &Reconstruction,
    first_image: usize,
    config: &MapperConfig,
    camera_has_prior_focal_length: &[bool],
    selection_state: &InitialPairSelectionState,
) -> (images: Vec<usize>)
    requires
        inliers_fit(pairs@),
    ensures
        seed_context(
            pairs@,
            reconstruction@,
            *config,
            camera_has_prior_focal_length@,
            selection_state@,
        ).ranks_second(first_image, images@),
{
    let ghost c = seed_context(
        pairs@,
        reconstruction@,
        *config,
        camera_has_prior_focal_length@,
        selection_state@,
    );
    let n: usize = reconstruction.poses.len();
    let counts: Vec<usize> = shared_correspondence_counts(pairs, n, first_image);
    let paired: Vec<bool> = images_paired_with(pairs, n, first_image);
    let mut infos: Vec<InitialImageInfo> = Vec::new();
    for image in 0..n
        invariant
            n == c.r.poses.len(),
            c == seed_context(
                pairs@,
                reconstruction@,
                *config,
                camera_has_prior_focal_length@,
                selection_state@,
            ),
            counts@.len() == n,
            paired@.len() == n,
            forall|i: int|
                0 <= i < n ==> #[trigger] counts@[i] == shared_correspondences(
                    pairs@,
                    pairs@.len(),
                    first_image,
                    i,
                ),
            forall|i: int|
                0 <= i < n ==> #[trigger] paired@[i] == paired_upto(
                    pairs@,
                    pairs@.len() as int,
                    first_image,
                    i as usize,
                ),
            forall|k: int|
                0 <= k < infos@.len() ==> {
                    &&& (#[trigger] infos@[k]).image < image
                    &&& infos@[k] == c.second_info(first_image, infos@[k].image)
                    &&& c.can_be_second(first_image, infos@[k].image)
                },
            forall|x: usize|
                x < image && #[trigger] c.can_be_second(first_image, x) ==> infos@.contains(
                    c.second_info(first_image, x),
                ),
            forall|i: int, j: int|
                0 <= i < j < infos@.len() ==> (#[trigger] infos@[i]).image
                    < (#[trigger] infos@[j]).image,
    {
        let ghost before = infos@;
        assert(paired@[image as int] == paired_upto(
            pairs@,
            pairs@.len() as int,
            first_image,
            image,
        ));
        if paired[image] && counts[image] >= config.init_min_num_inliers
            && selection_state.image_not_registered_in_other_reconstruction(image) {
            let info = InitialImageInfo {
                image,
                prior_focal_length: image_has_prior_focal_length(
                    reconstruction,
                    image,
                    camera_has_prior_focal_length,
                ),
                num_correspondences: counts[image],
            };
            infos.push(info);
            assert(infos@[before.len() as int] == c.second_info(first_image, image));
        }
        proof {
            assert forall|x: usize|
                x < image + 1 && #[trigger] c.can_be_second(
                    first_image,
                    x,
                ) implies infos@.contains(c.second_info(first_image, x)) by {
                if x < image {
                    let k = choose|k: int|
                        0 <= k < before.len() && before[k] == c.second_info(first_image, x);
                    assert(infos@[k] == c.second_info(first_image, x));
                }
            }
        }
    }
    let ghost listed = infos@;
    sort(&mut infos);
    proof {
        lemma_sorting_contains(infos@, listed);
        lemma_sorted_distinct(infos@, listed);
    }
    let ghost sorted = infos@;
    let images: Vec<usize> = images_of(infos);
    proof {
        assert forall|k: int| 0 <= k < sorted.len() implies #[trigger] sorted[k] == c.second_info(
            first_image,
            images@[k],
        ) && c.can_be_second(first_image, images@[k]) by {
            assert(sorted.contains(sorted[k]));
            assert(listed.contains(sorted[k]));
            let j = choose|j: int| 0 <= j < listed.len() && listed[j] == sorted[k];
            assert(listed[j].image == images@[k]);
        }
        assert forall|x: usize| #[trigger] images@.contains(x) <==> c.can_be_second(
            first_image,
            x,
        ) by {
            if images@.contains(x) {
                let k = choose|k: int| 0 <= k < images@.len() && images@[k] == x;
                assert(sorted[k] == c.second_info(first_image, images@[k]));
            }
            if c.can_be_second(first_image, x) {
                assert(listed.contains(c.second_info(first_image, x)));
                assert(sorted.contains(c.second_info(first_image, x)));
                let k = choose|k: int|
                    0 <= k < sorted.len() && sorted[k] == c.second_info(first_image, x);
                assert(images@[k] == x);
            }
        }
        assert forall|i: int, j: int| 0 <= i < j < images@.len() implies c.second_info(
            first_image,
            #[trigger] images@[i],
        ).before(c.second_info(first_image, #[trigger] images@[j])) by {
            assert(sorted[i] == c.second_info(first_image, images@[i]));
            assert(sorted[j] == c.second_info(first_image, images@[j]));
        }
    }
    images
}

/// Whether one of the first `k` pairs joins an image with `first`.
spec fn paired_upto(pairs: Seq<PairGeometry>, k: int, first: usize, image: usize) -> bool {
    exists|j: int| 0 <= j < k && other_end(#[trigger] pairs[j], first) == Some(image)
}

fn images_paired_with(pairs: &[PairGeometry], n: usize, first: usize) -> (paired: Vec<bool>)
    ensures
        paired@.len() == n,
        forall|i: int|
            0 <= i < n ==> #[trigger] paired@[i] == paired_upto(
                pairs@,
                pairs@.len() as int,
                first,
                i as usize,
            ),
{
    let mut paired: Vec<bool> = Vec::new();
    for i in 0..n
        invariant
            paired@.len() == i,
            forall|j: int| 0 <= j < i ==> !paired@[j],
    {
        paired.push(false);
    }
    for k in 0..pairs.len()
        invariant
            paired@.len() == n,
            forall|i: int|
                0 <= i < n ==> #[trigger] paired@[i] == paired_upto(
                    pairs@,
                    k as int,
                    first,
                    i as usize,
                ),
    {
        let ghost before = paired@;
        let other: usize = if pairs[k].left == first {
            pairs[k].right
        } else if pairs[k].right == first {
            pairs[k].left
        } else {
            n
        };
        if other < n {
            paired[other] = true;
        }
        proof {
            assert forall|i: int| 0 <= i < n implies #[trigger] paired@[i] == paired_upto(
                pairs@,
                k + 1,
                first,
                i as usize,
            ) by {
                assert(before[i] == paired_upto(pairs@, k as int, first, i as usize));
                if paired_upto(pairs@, k as int, first, i as usize) {
                    let j = choose|j: int|
                        0 <= j < k && other_end(#[trigger] pairs@[j], first) == Some(i as usize);
                    assert(0 <= j < k + 1 && other_end(pairs@[j], first) == Some(i as usize));
                }
                if other_end(pairs@[k as int], first) == Some(i as usize) {
                    assert(paired_upto(pairs@, k + 1, first, i as usize));
                }
            }
        }
    }
    paired
}

/// Chooses the pair to start from, and marks the pairs that were looked at.
///
/// First images are taken best first, and for each the second images best
/// first. The first pair that was not tried before and is a good seed wins.
pub fn choose_initial_pair(
    pairs: &[PairGeometry],
    reconstruction: &Reconstruction,
    config: &MapperConfig,
    camera_has_prior_focal_length: &[bool],
    selection_state: &mut InitialPairSelectionState,
) -> (chosen: Option<PairGeometry>)
    requires
        inliers_fit(pairs@),
    ensures
        ({
            let c = seed_context(
                pairs@,
                reconstruction@,
                *config,
                camera_has_prior_focal_length@,
                old(selection_state)@,
            );
            let (pair, tried) = c.search(old(selection_state)@.tried);
            &&& final(selection_state)@ == (SelectionView { tried, ..old(selection_state)@ })
            &&& match chosen {
                Some(found) => pair is Some && oriented(
                    pairs@,
                    pairs@.len(),
                    (pair->0).0,
                    (pair->0).1,
                ) == Some(found@),
                None => pair is None,
            }
        }),
{
    let ghost start = selection_state@;
    let ghost c = seed_context(
        pairs@,
        reconstruction@,
        *config,
        camera_has_prior_focal_length@,
        start,
    );
    let firsts: Vec<usize> = sorted_initial_image_ids(
        pairs,
        reconstruction,
        config,
        camera_has_prior_focal_length,
        selection_state,
    );
    proof {
        lemma_first_unique(c, firsts@, c.first_images());
    }
    for a in 0..firsts.len()
        invariant
            inliers_fit(pairs@),
            start == old(selection_state)@,
            c == seed_context(
                pairs@,
                reconstruction@,
                *config,
                camera_has_prior_focal_length@,
                start,
            ),
            firsts@ == c.first_images(),
            selection_state@ == (SelectionView { tried: selection_state@.tried, ..start }),
            c.search(start.tried) == c.search_first(firsts@, a as nat, selection_state@.tried),
    {
        let first: usize = firsts[a];
        let ghost entry = selection_state@.tried;
        let seconds: Vec<usize> = sorted_second_initial_image_ids(
            pairs,
            reconstruction,
            first,
            config,
            camera_has_prior_focal_length,
            selection_state,
        );
        proof {
            lemma_second_unique(c, first, seconds@, c.second_images(first));
        }
        for b in 0..seconds.len()
            invariant
                start == old(selection_state)@,
                c == seed_context(
                    pairs@,
                    reconstruction@,
                    *config,
                    camera_has_prior_focal_length@,
                    start,
                ),
                a < firsts@.len(),
                first == firsts@[a as int],
                firsts@ == c.first_images(),
                seconds@ == c.second_images(first),
                selection_state@ == (SelectionView { tried: selection_state@.tried, ..start }),
                c.search(start.tried) == c.search_first(firsts@, a as nat, entry),
                c.search_second(first, seconds@, 0, entry) == c.search_second(
                    first,
                    seconds@,
                    b as nat,
                    selection_state@.tried,
                ),
        {
            let second: usize = seconds[b];
            let ghost tried = selection_state@.tried;
            if selection_state.mark_initial_pair_tried(reconstruction, first, second) {
                if let Some(pair) = oriented_initial_pair(pairs, first, second) {
                    if is_colmap_style_initial_pair(&pair, reconstruction, config) {
                        assert(c.accepts(first, second));
                        return Some(pair);
                    }
                }
            }
        }
    }
    None
}

/// A chosen seed pair was not tried before, is a good seed, and counts as
/// tried from then on; no pair is ever forgotten by a search.
pub proof fn law_seed_not_tried_before(c: SeedContext, tried: Set<u64>)
    ensures
        tried.subset_of(c.search(tried).1),
        c.search(tried).0 matches Some(pair) ==> {
            &&& c.accepts(pair.0, pair.1)
            &&& c.r.pair_id_of(pair.0, pair.1) is Some
            &&& !tried.contains(c.r.pair_id_of(pair.0, pair.1)->0)
            &&& c.search(tried).1.contains(c.r.pair_id_of(pair.0, pair.1)->0)
        },
{
    lemma_search_first(c, c.first_images(), 0, tried);
}

proof fn lemma_search_second(
    c: SeedContext,
    first: usize,
    images: Seq<usize>,
    k: nat,
    tried: Set<u64>,
)
    ensures
        tried.subset_of(c.search_second(first, images, k, tried).1),
        c.search_second(first, images, k, tried).0 matches Some(second) ==> {
            &&& c.accepts(first, second)
            &&& c.r.pair_id_of(first, second) is Some
            &&& !tried.contains(c.r.pair_id_of(first, second)->0)
            &&& c.search_second(first, images, k, tried).1.contains(
                c.r.pair_id_of(first, second)->0,
            )
        },
    decreases images.len() - k,
{
    if k < images.len() {
        let after = crate::session::pair_tried(tried, c.r, first, images[k as int]);
        lemma_search_second(c, first, images, k + 1, after);
    }
}

proof fn lemma_search_first(c: SeedContext, images: Seq<usize>, k: nat, tried: Set<u64>)
    ensures
        tried.subset_of(c.search_first(images, k, tried).1),
        c.search_first(images, k, tried).0 matches Some(pair) ==> {
            &&& c.accepts(pair.0, pair.1)
            &&& c.r.pair_id_of(pair.0, pair.1) is Some
            &&& !tried.contains(c.r.pair_id_of(pair.0, pair.1)->0)
            &&& c.search_first(images, k, tried).1.contains(c.r.pair_id_of(pair.0, pair.1)->0)
        },
    decreases images.len() - k,
{
    if k < images.len() {
        let first = images[k as int];
        lemma_search_second(c, first, c.second_images(first), 0, tried);
        let after = c.search_second(first, c.second_images(first), 0, tried).1;
        lemma_search_first(c, images, k + 1, after);
    }
}

/// Whether a model built from a seed pair is worth continuing.
pub open spec fn seed_holds(r: ReconstructionView, abs_pose_min_num_inliers: usize) -> bool {
    &&& registered_units(r) > 0
    &&& r.points.len() > 0
    &&& r.points.len() >= abs_pose_min_num_inliers
}

/// Rejects a seed that left no registered image or too few points.
pub fn reject_bad_initial_pair_after_registration(
    reconstruction: &Reconstruction,
    config: &MapperConfig,
) -> (result: Result<(), InitialPairFailure>)
    ensures
        result is Ok <==> seed_holds(reconstruction@, config.abs_pose_min_num_inliers),
        result matches Err(failure) ==> failure == InitialPairFailure::BadInitialPair,
{
    if registered_frame_count(reconstruction) == 0 || reconstruction.points.is_empty() {
        return Err(InitialPairFailure::BadInitialPair);
    }
    if reconstruction.points.len() < config.abs_pose_min_num_inliers {
        return Err(InitialPairFailure::BadInitialPair);
    }
    Ok(())
}

} // verus!

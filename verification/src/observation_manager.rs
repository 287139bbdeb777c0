//! Observation statistics of a reconstruction, and the operations that keep
//! tracks, observations and statistics in step.

use crate::indices::{count_where, indices_where, lemma_count_bound, lemma_count_turned_on, lemma_where_congruent};
use crate::links::{
    all_links, count_links, forward_link, from_feature, from_image, lemma_count_links_push,
    lemma_links_upto_len, lemma_matches_monotone, lemma_pair_links_len, lemma_pair_links_outside,
    link_in_bounds, links_fit, links_upto, pair_links, to_point, to_registered, Link,
};
use crate::pair_stats::{ImagePairStat, PairStats};
use crate::point_ids::ids_fit;
use crate::sets::copy_set;
use crate::track_edits::{
    assign_track, assigned, drop_from_track, push_point, push_to_track, remove_point, set_slot,
    shifted_ids, track_free, track_is_free, track_observation_is_valid,
    track_observations_are_valid, track_valid, track_without, with_point, with_point_removed,
    with_slot, with_track,
};
use crate::types::{
    points_view, ImageFrame, PairGeometry, Point3D, Point3DView, Pose, Reconstruction,
    ReconstructionView, TrackObservation,
};
use crate::visibility::{counted, lemma_visibility_congruent, visibility_pyramid_score, visibility_score};
use std::collections::HashSet;
use vstd::prelude::*;

verus! {

/// Counts of an image.
#[derive(Debug, Clone, Copy, PartialEq, Eq, Structural)]
pub struct ImageStat {
    pub num_observations: usize,
    pub num_correspondences: usize,
    pub num_visible_correspondences: usize,
    pub num_visible_points3d: usize,
    pub point3d_visibility_score: usize,
}

impl Default for ImageStat {
    fn default() -> (stat: ImageStat)
        ensures
            stat == (ImageStat {
                num_observations: 0,
                num_correspondences: 0,
                num_visible_correspondences: 0,
                num_visible_points3d: 0,
                point3d_visibility_score: 0,
            }),
    {
        ImageStat {
            num_observations: 0,
            num_correspondences: 0,
            num_visible_correspondences: 0,
            num_visible_points3d: 0,
            point3d_visibility_score: 0,
        }
    }
}

/// Keeps the statistics of a reconstruction and the points changed since the
/// last time they were asked for.
#[derive(Debug)]
pub struct ObservationManager {
    image_stats: Vec<ImageStat>,
    image_pair_stats: PairStats,
    point3d_correspondence_counts: Vec<Vec<usize>>,
    modified_point3d_ids: HashSet<usize>,
}

pub open spec fn spec_ordered_pair(left: usize, right: usize) -> (usize, usize) {
    if left <= right {
        (left, right)
    } else {
        (right, left)
    }
}

/// Selects the features of an image that have a correspondence.
pub open spec fn linked(links: Seq<Link>, image: int) -> spec_fn(int) -> bool {
    |f: int| count_links(links, from_feature(image, f)) > 0
}

/// Selects the features of an image that correspond to an observed point.
pub open spec fn sees_point(links: Seq<Link>, r: ReconstructionView, image: int) -> spec_fn(
    int,
) -> bool {
    |f: int| count_links(links, to_point(r, image, f)) > 0
}

/// Selects the inlier matches of a pair whose features observe the same point.
pub open spec fn triangulated(
    frames: Seq<ImageFrame>,
    pair: PairGeometry,
    r: ReconstructionView,
) -> spec_fn(int) -> bool {
    |k: int|
        {
            let link = forward_link(pair, pair.inlier_matches@[k]);
            let point = r.observed(link.image as int, link.feature as int);
            &&& link_in_bounds(frames, link)
            &&& point is Some
            &&& point == r.observed(link.other_image as int, link.other_feature as int)
        }
}

/// The statistics of the first `k` pairs; of pairs between the same images the
/// last one counts.
pub open spec fn pair_stats_upto(
    frames: Seq<ImageFrame>,
    pairs: Seq<PairGeometry>,
    r: ReconstructionView,
    k: nat,
) -> Map<(usize, usize), ImagePairStat>
    decreases k,
{
    if k == 0 {
        Map::empty()
    } else {
        let rest = pair_stats_upto(frames, pairs, r, (k - 1) as nat);
        let pair = pairs[k - 1];
        if pair.left < frames.len() && pair.right < frames.len() {
            rest.insert(
                spec_ordered_pair(pair.left, pair.right),
                ImagePairStat {
                    num_tri_corrs: count_where(
                        pair.inlier_matches@.len(),
                        triangulated(frames, pair, r),
                    ) as usize,
                    num_total_corrs: pair.inlier_matches@.len() as usize,
                },
            )
        } else {
            rest
        }
    }
}

/// The link counts of an image, all but its visibility score.
pub open spec fn stat_counts(
    stat: ImageStat,
    frames: Seq<ImageFrame>,
    links: Seq<Link>,
    r: ReconstructionView,
    image: int,
) -> bool {
    let features = frames[image].keypoints@.len();
    &&& stat.num_observations == count_where(features, linked(links, image))
    &&& stat.num_correspondences == count_links(links, from_image(image))
    &&& stat.num_visible_correspondences == count_links(links, to_registered(r, image))
    &&& stat.num_visible_points3d == count_where(features, sees_point(links, r, image))
}

impl ObservationManager {
    pub closed spec fn image_stats(self) -> Seq<ImageStat> {
        self.image_stats@
    }

    pub closed spec fn pair_stats(self) -> Map<(usize, usize), ImagePairStat> {
        self.image_pair_stats@
    }

    pub closed spec fn point_counts(self) -> Seq<Seq<usize>> {
        crate::types::table_view(self.point3d_correspondence_counts@)
    }

    /// The points marked as modified.
    pub closed spec fn modified(self) -> Set<usize> {
        self.modified_point3d_ids@
    }

    /// A reconstruction with the marks of this manager.
    pub open spec fn edited(self, r: ReconstructionView) -> Edited {
        Edited { r, modified: self.modified() }
    }

    /// Whether the statistics are those of a reconstruction.
    pub open spec fn reflects(
        self,
        frames: Seq<ImageFrame>,
        pairs: Seq<PairGeometry>,
        r: ReconstructionView,
    ) -> bool {
        let links = all_links(frames, pairs);
        &&& self.image_stats().len() == frames.len()
        &&& self.point_counts().len() == frames.len()
        &&& forall|i: int|
            0 <= i < frames.len() ==> {
                &&& stat_counts(#[trigger] self.image_stats()[i], frames, links, r, i)
                &&& self.image_stats()[i].point3d_visibility_score == visibility_score(
                    frames[i],
                    sees_point(links, r, i),
                )
            }
        &&& forall|i: int|
            0 <= i < frames.len() ==> (#[trigger] self.point_counts()[i]).len()
                == frames[i].keypoints@.len()
        &&& forall|i: int, f: int|
            0 <= i < frames.len() && 0 <= f < frames[i].keypoints@.len()
                ==> #[trigger] self.point_counts()[i][f] == count_links(links, to_point(r, i, f))
        &&& self.pair_stats() == pair_stats_upto(frames, pairs, r, pairs.len())
    }
}

/// Counters while links are being added.
struct LinkCounters {
    stats: Vec<ImageStat>,
    linked: Vec<Vec<bool>>,
    points: Vec<Vec<usize>>,
}

impl LinkCounters {
    spec fn holds(self, frames: Seq<ImageFrame>, r: ReconstructionView, links: Seq<Link>) -> bool {
        &&& self.stats@.len() == frames.len()
        &&& self.linked@.len() == frames.len()
        &&& self.points@.len() == frames.len()
        &&& forall|i: int|
            0 <= i < frames.len() ==> stat_counts(#[trigger] self.stats@[i], frames, links, r, i)
        &&& forall|i: int|
            0 <= i < frames.len() ==> (#[trigger] self.linked@[i])@.len()
                == frames[i].keypoints@.len()
        &&& forall|i: int|
            0 <= i < frames.len() ==> (#[trigger] self.points@[i])@.len()
                == frames[i].keypoints@.len()
        &&& forall|i: int, f: int|
            0 <= i < frames.len() && 0 <= f < frames[i].keypoints@.len()
                ==> #[trigger] self.linked@[i]@[f] == linked(links, i)(f)
        &&& forall|i: int, f: int|
            0 <= i < frames.len() && 0 <= f < frames[i].keypoints@.len()
                ==> #[trigger] self.points@[i]@[f] == count_links(links, to_point(r, i, f))
    }

    fn new(frames: &[ImageFrame], Ghost(r): Ghost<ReconstructionView>) -> (counters: LinkCounters)
        ensures
            counters.holds(frames@, r, Seq::empty()),
    {
        let mut stats: Vec<ImageStat> = Vec::new();
        let mut linked_flags: Vec<Vec<bool>> = Vec::new();
        let mut points: Vec<Vec<usize>> = Vec::new();
        let ghost none = Seq::<Link>::empty();
        for i in 0..frames.len()
            invariant
                stats@.len() == i,
                linked_flags@.len() == i,
                points@.len() == i,
                none == Seq::<Link>::empty(),
                forall|j: int|
                    0 <= j < i ==> stat_counts(#[trigger] stats@[j], frames@, none, r, j),
                forall|j: int|
                    0 <= j < i ==> (#[trigger] linked_flags@[j])@.len()
                        == frames@[j].keypoints@.len(),
                forall|j: int|
                    0 <= j < i ==> (#[trigger] points@[j])@.len() == frames@[j].keypoints@.len(),
                forall|j: int, f: int|
                    0 <= j < i && 0 <= f < frames@[j].keypoints@.len()
                        ==> #[trigger] linked_flags@[j]@[f] == linked(none, j)(f),
                forall|j: int, f: int|
                    0 <= j < i && 0 <= f < frames@[j].keypoints@.len()
                        ==> #[trigger] points@[j]@[f] == count_links(none, to_point(r, j, f)),
        {
            let n: usize = frames[i].keypoints.len();
            proof {
                lemma_no_links(n as nat, r, i as int);
            }
            stats.push(ImageStat::default());
            let mut flags: Vec<bool> = Vec::new();
            let mut counts: Vec<usize> = Vec::new();
            for f in 0..n
                invariant
                    flags@.len() == f,
                    counts@.len() == f,
                    forall|g: int| 0 <= g < f ==> !flags@[g],
                    forall|g: int| 0 <= g < f ==> counts@[g] == 0,
            {
                flags.push(false);
                counts.push(0);
            }
            linked_flags.push(flags);
            points.push(counts);
        }
        LinkCounters { stats, linked: linked_flags, points }
    }

    /// Adds one link.
    fn record(
        &mut self,
        frames: &[ImageFrame],
        reconstruction: &Reconstruction,
        link: Link,
        Ghost(links): Ghost<Seq<Link>>,
    )
        requires
            old(self).holds(frames@, reconstruction@, links),
            link_in_bounds(frames@, link),
            links.len() < usize::MAX,
        ensures
            final(self).holds(frames@, reconstruction@, links.push(link)),
    {
        let ghost r = reconstruction@;
        let ghost after = links.push(link);
        let image: usize = link.image;
        let feature: usize = link.feature;
        let num_features: usize = frames[image].keypoints.len();
        let ghost features = num_features as nat;
        proof {
            lemma_links_after_push(frames@, r, links, link);
            lemma_count_links_push(links, link, from_image(image as int));
            lemma_count_links_push(links, link, to_registered(r, image as int));
            lemma_count_links_push(links, link, from_feature(image as int, feature as int));
            lemma_count_links_push(links, link, to_point(r, image as int, feature as int));
            lemma_count_bound(features, linked(after, image as int));
            lemma_count_bound(features, sees_point(after, r, image as int));
            assert(stat_counts(self.stats@[image as int], frames@, links, r, image as int));
        }
        let mut stat: ImageStat = self.stats[image];
        if !self.linked[image][feature] {
            proof {
                lemma_count_turned_on(
                    features,
                    linked(links, image as int),
                    linked(after, image as int),
                    feature as int,
                );
            }
            self.linked[image][feature] = true;
            stat.num_observations = stat.num_observations + 1;
        } else {
            proof {
                assert(linked(links, image as int)(feature as int));
                lemma_where_congruent(
                    features,
                    linked(links, image as int),
                    linked(after, image as int),
                );
            }
        }
        stat.num_correspondences = stat.num_correspondences + 1;
        let registered: bool = reconstruction.is_registered(link.other_image);
        if registered {
            stat.num_visible_correspondences = stat.num_visible_correspondences + 1;
        }
        let point: Option<usize> = reconstruction.observed_point(
            link.other_image,
            link.other_feature,
        );
        if registered && point.is_some() {
            let count: usize = self.points[image][feature] + 1;
            self.points[image][feature] = count;
            if count == 1 {
                proof {
                    lemma_count_turned_on(
                        features,
                        sees_point(links, r, image as int),
                        sees_point(after, r, image as int),
                        feature as int,
                    );
                }
                stat.num_visible_points3d = stat.num_visible_points3d + 1;
            } else {
                proof {
                    assert(sees_point(links, r, image as int)(feature as int));
                    lemma_where_congruent(
                        features,
                        sees_point(links, r, image as int),
                        sees_point(after, r, image as int),
                    );
                }
            }
        } else {
            proof {
                lemma_where_congruent(
                    features,
                    sees_point(links, r, image as int),
                    sees_point(after, r, image as int),
                );
            }
        }
        self.stats[image] = stat;
    }
}

proof fn lemma_no_links(n: nat, r: ReconstructionView, image: int)
    ensures
        count_where(n, linked(Seq::empty(), image)) == 0,
        count_links(Seq::empty(), from_image(image)) == 0,
        count_links(Seq::empty(), to_registered(r, image)) == 0,
        count_where(n, sees_point(Seq::empty(), r, image)) == 0,
        forall|f: int| #[trigger] count_links(Seq::empty(), to_point(r, image, f)) == 0,
        forall|f: int| !#[trigger] linked(Seq::empty(), image)(f),
    decreases n,
{
    if n > 0 {
        lemma_no_links((n - 1) as nat, r, image);
    }
}

/// A new link changes no count of another image or feature.
proof fn lemma_links_after_push(
    frames: Seq<ImageFrame>,
    r: ReconstructionView,
    links: Seq<Link>,
    link: Link,
)
    ensures
        forall|i: int, f: int|
            #![trigger linked(links.push(link), i)(f)]
            linked(links.push(link), i)(f) == (linked(links, i)(f) || (i == link.image && f
                == link.feature)),
        forall|i: int, f: int|
            i != link.image || f != link.feature ==> #[trigger] count_links(
                links.push(link),
                to_point(r, i, f),
            ) == count_links(links, to_point(r, i, f)),
        forall|i: int, s: ImageStat|
            i != link.image && stat_counts(s, frames, links, r, i) ==> #[trigger] stat_counts(
                s,
                frames,
                links.push(link),
                r,
                i,
            ),
{
    let after = links.push(link);
    assert forall|i: int, f: int|
        #![trigger linked(after, i)(f)]
        linked(after, i)(f) == (linked(links, i)(f) || (i == link.image && f == link.feature)) by {
        lemma_count_links_push(links, link, from_feature(i, f));
    }
    assert forall|i: int, f: int|
        i != link.image || f != link.feature implies #[trigger] count_links(
        after,
        to_point(r, i, f),
    ) == count_links(links, to_point(r, i, f)) by {
        lemma_count_links_push(links, link, to_point(r, i, f));
    }
    assert forall|i: int, s: ImageStat|
        i != link.image && stat_counts(s, frames, links, r, i) implies #[trigger] stat_counts(
        s,
        frames,
        after,
        r,
        i,
    ) by {
        lemma_count_links_push(links, link, from_image(i));
        lemma_count_links_push(links, link, to_registered(r, i));
        lemma_where_congruent(frames[i].keypoints@.len(), linked(links, i), linked(after, i));
        assert forall|f: int| #[trigger] sees_point(links, r, i)(f) == sees_point(after, r, i)(f) by {
            assert(count_links(after, to_point(r, i, f)) == count_links(links, to_point(r, i, f)));
        }
        lemma_where_congruent(
            frames[i].keypoints@.len(),
            sees_point(links, r, i),
            sees_point(after, r, i),
        );
    }
}

/// The two images of a pair, the smaller index first.
pub fn ordered_pair(left: usize, right: usize) -> (pair: (usize, usize))
    ensures
        pair == spec_ordered_pair(left, right),
{
    if left <= right {
        (left, right)
    } else {
        (right, left)
    }
}

impl Default for ObservationManager {
    /// A manager without statistics.
    fn default() -> (manager: ObservationManager)
        ensures
            manager.image_stats() == Seq::<ImageStat>::empty(),
            manager.pair_stats() == Map::<(usize, usize), ImagePairStat>::empty(),
            manager.point_counts() == Seq::<Seq<usize>>::empty(),
            manager.modified() == Set::<usize>::empty(),
    {
        ObservationManager {
            image_stats: Vec::new(),
            image_pair_stats: PairStats::new(),
            point3d_correspondence_counts: Vec::new(),
            modified_point3d_ids: HashSet::new(),
        }
    }
}

impl Clone for ObservationManager {
    fn clone(&self) -> (manager: ObservationManager)
        ensures
            manager.image_stats() == self.image_stats(),
            manager.pair_stats() == self.pair_stats(),
            manager.point_counts() == self.point_counts(),
            manager.modified() == self.modified(),
    {
        broadcast use vstd::std_specs::hash::group_hash_axioms;

        let mut counts: Vec<Vec<usize>> = Vec::new();
        for i in 0..self.point3d_correspondence_counts.len()
            invariant
                counts@.len() == i,
                forall|j: int|
                    0 <= j < i ==> (#[trigger] counts@[j])@
                        == self.point3d_correspondence_counts@[j]@,
        {
            let row: Vec<usize> = self.point3d_correspondence_counts[i].clone();
            assert(row@ =~= self.point3d_correspondence_counts@[i as int]@);
            counts.push(row);
        }
        let manager = ObservationManager {
            image_stats: self.image_stats.clone(),
            image_pair_stats: self.image_pair_stats.clone(),
            point3d_correspondence_counts: counts,
            modified_point3d_ids: copy_set(&self.modified_point3d_ids),
        };
        assert(manager.image_stats() =~= self.image_stats());
        assert(manager.point_counts() =~= self.point_counts());
        manager
    }
}

impl ObservationManager {
    /// The statistics of a reconstruction, with no point marked as modified.
    pub fn new(
        frames: &[ImageFrame],
        pairs: &[PairGeometry],
        reconstruction: &Reconstruction,
    ) -> (manager: ObservationManager)
        requires
            links_fit(pairs@),
        ensures
            manager.reflects(frames@, pairs@, reconstruction@),
            manager.modified() == Set::<usize>::empty(),
    {
        let mut manager = ObservationManager::default();
        manager.rebuild(frames, pairs, reconstruction);
        manager
    }

    /// Counts the links of one pair.
    fn record_pair(
        counters: &mut LinkCounters,
        frames: &[ImageFrame],
        pair: &PairGeometry,
        reconstruction: &Reconstruction,
        Ghost(links): Ghost<Seq<Link>>,
    ) -> (num_tri_corrs: usize)
        requires
            old(counters).holds(frames@, reconstruction@, links),
            pair.left < frames@.len(),
            pair.right < frames@.len(),
            links.len() + 2 * pair.inlier_matches@.len() <= usize::MAX,
        ensures
            final(counters).holds(
                frames@,
                reconstruction@,
                links + pair_links(frames@, *pair, pair.inlier_matches@.len()),
            ),
            num_tri_corrs == count_where(
                pair.inlier_matches@.len(),
                triangulated(frames@, *pair, reconstruction@),
            ),
    {
        let mut num_tri_corrs: usize = 0;
        proof {
            assert(links + pair_links(frames@, *pair, 0) =~= links);
        }
        for k in 0..pair.inlier_matches.len()
            invariant
                counters.holds(
                    frames@,
                    reconstruction@,
                    links + pair_links(frames@, *pair, k as nat),
                ),
                pair.left < frames@.len(),
                pair.right < frames@.len(),
                links.len() + 2 * pair.inlier_matches@.len() <= usize::MAX,
                num_tri_corrs == count_where(
                    k as nat,
                    triangulated(frames@, *pair, reconstruction@),
                ),
                num_tri_corrs <= k,
        {
            let m = pair.inlier_matches[k];
            let left_feature: usize = m.query_idx as usize;
            let right_feature: usize = m.train_idx as usize;
            let ghost before = links + pair_links(frames@, *pair, k as nat);
            proof {
                lemma_pair_links_len(frames@, *pair, k as nat);
            }
            if left_feature < frames[pair.left].keypoints.len() && right_feature
                < frames[pair.right].keypoints.len() {
                let forward = Link {
                    image: pair.left,
                    feature: left_feature,
                    other_image: pair.right,
                    other_feature: right_feature,
                };
                let backward = Link {
                    image: pair.right,
                    feature: right_feature,
                    other_image: pair.left,
                    other_feature: left_feature,
                };
                counters.record(frames, reconstruction, forward, Ghost(before));
                counters.record(frames, reconstruction, backward, Ghost(before.push(forward)));
                let left_point: Option<usize> = reconstruction.observed_point(
                    pair.left,
                    left_feature,
                );
                let right_point: Option<usize> = reconstruction.observed_point(
                    pair.right,
                    right_feature,
                );
                if let Some(left_id) = left_point {
                    if let Some(right_id) = right_point {
                        if left_id == right_id {
                            num_tri_corrs = num_tri_corrs + 1;
                        }
                    }
                }
                proof {
                    assert(before.push(forward).push(backward) =~= links + pair_links(
                        frames@,
                        *pair,
                        (k + 1) as nat,
                    ));
                }
            } else {
                proof {
                    assert(!link_in_bounds(
                        frames@,
                        forward_link(*pair, pair.inlier_matches@[k as int]),
                    ));
                }
            }
        }
        num_tri_corrs
    }

    /// Recomputes all statistics; the marks on points stay.
    pub fn rebuild(
        &mut self,
        frames: &[ImageFrame],
        pairs: &[PairGeometry],
        reconstruction: &Reconstruction,
    )
        requires
            links_fit(pairs@),
        ensures
            final(self).reflects(frames@, pairs@, reconstruction@),
            final(self).modified() == old(self).modified(),
    {
        let ghost r = reconstruction@;
        let mut counters = LinkCounters::new(frames, Ghost(r));
        let mut image_pair_stats = PairStats::new();
        for p in 0..pairs.len()
            invariant
                r == reconstruction@,
                links_fit(pairs@),
                counters.holds(frames@, r, links_upto(frames@, pairs@, p as nat)),
                image_pair_stats@ == pair_stats_upto(frames@, pairs@, r, p as nat),
        {
            let ghost links = links_upto(frames@, pairs@, p as nat);
            let pair = &pairs[p];
            proof {
                lemma_links_upto_len(frames@, pairs@, p as nat);
                lemma_matches_monotone(pairs@, (p + 1) as nat, pairs@.len());
            }
            if pair.left < frames.len() && pair.right < frames.len() {
                let num_tri_corrs: usize = Self::record_pair(
                    &mut counters,
                    frames,
                    pair,
                    reconstruction,
                    Ghost(links),
                );
                let key: (usize, usize) = ordered_pair(pair.left, pair.right);
                image_pair_stats.insert(
                    key,
                    ImagePairStat { num_tri_corrs, num_total_corrs: pair.inlier_matches.len() },
                );
            } else {
                proof {
                    lemma_pair_links_outside(frames@, *pair, pair.inlier_matches@.len());
                    assert(links_upto(frames@, pairs@, (p + 1) as nat) =~= links);
                }
            }
        }
        let ghost links = all_links(frames@, pairs@);
        let LinkCounters { stats, linked: _, points } = counters;
        let mut image_stats: Vec<ImageStat> = stats;
        for image in 0..frames.len()
            invariant
                links == all_links(frames@, pairs@),
                image_stats@.len() == frames@.len(),
                points@.len() == frames@.len(),
                forall|i: int|
                    0 <= i < frames@.len() ==> (#[trigger] points@[i])@.len()
                        == frames@[i].keypoints@.len(),
                forall|i: int, f: int|
                    0 <= i < frames@.len() && 0 <= f < frames@[i].keypoints@.len()
                        ==> #[trigger] points@[i]@[f] == count_links(links, to_point(r, i, f)),
                forall|i: int|
                    0 <= i < frames@.len() ==> stat_counts(
                        #[trigger] image_stats@[i],
                        frames@,
                        links,
                        r,
                        i,
                    ),
                forall|i: int|
                    0 <= i < image ==> (#[trigger] image_stats@[i]).point3d_visibility_score
                        == visibility_score(frames@[i], sees_point(links, r, i)),
        {
            let score: usize = visibility_pyramid_score(&frames[image], &points[image]);
            proof {
                let i = image as int;
                assert forall|f: int|
                    0 <= f < frames@[i].keypoints@.len() implies #[trigger] counted(points@[i]@)(f)
                    == sees_point(links, r, i)(f) by {
                    assert(points@[i]@[f] == count_links(links, to_point(r, i, f)));
                }
                lemma_visibility_congruent(
                    frames@[i],
                    counted(points@[i]@),
                    sees_point(links, r, i),
                );
            }
            let mut stat: ImageStat = image_stats[image];
            stat.point3d_visibility_score = score;
            image_stats[image] = stat;
        }
        self.image_stats = image_stats;
        self.image_pair_stats = image_pair_stats;
        self.point3d_correspondence_counts = points;
        proof {
            assert forall|i: int| 0 <= i < frames@.len() implies (#[trigger] self.point_counts()[i]).len()
                == frames@[i].keypoints@.len() by {
                assert(self.point_counts()[i] == points@[i]@);
            }
            assert forall|i: int, f: int|
                0 <= i < frames@.len() && 0 <= f < frames@[i].keypoints@.len() implies #[trigger] self.point_counts()[i][f]
                == count_links(links, to_point(r, i, f)) by {
                assert(self.point_counts()[i] == points@[i]@);
                assert(points@[i]@[f] == count_links(links, to_point(r, i, f)));
            }
        }
    }
}

/// A reconstruction and the points marked as modified in it.
#[verifier::ext_equal]
pub struct Edited {
    pub r: ReconstructionView,
    pub modified: Set<usize>,
}

/// A limit on the number of points that every machine imposes.
pub open spec fn points_fit(r: ReconstructionView) -> bool {
    r.points.len() <= 0x7fff_ffff_ffff_ffff
}

pub open spec fn point_deleted(s: Edited, point: usize) -> Edited {
    Edited { r: with_point_removed(s.r, point), modified: shifted_ids(s.modified, point) }
}

/// The effect of deleting one observation. A track of two observations or
/// fewer goes with it.
pub open spec fn observation_deleted(s: Edited, image: usize, feature: usize) -> Edited {
    match s.r.observed(image as int, feature as int) {
        None => s,
        Some(point) => if point >= s.r.points.len() {
            Edited { r: with_slot(s.r, image as int, feature as int, None), ..s }
        } else if s.r.points[point as int].track.len() <= 2 {
            point_deleted(s, point)
        } else {
            Edited {
                r: with_track(
                    with_slot(s.r, image as int, feature as int, None),
                    point as int,
                    track_without(
                        s.r.points[point as int].track,
                        (TrackObservation { image, feature }),
                    ),
                ),
                modified: s.modified.insert(point),
            }
        },
    }
}

/// The effect of deleting the first `k` of a list of observations of an image.
pub open spec fn observations_deleted(
    s: Edited,
    image: usize,
    features: Seq<usize>,
    k: nat,
) -> Edited
    decreases k,
{
    if k == 0 {
        s
    } else {
        observation_deleted(
            observations_deleted(s, image, features, (k - 1) as nat),
            image,
            features[k - 1],
        )
    }
}

/// Selects the features of a row that observe a point.
pub open spec fn observing(row: Seq<Option<usize>>) -> spec_fn(int) -> bool {
    |f: int| row[f] is Some
}

/// The features of an image that observe a point.
pub open spec fn observing_features(r: ReconstructionView, image: usize) -> Seq<usize> {
    if image < r.observations.len() {
        indices_where(r.observations[image as int].len(), observing(r.observations[image as int]))
    } else {
        Seq::empty()
    }
}

pub open spec fn with_pose(r: ReconstructionView, image: usize, pose: Option<Pose>) -> ReconstructionView {
    ReconstructionView { poses: r.poses.update(image as int, pose), ..r }
}

/// The effect of taking an image out of the model.
pub open spec fn deregistered(s: Edited, image: usize) -> Edited {
    let features = observing_features(s.r, image);
    let cleared = observations_deleted(s, image, features, features.len());
    Edited { r: with_pose(cleared.r, image, None), ..cleared }
}

/// Whether a new point can take its track.
pub open spec fn can_add_point(r: ReconstructionView, track: Seq<TrackObservation>) -> bool {
    track.len() > 0 && track_valid(r, track) && track_free(r, track)
}

/// Whether an observation can join the track of a point.
pub open spec fn can_add_observation(
    r: ReconstructionView,
    point: usize,
    obs: TrackObservation,
) -> bool {
    &&& point < r.points.len()
    &&& r.has_slot(obs)
    &&& r.observed(obs.image as int, obs.feature as int) is None
    &&& forall|k: int|
        0 <= k < r.points[point as int].track.len()
            ==> (#[trigger] r.points[point as int].track[k]).image != obs.image
}

pub open spec fn observation_added(s: Edited, point: usize, obs: TrackObservation) -> Edited {
    Edited {
        r: with_track(
            with_slot(s.r, obs.image as int, obs.feature as int, Some(point)),
            point as int,
            s.r.points[point as int].track.push(obs),
        ),
        modified: s.modified.insert(point),
    }
}

/// Whether two points can be merged into one with the given track.
pub open spec fn can_merge(
    r: ReconstructionView,
    point1: usize,
    point2: usize,
    track: Seq<TrackObservation>,
) -> bool {
    &&& point1 != point2
    &&& point1 < r.points.len()
    &&& point2 < r.points.len()
    &&& track_valid(r, track)
    &&& forall|k: int|
        0 <= k < track.len() ==> owned_by(r, #[trigger] track[k], point1, point2)
}

/// An observation without a point, or with one of two points.
pub open spec fn owned_by(
    r: ReconstructionView,
    obs: TrackObservation,
    point1: usize,
    point2: usize,
) -> bool {
    match r.observed(obs.image as int, obs.feature as int) {
        Some(point) => point == point1 || point == point2,
        None => true,
    }
}

pub open spec fn points_merged(
    s: Edited,
    point1: usize,
    point2: usize,
    merged: Point3DView,
) -> Edited {
    let (keep, remove) = spec_ordered_pair(point1, point2);
    let replaced = ReconstructionView {
        points: s.r.points.update(keep as int, merged),
        observations: assigned(s.r.observations, merged.track, keep),
        ..s.r
    };
    Edited {
        r: with_point_removed(replaced, remove),
        modified: shifted_ids(s.modified, remove).insert(keep),
    }
}

/// Whether a set holds what becomes of a point index when a point is removed.
spec fn holds_shifted(ids: Set<usize>, id: usize, removed: usize) -> bool {
    &&& id < removed ==> ids.contains(id)
    &&& id > removed ==> ids.contains((id - 1) as usize)
}

impl ObservationManager {
    /// Gives an image a pose; fails if there is no such image.
    pub fn register_image(
        &mut self,
        frames: &[ImageFrame],
        pairs: &[PairGeometry],
        reconstruction: &mut Reconstruction,
        image: usize,
        pose: Pose,
    ) -> (done: bool)
        requires
            links_fit(pairs@),
        ensures
            done <==> image < old(reconstruction)@.poses.len(),
            done ==> {
                &&& final(reconstruction)@ == with_pose(old(reconstruction)@, image, Some(pose))
                &&& final(self).reflects(frames@, pairs@, final(reconstruction)@)
                &&& final(self).modified() == old(self).modified()
            },
            !done ==> *final(reconstruction) == *old(reconstruction) && *final(self) == *old(self),
    {
        if image >= reconstruction.poses.len() {
            return false;
        }
        reconstruction.poses[image] = Some(pose);
        assert(reconstruction@ =~= with_pose(old(reconstruction)@, image, Some(pose)));
        self.rebuild(frames, pairs, reconstruction);
        true
    }

    /// Takes an image out of the model: its observations are deleted one by
    /// one, then its pose. Fails if there is no such image.
    pub fn deregister_image(
        &mut self,
        frames: &[ImageFrame],
        pairs: &[PairGeometry],
        reconstruction: &mut Reconstruction,
        image: usize,
    ) -> (done: bool)
        requires
            links_fit(pairs@),
            points_fit(old(reconstruction)@),
        ensures
            done <==> image < old(reconstruction)@.poses.len(),
            done ==> {
                &&& final(self).edited(final(reconstruction)@) == deregistered(
                    old(self).edited(old(reconstruction)@),
                    image,
                )
                &&& final(self).reflects(frames@, pairs@, final(reconstruction)@)
            },
            !done ==> *final(reconstruction) == *old(reconstruction) && *final(self) == *old(self),
    {
        if image >= reconstruction.poses.len() {
            return false;
        }
        let ghost before = old(self).edited(old(reconstruction)@);
        let features: Vec<usize> = Self::features_observing(reconstruction, image);
        for k in 0..features.len()
            invariant
                links_fit(pairs@),
                before == old(self).edited(old(reconstruction)@),
                points_fit(before.r),
                self.edited(reconstruction@) == observations_deleted(
                    before,
                    image,
                    features@,
                    k as nat,
                ),
                reconstruction@.points.len() <= before.r.points.len(),
                reconstruction@.poses == before.r.poses,
        {
            self.delete_observation(frames, pairs, reconstruction, image, features[k]);
        }
        reconstruction.poses[image] = None;
        proof {
            assert(features@ == observing_features(before.r, image));
            assert(reconstruction@ =~= deregistered(before, image).r);
        }
        self.rebuild(frames, pairs, reconstruction);
        true
    }

    fn features_observing(reconstruction: &Reconstruction, image: usize) -> (features: Vec<usize>)
        ensures
            features@ == observing_features(reconstruction@, image),
    {
        let mut features: Vec<usize> = Vec::new();
        if image < reconstruction.observations.len() {
            let ghost row = reconstruction@.observations[image as int];
            let width: usize = reconstruction.observations[image].len();
            for f in 0..width
                invariant
                    width == row.len(),
                    image < reconstruction.observations@.len(),
                    row == reconstruction.observations@[image as int]@,
                    features@ == indices_where(f as nat, observing(row)),
            {
                if reconstruction.observations[image][f].is_some() {
                    features.push(f);
                }
            }
        }
        features
    }

    /// Adds a point with its track. Fails if the track is empty, names a
    /// missing feature or an image twice, or holds a feature of another point.
    pub fn add_point3d(
        &mut self,
        frames: &[ImageFrame],
        pairs: &[PairGeometry],
        reconstruction: &mut Reconstruction,
        point: Point3D,
    ) -> (id: Option<usize>)
        requires
            links_fit(pairs@),
            can_add_point(old(reconstruction)@, point@.track) ==> ids_fit(
                old(reconstruction)@.point_ids,
                old(reconstruction)@.points.len(),
            ),
        ensures
            id is Some <==> can_add_point(old(reconstruction)@, point@.track),
            match id {
                Some(id) => {
                    &&& id == old(reconstruction)@.points.len()
                    &&& final(reconstruction)@ == with_point(old(reconstruction)@, point@)
                    &&& final(self).modified() == old(self).modified().insert(id)
                    &&& final(self).reflects(frames@, pairs@, final(reconstruction)@)
                },
                None => *final(reconstruction) == *old(reconstruction) && *final(self) == *old(
                    self,
                ),
            },
    {
        if point.track.is_empty() || !track_observations_are_valid(reconstruction, &point.track)
            || !track_is_free(reconstruction, &point.track) {
            return None;
        }
        let point_id: usize = push_point(reconstruction, point);
        self.mark_point3d_modified(point_id);
        self.rebuild(frames, pairs, reconstruction);
        Some(point_id)
    }

    /// Adds an observation to the track of a point. Fails if there is no such
    /// point or feature, the feature observes a point already, or the track
    /// has an observation in the same image.
    pub fn add_observation(
        &mut self,
        frames: &[ImageFrame],
        pairs: &[PairGeometry],
        reconstruction: &mut Reconstruction,
        point_id: usize,
        observation: TrackObservation,
    ) -> (done: bool)
        requires
            links_fit(pairs@),
        ensures
            done <==> can_add_observation(old(reconstruction)@, point_id, observation),
            done ==> {
                &&& final(self).edited(final(reconstruction)@) == observation_added(
                    old(self).edited(old(reconstruction)@),
                    point_id,
                    observation,
                )
                &&& final(self).reflects(frames@, pairs@, final(reconstruction)@)
            },
            !done ==> *final(reconstruction) == *old(reconstruction) && *final(self) == *old(self),
    {
        if point_id >= reconstruction.points.len() || !track_observation_is_valid(
            reconstruction,
            &observation,
        ) || reconstruction.observed_point(observation.image, observation.feature).is_some() {
            return false;
        }
        let track_len: usize = reconstruction.points[point_id].track.len();
        for k in 0..track_len
            invariant
                track_len == reconstruction@.points[point_id as int].track.len(),
                point_id < reconstruction@.points.len(),
                forall|j: int|
                    0 <= j < k ==> (#[trigger] reconstruction@.points[point_id as int].track[j]).image
                        != observation.image,
        {
            if reconstruction.points[point_id].track[k].image == observation.image {
                assert(reconstruction@.points[point_id as int].track[k as int].image
                    == observation.image);
                return false;
            }
        }
        set_slot(reconstruction, observation.image, observation.feature, Some(point_id));
        push_to_track(reconstruction, point_id, observation);
        self.mark_point3d_modified(point_id);
        self.rebuild(frames, pairs, reconstruction);
        true
    }

    /// Deletes a point; its observations are free afterwards, and points
    /// behind it move up by one. Fails if there is no such point.
    pub fn delete_point3d(
        &mut self,
        frames: &[ImageFrame],
        pairs: &[PairGeometry],
        reconstruction: &mut Reconstruction,
        point_id: usize,
    ) -> (done: bool)
        requires
            links_fit(pairs@),
            points_fit(old(reconstruction)@),
        ensures
            done <==> point_id < old(reconstruction)@.points.len(),
            done ==> {
                &&& final(self).edited(final(reconstruction)@) == point_deleted(
                    old(self).edited(old(reconstruction)@),
                    point_id,
                )
                &&& final(self).reflects(frames@, pairs@, final(reconstruction)@)
            },
            !done ==> *final(reconstruction) == *old(reconstruction) && *final(self) == *old(self),
    {
        if !self.delete_point3d_internal(reconstruction, point_id) {
            return false;
        }
        self.rebuild(frames, pairs, reconstruction);
        true
    }

    /// Deletes an observation, and its point if at most one observation
    /// would be left. Fails if the feature observes no point.
    pub fn delete_observation(
        &mut self,
        frames: &[ImageFrame],
        pairs: &[PairGeometry],
        reconstruction: &mut Reconstruction,
        image: usize,
        feature: usize,
    ) -> (done: bool)
        requires
            links_fit(pairs@),
            points_fit(old(reconstruction)@),
        ensures
            done <==> old(reconstruction)@.observed(image as int, feature as int) is Some,
            final(self).edited(final(reconstruction)@) == observation_deleted(
                old(self).edited(old(reconstruction)@),
                image,
                feature,
            ),
            done ==> final(self).reflects(frames@, pairs@, final(reconstruction)@),
            !done ==> *final(reconstruction) == *old(reconstruction) && *final(self) == *old(self),
    {
        let point_id: usize = match reconstruction.observed_point(image, feature) {
            Some(point_id) => point_id,
            None => {
                return false;
            },
        };
        if point_id >= reconstruction.points.len() {
            set_slot(reconstruction, image, feature, None);
            self.rebuild(frames, pairs, reconstruction);
            return true;
        }
        if reconstruction.points[point_id].track.len() <= 2 {
            return self.delete_point3d(frames, pairs, reconstruction, point_id);
        }
        set_slot(reconstruction, image, feature, None);
        drop_from_track(reconstruction, point_id, TrackObservation { image, feature });
        self.mark_point3d_modified(point_id);
        self.rebuild(frames, pairs, reconstruction);
        true
    }

    /// Merges two points into the one with the smaller index. Fails if the
    /// points are not two, the merged track is not valid, or it holds a
    /// feature of a third point.
    pub fn merge_points3d(
        &mut self,
        frames: &[ImageFrame],
        pairs: &[PairGeometry],
        reconstruction: &mut Reconstruction,
        point_id1: usize,
        point_id2: usize,
        merged_point: Point3D,
    ) -> (kept: Option<usize>)
        requires
            links_fit(pairs@),
            points_fit(old(reconstruction)@),
        ensures
            kept is Some <==> can_merge(
                old(reconstruction)@,
                point_id1,
                point_id2,
                merged_point@.track,
            ),
            match kept {
                Some(kept) => {
                    &&& kept == spec_ordered_pair(point_id1, point_id2).0
                    &&& final(self).edited(final(reconstruction)@) == points_merged(
                        old(self).edited(old(reconstruction)@),
                        point_id1,
                        point_id2,
                        merged_point@,
                    )
                    &&& final(self).reflects(frames@, pairs@, final(reconstruction)@)
                },
                None => *final(reconstruction) == *old(reconstruction) && *final(self) == *old(
                    self,
                ),
            },
    {
        if point_id1 == point_id2 || point_id1 >= reconstruction.points.len() || point_id2
            >= reconstruction.points.len() || !track_observations_are_valid(
            reconstruction,
            &merged_point.track,
        ) {
            return None;
        }
        let (keep_id, remove_id): (usize, usize) = ordered_pair(point_id1, point_id2);
        for k in 0..merged_point.track.len()
            invariant
                forall|j: int|
                    0 <= j < k ==> owned_by(
                        reconstruction@,
                        #[trigger] merged_point@.track[j],
                        point_id1,
                        point_id2,
                    ),
        {
            let obs = merged_point.track[k];
            if let Some(point_id) = reconstruction.observed_point(obs.image, obs.feature) {
                if point_id != point_id1 && point_id != point_id2 {
                    assert(!owned_by(
                        reconstruction@,
                        merged_point@.track[k as int],
                        point_id1,
                        point_id2,
                    ));
                    return None;
                }
            }
        }
        assign_track(reconstruction, &merged_point.track, keep_id);
        let ghost points = reconstruction.points@;
        reconstruction.points[keep_id] = merged_point;
        proof {
            assert(points_view(points.update(keep_id as int, merged_point)) =~= points_view(
                points,
            ).update(keep_id as int, merged_point@));
        }
        self.delete_point3d_internal(reconstruction, remove_id);
        self.mark_point3d_modified(keep_id);
        self.rebuild(frames, pairs, reconstruction);
        Some(keep_id)
    }

    fn delete_point3d_internal(
        &mut self,
        reconstruction: &mut Reconstruction,
        point_id: usize,
    ) -> (done: bool)
        requires
            points_fit(old(reconstruction)@),
        ensures
            done <==> point_id < old(reconstruction)@.points.len(),
            done ==> {
                &&& final(self).edited(final(reconstruction)@) == point_deleted(
                    old(self).edited(old(reconstruction)@),
                    point_id,
                )
            },
            !done ==> *final(reconstruction) == *old(reconstruction) && *final(self) == *old(self),
    {
        if point_id >= reconstruction.points.len() {
            return false;
        }
        remove_point(reconstruction, point_id);
        self.shift_modified_point_ids_after_delete(point_id);
        true
    }

    fn shift_modified_point_ids_after_delete(&mut self, point_id: usize)
        ensures
            final(self).modified() == shifted_ids(old(self).modified(), point_id),
    {
        broadcast use vstd::std_specs::hash::group_hash_axioms;

        let mut shifted: HashSet<usize> = HashSet::new();
        let ghost ids = self.modified_point3d_ids@;
        for id in iter: self.modified_point3d_ids.iter()
            invariant
                iter.seq().unref().to_set() == ids,
                forall|j: int|
                    0 <= j < iter.index() ==> holds_shifted(
                        shifted@,
                        *(#[trigger] iter.seq()[j]),
                        point_id,
                    ),
                shifted@.subset_of(shifted_ids(ids, point_id)),
        {
            proof {
                assert(iter.seq().unref()[iter.index() as int] == *id);
                assert(iter.seq().unref().contains(*id));
                assert(ids.contains(*id));
            }
            if *id < point_id {
                shifted.insert(*id);
            } else if *id > point_id {
                shifted.insert(*id - 1);
            }
        }
        proof {
            assert(shifted@ =~= shifted_ids(ids, point_id)) by {
                assert forall|x: usize| shifted_ids(ids, point_id).contains(x) implies shifted@.contains(x) by {
                }
            }
        }
        self.modified_point3d_ids = shifted;
    }

    pub fn mark_point3d_modified(&mut self, point_id: usize)
        ensures
            final(self).modified() == old(self).modified().insert(point_id),
            final(self).image_stats() == old(self).image_stats(),
            final(self).pair_stats() == old(self).pair_stats(),
            final(self).point_counts() == old(self).point_counts(),
    {
        broadcast use vstd::std_specs::hash::group_hash_axioms;

        self.modified_point3d_ids.insert(point_id);
    }

    pub fn modified_point3d_ids(&self) -> (ids: &HashSet<usize>)
        ensures
            ids@ == self.modified(),
    {
        &self.modified_point3d_ids
    }

    pub fn clear_modified_point3d_ids(&mut self)
        ensures
            final(self).modified() == Set::<usize>::empty(),
            final(self).image_stats() == old(self).image_stats(),
            final(self).pair_stats() == old(self).pair_stats(),
            final(self).point_counts() == old(self).point_counts(),
    {
        broadcast use vstd::std_specs::hash::group_hash_axioms;

        self.modified_point3d_ids.clear();
    }

    pub fn image_pairs(&self) -> (stats: &PairStats)
        ensures
            stats@ == self.pair_stats(),
    {
        &self.image_pair_stats
    }

    /// The number of features of an image that have a correspondence.
    pub fn num_observations(&self, image: usize) -> (n: usize)
        ensures
            n == (if image < self.image_stats().len() {
                self.image_stats()[image as int].num_observations
            } else {
                0
            }),
    {
        if image < self.image_stats.len() {
            self.image_stats[image].num_observations
        } else {
            0
        }
    }

    pub fn num_correspondences(&self, image: usize) -> (n: usize)
        ensures
            n == (if image < self.image_stats().len() {
                self.image_stats()[image as int].num_correspondences
            } else {
                0
            }),
    {
        if image < self.image_stats.len() {
            self.image_stats[image].num_correspondences
        } else {
            0
        }
    }

    /// The number of correspondences of an image with registered images.
    pub fn num_visible_correspondences(&self, image: usize) -> (n: usize)
        ensures
            n == (if image < self.image_stats().len() {
                self.image_stats()[image as int].num_visible_correspondences
            } else {
                0
            }),
    {
        if image < self.image_stats.len() {
            self.image_stats[image].num_visible_correspondences
        } else {
            0
        }
    }

    /// The number of features of an image that correspond to an observed point.
    pub fn num_visible_points3d(&self, image: usize) -> (n: usize)
        ensures
            n == (if image < self.image_stats().len() {
                self.image_stats()[image as int].num_visible_points3d
            } else {
                0
            }),
    {
        if image < self.image_stats.len() {
            self.image_stats[image].num_visible_points3d
        } else {
            0
        }
    }

    pub fn point3d_visibility_score(&self, image: usize) -> (score: usize)
        ensures
            score == (if image < self.image_stats().len() {
                self.image_stats()[image as int].point3d_visibility_score
            } else {
                0
            }),
    {
        if image < self.image_stats.len() {
            self.image_stats[image].point3d_visibility_score
        } else {
            0
        }
    }

    /// The number of correspondences of a feature that observe a point.
    pub fn num_correspondences_have_point3d(&self, image: usize, feature: usize) -> (n: usize)
        ensures
            n == (if image < self.point_counts().len() && feature < self.point_counts()[
                image as int
            ].len() {
                self.point_counts()[image as int][feature as int]
            } else {
                0
            }),
    {
        if image < self.point3d_correspondence_counts.len() && feature
            < self.point3d_correspondence_counts[image].len() {
            self.point3d_correspondence_counts[image][feature]
        } else {
            0
        }
    }
}

} // verus!

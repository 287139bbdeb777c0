//! Colors of points, taken from the images that observe them.

use crate::config::MapperConfig;
use crate::global_ba::{registered_image_count, registered_images};
use crate::types::{ImageFrame, Point3DView, Reconstruction, ReconstructionView, TrackObservation};
use vstd::prelude::*;

verus! {

/// How many images were looked at and how many points got a new color.
#[derive(Debug, Clone, Copy, PartialEq, Eq, Structural)]
pub struct ColorExtractionReport {
    pub images: usize,
    pub updated_points: usize,
}

impl Default for ColorExtractionReport {
    fn default() -> (report: ColorExtractionReport)
        ensures
            report == (ColorExtractionReport { images: 0, updated_points: 0 }),
    {
        ColorExtractionReport { images: 0, updated_points: 0 }
    }
}

pub open spec fn is_black(color: [u8; 3]) -> bool {
    color@[0] == 0 && color@[1] == 0 && color@[2] == 0
}

pub open spec fn same_color(a: [u8; 3], b: [u8; 3]) -> bool {
    a@[0] == b@[0] && a@[1] == b@[1] && a@[2] == b@[2]
}

fn black(color: &[u8; 3]) -> (b: bool)
    ensures
        b == is_black(*color),
{
    color[0] == 0 && color[1] == 0 && color[2] == 0
}

/// The color of a feature, if the image was sampled there.
pub open spec fn feature_color(frames: Seq<ImageFrame>, image: int, feature: int) -> Option<
    [u8; 3],
> {
    if 0 <= image < frames.len() && 0 <= feature < frames[image].colors@.len() {
        Some(frames[image].colors@[feature])
    } else {
        None
    }
}

fn color_of_feature(frames: &[ImageFrame], image: usize, feature: usize) -> (color: Option<[u8; 3]>)
    ensures
        color == feature_color(frames@, image as int, feature as int),
{
    if image < frames.len() && feature < frames[image].colors.len() {
        Some(frames[image].colors[feature])
    } else {
        None
    }
}

/// Points with the number of them that were colored.
#[verifier::ext_equal]
pub struct Coloring {
    pub points: Seq<Point3DView>,
    pub updated: nat,
}

/// Colors the point that a feature observes, if it is black.
pub open spec fn feature_colored(
    s: Coloring,
    frames: Seq<ImageFrame>,
    r: ReconstructionView,
    image: usize,
    feature: int,
) -> Coloring {
    match r.observed(image as int, feature) {
        Some(p) => match feature_color(frames, image as int, feature) {
            Some(color) => if p < s.points.len() && is_black(s.points[p as int].color) {
                Coloring {
                    points: s.points.update(
                        p as int,
                        Point3DView { color, ..s.points[p as int] },
                    ),
                    updated: s.updated + 1,
                }
            } else {
                s
            },
            None => s,
        },
        None => s,
    }
}

/// Colors the black points that the first `k` features of an image observe.
pub open spec fn image_colored(
    s: Coloring,
    frames: Seq<ImageFrame>,
    r: ReconstructionView,
    image: usize,
    k: nat,
) -> Coloring
    decreases k,
{
    if k == 0 {
        s
    } else {
        feature_colored(
            image_colored(s, frames, r, image, (k - 1) as nat),
            frames,
            r,
            image,
            k - 1,
        )
    }
}

pub open spec fn row_width(r: ReconstructionView, image: usize) -> nat {
    if image < r.observations.len() {
        r.observations[image as int].len()
    } else {
        0
    }
}

/// Colors the black points that the first `k` of some images observe.
pub open spec fn images_colored(
    s: Coloring,
    frames: Seq<ImageFrame>,
    r: ReconstructionView,
    images: Seq<usize>,
    k: nat,
) -> Coloring
    decreases k,
{
    if k == 0 {
        s
    } else {
        image_colored(
            images_colored(s, frames, r, images, (k - 1) as nat),
            frames,
            r,
            images[k - 1],
            row_width(r, images[k - 1]),
        )
    }
}

/// The features of the first `k` of some images.
pub open spec fn features_upto(r: ReconstructionView, images: Seq<usize>, k: nat) -> nat
    decreases k,
{
    if k == 0 {
        0
    } else {
        features_upto(r, images, (k - 1) as nat) + row_width(r, images[k - 1])
    }
}

proof fn lemma_features_monotone(r: ReconstructionView, images: Seq<usize>, j: nat, k: nat)
    requires
        j <= k,
    ensures
        features_upto(r, images, j) <= features_upto(r, images, k),
    decreases k,
{
    if j < k {
        lemma_features_monotone(r, images, j, (k - 1) as nat);
    }
}

/// Colors the black points that an image observes.
pub fn extract_colors_for_image(
    frames: &[ImageFrame],
    reconstruction: &mut Reconstruction,
    image: usize,
) -> (updated: usize)
    ensures
        ({
            let r = old(reconstruction)@;
            let s = image_colored(
                Coloring { points: r.points, updated: 0 },
                frames@,
                r,
                image,
                row_width(r, image),
            );
            &&& final(reconstruction)@ == (ReconstructionView { points: s.points, ..r })
            &&& updated == s.updated
            &&& updated <= row_width(r, image)
        }),
{
    let ghost r = reconstruction@;
    let ghost start = Coloring { points: r.points, updated: 0 };
    let mut updated: usize = 0;
    if image >= reconstruction.observations.len() {
        return 0;
    }
    let width: usize = reconstruction.observations[image].len();
    assert(r.observations[image as int] == reconstruction.observations@[image as int]@);
    for f in 0..width
        invariant
            start == (Coloring { points: r.points, updated: 0 }),
            image < reconstruction.observations@.len(),
            width == reconstruction.observations@[image as int]@.len(),
            reconstruction@.observations == r.observations,
            ({
                let s = image_colored(start, frames@, r, image, f as nat);
                &&& reconstruction@ == (ReconstructionView { points: s.points, ..r })
                &&& updated == s.updated
            }),
            updated <= f,
    {
        let ghost before = reconstruction@;
        let ghost listed = reconstruction.points@;
        proof {
            assert(r.observed(image as int, f as int) == before.observed(image as int, f as int));
        }
        if let Some(p) = reconstruction.observed_point(image, f) {
            if let Some(color) = color_of_feature(frames, image, f) {
                if p < reconstruction.points.len() && black(&reconstruction.points[p].color) {
                    assert(before.points[p as int] == listed[p as int]@);
                    reconstruction.points[p].color = color;
                    updated = updated + 1;
                    proof {
                        let s = image_colored(start, frames@, r, image, (f + 1) as nat);
                        assert(reconstruction@.points =~= s.points);
                    }
                } else {
                    assert(p < listed.len() ==> before.points[p as int] == listed[p as int]@);
                }
            }
        }
    }
    updated
}

/// Colors the black points that the registration unit of an image observes.
pub fn extract_colors_for_registration_unit(
    frames: &[ImageFrame],
    reconstruction: &mut Reconstruction,
    image: usize,
    config: &MapperConfig,
) -> (report: ColorExtractionReport)
    requires
        features_upto(
            old(reconstruction)@,
            old(reconstruction)@.unit_of(image),
            old(reconstruction)@.unit_of(image).len(),
        ) <= usize::MAX,
    ensures
        ({
            let r = old(reconstruction)@;
            let unit = r.unit_of(image);
            let s = images_colored(
                Coloring { points: r.points, updated: 0 },
                frames@,
                r,
                unit,
                unit.len(),
            );
            if config.extract_colors {
                &&& final(reconstruction)@ == (ReconstructionView { points: s.points, ..r })
                &&& report.images == unit.len()
                &&& report.updated_points == s.updated
            } else {
                &&& final(reconstruction)@ == r
                &&& report == (ColorExtractionReport { images: 0, updated_points: 0 })
            }
        }),
{
    let mut report = ColorExtractionReport::default();
    if !config.extract_colors {
        return report;
    }
    let ghost r = reconstruction@;
    let ghost start = Coloring { points: r.points, updated: 0 };
    let unit: Vec<usize> = reconstruction.image_indices_for_registration_unit(image);
    for k in 0..unit.len()
        invariant
            start == (Coloring { points: r.points, updated: 0 }),
            features_upto(r, unit@, unit@.len()) <= usize::MAX,
            report.images == k,
            ({
                let s = images_colored(start, frames@, r, unit@, k as nat);
                &&& reconstruction@ == (ReconstructionView { points: s.points, ..r })
                &&& report.updated_points == s.updated
            }),
            report.updated_points <= features_upto(r, unit@, k as nat),
    {
        let ghost s = images_colored(start, frames@, r, unit@, k as nat);
        let updated: usize = extract_colors_for_image(frames, reconstruction, unit[k]);
        proof {
            let width = row_width(r, unit@[k as int]);
            let here = ReconstructionView { points: s.points, ..r };
            lemma_coloring_shift(
                Coloring { points: s.points, updated: 0 },
                s.updated,
                frames@,
                here,
                r,
                unit@[k as int],
                width,
            );
            lemma_features_monotone(r, unit@, (k + 1) as nat, unit@.len());
        }
        report.updated_points = report.updated_points + updated;
        report.images = report.images + 1;
    }
    report
}

/// Coloring does not depend on what was counted before, nor on anything but the
/// observations.
proof fn lemma_coloring_shift(
    s: Coloring,
    n: nat,
    frames: Seq<ImageFrame>,
    a: ReconstructionView,
    b: ReconstructionView,
    image: usize,
    k: nat,
)
    requires
        a.observations == b.observations,
    ensures
        image_colored(Coloring { points: s.points, updated: s.updated + n }, frames, b, image, k)
            == (Coloring {
            points: image_colored(s, frames, a, image, k).points,
            updated: image_colored(s, frames, a, image, k).updated + n,
        }),
    decreases k,
{
    if k > 0 {
        lemma_coloring_shift(s, n, frames, a, b, image, (k - 1) as nat);
        assert(a.observed(image as int, k - 1) == b.observed(image as int, k - 1));
    }
}

/// A sum of colors.
#[derive(Debug, Clone, Copy, PartialEq, Eq, Structural)]
pub struct ColorSum {
    pub red: usize,
    pub green: usize,
    pub blue: usize,
    pub count: usize,
}

/// A sum of colors of any size.
#[verifier::ext_equal]
pub struct ColorTotal {
    pub red: nat,
    pub green: nat,
    pub blue: nat,
    pub count: nat,
}

/// The colors that the first `k` observations of a track have in registered
/// images, added up.
pub open spec fn color_total(
    frames: Seq<ImageFrame>,
    r: ReconstructionView,
    track: Seq<TrackObservation>,
    k: nat,
) -> ColorTotal
    decreases k,
{
    if k == 0 {
        ColorTotal { red: 0, green: 0, blue: 0, count: 0 }
    } else {
        let rest = color_total(frames, r, track, (k - 1) as nat);
        let obs = track[k - 1];
        match feature_color(frames, obs.image as int, obs.feature as int) {
            Some(color) => if r.registered(obs.image as int) {
                ColorTotal {
                    red: rest.red + color@[0] as nat,
                    green: rest.green + color@[1] as nat,
                    blue: rest.blue + color@[2] as nat,
                    count: rest.count + 1,
                }
            } else {
                rest
            },
            None => rest,
        }
    }
}

/// Adds up the colors of a track in registered images.
pub fn registered_color_sum(
    frames: &[ImageFrame],
    reconstruction: &Reconstruction,
    point: usize,
) -> (sum: ColorSum)
    requires
        point < reconstruction@.points.len(),
        255 * reconstruction@.points[point as int].track.len() <= usize::MAX,
    ensures
        ({
            let track = reconstruction@.points[point as int].track;
            let total = color_total(frames@, reconstruction@, track, track.len());
            &&& sum.red == total.red
            &&& sum.green == total.green
            &&& sum.blue == total.blue
            &&& sum.count == total.count
        }),
{
    let ghost r = reconstruction@;
    let track = &reconstruction.points[point].track;
    assert(r.points[point as int].track == track@);
    let mut sum = ColorSum { red: 0, green: 0, blue: 0, count: 0 };
    for k in 0..track.len()
        invariant
            r == reconstruction@,
            255 * track@.len() <= usize::MAX,
            ({
                let total = color_total(frames@, r, track@, k as nat);
                &&& sum.red == total.red
                &&& sum.green == total.green
                &&& sum.blue == total.blue
                &&& sum.count == total.count
            }),
            sum.red <= 255 * k,
            sum.green <= 255 * k,
            sum.blue <= 255 * k,
            sum.count <= k,
    {
        let obs = track[k];
        if reconstruction.is_registered(obs.image) {
            if let Some(color) = color_of_feature(frames, obs.image, obs.feature) {
                sum.red = sum.red + color[0] as usize;
                sum.green = sum.green + color[1] as usize;
                sum.blue = sum.blue + color[2] as usize;
                sum.count = sum.count + 1;
            }
        }
    }
    sum
}

/// The color of a point: the mean of the colors of its track, black if there
/// are none.
pub open spec fn final_color(
    frames: Seq<ImageFrame>,
    r: ReconstructionView,
    means: Seq<[u8; 3]>,
    point: int,
) -> [u8; 3] {
    let track = r.points[point].track;
    if color_total(frames, r, track, track.len()).count == 0 {
        [0u8, 0u8, 0u8]
    } else {
        means[point]
    }
}

/// The first `k` points in their final colors.
pub open spec fn points_colored(
    frames: Seq<ImageFrame>,
    r: ReconstructionView,
    means: Seq<[u8; 3]>,
    k: int,
) -> Seq<Point3DView> {
    Seq::new(
        r.points.len(),
        |p: int|
            if p < k && !same_color(r.points[p].color, final_color(frames, r, means, p)) {
                Point3DView { color: final_color(frames, r, means, p), ..r.points[p] }
            } else {
                r.points[p]
            },
    )
}

/// Selects the points whose color changes.
pub open spec fn color_changes(
    frames: Seq<ImageFrame>,
    r: ReconstructionView,
    means: Seq<[u8; 3]>,
) -> spec_fn(int) -> bool {
    |p: int| !same_color(r.points[p].color, final_color(frames, r, means, p))
}

/// Gives all points their final colors. `means` holds, for each point, the mean
/// of its color sum.
pub fn extract_colors_for_all_registered_images(
    frames: &[ImageFrame],
    reconstruction: &mut Reconstruction,
    config: &MapperConfig,
    means: &[[u8; 3]],
) -> (report: ColorExtractionReport)
    requires
        means@.len() == old(reconstruction)@.points.len(),
        forall|p: int|
            0 <= p < old(reconstruction)@.points.len() ==> 255 * (
            #[trigger] old(reconstruction)@.points[p]).track.len() <= usize::MAX,
    ensures
        ({
            let r = old(reconstruction)@;
            if config.extract_colors {
                &&& final(reconstruction)@ == (ReconstructionView {
                    points: points_colored(frames@, r, means@, r.points.len() as int),
                    ..r
                })
                &&& report.images == registered_images(r)
                &&& report.updated_points == crate::indices::count_where(
                    r.points.len(),
                    color_changes(frames@, r, means@),
                )
            } else {
                &&& final(reconstruction)@ == r
                &&& report == (ColorExtractionReport { images: 0, updated_points: 0 })
            }
        }),
{
    let mut report = ColorExtractionReport::default();
    if !config.extract_colors {
        return report;
    }
    let ghost r = reconstruction@;
    let ghost q = color_changes(frames@, r, means@);
    report.images = registered_image_count(reconstruction);
    let n: usize = reconstruction.points.len();
    assert(points_colored(frames@, r, means@, 0) =~= r.points);
    for p in 0..n
        invariant
            n == r.points.len(),
            n == reconstruction@.points.len(),
            n == means@.len(),
            q == color_changes(frames@, r, means@),
            forall|p: int| 0 <= p < n ==> 255 * (#[trigger] r.points[p]).track.len() <= usize::MAX,
            reconstruction@ == (ReconstructionView {
                points: points_colored(frames@, r, means@, p as int),
                ..r
            }),
            report.images == registered_images(r),
            report.updated_points == crate::indices::count_where(p as nat, q),
            report.updated_points <= p,
    {
        let ghost here = reconstruction@;
        let ghost listed = reconstruction.points@;
        assert(here.points[p as int] == r.points[p as int]);
        let sum = registered_color_sum(frames, reconstruction, p);
        proof {
            lemma_total_same(frames@, here, r, r.points[p as int].track, r.points[p as int].track.len());
        }
        let color: [u8; 3] = if sum.count == 0 {
            [0u8, 0u8, 0u8]
        } else {
            means[p]
        };
        assert(color == final_color(frames@, r, means@, p as int));
        assert(here.points[p as int] == listed[p as int]@);
        let now: [u8; 3] = reconstruction.points[p].color;
        if now[0] != color[0] || now[1] != color[1] || now[2] != color[2] {
            reconstruction.points[p].color = color;
            report.updated_points = report.updated_points + 1;
        }
        proof {
            let goal = points_colored(frames@, r, means@, p + 1);
            assert forall|j: int| 0 <= j < n implies #[trigger] reconstruction@.points[j]
                == goal[j] by {
                assert(here.points[j] == listed[j]@);
                if j != p {
                    assert(reconstruction.points@[j] == listed[j]);
                } else if q(p as int) {
                    assert(reconstruction.points@[j]@ =~= goal[j]);
                }
            }
            assert(reconstruction@.points =~= goal);
        }
    }
    report
}

proof fn lemma_total_same(
    frames: Seq<ImageFrame>,
    a: ReconstructionView,
    b: ReconstructionView,
    track: Seq<TrackObservation>,
    k: nat,
)
    requires
        a.poses == b.poses,
    ensures
        color_total(frames, a, track, k) == color_total(frames, b, track, k),
    decreases k,
{
    if k > 0 {
        lemma_total_same(frames, a, b, track, (k - 1) as nat);
    }
}

/// Whether a feature, if it has a color, is not black.
pub open spec fn not_black(frames: Seq<ImageFrame>, image: usize, f: int) -> bool {
    match feature_color(frames, image as int, f) {
        Some(color) => !is_black(color),
        None => true,
    }
}

/// Extracting the colors of an image twice changes nothing more, once all its
/// features have colors other than black.
pub proof fn law_colors_stay(
    points: Seq<Point3DView>,
    frames: Seq<ImageFrame>,
    r: ReconstructionView,
    image: usize,
    k: nat,
)
    requires
        forall|f: int|
            0 <= f < k ==> #[trigger] not_black(frames, image, f),
    ensures
        ({
            let once = image_colored(Coloring { points, updated: 0 }, frames, r, image, k).points;
            image_colored(Coloring { points: once, updated: 0 }, frames, r, image, k) == (
            Coloring { points: once, updated: 0 })
        }),
{
    let once = image_colored(Coloring { points, updated: 0 }, frames, r, image, k).points;
    assert forall|f: int| 0 <= f < k implies #[trigger] settled(once, frames, r, image, f) by {
        lemma_settled(points, frames, r, image, f, k);
    }
    lemma_nothing_left(once, frames, r, image, k);
}

/// Whether a feature has nothing left to color.
spec fn settled(
    points: Seq<Point3DView>,
    frames: Seq<ImageFrame>,
    r: ReconstructionView,
    image: usize,
    f: int,
) -> bool {
    r.observed(image as int, f) matches Some(p) ==> feature_color(frames, image as int, f) is None
        || p >= points.len() || !is_black(points[p as int].color)
}

proof fn lemma_settled(
    points: Seq<Point3DView>,
    frames: Seq<ImageFrame>,
    r: ReconstructionView,
    image: usize,
    f: int,
    k: nat,
)
    requires
        0 <= f < k,
        forall|g: int|
            0 <= g < k ==> #[trigger] not_black(frames, image, g),
    ensures
        settled(
            image_colored(Coloring { points, updated: 0 }, frames, r, image, k).points,
            frames,
            r,
            image,
            f,
        ),
    decreases k,
{
    assert(not_black(frames, image, k - 1));
    if f < k - 1 {
        lemma_settled(points, frames, r, image, f, (k - 1) as nat);
    }
}

proof fn lemma_nothing_left(
    points: Seq<Point3DView>,
    frames: Seq<ImageFrame>,
    r: ReconstructionView,
    image: usize,
    k: nat,
)
    requires
        forall|f: int| 0 <= f < k ==> #[trigger] settled(points, frames, r, image, f),
    ensures
        image_colored(Coloring { points, updated: 0 }, frames, r, image, k) == (Coloring {
            points,
            updated: 0,
        }),
    decreases k,
{
    if k > 0 {
        lemma_nothing_left(points, frames, r, image, (k - 1) as nat);
        assert(settled(points, frames, r, image, k - 1));
    }
}

/// Selects the images whose colors have to be sampled.
pub open spec fn lacks_colors(frames: Seq<ImageFrame>) -> spec_fn(int) -> bool {
    |i: int| frames[i].colors@.len() != frames[i].keypoints@.len()
}

/// The images whose colors have to be sampled: none if colors are not wanted.
pub fn images_to_sample(frames: &[ImageFrame], extract_colors: bool) -> (images: Vec<usize>)
    ensures
        images@ == (if extract_colors {
            crate::indices::indices_where(frames@.len(), lacks_colors(frames@))
        } else {
            Seq::empty()
        }),
{
    let mut images: Vec<usize> = Vec::new();
    if !extract_colors {
        return images;
    }
    for i in 0..frames.len()
        invariant
            images@ == crate::indices::indices_where(i as nat, lacks_colors(frames@)),
    {
        if frames[i].colors.len() != frames[i].keypoints.len() {
            images.push(i);
        }
    }
    images
}

/// Colors of an image that is not sampled.
pub fn black_colors(frame: &ImageFrame) -> (colors: Vec<[u8; 3]>)
    ensures
        colors@.len() == frame.keypoints@.len(),
        forall|i: int| 0 <= i < colors@.len() ==> is_black(#[trigger] colors@[i]),
{
    let mut colors: Vec<[u8; 3]> = Vec::new();
    for i in 0..frame.keypoints.len()
        invariant
            colors@.len() == i,
            forall|j: int| 0 <= j < i ==> is_black(#[trigger] colors@[j]),
    {
        colors.push([0u8, 0u8, 0u8]);
    }
    colors
}

} // verus!

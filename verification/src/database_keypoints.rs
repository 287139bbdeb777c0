//! Features of images as a database has them.

use crate::camera_setup::last_index;
use crate::indices::indices_where;
use crate::types::{ImageFrame, Keypoint};
use vstd::prelude::*;

verus! {

/// The features of the image of a name.
#[derive(Debug, Clone)]
pub struct NamedKeypoints {
    pub name: String,
    pub keypoints: Vec<Keypoint>,
}

pub open spec fn list_names(lists: Seq<NamedKeypoints>) -> Seq<Seq<char>> {
    Seq::new(lists.len(), |i: int| lists[i].name@)
}

/// The features that a database has for an image: those of the last list of its
/// name, unless it is empty.
pub open spec fn database_features(lists: Seq<NamedKeypoints>, name: Seq<char>) -> Option<
    Seq<Keypoint>,
> {
    match last_index(list_names(lists), name) {
        Some(k) => if lists[k as int].keypoints@.len() > 0 {
            Some(lists[k as int].keypoints@)
        } else {
            None
        },
        None => None,
    }
}

/// Selects the images that a database has features for.
pub open spec fn has_database_features(
    frames: Seq<ImageFrame>,
    lists: Seq<NamedKeypoints>,
) -> spec_fn(int) -> bool {
    |i: int| database_features(lists, frames[i].name@) is Some
}

/// Whether an image has taken over its features from a database, where it has
/// any.
pub open spec fn took_over(
    after: ImageFrame,
    before: ImageFrame,
    lists: Seq<NamedKeypoints>,
) -> bool {
    match database_features(lists, before.name@) {
        Some(features) => {
            &&& after.keypoints@ == features
            &&& after.strong_feature_indices@.len() == 0
            &&& after.id == before.id
            &&& after.name == before.name
            &&& after.width == before.width
            &&& after.height == before.height
            &&& after.colors == before.colors
        },
        None => after == before,
    }
}

fn list_of_name(lists: &Vec<NamedKeypoints>, name: &String) -> (index: Option<usize>)
    ensures
        index == last_index(list_names(lists@), name@),
        index matches Some(i) ==> i < lists@.len(),
{
    let ghost all = list_names(lists@);
    let mut k: usize = lists.len();
    assert(all.take(k as int) =~= all);
    while k > 0
        invariant
            all == list_names(lists@),
            k <= lists@.len(),
            last_index(all, name@) == last_index(all.take(k as int), name@),
        decreases k,
    {
        assert(all.take(k as int).drop_last() =~= all.take(k - 1));
        if lists[k - 1].name.eq(name) {
            assert(all.take(k as int).last() == name@);
            return Some(k - 1);
        }
        assert(all.take(k as int).last() != name@);
        k = k - 1;
    }
    None
}

/// Gives the images the features that a database has for them. Gives the images
/// that changed; their colors have to be sampled anew.
pub fn apply_database_keypoints(frames: &mut Vec<ImageFrame>, lists: &Vec<NamedKeypoints>) -> (changed:
    Vec<usize>)
    ensures
        changed@ == indices_where(
            old(frames)@.len(),
            has_database_features(old(frames)@, lists@),
        ),
        final(frames)@.len() == old(frames)@.len(),
        forall|i: int|
            0 <= i < old(frames)@.len() ==> took_over(
                #[trigger] final(frames)@[i],
                old(frames)@[i],
                lists@,
            ),
{
    let ghost before = frames@;
    let ghost q = has_database_features(before, lists@);
    let n: usize = frames.len();
    let mut changed: Vec<usize> = Vec::new();
    for i in 0..n
        invariant
            n == frames@.len(),
            n == before.len(),
            q == has_database_features(before, lists@),
            changed@ == indices_where(i as nat, q),
            forall|j: int| 0 <= j < i ==> took_over(#[trigger] frames@[j], before[j], lists@),
            forall|j: int| i <= j < n ==> #[trigger] frames@[j] == before[j],
    {
        assert(frames@[i as int] == before[i as int]);
        if let Some(k) = list_of_name(lists, &frames[i].name) {
            let width: usize = lists[k].keypoints.len();
            if width > 0 {
                let mut keypoints: Vec<Keypoint> = Vec::new();
                for f in 0..width
                    invariant
                        k < lists@.len(),
                        width == lists@[k as int].keypoints@.len(),
                        keypoints@ == lists@[k as int].keypoints@.take(f as int),
                {
                    keypoints.push(lists[k].keypoints[f]);
                    assert(keypoints@ =~= lists@[k as int].keypoints@.take(f + 1));
                }
                assert(keypoints@ =~= lists@[k as int].keypoints@);
                frames[i].keypoints = keypoints;
                frames[i].strong_feature_indices = Vec::new();
                changed.push(i);
            }
        }
    }
    changed
}

} // verus!

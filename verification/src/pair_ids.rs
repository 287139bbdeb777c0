//! Identifiers of unordered image pairs.

use crate::types::{Reconstruction, ReconstructionView};
use vstd::prelude::*;

verus! {

/// One above the largest image identifier that a pair identifier can hold.
pub const MAX_NUM_IMAGES: u32 = 2147483647;

/// The identifier of the pair of two image identifiers, in either order.
pub open spec fn spec_pair_id(id1: u32, id2: u32) -> Option<u64> {
    if id1 >= MAX_NUM_IMAGES || id2 >= MAX_NUM_IMAGES {
        None
    } else if id1 <= id2 {
        Some((id1 * 2147483647 + id2) as u64)
    } else {
        Some((id2 * 2147483647 + id1) as u64)
    }
}

pub fn image_pair_to_pair_id(id1: u32, id2: u32) -> (id: Option<u64>)
    ensures
        id == spec_pair_id(id1, id2),
{
    if id1 >= MAX_NUM_IMAGES || id2 >= MAX_NUM_IMAGES {
        None
    } else if id1 <= id2 {
        Some(id1 as u64 * 2147483647u64 + id2 as u64)
    } else {
        Some(id2 as u64 * 2147483647u64 + id1 as u64)
    }
}

impl ReconstructionView {
    /// The identifier of the pair of two images.
    pub open spec fn pair_id_of(self, left: usize, right: usize) -> Option<u64> {
        spec_pair_id(self.image_id_of(left as int), self.image_id_of(right as int))
    }
}

pub fn initial_image_pair_id(reconstruction: &Reconstruction, left: usize, right: usize) -> (id:
    Option<u64>)
    ensures
        id == reconstruction@.pair_id_of(left, right),
{
    image_pair_to_pair_id(reconstruction.image_id(left), reconstruction.image_id(right))
}

/// A pair identifier does not depend on the order of the images, and distinct
/// unordered pairs have distinct identifiers.
pub proof fn law_pair_id_identifies(a: u32, b: u32, c: u32, d: u32)
    requires
        a < MAX_NUM_IMAGES,
        b < MAX_NUM_IMAGES,
        c < MAX_NUM_IMAGES,
        d < MAX_NUM_IMAGES,
    ensures
        spec_pair_id(a, b) == spec_pair_id(b, a),
        spec_pair_id(a, b) == spec_pair_id(c, d) <==> (a == c && b == d) || (a == d && b == c),
{
}

} // verus!

use vstd::prelude::*;

verus! {

/// The distance field settings of a bitmap font: the kind of field and
/// how many pixels the distance is encoded over.
pub struct DistanceField {
    pub field_type: String,
    pub distance_range: usize,
}

} // verus!

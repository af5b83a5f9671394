//! A scale along a curve: named anchors with known positions, against which
//! measures are expressed.

use vstd::prelude::*;

verus! {

/// A named reference point of a scale.
#[derive(Debug)]
pub struct Anchor {
    /// The name of the anchor.
    pub id: String,
    /// Where the anchor stands on the scale.
    pub scale_position: usize,
    /// Where the anchor stands along the curve.
    pub curve_position: usize,
}

impl Clone for Anchor {
    fn clone(&self) -> (copy: Self)
        ensures
            copy == *self,
    {
        Anchor {
            id: self.id.clone(),
            scale_position: self.scale_position,
            curve_position: self.curve_position,
        }
    }
}

/// A scale: its name and its anchors, in the order of the curve.
#[derive(Debug)]
pub struct LrmScale {
    /// The name of the scale.
    pub id: String,
    /// The anchors of the scale.
    pub anchors: Vec<Anchor>,
}

} // verus!

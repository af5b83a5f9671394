//! A linear referencing system: a set of linear referencing methods, each
//! with its scale.

use crate::lrm_scale::LrmScale;
use vstd::prelude::*;

verus! {

/// The place of a linear referencing method in its system.
#[derive(Clone, Copy, Debug, PartialEq, Eq, Structural)]
pub struct LrmHandle(pub usize);

/// The place of a traversal in its system.
#[derive(Clone, Copy, Debug, PartialEq, Eq, Structural)]
pub struct TraversalHandle(pub usize);

/// A linear referencing method: a scale laid along a traversal.
#[derive(Debug)]
pub struct Lrm {
    /// The scale of the method.
    pub scale: LrmScale,
    /// The traversal along which the scale is laid.
    pub reference_traversal: TraversalHandle,
}

/// A linear referencing system.
#[derive(Debug)]
pub struct Lrs {
    /// The methods of the system. A method is known by the name of its
    /// scale.
    pub lrms: Vec<Lrm>,
}

/// Whether `index` is the first place in `lrms` whose scale bears the name
/// `id`.
pub open spec fn is_first_named(lrms: Seq<Lrm>, id: Seq<char>, index: int) -> bool {
    &&& 0 <= index < lrms.len()
    &&& lrms[index].scale.id@ == id
    &&& forall|j: int| 0 <= j < index ==> (#[trigger] lrms[j]).scale.id@ != id
}

/// Whether no scale in `lrms` bears the name `id`.
pub open spec fn none_named(lrms: Seq<Lrm>, id: Seq<char>) -> bool {
    forall|j: int| 0 <= j < lrms.len() ==> (#[trigger] lrms[j]).scale.id@ != id
}

impl Lrs {
    /// How many methods compose the system.
    pub fn lrm_len(&self) -> (len: usize)
        ensures
            len == self.lrms.len(),
    {
        self.lrms.len()
    }

    /// The method whose scale bears the name `lrm_id`: the first one, should
    /// several bear it.
    pub fn get_lrm(&self, lrm_id: &str) -> (found: Option<LrmHandle>)
        ensures
            match found {
                Some(handle) => is_first_named(self.lrms@, lrm_id@, handle.0 as int),
                None => none_named(self.lrms@, lrm_id@),
            },
    {
        let wanted = lrm_id.to_owned();
        let mut i: usize = 0;
        while i < self.lrms.len()
            invariant
                i <= self.lrms.len(),
                wanted@ == lrm_id@,
                forall|j: int| 0 <= j < i ==> (#[trigger] self.lrms[j]).scale.id@ != lrm_id@,
            decreases self.lrms.len() - i,
        {
            if self.lrms[i].scale.id == wanted {
                return Some(LrmHandle(i));
            }
            i += 1;
        }
        None
    }
}

} // verus!

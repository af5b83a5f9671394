//! High-level access to a linear referencing system, whatever the kind of
//! coordinates it was built on.

use crate::lrm_scale::Anchor;
use crate::lrs::{is_first_named, none_named, Lrm, Lrs};
use vstd::prelude::*;

verus! {

/// A linear referencing system together with the kind of its coordinates.
#[derive(Debug)]
pub enum ExtLrs {
    /// A system with spherical coordinates.
    Spherical(Lrs),
    /// A system with planar coordinates.
    Planar(Lrs),
}

impl ExtLrs {
    /// The system, whatever the kind of its coordinates.
    pub open spec fn system(&self) -> Lrs {
        match self {
            ExtLrs::Spherical(lrs) => *lrs,
            ExtLrs::Planar(lrs) => *lrs,
        }
    }

    /// Takes a system as it was decoded, or the message of the failure to
    /// decode it, and marks the system as planar or as spherical.
    pub fn load(decoded: Result<Lrs, String>, planar: bool) -> (loaded: Result<ExtLrs, String>)
        ensures
            match decoded {
                Ok(lrs) => loaded == Ok::<ExtLrs, String>(
                    if planar {
                        ExtLrs::Planar(lrs)
                    } else {
                        ExtLrs::Spherical(lrs)
                    },
                ),
                Err(message) => loaded == Err::<ExtLrs, String>(message),
            },
    {
        match decoded {
            Ok(lrs) => if planar {
                Ok(ExtLrs::Planar(lrs))
            } else {
                Ok(ExtLrs::Spherical(lrs))
            },
            Err(message) => Err(message),
        }
    }

    /// How many methods compose the system.
    pub fn lrm_len(&self) -> (len: usize)
        ensures
            len == self.system().lrms.len(),
    {
        match self {
            ExtLrs::Spherical(lrs) => lrs.lrm_len(),
            ExtLrs::Planar(lrs) => lrs.lrm_len(),
        }
    }

    /// Given a name, returns the index of the method whose scale bears it, or
    /// `None` if there is none.
    pub fn find_lrm(&self, lrm_id: &str) -> (found: Option<usize>)
        ensures
            match found {
                Some(index) => is_first_named(self.system().lrms@, lrm_id@, index as int),
                None => none_named(self.system().lrms@, lrm_id@),
            },
    {
        let handle = match self {
            ExtLrs::Spherical(lrs) => lrs.get_lrm(lrm_id),
            ExtLrs::Planar(lrs) => lrs.get_lrm(lrm_id),
        };
        match handle {
            Some(handle) => Some(handle.0),
            None => None,
        }
    }

    fn get_lrm(&self, index: usize) -> (lrm: &Lrm)
        requires
            index < self.system().lrms.len(),
        ensures
            *lrm == self.system().lrms[index as int],
    {
        match self {
            ExtLrs::Spherical(lrs) => &lrs.lrms[index],
            ExtLrs::Planar(lrs) => &lrs.lrms[index],
        }
    }

    /// The name of the scale of a method.
    pub fn get_lrm_scale_id(&self, index: usize) -> (id: String)
        requires
            index < self.system().lrms.len(),
        ensures
            id == self.system().lrms[index as int].scale.id,
    {
        self.get_lrm(index).scale.id.clone()
    }

    /// All the anchors of a method.
    pub fn get_anchors(&self, lrm_index: usize) -> (anchors: Vec<Anchor>)
        requires
            lrm_index < self.system().lrms.len(),
        ensures
            anchors@ == self.system().lrms[lrm_index as int].scale.anchors@,
    {
        let scale = &self.get_lrm(lrm_index).scale;
        let mut anchors: Vec<Anchor> = Vec::new();
        let mut i: usize = 0;
        while i < scale.anchors.len()
            invariant
                i <= scale.anchors.len(),
                anchors@ == scale.anchors@.take(i as int),
            decreases scale.anchors.len() - i,
        {
            anchors.push(scale.anchors[i].clone());
            assert(scale.anchors@.take(i + 1) == scale.anchors@.take(i as int).push(
                scale.anchors[i as int],
            ));
            i += 1;
        }
        anchors
    }
}

} // verus!

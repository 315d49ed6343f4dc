//! Player identifiers: a registered id and the marker type for an id
//! standing in the queue.

use vstd::prelude::*;

verus! {

/// An externally supplied 64-bit player identifier, the key into the
/// rating registry.
#[derive(Clone, Copy, PartialEq, Eq, Structural, Debug, Hash)]
pub struct SlamId {
    pub id: u64,
}

impl SlamId {
    pub fn new(id: u64) -> (r: Self)
        ensures
            r.id == id,
    {
        SlamId { id }
    }
}

/// A player identifier as it stands in the queue; one value per
/// enqueued occurrence.
#[derive(Clone, Copy, PartialEq, Eq, Structural, Debug, Hash)]
pub struct SlamIdQueued {
    pub id: u64,
}

impl SlamIdQueued {
    pub fn new(id: SlamId) -> (r: Self)
        ensures
            r.id == id.id,
    {
        SlamIdQueued { id: id.id }
    }

    /// The registered id this queue entry refers to.
    pub fn slam_id(&self) -> (r: SlamId)
        ensures
            r.id == self.id,
    {
        SlamId { id: self.id }
    }
}

impl From<SlamIdQueued> for SlamId {
    fn from(value: SlamIdQueued) -> (r: Self) {
        SlamId { id: value.id }
    }
}

impl vstd::std_specs::convert::FromSpecImpl<SlamIdQueued> for SlamId {
    open spec fn obeys_from_spec() -> bool {
        true
    }

    open spec fn from_spec(value: SlamIdQueued) -> Self {
        SlamId { id: value.id }
    }
}

impl From<&SlamIdQueued> for SlamId {
    fn from(value: &SlamIdQueued) -> (r: Self) {
        SlamId { id: value.id }
    }
}

impl vstd::std_specs::convert::FromSpecImpl<&SlamIdQueued> for SlamId {
    open spec fn obeys_from_spec() -> bool {
        true
    }

    open spec fn from_spec(value: &SlamIdQueued) -> Self {
        SlamId { id: value.id }
    }
}

} // verus!

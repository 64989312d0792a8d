//! Handles by which interactive elements are named.

use vstd::prelude::*;

verus! {

/// Largest index an element can have; one below the raw value of
/// [`ElementId::null`].
pub const MAX_INDEX: u32 = 0xffff_fffe;

/// A stable handle to one interactive element.
///
/// Handles are dense indices into the element arena. One raw value is set
/// aside for "no element"; index zero always names the root.
#[derive(Clone, Copy, Debug, PartialEq, Eq, Hash, Structural)]
pub struct ElementId(pub u32);

impl ElementId {
    /// The handle that names no element.
    pub open spec fn none() -> ElementId {
        ElementId(0xffff_ffff)
    }

    /// The handle of the root element, to which redraw requests are sent.
    pub open spec fn root_id() -> ElementId {
        ElementId(0)
    }

    /// Whether this handle names no element.
    pub open spec fn is_none(self) -> bool {
        self.0 == 0xffff_ffff
    }

    /// The arena slot this handle names; meaningful when it is not none.
    pub open spec fn slot(self) -> int {
        self.0 as int
    }

    /// The handle that names no element.
    pub fn null() -> (id: ElementId)
        ensures
            id == ElementId::none(),
    {
        ElementId(0xffff_ffff)
    }

    /// The handle of the root element.
    pub fn root() -> (id: ElementId)
        ensures
            id == ElementId::root_id(),
    {
        ElementId(0)
    }

    /// The handle of the element stored at `index`.
    pub fn new(index: u32) -> (id: ElementId)
        requires
            index <= MAX_INDEX,
        ensures
            id == ElementId(index),
            !id.is_none(),
    {
        ElementId(index)
    }

    /// Returns true if the handle names no element.
    pub fn is_null(&self) -> (b: bool)
        ensures
            b == self.is_none(),
    {
        self.0 == 0xffff_ffff
    }

    /// The arena slot of the element, or `None` for the null handle.
    pub fn index(&self) -> (slot: Option<usize>)
        ensures
            self.is_none() <==> slot is None,
            slot matches Some(i) ==> i as int == self.slot(),
    {
        if self.0 < 0xffff_ffff {
            Some(self.0 as usize)
        } else {
            None
        }
    }
}

} // verus!

//! Render-record bookkeeping: an ordered list of draw entries collected
//! during a frame, to be routed to renderers by variant tag.

use vstd::prelude::*;

verus! {

/// Result handed back when a renderer finishes loading an update.
pub enum UpdateReturn {
    Textured(crate::textured::UpdateReturn),
}

/// An ordered record of draw entries collected for one frame.
pub struct RenderRecord<E> {
    pub entries: Vec<E>,
}

impl<E> RenderRecord<E> {
    /// A record with no entries yet.
    pub fn new() -> (r: Self)
        ensures
            r.entries@.len() == 0,
    {
        RenderRecord { entries: Vec::new() }
    }
}

} // verus!

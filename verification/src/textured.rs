//! Marker and handle types for the textured-quad renderer's resources.

use vstd::prelude::*;
use crate::util::indirect_handles::Handle;

verus! {

/// Unit marker naming the textured renderer's handle family.
#[derive(Clone, Copy, PartialEq, Eq, Structural, Hash, Debug)]
pub struct Texture;

/// A freshly registered texture, owned by the caller as a live handle.
pub struct UpdateReturn(pub Handle<Texture>);

} // verus!

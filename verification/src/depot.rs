//! The inland depot's authored kit: what each of its masses is made of.
//! Its geometry is metres and stays with the renderer and the collision
//! query; the materials are plain tags.
use vstd::prelude::*;

verus! {

/// Semantic materials of the depot's parts, not independent collision
/// shapes.
#[derive(Clone, Copy, Debug, PartialEq, Eq, Structural)]
pub enum PartKind {
    Concrete,
    Wall,
    Roof,
    Steel,
    Cargo,
    Fence,
}

} // verus!

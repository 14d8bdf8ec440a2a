//! Which edge of a surface is attached to its anchor, so the drop shadow's
//! penumbra on that edge is suppressed.
use vstd::prelude::*;

verus! {

/// The edge of a shadowed surface that touches its anchor. Leading /
/// trailing must be resolved to a geometric side with the active layout
/// direction first.
#[derive(Debug, Clone, Copy, PartialEq, Eq, Structural)]
pub enum AttachedSide {
    /// Suppress the halo on the top edge (a dropdown opening downward).
    Top,
    /// Suppress the halo on the bottom edge (a popover opening upward).
    Bottom,
    /// Suppress the halo on the left edge.
    Left,
    /// Suppress the halo on the right edge.
    Right,
}

} // verus!

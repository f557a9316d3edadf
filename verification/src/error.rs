//! Errors of the drawing layer.

use vstd::prelude::*;

verus! {

/// What can go wrong while drawing.
#[derive(Debug, PartialEq, Eq, Clone, Copy, Structural)]
pub enum Error {
    /// A pixel or sub-view coordinate lay outside the target's bounds.
    PointOutbound,
    /// No usable font could be resolved.
    FontNotFound,
}

} // verus!

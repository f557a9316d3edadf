//! Mapping from protocol pointer-button codes to the bar's button
//! numbers.

use vstd::prelude::*;

verus! {

/// Protocol code for the left mouse button.
pub const LEFT_MOUSE: u32 = 272;

/// Protocol code for the right mouse button.
pub const RIGHT_MOUSE: u32 = 273;

/// Protocol code for the middle mouse button.
pub const MIDDLE_MOUSE: u32 = 274;

/// The bar button a protocol pointer-button code stands for: left is
/// 1, right is 2, middle is 3; any other code is bound to nothing.
pub fn wayland2bar(button: u32) -> (r: Option<u32>)
    ensures
        r == (if button == LEFT_MOUSE {
            Some(1u32)
        } else if button == RIGHT_MOUSE {
            Some(2u32)
        } else if button == MIDDLE_MOUSE {
            Some(3u32)
        } else {
            None::<u32>
        }),
{
    if button == LEFT_MOUSE {
        Some(1)
    } else if button == RIGHT_MOUSE {
        Some(2)
    } else if button == MIDDLE_MOUSE {
        Some(3)
    } else {
        None
    }
}

} // verus!

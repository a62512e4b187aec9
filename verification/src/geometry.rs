//! Places on the screen.

use vstd::prelude::*;

verus! {

/// A rectangle on the screen, by its top left corner and its size.
#[derive(Debug, Clone, Copy, PartialEq, Eq, Structural)]
pub struct Rect {
    /// The column of the left edge.
    pub x: i32,
    /// The row of the top edge.
    pub y: i32,
    /// The number of columns.
    pub width: i32,
    /// The number of rows.
    pub height: i32,
}

} // verus!

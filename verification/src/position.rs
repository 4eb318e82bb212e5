//! Screen rectangles in physical pixels, as the shell reads them from the
//! monitors. The pill's placement arithmetic is floating point and lives in
//! the shell.

use vstd::prelude::*;

verus! {

#[derive(Debug, Clone, Copy, PartialEq, Eq, Structural)]
pub struct Rect {
    pub x: i32,
    pub y: i32,
    pub width: u32,
    pub height: u32,
}

} // verus!

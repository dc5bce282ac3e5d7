//! What can be wrong with a quadkey or a tile coordinate.

use vstd::prelude::*;

verus! {

/// What can be wrong with a quadkey or a tile coordinate.
#[derive(Debug, Clone, Copy, PartialEq, Eq, Structural)]
pub enum Error {
    /// A level past what a quadkey can address here.
    LevelTooDeep { level: u8, max: u8 },
    /// A character that is not a quadkey digit.
    NotADigit { found: char },
    /// A tile coordinate outside the grid its level and scheme define.
    OutOfGrid { level: u8, x: u32, y: u32, columns: u64, rows: u64 },
}

} // verus!

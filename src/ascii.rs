//! The ASCII bytes the text formats read and write.

use vstd::prelude::*;

verus! {

/// The byte of ' '.
pub const SPACE: u8 = 32;

/// The byte of '-'.
pub const DASH: u8 = 45;

/// The byte of '/'.
pub const SLASH: u8 = 47;

/// The byte of '0'.
pub const DIGIT_0: u8 = 48;

/// The byte of '1'.
pub const DIGIT_1: u8 = 49;

/// The byte of '8'.
pub const DIGIT_8: u8 = 56;

/// The byte of '9'.
pub const DIGIT_9: u8 = 57;

/// The byte of 'A'.
pub const UPPER_A: u8 = 65;

/// The byte of 'H'.
pub const UPPER_H: u8 = 72;

/// The byte of 'K'.
pub const UPPER_K: u8 = 75;

/// The byte of 'Q'.
pub const UPPER_Q: u8 = 81;

/// The byte of 'a'.
pub const LOWER_A: u8 = 97;

/// The byte of 'b'.
pub const LOWER_B: u8 = 98;

/// The byte of 'h'.
pub const LOWER_H: u8 = 104;

/// The byte of 'k'.
pub const LOWER_K: u8 = 107;

/// The byte of 'n'.
pub const LOWER_N: u8 = 110;

/// The byte of 'q'.
pub const LOWER_Q: u8 = 113;

/// The byte of 'r'.
pub const LOWER_R: u8 = 114;

/// The byte of 'w'.
pub const LOWER_W: u8 = 119;

} // verus!

//! The `printf` flags, one bit each: the bits of a `ConversionFlags`.
use vstd::prelude::*;

verus! {

pub const NONE: u8 = 0u8;

/// `-`
pub const LEFT_JUSTIFY: u8 = 1u8;

/// `+`
pub const ALWAYS_PRECEED_WITH_SIGN: u8 = 2u8;

/// ` `
pub const PRECEED_WITH_BLANK_SPACE_IF_NO_SIGN: u8 = 4u8;

/// `#`: `0x`, `0X` or `0` before hexadecimal and octal numbers.
pub const PRECEED_WITH_BASE_MARKING: u8 = 8u8;

/// `0`: pad on the left with zeroes where padding is asked for.
pub const LEFT_PAD_WITH_ZEROES: u8 = 16u8;

pub const ALL_FLAGS: u8 = 31u8;

} // verus!

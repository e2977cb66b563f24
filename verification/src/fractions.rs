//! The bits of single-precision numbers that settings are made of.

use vstd::prelude::*;

verus! {

/// -0.5
pub const MINUS_HALF: u32 = 0xbf00_0000;

/// 0.01
pub const HUNDREDTH: u32 = 0x3c23_d70a;

/// 0.05
pub const TWENTIETH: u32 = 0x3d4c_cccd;

/// 0.1
pub const TENTH: u32 = 0x3dcc_cccd;

/// 0.15
pub const THREE_TWENTIETHS: u32 = 0x3e19_999a;

/// 0.2
pub const FIFTH: u32 = 0x3e4c_cccd;

/// 0.3
pub const THREE_TENTHS: u32 = 0x3e99_999a;

/// 0.4
pub const TWO_FIFTHS: u32 = 0x3ecc_cccd;

/// 0.5
pub const HALF: u32 = 0x3f00_0000;

/// 0.6
pub const THREE_FIFTHS: u32 = 0x3f19_999a;

/// 0.8
pub const FOUR_FIFTHS: u32 = 0x3f4c_cccd;

/// 1.5
pub const ONE_AND_A_HALF: u32 = 0x3fc0_0000;

/// 3
pub const THREE: u32 = 0x4040_0000;

/// 5
pub const FIVE: u32 = 0x40a0_0000;

/// 6
pub const SIX: u32 = 0x40c0_0000;

/// 10
pub const TEN: u32 = 0x4120_0000;

/// 50
pub const FIFTY: u32 = 0x4248_0000;

/// 100
pub const HUNDRED: u32 = 0x42c8_0000;

} // verus!

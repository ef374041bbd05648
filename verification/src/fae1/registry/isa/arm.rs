//! ARM execution modes emitted by the builders.

use vstd::prelude::*;

verus! {

pub const A32: u8 = 0x01;

pub const THUMB_2: u8 = 0x02;

pub const THUMB_V6M: u8 = 0x03;

} // verus!

//! ISA family numbers.

pub mod arm;

use vstd::prelude::*;

verus! {

pub const ARM: u8 = 0x01;

pub const RISCV: u8 = 0x02;

pub const INTEL: u8 = 0x03;

pub const PRIVATE_0: u8 = 0xFC;

pub const PRIVATE_1: u8 = 0xFD;

} // verus!

//! ABI family numbers and Rustlet profile markers.

use vstd::prelude::*;

verus! {

pub const XIPFS: u32 = 0x0FACADE1;

pub const OXIDE_SE: u32 = 0x0AC1DA99;

pub const RUSTLET_APPLICATION: u16 = 0xA99;

pub const RUSTLET_SECURITY_DOMAIN: u16 = 0x5DC;

} // verus!

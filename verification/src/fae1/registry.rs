//! Numbers assigned to ISA families and ABI profiles.

pub mod abi;
pub mod isa;

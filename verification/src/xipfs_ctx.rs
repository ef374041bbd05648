//! What the XiPFS loader hands the startup code: where the image and the
//! free memory lie, and the loader's own data, with addresses as the
//! device's 32-bit words.

use vstd::prelude::*;

verus! {

/// The most arguments the loader passes.
pub const XIPFS_EXEC_ARGC_MAX: usize = 64;

/// Where the image and the free memory lie.
#[derive(Debug, Clone, Copy, PartialEq, Eq)]
pub struct XipfsRt0Ctx {
    /// Start address of the binary in the NVM
    pub bin_base: u32,
    /// Start address of the available free RAM
    pub ram_start: u32,
    /// End address of the available free RAM
    pub ram_end: u32,
    /// Start address of the free NVM
    pub nvm_start: u32,
    /// End address of the free NVM
    pub nvm_end: u32,
    /// Address of loader-specific context data; for XiPFS, an
    /// `XipfsRt0CtxData`
    pub argv: u32,
}

/// The XiPFS loader's data: the file, the syscall table, the arguments and
/// the GOTs before and after the payload's.
#[derive(Debug, Clone, Copy)]
pub struct XipfsRt0CtxData {
    pub file_base: u32,
    pub is_safe_call: u8,
    pub syscall_table: u32,
    pub argc: u32,
    pub argv: [u32; XIPFS_EXEC_ARGC_MAX],
    pub former_got: u32,
    pub current_got: u32,
}

/// The entries of the loader's syscall table, in order.
#[derive(Debug, Clone, Copy, PartialEq, Eq)]
pub enum XipfsSyscall {
    Exit,
    Vprintf,
    GetTemp,
    IsPrint,
    Strtol,
    GetLed,
    SetLed,
    CopyFile,
    GetFileSize,
    Memset,
    Max,
}

pub open spec fn syscall_index(s: XipfsSyscall) -> usize {
    match s {
        XipfsSyscall::Exit => 0,
        XipfsSyscall::Vprintf => 1,
        XipfsSyscall::GetTemp => 2,
        XipfsSyscall::IsPrint => 3,
        XipfsSyscall::Strtol => 4,
        XipfsSyscall::GetLed => 5,
        XipfsSyscall::SetLed => 6,
        XipfsSyscall::CopyFile => 7,
        XipfsSyscall::GetFileSize => 8,
        XipfsSyscall::Memset => 9,
        XipfsSyscall::Max => 10,
    }
}

impl XipfsSyscall {
    /// The syscall's slot in the table: its place in the declaration.
    pub fn index(self) -> (r: usize)
        ensures
            r == syscall_index(self),
    {
        match self {
            XipfsSyscall::Exit => 0,
            XipfsSyscall::Vprintf => 1,
            XipfsSyscall::GetTemp => 2,
            XipfsSyscall::IsPrint => 3,
            XipfsSyscall::Strtol => 4,
            XipfsSyscall::GetLed => 5,
            XipfsSyscall::SetLed => 6,
            XipfsSyscall::CopyFile => 7,
            XipfsSyscall::GetFileSize => 8,
            XipfsSyscall::Memset => 9,
            XipfsSyscall::Max => 10,
        }
    }
}

} // verus!

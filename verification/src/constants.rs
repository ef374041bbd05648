use vstd::prelude::*;

verus! {

pub const SUFFIX: &'static str = ".fae";

pub const GDBINIT_SUFFIX: &'static str = ".gdbinit";

pub const BINUTILS_PREFIX: &'static str = "arm-none-eabi-";

pub const OBJCOPY: &'static str = "arm-none-eabi-objcopy";

pub const OBJDUMP: &'static str = "arm-none-eabi-objdump";

pub const ENDIANNESS: &'static str = "little";

pub const MAGIC_NUMBER: u32 = 0xFACADE00;

pub const VERSION: u32 = 0x12;

/// `MAGIC_NUMBER | VERSION`, the magic word of the legacy footer.
pub const MAGIC_NUMBER_AND_VERSION: u32 = 0xFACADE12;

pub const STARTUP_SECTION_NAME: &'static str = "._start";

pub const STARTUP_SYMBOL_NAME: &'static str = "_start";

pub const DEFAULT_RUNTIME_ENTRY_POINT: &'static str = "start";

pub const DEFAULT_STARTUP_ALONE_RAM_SIZE: u32 = 1024;

pub const DEFAULT_PROFILE: &'static str = "release";

pub const EXPORTED_SYMBOL_ROM_RAM_SIZE: &'static str = "__rom_ram_size";

pub const EXPORTED_SYMBOL_ROM_SIZE: &'static str = "__rom_size";

pub const EXPORTED_SYMBOL_GOT_SIZE: &'static str = "__got_size";

pub const EXPORTED_SYMBOL_RAM_SIZE: &'static str = "__ram_size";

pub const ROM_SECTION_NAME: &'static str = ".rom";

pub const GOT_SECTION_NAME: &'static str = ".got";

pub const ROM_RAM_SECTION_NAME: &'static str = ".rom.ram";

/// The only relocation table exported into an image.
pub const EXPORTED_RELOCATION_TABLE: &'static str = ".rel.rom.ram";

pub const PARTITION_NAME: &'static str = "partition.fae";

pub const MAKE: &'static str = "make";

pub const BINARY_SIZE_BYTESIZE: usize = 4;

pub const PAYLOAD_PADDING_BYTESIZE: usize = 4;

pub const RELOCATION_ENTRIES_COUNT_BYTESIZE: usize = 4;

pub const STARTUP_CODE_SIZE_BYTESIZE: usize = 4;

pub const ENTRY_POINT_BYTESIZE: usize = 4;

pub const ROM_RAM_SIZE_BYTESIZE: usize = 4;

pub const ROM_SIZE_BYTESIZE: usize = 4;

pub const GOT_SIZE_BYTESIZE: usize = 4;

pub const RAM_SIZE_BYTESIZE: usize = 4;

pub const MAGIC_NUMBER_AND_VERSION_BYTESIZE: usize = 4;

/// Seven words: RAM, GOT, ROM and ROM-RAM sizes, entry point, startup code
/// size and the magic word.
pub const FOOTER_BYTESIZE: usize = 28;

pub const FOOTER_RAM_SIZE_OFFSET: isize = -28;

pub const FOOTER_GOT_SIZE_OFFSET: isize = -24;

pub const FOOTER_ROM_SIZE_OFFSET: isize = -20;

pub const FOOTER_ROM_RAM_SIZE_OFFSET: isize = -16;

pub const FOOTER_ENTRYPOINT_OFFSET: isize = -12;

pub const FOOTER_STARTUP_CODE_OFFSET: isize = -8;

pub const FOOTER_CRT0_OFFSET: isize = -8;

pub const FOOTER_MAGIC_NUMBER_AND_VERSION_OFFSET: isize = -4;

/// Binary size word, relocation count word, payload padding word and the
/// legacy footer.
pub const MINIMAL_BYTESIZE: usize = 40;

pub const PADDING_VALUE: u8 = 0xFF;

pub const TEXT_ALIGNMENT_PADDING_VALUE: u8 = 0x00;

pub const SECTION_ALIGNMENT: usize = 4;

pub const PADDING_MPU_ALIGNMENT: usize = 32;

pub const R_ARM_ABS32: u32 = 2;

pub const R_ARM_REL32: u32 = 3;

pub const R_ARM_SBREL32: u32 = 9;

pub const R_ARM_GOT_BREL: u32 = 26;

pub const R_ARM_MOVW_PREL_NC: u32 = 45;

pub const R_ARM_MOVT_PREL: u32 = 46;

pub const R_ARM_THM_MOVW_PREL_NC: u32 = 49;

pub const R_ARM_THM_MOVT_PREL: u32 = 50;

pub const R_ARM_MOVW_BREL_NC: u32 = 85;

pub const R_ARM_MOVT_BREL: u32 = 86;

pub const R_ARM_THM_MOVW_BREL_NC: u32 = 87;

pub const R_ARM_THM_MOVT_BREL: u32 = 88;

} // verus!

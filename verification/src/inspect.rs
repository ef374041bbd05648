//! Reading back a FAE image: its footer (legacy or FAE 1.0 with the XiPFS
//! profile) and the integrity of its layout.

use vstd::prelude::*;

use crate::common::{get_word_from_slice, le_word, word_read_start, WordReadError};
use crate::constants;
use crate::elf::ArmCodeMode;
use crate::fae1::{self, AbiDescriptor, IsaDescriptor, XipfsProfile};

verus! {

/// How the image's footer is written.
#[derive(Debug, Clone, PartialEq, Eq)]
pub enum FooterFormat {
    Facade12,
    Fae1 {
        isa: IsaDescriptor,
        abi: AbiDescriptor,
        extra_words: Vec<u32>,
        crc: u32,
        footer_size: usize,
    },
}

/// The numbers the footer gives.
#[derive(Debug, Clone, Copy, PartialEq, Eq)]
pub struct FooterNumbers {
    pub footer_size: usize,
    pub startup_code_size: usize,
    pub entrypoint_value: usize,
    pub rom_size: usize,
    pub got_size: usize,
    pub rom_ram_size: usize,
    pub ram_size: usize,
}

/// The fields of an XiPFS image's footer.
#[derive(Debug, Clone)]
pub struct XipfsFooterFields {
    pub numbers: FooterNumbers,
    pub format: FooterFormat,
}

/// A field that must lie below the binary size.
#[derive(Debug, Clone, Copy, PartialEq, Eq)]
pub enum SizeField {
    StartupCodeSize,
    RelocationCountOffset,
    PayloadPaddingOffset,
    EntrypointOffset,
    RomSize,
    GotSize,
    RomRamSize,
}

/// The label of a size field in messages.
pub open spec fn size_field_label(o: SizeField) -> Seq<char> {
    match o {
        SizeField::StartupCodeSize => "startup_code_size"@,
        SizeField::RelocationCountOffset => "relocation count word offset"@,
        SizeField::PayloadPaddingOffset => "payload padding offset"@,
        SizeField::EntrypointOffset => "Entrypoint offset"@,
        SizeField::RomSize => "rom_size"@,
        SizeField::GotSize => "got size"@,
        SizeField::RomRamSize => "rom_ram_size"@,
    }
}

impl SizeField {
    pub fn as_str(self) -> (r: &'static str)
        ensures
            r@ == size_field_label(self),
    {
        match self {
            SizeField::StartupCodeSize => "startup_code_size",
            SizeField::RelocationCountOffset => "relocation count word offset",
            SizeField::PayloadPaddingOffset => "payload padding offset",
            SizeField::EntrypointOffset => "Entrypoint offset",
            SizeField::RomSize => "rom_size",
            SizeField::GotSize => "got size",
            SizeField::RomRamSize => "rom_ram_size",
        }
    }
}

/// A sum that must not overflow.
#[derive(Debug, Clone, Copy, PartialEq, Eq)]
pub enum SumField {
    RelocationCountOffset,
    RelocationEntriesSize,
    RelocationTableSize,
    PayloadPaddingOffset,
    PayloadPaddingStart,
    PartitionOffset,
    GotStart,
    RomRamStart,
    PayloadEnd,
}

/// The label of a sum in messages.
pub open spec fn sum_field_label(o: SumField) -> Seq<char> {
    match o {
        SumField::RelocationCountOffset => "relocation count word offset"@,
        SumField::RelocationEntriesSize => "relocation entries size"@,
        SumField::RelocationTableSize => "relocation table size"@,
        SumField::PayloadPaddingOffset => "payload padding offset"@,
        SumField::PayloadPaddingStart => "payload padding start"@,
        SumField::PartitionOffset => "partition offset"@,
        SumField::GotStart => ".got start"@,
        SumField::RomRamStart => ".rom.ram start"@,
        SumField::PayloadEnd => "payload end"@,
    }
}

impl SumField {
    pub fn as_str(self) -> (r: &'static str)
        ensures
            r@ == sum_field_label(self),
    {
        match self {
            SumField::RelocationCountOffset => "relocation count word offset",
            SumField::RelocationEntriesSize => "relocation entries size",
            SumField::RelocationTableSize => "relocation table size",
            SumField::PayloadPaddingOffset => "payload padding offset",
            SumField::PayloadPaddingStart => "payload padding start",
            SumField::PartitionOffset => "partition offset",
            SumField::GotStart => ".got start",
            SumField::RomRamStart => ".rom.ram start",
            SumField::PayloadEnd => "payload end",
        }
    }
}

/// Why an image fails inspection.
#[derive(Debug, Clone, PartialEq, Eq)]
pub enum IntegrityError {
    Word(WordReadError),
    UnsupportedVersion(u32),
    UnsupportedMagic(u32),
    InvalidFae1Footer(fae1::Error),
    UnsupportedAbi(fae1::Error),
    EmptyFile,
    TooSmall,
    NotAligned(usize),
    NotBelowBinarySize { field: SizeField, value: usize },
    StartupCodeSizeZero,
    BinarySizeMismatch(usize),
    Overflow(SumField),
    BinarySizeTooSmall,
    PartitionInsideFooter,
    PayloadPaddingNotZero,
    SectionsOverlapFooter,
    PaddingNotErased,
    RomEmpty,
    EntrypointOutsideRom,
}

/// The word `distance` bytes before the end of the image.
pub open spec fn word_at_end(image: Seq<u8>, distance: int) -> Result<u32, IntegrityError> {
    if image.len() >= distance {
        Ok(le_word(image, image.len() - distance))
    } else {
        Err(IntegrityError::Word(WordReadError { start: (-distance) as isize, size: image.len() as usize }))
    }
}

/// The word at offset `start` of the image.
pub open spec fn word_at(image: Seq<u8>, start: int) -> Result<u32, IntegrityError> {
    if start + 4 <= image.len() {
        Ok(le_word(image, start))
    } else {
        Err(IntegrityError::Word(WordReadError { start: start as isize, size: image.len() as usize }))
    }
}

fn read_word_at_end(image: &[u8], distance: isize) -> (r: Result<u32, IntegrityError>)
    requires
        4 <= distance <= 28,
        image@.len() + 4 <= isize::MAX,
    ensures
        r == word_at_end(image@, distance as int),
{
    match get_word_from_slice(image, -distance) {
        Ok(w) => Ok(w),
        Err(e) => Err(IntegrityError::Word(e)),
    }
}

fn read_word_at(image: &[u8], start: usize) -> (r: Result<u32, IntegrityError>)
    requires
        start < image@.len(),
        image@.len() + 4 <= isize::MAX,
    ensures
        r == word_at(image@, start as int),
{
    match get_word_from_slice(image, start as isize) {
        Ok(w) => Ok(w),
        Err(e) => Err(IntegrityError::Word(e)),
    }
}

/// The footer as `decode_xipfs_footer` reads it: the format, and the numbers.
pub struct FooterFieldsView {
    pub numbers: FooterNumbers,
    pub fae1: Option<(fae1::FooterView, u32, usize)>,
}

/// The legacy footer's numbers, read in turn.
pub open spec fn legacy_footer_numbers(image: Seq<u8>) -> Result<FooterNumbers, IntegrityError> {
    match word_at_end(image, 8) {
        Err(e) => Err(e),
        Ok(startup) => match word_at_end(image, 12) {
            Err(e) => Err(e),
            Ok(entry) => match word_at_end(image, 20) {
                Err(e) => Err(e),
                Ok(rom) => match word_at_end(image, 24) {
                    Err(e) => Err(e),
                    Ok(got) => match word_at_end(image, 16) {
                        Err(e) => Err(e),
                        Ok(rom_ram) => match word_at_end(image, 28) {
                            Err(e) => Err(e),
                            Ok(ram) => Ok(
                                FooterNumbers {
                                    footer_size: constants::FOOTER_BYTESIZE,
                                    startup_code_size: startup as usize,
                                    entrypoint_value: entry as usize,
                                    rom_size: rom as usize,
                                    got_size: got as usize,
                                    rom_ram_size: rom_ram as usize,
                                    ram_size: ram as usize,
                                },
                            ),
                        },
                    },
                },
            },
        },
    }
}

/// The footer of an XiPFS image: legacy (0xFACADE12), or FAE 1.0 with the
/// XiPFS profile; other magic words are refused.
pub open spec fn spec_xipfs_footer(image: Seq<u8>) -> Result<FooterFieldsView, IntegrityError> {
    match word_at_end(image, 4) {
        Err(e) => Err(e),
        Ok(magic) => if magic == constants::MAGIC_NUMBER_AND_VERSION {
            match legacy_footer_numbers(image) {
                Err(e) => Err(e),
                Ok(n) => Ok(FooterFieldsView { numbers: n, fae1: None }),
            }
        } else if magic != fae1::MAGIC_AND_VERSION {
            if constants::MAGIC_NUMBER <= magic <= (constants::MAGIC_NUMBER | 0xFF) {
                Err(IntegrityError::UnsupportedVersion(magic))
            } else {
                Err(IntegrityError::UnsupportedMagic(magic))
            }
        } else {
            match fae1::decode_error(image) {
                Some(e) => Err(IntegrityError::InvalidFae1Footer(e)),
                None => {
                    let f = fae1::decoded_footer(image);
                    match fae1::profile_error(f, crate::fae1::registry::abi::XIPFS, 6) {
                        Some(e) => Err(IntegrityError::UnsupportedAbi(e)),
                        None => {
                            let w = f.abi_extra_words;
                            let size = fae1::decoded_footer_size(image) as usize;
                            Ok(
                                FooterFieldsView {
                                    numbers: FooterNumbers {
                                        footer_size: size,
                                        startup_code_size: w[5] as usize,
                                        entrypoint_value: w[4] as usize,
                                        rom_size: w[2] as usize,
                                        got_size: w[1] as usize,
                                        rom_ram_size: w[3] as usize,
                                        ram_size: w[0] as usize,
                                    },
                                    fae1: Some((f, fae1::word_from_end(image, 20), size)),
                                },
                            )
                        },
                    }
                },
            }
        },
    }
}

/// Whether the fields read back match the footer view.
pub open spec fn fields_match(fields: XipfsFooterFields, view: FooterFieldsView) -> bool {
    &&& fields.numbers == view.numbers
    &&& match (fields.format, view.fae1) {
        (FooterFormat::Facade12, None) => true,
        (FooterFormat::Fae1 { isa, abi, extra_words, crc, footer_size }, Some((f, c, s))) => isa
            == f.isa && abi == f.abi && extra_words@ == f.extra_words && crc == c && footer_size
            == s,
        _ => false,
    }
}

/// Reads the footer of an XiPFS image.
pub fn decode_xipfs_footer(image: &[u8]) -> (r: Result<XipfsFooterFields, IntegrityError>)
    requires
        image@.len() + 4 <= isize::MAX,
    ensures
        match spec_xipfs_footer(image@) {
            Err(e) => r == Err::<XipfsFooterFields, IntegrityError>(e),
            Ok(v) => r matches Ok(fields) && fields_match(fields, v),
        },
{
    let magic = read_word_at_end(image, 4)?;
    if magic == constants::MAGIC_NUMBER_AND_VERSION {
        let startup = read_word_at_end(image, 8)?;
        let entry = read_word_at_end(image, 12)?;
        let rom = read_word_at_end(image, 20)?;
        let got = read_word_at_end(image, 24)?;
        let rom_ram = read_word_at_end(image, 16)?;
        let ram = read_word_at_end(image, 28)?;
        return Ok(
            XipfsFooterFields {
                numbers: FooterNumbers {
                    footer_size: constants::FOOTER_BYTESIZE,
                    startup_code_size: startup as usize,
                    entrypoint_value: entry as usize,
                    rom_size: rom as usize,
                    got_size: got as usize,
                    rom_ram_size: rom_ram as usize,
                    ram_size: ram as usize,
                },
                format: FooterFormat::Facade12,
            },
        );
    }
    if magic != fae1::MAGIC_AND_VERSION {
        if constants::MAGIC_NUMBER <= magic && magic <= (constants::MAGIC_NUMBER | 0xFF) {
            return Err(IntegrityError::UnsupportedVersion(magic));
        }
        return Err(IntegrityError::UnsupportedMagic(magic));
    }
    let decoded = match fae1::decode(image) {
        Ok(d) => d,
        Err(e) => {
            return Err(IntegrityError::InvalidFae1Footer(e));
        },
    };
    let profile = match XipfsProfile::decode(&decoded.footer) {
        Ok(p) => p,
        Err(e) => {
            return Err(IntegrityError::UnsupportedAbi(e));
        },
    };
    let fields = XipfsFooterFields {
        numbers: FooterNumbers {
            footer_size: decoded.footer_size,
            startup_code_size: profile.startup_code_size as usize,
            entrypoint_value: profile.entrypoint_offset as usize,
            rom_size: profile.rom_size as usize,
            got_size: profile.got_size as usize,
            rom_ram_size: profile.rom_ram_size as usize,
            ram_size: profile.ram_size as usize,
        },
        format: FooterFormat::Fae1 {
            isa: decoded.footer.isa,
            abi: decoded.footer.abi,
            extra_words: decoded.footer.extra_words,
            crc: decoded.stored_crc,
            footer_size: decoded.footer_size,
        },
    };
    Ok(fields)
}

// ---------------------------------------------------------------------------
// Integrity check
// ---------------------------------------------------------------------------
/// Where the parts of an image lie, as the integrity check reads them.
#[derive(Debug, Clone, Copy, PartialEq, Eq)]
pub struct LayoutSizes {
    pub binary_size: usize,
    pub startup_code_size: usize,
    pub relocation_entries_start: usize,
    pub relocation_entries_count: usize,
    pub relocation_entries_size: usize,
    pub payload_padding_size: usize,
    pub partition_offset: usize,
    pub entrypoint_value: usize,
    pub entrypoint_offset: usize,
    pub entrypoint_mode: ArmCodeMode,
    pub rom_size: usize,
    pub got_size: usize,
    pub rom_ram_size: usize,
    pub ram_size: usize,
    pub rom_start: usize,
    pub got_start: usize,
    pub rom_ram_start: usize,
}

/// An image that passes the integrity check: its footer format and layout.
#[derive(Debug, Clone)]
pub struct IntegrityLayout {
    pub format: FooterFormat,
    pub sizes: LayoutSizes,
}

/// The header of an image: where its relocation table, payload padding and
/// partition lie.
#[derive(Debug, Clone, Copy, PartialEq, Eq)]
pub struct HeaderLayout {
    pub relocation_entries_start: usize,
    pub relocation_entries_count: usize,
    pub relocation_entries_size: usize,
    pub payload_padding_start: usize,
    pub payload_padding_size: usize,
    pub partition_offset: usize,
    pub footer_start: usize,
}

/// Some byte of `image[start..end]` differs from `value`.
pub open spec fn any_byte_differs(image: Seq<u8>, start: int, end: int, value: u8) -> bool {
    exists|i: int| start <= i < end && image[i] != value
}

fn check_bytes(image: &[u8], start: usize, end: usize, value: u8) -> (r: bool)
    requires
        start <= end <= image@.len(),
    ensures
        r == !any_byte_differs(image@, start as int, end as int, value),
{
    let mut i = start;
    while i < end
        invariant
            start <= i <= end <= image@.len(),
            forall|j: int| start <= j < i ==> image@[j] == value,
        decreases end - i,
    {
        if image[i] != value {
            return false;
        }
        i = i + 1;
    }
    true
}

/// The header layout of an image whose startup code is `sc` bytes and whose
/// footer is `footer_size` bytes, or why it is refused.
pub open spec fn spec_header_layout(image: Seq<u8>, sc: usize, footer_size: usize) -> Result<
    HeaderLayout,
    IntegrityError,
> {
    let n = image.len();
    let res = sc + constants::BINARY_SIZE_BYTESIZE;
    if res > usize::MAX {
        Err(IntegrityError::Overflow(SumField::RelocationCountOffset))
    } else if res >= n {
        Err(IntegrityError::NotBelowBinarySize { field: SizeField::RelocationCountOffset, value: res as usize })
    } else {
        match word_at(image, res) {
            Err(e) => Err(e),
            Ok(count) => {
                let entries = count * 4;
                let table = constants::RELOCATION_ENTRIES_COUNT_BYTESIZE + entries;
                let ppo = res + table;
                if entries > usize::MAX {
                    Err(IntegrityError::Overflow(SumField::RelocationEntriesSize))
                } else if table > usize::MAX {
                    Err(IntegrityError::Overflow(SumField::RelocationTableSize))
                } else if ppo > usize::MAX {
                    Err(IntegrityError::Overflow(SumField::PayloadPaddingOffset))
                } else if ppo >= n {
                    Err(
                        IntegrityError::NotBelowBinarySize {
                            field: SizeField::PayloadPaddingOffset,
                            value: ppo as usize,
                        },
                    )
                } else {
                    match word_at(image, ppo) {
                        Err(e) => Err(e),
                        Ok(padding) => {
                            let pstart = ppo + constants::PAYLOAD_PADDING_BYTESIZE;
                            let po = pstart + padding;
                            if pstart > usize::MAX {
                                Err(IntegrityError::Overflow(SumField::PayloadPaddingStart))
                            } else if po > usize::MAX {
                                Err(IntegrityError::Overflow(SumField::PartitionOffset))
                            } else if n < footer_size {
                                Err(IntegrityError::BinarySizeTooSmall)
                            } else if po > n - footer_size {
                                Err(IntegrityError::PartitionInsideFooter)
                            } else if any_byte_differs(image, pstart, po, constants::TEXT_ALIGNMENT_PADDING_VALUE) {
                                Err(IntegrityError::PayloadPaddingNotZero)
                            } else {
                                Ok(
                                    HeaderLayout {
                                        relocation_entries_start: res as usize,
                                        relocation_entries_count: count as usize,
                                        relocation_entries_size: entries as usize,
                                        payload_padding_start: pstart as usize,
                                        payload_padding_size: padding as usize,
                                        partition_offset: po as usize,
                                        footer_start: (n - footer_size) as usize,
                                    },
                                )
                            }
                        },
                    }
                }
            },
        }
    }
}

fn checked_sum(a: usize, b: usize, field: SumField) -> (r: Result<usize, IntegrityError>)
    ensures
        a + b > usize::MAX ==> r == Err::<usize, IntegrityError>(IntegrityError::Overflow(field)),
        a + b <= usize::MAX ==> r == Ok::<usize, IntegrityError>((a + b) as usize),
{
    match a.checked_add(b) {
        Some(v) => Ok(v),
        None => Err(IntegrityError::Overflow(field)),
    }
}

fn header_layout(image: &[u8], sc: usize, footer_size: usize) -> (r: Result<HeaderLayout, IntegrityError>)
    requires
        sc < image@.len(),
        image@.len() + 4 <= isize::MAX,
    ensures
        r == spec_header_layout(image@, sc, footer_size),
{
    let n = image.len();
    let res = checked_sum(sc, constants::BINARY_SIZE_BYTESIZE, SumField::RelocationCountOffset)?;
    if res >= n {
        return Err(
            IntegrityError::NotBelowBinarySize { field: SizeField::RelocationCountOffset, value: res },
        );
    }
    let count = read_word_at(image, res)? as usize;
    let entries = match count.checked_mul(4) {
        Some(v) => v,
        None => {
            return Err(IntegrityError::Overflow(SumField::RelocationEntriesSize));
        },
    };
    let table = checked_sum(
        constants::RELOCATION_ENTRIES_COUNT_BYTESIZE,
        entries,
        SumField::RelocationTableSize,
    )?;
    let ppo = checked_sum(res, table, SumField::PayloadPaddingOffset)?;
    if ppo >= n {
        return Err(
            IntegrityError::NotBelowBinarySize { field: SizeField::PayloadPaddingOffset, value: ppo },
        );
    }
    let padding = read_word_at(image, ppo)? as usize;
    let pstart = checked_sum(ppo, constants::PAYLOAD_PADDING_BYTESIZE, SumField::PayloadPaddingStart)?;
    let po = checked_sum(pstart, padding, SumField::PartitionOffset)?;
    if n < footer_size {
        return Err(IntegrityError::BinarySizeTooSmall);
    }
    let footer_start = n - footer_size;
    if po > footer_start {
        return Err(IntegrityError::PartitionInsideFooter);
    }
    if !check_bytes(image, pstart, po, constants::TEXT_ALIGNMENT_PADDING_VALUE) {
        return Err(IntegrityError::PayloadPaddingNotZero);
    }
    Ok(
        HeaderLayout {
            relocation_entries_start: res,
            relocation_entries_count: count,
            relocation_entries_size: entries,
            payload_padding_start: pstart,
            payload_padding_size: padding,
            partition_offset: po,
            footer_start,
        },
    )
}

/// The section layout after the header, or why it is refused: the entry
/// point, `.rom`, `.got` and `.rom.ram` inside the image, the erased padding
/// up to the footer, and the entry point inside a nonempty `.rom` (unless
/// the image holds startup code alone).
pub open spec fn spec_section_layout(image: Seq<u8>, sc: usize, f: FooterNumbers, h: HeaderLayout) -> Result<
    LayoutSizes,
    IntegrityError,
> {
    let n = image.len();
    let ev = f.entrypoint_value;
    let eo = ev & !1usize;
    let got_start = h.partition_offset + f.rom_size;
    let rom_ram_start = got_start + f.got_size;
    let payload_end = rom_ram_start + f.rom_ram_size;
    let startup_only = f.rom_size == 0 && f.got_size == 0 && f.rom_ram_size == 0 && ev == 0;
    if eo >= n {
        Err(IntegrityError::NotBelowBinarySize { field: SizeField::EntrypointOffset, value: eo })
    } else if f.rom_size >= n {
        Err(IntegrityError::NotBelowBinarySize { field: SizeField::RomSize, value: f.rom_size })
    } else if f.got_size >= n {
        Err(IntegrityError::NotBelowBinarySize { field: SizeField::GotSize, value: f.got_size })
    } else if f.rom_ram_size >= n {
        Err(IntegrityError::NotBelowBinarySize { field: SizeField::RomRamSize, value: f.rom_ram_size })
    } else if got_start > usize::MAX {
        Err(IntegrityError::Overflow(SumField::GotStart))
    } else if rom_ram_start > usize::MAX {
        Err(IntegrityError::Overflow(SumField::RomRamStart))
    } else if payload_end > usize::MAX {
        Err(IntegrityError::Overflow(SumField::PayloadEnd))
    } else if payload_end > h.footer_start {
        Err(IntegrityError::SectionsOverlapFooter)
    } else if any_byte_differs(image, payload_end, h.footer_start as int, constants::PADDING_VALUE) {
        Err(IntegrityError::PaddingNotErased)
    } else if !startup_only && f.rom_size == 0 {
        Err(IntegrityError::RomEmpty)
    } else if !startup_only && eo >= f.rom_size {
        Err(IntegrityError::EntrypointOutsideRom)
    } else {
        Ok(
            LayoutSizes {
                binary_size: n as usize,
                startup_code_size: sc,
                relocation_entries_start: h.relocation_entries_start,
                relocation_entries_count: h.relocation_entries_count,
                relocation_entries_size: h.relocation_entries_size,
                payload_padding_size: h.payload_padding_size,
                partition_offset: h.partition_offset,
                entrypoint_value: ev,
                entrypoint_offset: eo,
                entrypoint_mode: if (ev as u32) & 1 != 0 {
                    ArmCodeMode::Thumb
                } else {
                    ArmCodeMode::Arm
                },
                rom_size: f.rom_size,
                got_size: f.got_size,
                rom_ram_size: f.rom_ram_size,
                ram_size: f.ram_size,
                rom_start: h.partition_offset,
                got_start: got_start as usize,
                rom_ram_start: rom_ram_start as usize,
            },
        )
    }
}

fn section_layout(image: &[u8], sc: usize, f: FooterNumbers, h: HeaderLayout) -> (r: Result<
    LayoutSizes,
    IntegrityError,
>)
    requires
        h.footer_start <= image@.len(),
    ensures
        r == spec_section_layout(image@, sc, f, h),
{
    let n = image.len();
    let entrypoint_value = f.entrypoint_value;
    let entrypoint_mode = ArmCodeMode::from_symbol_value(entrypoint_value as u32);
    let entrypoint_offset = entrypoint_value & !1usize;
    if entrypoint_offset >= n {
        return Err(
            IntegrityError::NotBelowBinarySize {
                field: SizeField::EntrypointOffset,
                value: entrypoint_offset,
            },
        );
    }
    if f.rom_size >= n {
        return Err(IntegrityError::NotBelowBinarySize { field: SizeField::RomSize, value: f.rom_size });
    }
    if f.got_size >= n {
        return Err(IntegrityError::NotBelowBinarySize { field: SizeField::GotSize, value: f.got_size });
    }
    if f.rom_ram_size >= n {
        return Err(
            IntegrityError::NotBelowBinarySize { field: SizeField::RomRamSize, value: f.rom_ram_size },
        );
    }
    let got_start = checked_sum(h.partition_offset, f.rom_size, SumField::GotStart)?;
    let rom_ram_start = checked_sum(got_start, f.got_size, SumField::RomRamStart)?;
    let payload_end = checked_sum(rom_ram_start, f.rom_ram_size, SumField::PayloadEnd)?;
    if payload_end > h.footer_start {
        return Err(IntegrityError::SectionsOverlapFooter);
    }
    if !check_bytes(image, payload_end, h.footer_start, constants::PADDING_VALUE) {
        return Err(IntegrityError::PaddingNotErased);
    }
    let startup_only = f.rom_size == 0 && f.got_size == 0 && f.rom_ram_size == 0
        && entrypoint_value == 0;
    if !startup_only && f.rom_size == 0 {
        return Err(IntegrityError::RomEmpty);
    }
    if !startup_only && entrypoint_offset >= f.rom_size {
        return Err(IntegrityError::EntrypointOutsideRom);
    }
    Ok(
        LayoutSizes {
            binary_size: n,
            startup_code_size: sc,
            relocation_entries_start: h.relocation_entries_start,
            relocation_entries_count: h.relocation_entries_count,
            relocation_entries_size: h.relocation_entries_size,
            payload_padding_size: h.payload_padding_size,
            partition_offset: h.partition_offset,
            entrypoint_value,
            entrypoint_offset,
            entrypoint_mode,
            rom_size: f.rom_size,
            got_size: f.got_size,
            rom_ram_size: f.rom_ram_size,
            ram_size: f.ram_size,
            rom_start: h.partition_offset,
            got_start,
            rom_ram_start,
        },
    )
}

/// The layout of an image, or why it is refused: the file must be larger
/// than the minimal image and a multiple of the MPU alignment, carry a
/// footer it can read, start with nonempty startup code followed by its own
/// length, and lay out its header and sections inside itself.
pub open spec fn spec_integrity(image: Seq<u8>) -> Result<(FooterFieldsView, LayoutSizes), IntegrityError> {
    let n = image.len();
    if n == 0 {
        Err(IntegrityError::EmptyFile)
    } else if n <= constants::MINIMAL_BYTESIZE {
        Err(IntegrityError::TooSmall)
    } else if n % (constants::PADDING_MPU_ALIGNMENT as nat) != 0 {
        Err(IntegrityError::NotAligned(n as usize))
    } else {
        match spec_xipfs_footer(image) {
            Err(e) => Err(e),
            Ok(v) => {
                let sc = v.numbers.startup_code_size;
                if sc >= n {
                    Err(IntegrityError::NotBelowBinarySize { field: SizeField::StartupCodeSize, value: sc })
                } else if sc == 0 {
                    Err(IntegrityError::StartupCodeSizeZero)
                } else {
                    match word_at(image, sc as int) {
                        Err(e) => Err(e),
                        Ok(size) => if size as usize != n {
                            Err(IntegrityError::BinarySizeMismatch(size as usize))
                        } else {
                            match spec_header_layout(image, sc, v.numbers.footer_size) {
                                Err(e) => Err(e),
                                Ok(h) => match spec_section_layout(image, sc, v.numbers, h) {
                                    Err(e) => Err(e),
                                    Ok(l) => Ok((v, l)),
                                },
                            }
                        },
                    }
                }
            },
        }
    }
}

/// Checks that `fae_bytearray` is a well-formed XiPFS image and reads its layout.
pub fn integrity_check(fae_bytearray: &[u8]) -> (r: Result<IntegrityLayout, IntegrityError>)
    requires
        fae_bytearray@.len() + 4 <= isize::MAX,
    ensures
        match spec_integrity(fae_bytearray@) {
            Err(e) => r == Err::<IntegrityLayout, IntegrityError>(e),
            Ok((v, l)) => r matches Ok(layout) && layout.sizes == l && fields_match(
                XipfsFooterFields { numbers: v.numbers, format: layout.format },
                v,
            ),
        },
{
    let binary_size = fae_bytearray.len();
    if binary_size == 0 {
        return Err(IntegrityError::EmptyFile);
    }
    if binary_size <= constants::MINIMAL_BYTESIZE {
        return Err(IntegrityError::TooSmall);
    }
    if binary_size % constants::PADDING_MPU_ALIGNMENT != 0 {
        return Err(IntegrityError::NotAligned(binary_size));
    }
    let footer = decode_xipfs_footer(fae_bytearray)?;
    let sc = footer.numbers.startup_code_size;
    if sc >= binary_size {
        return Err(IntegrityError::NotBelowBinarySize { field: SizeField::StartupCodeSize, value: sc });
    }
    if sc == 0 {
        return Err(IntegrityError::StartupCodeSizeZero);
    }
    let size_from_file = read_word_at(fae_bytearray, sc)? as usize;
    if size_from_file != binary_size {
        return Err(IntegrityError::BinarySizeMismatch(size_from_file));
    }
    let header = header_layout(fae_bytearray, sc, footer.numbers.footer_size)?;
    let sizes = section_layout(fae_bytearray, sc, footer.numbers, header)?;
    Ok(IntegrityLayout { format: footer.format, sizes })
}

/// The reader gives back what the image builder put in a legacy footer:
/// for any bytes followed by the footer written for `symbols` and a startup
/// code of `startup_len` bytes, the footer is read as a legacy one whose
/// numbers are the symbols' sizes and entry point and that length.
pub proof fn lemma_legacy_footer_read_back(prefix: Seq<u8>, symbols: crate::fae_format::ExportedSymbols, startup_len: nat)
    requires
        startup_len <= u32::MAX,
    ensures
        spec_xipfs_footer(prefix + crate::fae_format::legacy_footer(symbols, startup_len)) == Ok::<
            FooterFieldsView,
            IntegrityError,
        >(
            FooterFieldsView {
                numbers: FooterNumbers {
                    footer_size: 28,
                    startup_code_size: startup_len as usize,
                    entrypoint_value: symbols.start as usize,
                    rom_size: symbols.rom_size as usize,
                    got_size: symbols.got_size as usize,
                    rom_ram_size: symbols.rom_ram_size as usize,
                    ram_size: symbols.ram_size as usize,
                },
                fae1: None,
            },
        ),
{
    let ws = seq![
        symbols.ram_size,
        symbols.got_size,
        symbols.rom_size,
        symbols.rom_ram_size,
        symbols.start,
        startup_len as u32,
        constants::MAGIC_NUMBER_AND_VERSION,
    ];
    let footer = crate::fae_format::legacy_footer(symbols, startup_len);
    let image = prefix + footer;
    crate::common::lemma_le_words_len(ws);
    assert(footer =~= crate::common::le_words(ws)) by {
        crate::common::lemma_le_words_push(ws.take(0), ws[0]);
        crate::common::lemma_le_words_push(ws.take(1), ws[1]);
        crate::common::lemma_le_words_push(ws.take(2), ws[2]);
        crate::common::lemma_le_words_push(ws.take(3), ws[3]);
        crate::common::lemma_le_words_push(ws.take(4), ws[4]);
        crate::common::lemma_le_words_push(ws.take(5), ws[5]);
        crate::common::lemma_le_words_push(ws.take(6), ws[6]);
        assert(ws.take(0) =~= Seq::<u32>::empty());
        assert(ws.take(0).push(ws[0]) =~= ws.take(1));
        assert(ws.take(1).push(ws[1]) =~= ws.take(2));
        assert(ws.take(2).push(ws[2]) =~= ws.take(3));
        assert(ws.take(3).push(ws[3]) =~= ws.take(4));
        assert(ws.take(4).push(ws[4]) =~= ws.take(5));
        assert(ws.take(5).push(ws[5]) =~= ws.take(6));
        assert(ws.take(6).push(ws[6]) =~= ws);
    }
    assert(image.len() == prefix.len() + 28);
    assert forall|j: int| 0 <= j < 7 implies le_word(image, prefix.len() + 4 * j) == #[trigger] ws[j] by {
        crate::common::lemma_le_word_in_middle(prefix, ws, Seq::empty(), j);
        assert(prefix + crate::common::le_words(ws) + Seq::<u8>::empty() =~= image);
    }
    assert(le_word(image, image.len() - 28) == ws[0]);
    assert(le_word(image, image.len() - 24) == ws[1]);
    assert(le_word(image, image.len() - 20) == ws[2]);
    assert(le_word(image, image.len() - 16) == ws[3]);
    assert(le_word(image, image.len() - 12) == ws[4]);
    assert(le_word(image, image.len() - 8) == ws[5]);
    assert(le_word(image, image.len() - 4) == ws[6]);
}

/// The reader gives back what the image builder put in a FAE 1.0 footer
/// for the XiPFS ABI: the numbers read are the symbols' sizes and entry
/// point and the startup code's length.
pub proof fn lemma_xipfs_fae1_footer_read_back(
    startup: Seq<u8>,
    symbols: crate::fae_format::ExportedSymbols,
    relocations: Seq<u8>,
    align_payload: usize,
    align_size: usize,
    partition: Seq<u8>,
    isa: crate::fae_format::DescriptorWords,
)
    requires
        crate::fae_format::fae1_fits(
            symbols,
            startup.len(),
            relocations.len(),
            partition.len(),
            align_payload,
            align_size,
            isa,
            crate::fae_format::Fae1Abi::Xipfs,
        ),
        crate::fae_format::spec_fae1_image(
            startup,
            symbols,
            relocations,
            align_payload,
            align_size,
            partition,
            isa,
            crate::fae_format::Fae1Abi::Xipfs,
        ) is Ok,
    ensures
        ({
            let img = crate::fae_format::spec_fae1_image(
                startup,
                symbols,
                relocations,
                align_payload,
                align_size,
                partition,
                isa,
                crate::fae_format::Fae1Abi::Xipfs,
            )->Ok_0;
            spec_xipfs_footer(img) matches Ok(v) && v.fae1 is Some && {
                let n = v.numbers;
                &&& n.startup_code_size == startup.len()
                &&& n.entrypoint_value == symbols.start
                &&& n.rom_size == symbols.rom_size
                &&& n.got_size == symbols.got_size
                &&& n.rom_ram_size == symbols.rom_ram_size
                &&& n.ram_size == symbols.ram_size
            }
        }),
{
    crate::fae_format::lemma_xipfs_image_profile(
        startup,
        symbols,
        relocations,
        align_payload,
        align_size,
        partition,
        isa,
    );
    let img = crate::fae_format::spec_fae1_image(
        startup,
        symbols,
        relocations,
        align_payload,
        align_size,
        partition,
        isa,
        crate::fae_format::Fae1Abi::Xipfs,
    )->Ok_0;
    assert(fae1::word_from_end(img, 4) == fae1::MAGIC_AND_VERSION);
}

} // verus!

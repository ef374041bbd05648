//! Layout of a FAE image: startup code, binary size, relocation table,
//! payload padding, partition, trailing padding and footer.

use vstd::array::*;
use vstd::prelude::*;

use crate::common::{
    append_fill, append_slice, fill, is_power_of_two, le_bytes, le_word, le_words,
    lemma_le_bytes_len, push_word, round_up_pow2, spec_round_up_pow2,
};
use crate::constants;
use crate::fae1::{
    self, registry, AbiDescriptor, AbiVersion, Error, Footer, FooterView, IsaDescriptor,
    OxideSeProfile, RustletProfileKind, XipfsProfile,
};

verus! {

#[derive(Debug, Clone, Copy)]
pub struct ExportedSymbols {
    pub start: u32,
    pub rom_ram_size: u32,
    pub rom_size: u32,
    pub got_size: u32,
    pub ram_size: u32,
}

#[derive(Debug, Clone, Copy, PartialEq, Eq)]
pub enum OutputFormat {
    Facade12,
    Fae1 { isa: DescriptorWords, abi: Fae1Abi },
}

/// A descriptor word with up to fifteen extra words.
#[derive(Debug, Clone, Copy, PartialEq, Eq)]
pub struct DescriptorWords {
    descriptor: u32,
    words: [u32; 15],
    count: u8,
}

impl DescriptorWords {
    #[verifier::type_invariant]
    spec fn inv(self) -> bool {
        self.count <= 15
    }

    pub closed spec fn spec_descriptor(self) -> u32 {
        self.descriptor
    }

    /// The extra words, in order.
    pub closed spec fn spec_words(self) -> Seq<u32> {
        self.words@.take(self.count as int)
    }

    /// A descriptor with the words it declares in its low nibble.
    pub fn new(descriptor: u32, words: &[u32]) -> (r: Result<Self, Error>)
        ensures
            (descriptor & 0x0F) != words@.len() ==> r == Err::<Self, Error>(
                Error::WrongExtraWordCount {
                    expected: (descriptor & 0x0F) as usize,
                    actual: words@.len() as usize,
                },
            ),
            (descriptor & 0x0F) == words@.len() ==> r is Ok && r->Ok_0.spec_descriptor()
                == descriptor && r->Ok_0.spec_words() == words@,
    {
        let expected = (descriptor & 0x0F) as usize;
        if expected != words.len() {
            return Err(Error::WrongExtraWordCount { expected, actual: words.len() });
        }
        proof {
            assert(descriptor & 0x0F <= 15) by (bit_vector);
        }
        if words.len() > fae1::MAX_EXTRA_WORDS {
            return Err(Error::TooManyExtraWords { kind: "descriptor", count: words.len() });
        }
        let mut stored = [0u32; 15];
        let mut i: usize = 0;
        while i < words.len()
            invariant
                words@.len() <= 15,
                i <= words@.len(),
                stored@.len() == 15,
                forall|j: int| 0 <= j < i ==> stored@[j] == words@[j],
            decreases words@.len() - i,
        {
            stored.set(i, words[i]);
            i = i + 1;
        }
        let r = Self { descriptor, words: stored, count: words.len() as u8 };
        assert(r.spec_words() =~= words@);
        Ok(r)
    }

    /// The ARM ISA descriptor for an execution mode, with no extra words.
    pub fn arm(subgroup: u8) -> (r: Self)
        ensures
            r.spec_descriptor() == (IsaDescriptor {
                family: registry::isa::ARM,
                subgroup,
                inline_bits: 0,
                extra_word_count: 0,
            }).spec_encode(),
            r.spec_words() == Seq::<u32>::empty(),
    {
        let r = Self {
            descriptor: IsaDescriptor {
                family: registry::isa::ARM,
                subgroup,
                inline_bits: 0,
                extra_word_count: 0,
            }.encode(),
            words: [0u32; 15],
            count: 0,
        };
        assert(r.spec_words() =~= Seq::<u32>::empty());
        r
    }

    pub fn descriptor(self) -> (r: u32)
        ensures
            r == self.spec_descriptor(),
    {
        self.descriptor
    }

    fn to_vec(self) -> (r: Vec<u32>)
        ensures
            r@ == self.spec_words(),
    {
        proof {
            use_type_invariant(self);
        }
        let mut v: Vec<u32> = Vec::new();
        let mut i: usize = 0;
        while i < self.count as usize
            invariant
                self.count <= 15,
                self.words@.len() == 15,
                i <= self.count,
                v@ == self.words@.take(i as int),
            decreases self.count - i,
        {
            v.push(self.words[i]);
            i = i + 1;
            assert(v@ =~= self.words@.take(i as int));
        }
        v
    }
}

#[derive(Debug, Clone, Copy, PartialEq, Eq)]
pub enum Fae1Abi {
    Xipfs,
    Rustlet { kind: RustletProfileKind, minimum_version: AbiVersion, stack_size: u32 },
    Explicit(DescriptorWords),
}

impl Fae1Abi {
    pub open spec fn spec_uses_rustlet_layout(self) -> bool {
        match self {
            Fae1Abi::Rustlet { .. } => true,
            Fae1Abi::Explicit(words) => AbiDescriptor::spec_decode(words.spec_descriptor()).family
                == registry::abi::OXIDE_SE,
            Fae1Abi::Xipfs => false,
        }
    }

    /// Whether the image carries the private RT0 metadata of the Rustlet layout.
    pub fn uses_rustlet_layout(self) -> (r: bool)
        ensures
            r == self.spec_uses_rustlet_layout(),
    {
        match self {
            Self::Rustlet { .. } => true,
            Self::Explicit(words) => AbiDescriptor::decode(words.descriptor()).family
                == registry::abi::OXIDE_SE,
            Self::Xipfs => false,
        }
    }
}

impl OutputFormat {
    pub open spec fn spec_private_metadata_size(self) -> usize {
        match self {
            OutputFormat::Fae1 { abi, .. } => if abi.spec_uses_rustlet_layout() {
                20
            } else {
                0
            },
            _ => 0,
        }
    }

    fn private_metadata_size(self) -> (r: usize)
        ensures
            r == self.spec_private_metadata_size(),
    {
        match self {
            Self::Fae1 { abi, .. } => if abi.uses_rustlet_layout() {
                20
            } else {
                0
            },
            _ => 0,
        }
    }
}

// ---------------------------------------------------------------------------
// Header arithmetic
// ---------------------------------------------------------------------------
pub open spec fn spec_header_size(startup_len: int, relocation_len: int) -> int {
    startup_len + constants::BINARY_SIZE_BYTESIZE + relocation_len
}

/// Startup code, binary size word and relocation table.
pub fn compute_header_size(startup_code: &[u8], relocation_bytearray: &[u8]) -> (r: usize)
    requires
        spec_header_size(startup_code@.len() as int, relocation_bytearray@.len() as int)
            <= usize::MAX,
    ensures
        r == spec_header_size(startup_code@.len() as int, relocation_bytearray@.len() as int),
{
    startup_code.len() + constants::BINARY_SIZE_BYTESIZE + relocation_bytearray.len()
}

/// Zero bytes that bring the partition offset to a multiple of `align_payload`.
pub open spec fn spec_payload_alignment(header_size: int, align_payload: usize) -> int {
    if align_payload <= 1 {
        0
    } else {
        let u = header_size + constants::PAYLOAD_PADDING_BYTESIZE;
        spec_round_up_pow2(u as usize, align_payload) - u
    }
}

/// The payload alignment can be computed without overflow.
pub open spec fn payload_alignment_fits(header_size: int, align_payload: usize) -> bool {
    align_payload > 1 ==> header_size + constants::PAYLOAD_PADDING_BYTESIZE + align_payload
        <= usize::MAX + 1
}

pub fn compute_payload_alignment(
    startup_code: &[u8],
    relocation_bytearray: &[u8],
    align_payload: usize,
) -> (r: usize)
    requires
        payload_alignment_fits(
            spec_header_size(startup_code@.len() as int, relocation_bytearray@.len() as int),
            align_payload,
        ),
    ensures
        r == spec_payload_alignment(
            spec_header_size(startup_code@.len() as int, relocation_bytearray@.len() as int),
            align_payload,
        ),
        align_payload > 1 ==> r < align_payload,
        is_power_of_two(align_payload) ==> (spec_header_size(
            startup_code@.len() as int,
            relocation_bytearray@.len() as int,
        ) + constants::PAYLOAD_PADDING_BYTESIZE + r) % (align_payload as int) == 0,
{
    if align_payload <= 1 {
        return 0;
    }
    let unaligned_partition_offset = compute_header_size(startup_code, relocation_bytearray)
        + constants::PAYLOAD_PADDING_BYTESIZE;
    round_up_pow2(unaligned_partition_offset, align_payload) - unaligned_partition_offset
}

/// The same as `compute_payload_alignment`.
pub fn compute_text_alignment(
    startup_code: &[u8],
    relocation_bytearray: &[u8],
    align_payload: usize,
) -> (r: usize)
    requires
        payload_alignment_fits(
            spec_header_size(startup_code@.len() as int, relocation_bytearray@.len() as int),
            align_payload,
        ),
    ensures
        r == spec_payload_alignment(
            spec_header_size(startup_code@.len() as int, relocation_bytearray@.len() as int),
            align_payload,
        ),
{
    compute_payload_alignment(startup_code, relocation_bytearray, align_payload)
}

/// Offset of the partition in a legacy image.
pub open spec fn spec_aligned_header_size(header_size: int, align_payload: usize) -> int {
    header_size + constants::PAYLOAD_PADDING_BYTESIZE + spec_payload_alignment(
        header_size,
        align_payload,
    )
}

pub fn compute_aligned_header_size(
    startup_code: &[u8],
    relocation_bytearray: &[u8],
    align_payload: usize,
) -> (r: usize)
    requires
        spec_header_size(startup_code@.len() as int, relocation_bytearray@.len() as int)
            + constants::PAYLOAD_PADDING_BYTESIZE <= usize::MAX,
        payload_alignment_fits(
            spec_header_size(startup_code@.len() as int, relocation_bytearray@.len() as int),
            align_payload,
        ),
    ensures
        r == spec_aligned_header_size(
            spec_header_size(startup_code@.len() as int, relocation_bytearray@.len() as int),
            align_payload,
        ),
        is_power_of_two(align_payload) ==> r % align_payload == 0,
{
    let h = compute_header_size(startup_code, relocation_bytearray);
    let a = compute_payload_alignment(startup_code, relocation_bytearray, align_payload);
    assert(align_payload <= 1 ==> a == 0);
    h + constants::PAYLOAD_PADDING_BYTESIZE + a
}

/// Offset of the partition for an output format.
pub open spec fn spec_aligned_header_size_for_format(
    header_size: int,
    align_payload: usize,
    format: OutputFormat,
) -> int {
    let base = header_size + format.spec_private_metadata_size()
        + constants::PAYLOAD_PADDING_BYTESIZE;
    if align_payload <= 1 {
        base
    } else {
        spec_round_up_pow2(base as usize, align_payload) as int
    }
}

pub fn compute_aligned_header_size_for_format(
    startup_code: &[u8],
    relocation_bytearray: &[u8],
    align_payload: usize,
    format: OutputFormat,
) -> (r: usize)
    requires
        spec_header_size(startup_code@.len() as int, relocation_bytearray@.len() as int)
            + format.spec_private_metadata_size() + constants::PAYLOAD_PADDING_BYTESIZE
            <= usize::MAX,
        align_payload > 1 ==> spec_header_size(
            startup_code@.len() as int,
            relocation_bytearray@.len() as int,
        ) + format.spec_private_metadata_size() + constants::PAYLOAD_PADDING_BYTESIZE
            + align_payload <= usize::MAX + 1,
    ensures
        r == spec_aligned_header_size_for_format(
            spec_header_size(startup_code@.len() as int, relocation_bytearray@.len() as int),
            align_payload,
            format,
        ),
{
    let base = compute_header_size(startup_code, relocation_bytearray)
        + format.private_metadata_size() + constants::PAYLOAD_PADDING_BYTESIZE;
    if align_payload <= 1 {
        base
    } else {
        round_up_pow2(base, align_payload)
    }
}

/// `size` rounded up to a multiple of four; a size within three bytes of 2^32
/// wraps around to zero.
pub open spec fn spec_pad_section_size(size: u32) -> u32 {
    ((size + 3) / 4 * 4) as u32
}

pub fn pad_section_size(size: u32) -> (r: u32)
    requires
        size + 3 <= usize::MAX,
    ensures
        r == spec_pad_section_size(size),
{
    let v = round_up_pow2(size as usize, constants::SECTION_ALIGNMENT);
    proof {
        assert(is_power_of_two(4)) by (bit_vector);
        assert(v == (size + 3) / 4 * 4);
    }
    v as u32
}

pub open spec fn spec_padded_exported_symbols(symbols: ExportedSymbols) -> ExportedSymbols {
    ExportedSymbols {
        start: symbols.start,
        rom_ram_size: spec_pad_section_size(symbols.rom_ram_size),
        rom_size: spec_pad_section_size(symbols.rom_size),
        got_size: spec_pad_section_size(symbols.got_size),
        ram_size: spec_pad_section_size(symbols.ram_size),
    }
}

/// The symbols with every section size padded to a multiple of four.
pub fn padded_exported_symbols(symbols: ExportedSymbols) -> (r: ExportedSymbols)
    requires
        u32::MAX + 3 <= usize::MAX,
    ensures
        r == spec_padded_exported_symbols(symbols),
{
    ExportedSymbols {
        start: symbols.start,
        rom_ram_size: pad_section_size(symbols.rom_ram_size),
        rom_size: pad_section_size(symbols.rom_size),
        got_size: pad_section_size(symbols.got_size),
        ram_size: pad_section_size(symbols.ram_size),
    }
}

/// Where an offset of the raw layout (.rom, .got, .rom.ram, .ram laid end to
/// end) lands in the padded layout, if it lies in one of the sections and the
/// new offset fits in 32 bits.
pub open spec fn spec_remap_offset(offset: u32, raw: ExportedSymbols, padded: ExportedSymbols) -> Option<
    u32,
> {
    let got_start = raw.rom_size as int;
    let rom_ram_start = got_start + raw.got_size;
    let ram_start = rom_ram_start + raw.rom_ram_size;
    let ram_end = ram_start + raw.ram_size;
    let mapped = |base: int, local: int|
        if base + local <= u32::MAX {
            Some((base + local) as u32)
        } else {
            None
        };
    if offset < got_start {
        Some(offset)
    } else if rom_ram_start > u32::MAX {
        None
    } else if offset < rom_ram_start {
        mapped(padded.rom_size as int, offset - got_start)
    } else if ram_start > u32::MAX {
        None
    } else if offset < ram_start {
        mapped(padded.rom_size + padded.got_size, offset - rom_ram_start)
    } else if ram_end > u32::MAX {
        None
    } else if offset < ram_end {
        mapped(padded.rom_size + padded.got_size + padded.rom_ram_size, offset - ram_start)
    } else {
        None
    }
}

pub fn remap_offset_to_padded_layout(offset: u32, raw: ExportedSymbols, padded: ExportedSymbols) -> (r:
    Option<u32>)
    ensures
        r == spec_remap_offset(offset, raw, padded),
{
    if offset < raw.rom_size {
        return Some(offset);
    }
    let got_start = raw.rom_size;
    let got_end = match got_start.checked_add(raw.got_size) {
        Some(v) => v,
        None => {
            return None;
        },
    };
    if offset < got_end {
        return padded.rom_size.checked_add(offset - got_start);
    }
    let rom_ram_start = got_end;
    let rom_ram_end = match rom_ram_start.checked_add(raw.rom_ram_size) {
        Some(v) => v,
        None => {
            return None;
        },
    };
    if offset < rom_ram_end {
        return match padded.rom_size.checked_add(padded.got_size) {
            Some(v) => v.checked_add(offset - rom_ram_start),
            None => None,
        };
    }
    let ram_start = rom_ram_end;
    let ram_end = match ram_start.checked_add(raw.ram_size) {
        Some(v) => v,
        None => {
            return None;
        },
    };
    if offset < ram_end {
        let a = match padded.rom_size.checked_add(padded.got_size) {
            Some(v) => v,
            None => {
                return None;
            },
        };
        let b = match a.checked_add(padded.rom_ram_size) {
            Some(v) => v,
            None => {
                return None;
            },
        };
        return b.checked_add(offset - ram_start);
    }
    None
}

/// Offsets of the ROM are left unchanged by the padding.
pub proof fn lemma_remap_keeps_rom_offsets(offset: u32, raw: ExportedSymbols, padded: ExportedSymbols)
    requires
        offset < raw.rom_size,
    ensures
        spec_remap_offset(offset, raw, padded) == Some(offset),
{
}

/// Padding keeps the relative order of the offsets it maps.
pub proof fn lemma_remap_monotonic(a: u32, b: u32, raw: ExportedSymbols)
    requires
        a <= b,
        raw.rom_size <= u32::MAX - 3,
        raw.got_size <= u32::MAX - 3,
        raw.rom_ram_size <= u32::MAX - 3,
        spec_remap_offset(a, raw, spec_padded_exported_symbols(raw)) is Some,
        spec_remap_offset(b, raw, spec_padded_exported_symbols(raw)) is Some,
    ensures
        spec_remap_offset(a, raw, spec_padded_exported_symbols(raw))->0 <= spec_remap_offset(
            b,
            raw,
            spec_padded_exported_symbols(raw),
        )->0,
{
    let p = spec_padded_exported_symbols(raw);
    assert(p.rom_size >= raw.rom_size);
    assert(p.got_size >= raw.got_size);
    assert(p.rom_ram_size >= raw.rom_ram_size);
}


// ---------------------------------------------------------------------------
// Legacy image
// ---------------------------------------------------------------------------
/// The legacy footer: RAM, GOT, ROM and ROM-RAM sizes, entry point, startup
/// code size and the magic word.
pub open spec fn legacy_footer(symbols: ExportedSymbols, startup_len: nat) -> Seq<u8> {
    le_bytes(symbols.ram_size) + le_bytes(symbols.got_size) + le_bytes(symbols.rom_size) + le_bytes(
        symbols.rom_ram_size,
    ) + le_bytes(symbols.start) + le_bytes(startup_len as u32) + le_bytes(
        constants::MAGIC_NUMBER_AND_VERSION,
    )
}

pub open spec fn file_alignment(align_size: usize) -> usize {
    if align_size >= 1 {
        align_size
    } else {
        1
    }
}

/// Bytes before the trailing padding and footer.
pub open spec fn legacy_raw_size(s: nat, r: nat, align_payload: usize, p: nat) -> int {
    spec_aligned_header_size(spec_header_size(s as int, r as int), align_payload) + p
}

/// The length of the legacy image.
pub open spec fn legacy_aligned_size(
    s: nat,
    r: nat,
    align_payload: usize,
    align_size: usize,
    p: nat,
) -> int {
    spec_round_up_pow2(
        (legacy_raw_size(s, r, align_payload, p) + constants::FOOTER_BYTESIZE) as usize,
        file_alignment(align_size),
    ) as int
}

/// The legacy image can be computed without overflow.
pub open spec fn legacy_fits(s: nat, r: nat, align_payload: usize, align_size: usize, p: nat) -> bool {
    let hs = spec_header_size(s as int, r as int);
    &&& hs + constants::PAYLOAD_PADDING_BYTESIZE <= usize::MAX
    &&& payload_alignment_fits(hs, align_payload)
    &&& legacy_raw_size(s, r, align_payload, p) + constants::FOOTER_BYTESIZE + file_alignment(
        align_size,
    ) <= usize::MAX + 1
}

/// The legacy image: startup code, size word, relocation table, payload
/// padding word and zeros, partition, 0xFF padding and the legacy footer.
pub open spec fn spec_legacy_image(
    startup: Seq<u8>,
    symbols: ExportedSymbols,
    relocations: Seq<u8>,
    align_payload: usize,
    align_size: usize,
    partition: Seq<u8>,
) -> Seq<u8> {
    let hs = spec_header_size(startup.len() as int, relocations.len() as int);
    let pa = spec_payload_alignment(hs, align_payload);
    let raw = legacy_raw_size(startup.len(), relocations.len(), align_payload, partition.len());
    let aligned = legacy_aligned_size(
        startup.len(),
        relocations.len(),
        align_payload,
        align_size,
        partition.len(),
    );
    let padding = aligned - raw - constants::FOOTER_BYTESIZE;
    startup + le_bytes(aligned as u32) + relocations + le_bytes(pa as u32) + fill(0, pa as nat)
        + partition + fill(0xFF, padding as nat) + legacy_footer(symbols, startup.len())
}

/// Builds a legacy (0xFACADE12) image.
pub fn concatenate_and_pad_bytearray(
    startup_code: &[u8],
    exported_symbols: ExportedSymbols,
    relocation_bytearray: &[u8],
    align_payload: usize,
    align_size: usize,
    partition_bytearray: &[u8],
) -> (r: Vec<u8>)
    requires
        legacy_fits(
            startup_code@.len(),
            relocation_bytearray@.len(),
            align_payload,
            align_size,
            partition_bytearray@.len(),
        ),
    ensures
        r@ == spec_legacy_image(
            startup_code@,
            exported_symbols,
            relocation_bytearray@,
            align_payload,
            align_size,
            partition_bytearray@,
        ),
        r@.len() == legacy_aligned_size(
            startup_code@.len(),
            relocation_bytearray@.len(),
            align_payload,
            align_size,
            partition_bytearray@.len(),
        ),
        is_power_of_two(file_alignment(align_size)) ==> (r@.len() as int) % (file_alignment(
            align_size,
        ) as int) == 0,
        r@.subrange(
            spec_aligned_header_size(
                spec_header_size(startup_code@.len() as int, relocation_bytearray@.len() as int),
                align_payload,
            ),
            spec_aligned_header_size(
                spec_header_size(startup_code@.len() as int, relocation_bytearray@.len() as int),
                align_payload,
            ) + partition_bytearray@.len(),
        ) == partition_bytearray@,
        r@.len() <= u32::MAX ==> le_word(r@, startup_code@.len() as int) == r@.len(),
{
    concatenate_legacy(
        startup_code,
        exported_symbols,
        relocation_bytearray,
        align_payload,
        align_size,
        partition_bytearray,
    )
}

fn concatenate_legacy(
    startup_code: &[u8],
    exported_symbols: ExportedSymbols,
    relocation_bytearray: &[u8],
    align_payload: usize,
    align_size: usize,
    partition_bytearray: &[u8],
) -> (r: Vec<u8>)
    requires
        legacy_fits(
            startup_code@.len(),
            relocation_bytearray@.len(),
            align_payload,
            align_size,
            partition_bytearray@.len(),
        ),
    ensures
        r@ == spec_legacy_image(
            startup_code@,
            exported_symbols,
            relocation_bytearray@,
            align_payload,
            align_size,
            partition_bytearray@,
        ),
        r@.len() == legacy_aligned_size(
            startup_code@.len(),
            relocation_bytearray@.len(),
            align_payload,
            align_size,
            partition_bytearray@.len(),
        ),
        is_power_of_two(file_alignment(align_size)) ==> (r@.len() as int) % (file_alignment(
            align_size,
        ) as int) == 0,
        r@.subrange(
            spec_aligned_header_size(
                spec_header_size(startup_code@.len() as int, relocation_bytearray@.len() as int),
                align_payload,
            ),
            spec_aligned_header_size(
                spec_header_size(startup_code@.len() as int, relocation_bytearray@.len() as int),
                align_payload,
            ) + partition_bytearray@.len(),
        ) == partition_bytearray@,
        r@.len() <= u32::MAX ==> le_word(r@, startup_code@.len() as int) == r@.len(),
{
    let payload_alignment = compute_payload_alignment(
        startup_code,
        relocation_bytearray,
        align_payload,
    );
    let header_size = compute_aligned_header_size(
        startup_code,
        relocation_bytearray,
        align_payload,
    );
    let raw_binary_size = header_size + partition_bytearray.len();
    let file_alignment = if align_size >= 1 {
        align_size
    } else {
        1
    };
    let aligned_binary_size = round_up_pow2(
        raw_binary_size + constants::FOOTER_BYTESIZE,
        file_alignment,
    );
    let padding_size = aligned_binary_size - raw_binary_size - constants::FOOTER_BYTESIZE;
    let mut out: Vec<u8> = Vec::new();
    append_slice(&mut out, startup_code);
    push_word(&mut out, aligned_binary_size as u32);
    append_slice(&mut out, relocation_bytearray);
    push_word(&mut out, payload_alignment as u32);
    append_fill(&mut out, constants::TEXT_ALIGNMENT_PADDING_VALUE, payload_alignment);
    append_slice(&mut out, partition_bytearray);
    append_fill(&mut out, constants::PADDING_VALUE, padding_size);
    let ghost body = out@;
    let mut footer: Vec<u8> = Vec::new();
    push_word(&mut footer, exported_symbols.ram_size);
    push_word(&mut footer, exported_symbols.got_size);
    push_word(&mut footer, exported_symbols.rom_size);
    push_word(&mut footer, exported_symbols.rom_ram_size);
    push_word(&mut footer, exported_symbols.start);
    push_word(&mut footer, startup_code.len() as u32);
    push_word(&mut footer, constants::MAGIC_NUMBER_AND_VERSION);
    assert(footer@ =~= legacy_footer(exported_symbols, startup_code@.len()));
    append_slice(&mut out, footer.as_slice());
    proof {
        lemma_legacy_image_facts(
            startup_code@,
            exported_symbols,
            relocation_bytearray@,
            align_payload,
            align_size,
            partition_bytearray@,
        );
    }
    out
}

/// Length, alignment, partition placement and size word of a legacy image.
proof fn lemma_legacy_image_facts(
    startup: Seq<u8>,
    symbols: ExportedSymbols,
    relocations: Seq<u8>,
    align_payload: usize,
    align_size: usize,
    partition: Seq<u8>,
)
    requires
        legacy_fits(startup.len(), relocations.len(), align_payload, align_size, partition.len()),
    ensures
        ({
            let img = spec_legacy_image(
                startup,
                symbols,
                relocations,
                align_payload,
                align_size,
                partition,
            );
            let off = spec_aligned_header_size(
                spec_header_size(startup.len() as int, relocations.len() as int),
                align_payload,
            );
            &&& img.len() == legacy_aligned_size(
                startup.len(),
                relocations.len(),
                align_payload,
                align_size,
                partition.len(),
            )
            &&& is_power_of_two(file_alignment(align_size)) ==> (img.len() as int) % (
            file_alignment(align_size) as int) == 0
            &&& img.subrange(off, off + partition.len()) == partition
            &&& img.len() <= u32::MAX ==> le_word(img, startup.len() as int) == img.len()
        }),
{
    let hs = spec_header_size(startup.len() as int, relocations.len() as int);
    let pa = spec_payload_alignment(hs, align_payload);
    let raw = legacy_raw_size(startup.len(), relocations.len(), align_payload, partition.len());
    let aligned = legacy_aligned_size(
        startup.len(),
        relocations.len(),
        align_payload,
        align_size,
        partition.len(),
    );
    let u = (raw + constants::FOOTER_BYTESIZE) as usize;
    let fa = file_alignment(align_size);
    crate::common::lemma_round_up_pow2(u, fa);
    if align_payload > 1 {
        crate::common::lemma_round_up_pow2((hs + 4) as usize, align_payload);
    }
    let padding = aligned - raw - constants::FOOTER_BYTESIZE;
    lemma_le_bytes_len(aligned as u32);
    lemma_le_bytes_len(pa as u32);
    lemma_le_bytes_len(symbols.ram_size);
    lemma_le_bytes_len(symbols.got_size);
    lemma_le_bytes_len(symbols.rom_size);
    lemma_le_bytes_len(symbols.rom_ram_size);
    lemma_le_bytes_len(symbols.start);
    lemma_le_bytes_len(startup.len() as u32);
    lemma_le_bytes_len(constants::MAGIC_NUMBER_AND_VERSION);
    let img = spec_legacy_image(startup, symbols, relocations, align_payload, align_size, partition);
    let head = startup + le_bytes(aligned as u32) + relocations + le_bytes(pa as u32) + fill(
        0,
        pa as nat,
    );
    let tail = fill(0xFF, padding as nat) + legacy_footer(symbols, startup.len());
    assert(img =~= head + partition + tail);
    assert(head.len() == hs + 4 + pa);
    assert(img.subrange(head.len() as int, head.len() as int + partition.len() as int) =~= partition);
    let rest = relocations + le_bytes(pa as u32) + fill(0, pa as nat) + partition + tail;
    assert(img =~= startup + le_bytes(aligned as u32) + rest);
    crate::common::lemma_le_word_of_bytes_in_middle(startup, aligned as u32, rest);
}


// ---------------------------------------------------------------------------
// FAE 1.0 images
// ---------------------------------------------------------------------------
/// The XiPFS profile that describes an image's symbols and startup code.
pub open spec fn xipfs_profile_of(symbols: ExportedSymbols, startup_len: nat) -> XipfsProfile {
    XipfsProfile {
        ram_size: symbols.ram_size,
        got_size: symbols.got_size,
        rom_size: symbols.rom_size,
        rom_ram_size: symbols.rom_ram_size,
        entrypoint_offset: symbols.start,
        startup_code_size: startup_len as u32,
    }
}

/// The writable RAM of a Rustlet image: GOT, initialised data and RAM.
pub open spec fn writable_ram_of(symbols: ExportedSymbols) -> int {
    symbols.got_size + symbols.rom_ram_size + symbols.ram_size
}

/// The ABI family and ABI extra words that an ABI choice puts in the footer.
pub open spec fn spec_fae1_abi(symbols: ExportedSymbols, startup_len: nat, abi: Fae1Abi) -> Result<
    (u32, Seq<u32>),
    Error,
> {
    match abi {
        Fae1Abi::Xipfs => if startup_len > u32::MAX {
            Err(Error::FooterSizeOverflow)
        } else {
            Ok((registry::abi::XIPFS, xipfs_profile_of(symbols, startup_len).spec_words()))
        },
        Fae1Abi::Rustlet { kind, minimum_version, stack_size } => if writable_ram_of(symbols)
            > u32::MAX {
            Err(Error::FooterSizeOverflow)
        } else {
            let p = OxideSeProfile {
                kind,
                minimum_version,
                writable_ram_size: writable_ram_of(symbols) as u32,
                stack_size,
            };
            match p.words_error() {
                Some(e) => Err(e),
                None => Ok(
                    (
                        registry::abi::OXIDE_SE,
                        seq![
                            p.spec_version_word(),
                            OxideSeProfile::spec_memory_word(
                                crate::fae1::spec_memory_units(
                                    "writable RAM",
                                    p.writable_ram_size,
                                )->Ok_0,
                                crate::fae1::spec_memory_units("stack", p.stack_size)->Ok_0,
                            ),
                        ],
                    ),
                ),
            }
        },
        Fae1Abi::Explicit(words) => Ok(
            (AbiDescriptor::spec_decode(words.spec_descriptor()).family, words.spec_words()),
        ),
    }
}

/// The footer of a FAE 1.0 image, or why it cannot be built.
pub open spec fn spec_fae1_footer(
    symbols: ExportedSymbols,
    startup_len: nat,
    isa: DescriptorWords,
    abi: Fae1Abi,
) -> Result<FooterView, Error> {
    match spec_fae1_abi(symbols, startup_len, abi) {
        Err(e) => Err(e),
        Ok((family, words)) => {
            let d = IsaDescriptor::spec_decode(isa.spec_descriptor());
            match IsaDescriptor::new_result(
                d.family,
                d.subgroup,
                d.inline_bits,
                isa.spec_words().len(),
            ) {
                Err(e) => Err(e),
                Ok(i) => match AbiDescriptor::new_result(family, words.len()) {
                    Err(e) => Err(e),
                    Ok(a) => Ok(
                        FooterView {
                            isa: i,
                            abi: a,
                            extra_words: Seq::empty(),
                            isa_extra_words: isa.spec_words(),
                            abi_extra_words: words,
                        },
                    ),
                },
            }
        },
    }
}

/// Startup code, binary size word and, for the Rustlet layout, the private
/// RT0 metadata words.
pub open spec fn fae1_base(startup_len: nat, relocation_len: nat, abi: Fae1Abi) -> int {
    spec_header_size(startup_len as int, relocation_len as int) + (if abi.spec_uses_rustlet_layout() {
        20int
    } else {
        0int
    })
}

/// Bytes of a footer with no generic extra words.
pub open spec fn fae1_footer_bytes(f: FooterView) -> int {
    4 * crate::fae1::footer_word_count(0, f.isa_extra_words.len() as int, f.abi_extra_words.len() as int)
}

/// Bytes before the file alignment padding.
pub open spec fn fae1_unaligned(base: int, align_payload: usize, partition_len: nat, f: FooterView) -> int {
    base + constants::PAYLOAD_PADDING_BYTESIZE + spec_payload_alignment(base, align_payload)
        + partition_len + fae1_footer_bytes(f)
}

/// The length of the FAE 1.0 image.
pub open spec fn fae1_aligned(unaligned: int, align_size: usize) -> int {
    spec_round_up_pow2(unaligned as usize, file_alignment(align_size)) as int
}

/// The inputs on which building a FAE 1.0 image would overflow in a rounding.
pub open spec fn fae1_fits(
    symbols: ExportedSymbols,
    startup_len: nat,
    relocation_len: nat,
    partition_len: nat,
    align_payload: usize,
    align_size: usize,
    isa: DescriptorWords,
    abi: Fae1Abi,
) -> bool {
    let base = fae1_base(startup_len, relocation_len, abi);
    &&& spec_header_size(startup_len as int, relocation_len as int) <= usize::MAX
    &&& spec_fae1_footer(symbols, startup_len, isa, abi) is Ok ==> {
        let f = spec_fae1_footer(symbols, startup_len, isa, abi)->Ok_0;
        let u = fae1_unaligned(base, align_payload, partition_len, f);
        &&& base + constants::PAYLOAD_PADDING_BYTESIZE <= usize::MAX ==> payload_alignment_fits(
            base,
            align_payload,
        )
        &&& base + constants::PAYLOAD_PADDING_BYTESIZE <= usize::MAX && u <= usize::MAX ==> u
            + file_alignment(align_size) <= usize::MAX + 1
    }
}

/// The private RT0 metadata of the Rustlet layout.
pub open spec fn rustlet_metadata(symbols: ExportedSymbols, abi: Fae1Abi) -> Seq<u8> {
    if abi.spec_uses_rustlet_layout() {
        le_bytes(symbols.ram_size) + le_bytes(symbols.got_size) + le_bytes(symbols.rom_size)
            + le_bytes(symbols.rom_ram_size) + le_bytes(symbols.start)
    } else {
        Seq::empty()
    }
}

/// The image before its footer.
pub open spec fn fae1_body(
    startup: Seq<u8>,
    symbols: ExportedSymbols,
    relocations: Seq<u8>,
    partition: Seq<u8>,
    abi: Fae1Abi,
    aligned: int,
    payload_alignment: int,
    padding: int,
) -> Seq<u8> {
    startup + le_bytes(aligned as u32) + rustlet_metadata(symbols, abi) + relocations + le_bytes(
        payload_alignment as u32,
    ) + fill(0, payload_alignment as nat) + partition + fill(0xFF, padding as nat)
}

/// The FAE 1.0 image, or why it cannot be built.
pub open spec fn spec_fae1_image(
    startup: Seq<u8>,
    symbols: ExportedSymbols,
    relocations: Seq<u8>,
    align_payload: usize,
    align_size: usize,
    partition: Seq<u8>,
    isa: DescriptorWords,
    abi: Fae1Abi,
) -> Result<Seq<u8>, Error> {
    match spec_fae1_footer(symbols, startup.len(), isa, abi) {
        Err(e) => Err(e),
        Ok(f) => {
            let base = fae1_base(startup.len(), relocations.len(), abi);
            let u = fae1_unaligned(base, align_payload, partition.len(), f);
            let aligned = fae1_aligned(u, align_size);
            if base + constants::PAYLOAD_PADDING_BYTESIZE > usize::MAX || u > usize::MAX || aligned
                > u32::MAX {
                Err(Error::FooterSizeOverflow)
            } else {
                let pa = spec_payload_alignment(base, align_payload);
                Ok(
                    crate::fae1::spec_appended(
                        fae1_body(
                            startup,
                            symbols,
                            relocations,
                            partition,
                            abi,
                            aligned,
                            pa,
                            aligned - u,
                        ),
                        f,
                    ),
                )
            }
        },
    }
}

fn fae1_abi_words(
    startup_code: &[u8],
    exported_symbols: ExportedSymbols,
    abi: Fae1Abi,
) -> (r: Result<(u32, Vec<u32>), Error>)
    ensures
        r is Ok <==> spec_fae1_abi(exported_symbols, startup_code@.len(), abi) is Ok,
        r matches Err(e) ==> spec_fae1_abi(exported_symbols, startup_code@.len(), abi) == Err::<
            (u32, Seq<u32>),
            Error,
        >(e),
        r matches Ok((family, words)) ==> spec_fae1_abi(
            exported_symbols,
            startup_code@.len(),
            abi,
        ) == Ok::<(u32, Seq<u32>), Error>((family, words@)),
{
    match abi {
        Fae1Abi::Xipfs => {
            if startup_code.len() > 0xFFFF_FFFF {
                return Err(Error::FooterSizeOverflow);
            }
            let profile = XipfsProfile {
                ram_size: exported_symbols.ram_size,
                got_size: exported_symbols.got_size,
                rom_size: exported_symbols.rom_size,
                rom_ram_size: exported_symbols.rom_ram_size,
                entrypoint_offset: exported_symbols.start,
                startup_code_size: startup_code.len() as u32,
            };
            Ok((registry::abi::XIPFS, profile.words()))
        },
        Fae1Abi::Rustlet { kind, minimum_version, stack_size } => {
            let sum = exported_symbols.got_size.checked_add(exported_symbols.rom_ram_size);
            let sum = match sum {
                Some(v) => v.checked_add(exported_symbols.ram_size),
                None => None,
            };
            let writable_ram_size = match sum {
                Some(v) => v,
                None => {
                    return Err(Error::FooterSizeOverflow);
                },
            };
            let profile = OxideSeProfile { kind, minimum_version, writable_ram_size, stack_size };
            let words = profile.words()?;
            Ok((registry::abi::OXIDE_SE, words))
        },
        Fae1Abi::Explicit(words) => {
            let descriptor = AbiDescriptor::decode(words.descriptor());
            Ok((descriptor.family, words.to_vec()))
        },
    }
}

fn fae1_footer(
    startup_code: &[u8],
    exported_symbols: ExportedSymbols,
    isa: DescriptorWords,
    abi: Fae1Abi,
) -> (r: Result<Footer, Error>)
    ensures
        r is Ok <==> spec_fae1_footer(exported_symbols, startup_code@.len(), isa, abi) is Ok,
        r matches Err(e) ==> spec_fae1_footer(exported_symbols, startup_code@.len(), isa, abi)
            == Err::<FooterView, Error>(e),
        r matches Ok(f) ==> spec_fae1_footer(exported_symbols, startup_code@.len(), isa, abi)
            == Ok::<FooterView, Error>(f@),
{
    let (abi_family, abi_words) = fae1_abi_words(startup_code, exported_symbols, abi)?;
    let isa_descriptor = IsaDescriptor::decode(isa.descriptor());
    Footer::new(
        isa_descriptor.family,
        isa_descriptor.subgroup,
        isa_descriptor.inline_bits,
        Vec::new(),
        isa.to_vec(),
        abi_family,
        abi_words,
    )
}

/// Payload alignment and image length of a FAE 1.0 image whose footer is `f`.
fn fae1_layout(
    startup_code: &[u8],
    relocation_bytearray: &[u8],
    partition_len: usize,
    align_payload: usize,
    align_size: usize,
    abi: Fae1Abi,
    footer_size: usize,
    f: Ghost<FooterView>,
) -> (r: Result<(usize, usize, usize), Error>)
    requires
        footer_size == fae1_footer_bytes(f@),
        ({
            let base = fae1_base(startup_code@.len(), relocation_bytearray@.len(), abi);
            let u = fae1_unaligned(base, align_payload, partition_len as nat, f@);
            &&& spec_header_size(startup_code@.len() as int, relocation_bytearray@.len() as int)
                <= usize::MAX
            &&& base + constants::PAYLOAD_PADDING_BYTESIZE <= usize::MAX ==> payload_alignment_fits(
                base,
                align_payload,
            )
            &&& base + constants::PAYLOAD_PADDING_BYTESIZE <= usize::MAX && u <= usize::MAX ==> u
                + file_alignment(align_size) <= usize::MAX + 1
        }),
    ensures
        ({
            let base = fae1_base(startup_code@.len(), relocation_bytearray@.len(), abi);
            let u = fae1_unaligned(base, align_payload, partition_len as nat, f@);
            let aligned = fae1_aligned(u, align_size);
            let overflow = base + constants::PAYLOAD_PADDING_BYTESIZE > usize::MAX || u
                > usize::MAX || aligned > u32::MAX;
            &&& r is Err <==> overflow
            &&& r matches Err(e) ==> e == Error::FooterSizeOverflow
            &&& r matches Ok((pa, al, padding)) ==> pa == spec_payload_alignment(base, align_payload)
                && al == aligned && padding == aligned - u
        }),
{
    let private_metadata_size: usize = if abi.uses_rustlet_layout() {
        20
    } else {
        0
    };
    let header = compute_header_size(startup_code, relocation_bytearray);
    let base_header_size = match header.checked_add(private_metadata_size) {
        Some(v) => v,
        None => {
            return Err(Error::FooterSizeOverflow);
        },
    };
    let unaligned_partition_offset = match base_header_size.checked_add(
        constants::PAYLOAD_PADDING_BYTESIZE,
    ) {
        Some(v) => v,
        None => {
            return Err(Error::FooterSizeOverflow);
        },
    };
    let payload_alignment = if align_payload <= 1 {
        0
    } else {
        round_up_pow2(unaligned_partition_offset, align_payload) - unaligned_partition_offset
    };
    let header_size = match unaligned_partition_offset.checked_add(payload_alignment) {
        Some(v) => v,
        None => {
            return Err(Error::FooterSizeOverflow);
        },
    };
    let raw_binary_size = match header_size.checked_add(partition_len) {
        Some(v) => v,
        None => {
            return Err(Error::FooterSizeOverflow);
        },
    };
    let unaligned_size = match raw_binary_size.checked_add(footer_size) {
        Some(v) => v,
        None => {
            return Err(Error::FooterSizeOverflow);
        },
    };
    let file_alignment = if align_size >= 1 {
        align_size
    } else {
        1
    };
    let aligned_binary_size = round_up_pow2(unaligned_size, file_alignment);
    if aligned_binary_size > 0xFFFF_FFFF {
        return Err(Error::FooterSizeOverflow);
    }
    Ok((payload_alignment, aligned_binary_size, aligned_binary_size - unaligned_size))
}

/// Writes everything of a FAE 1.0 image that comes before its footer.
fn write_fae1_body(
    startup_code: &[u8],
    exported_symbols: ExportedSymbols,
    relocation_bytearray: &[u8],
    partition_bytearray: &[u8],
    abi: Fae1Abi,
    binary_size: u32,
    payload_alignment: usize,
    padding_size: usize,
) -> (r: Vec<u8>)
    requires
        payload_alignment <= u32::MAX,
    ensures
        r@ == fae1_body(
            startup_code@,
            exported_symbols,
            relocation_bytearray@,
            partition_bytearray@,
            abi,
            binary_size as int,
            payload_alignment as int,
            padding_size as int,
        ),
{
    let mut out: Vec<u8> = Vec::new();
    append_slice(&mut out, startup_code);
    push_word(&mut out, binary_size);
    if abi.uses_rustlet_layout() {
        push_word(&mut out, exported_symbols.ram_size);
        push_word(&mut out, exported_symbols.got_size);
        push_word(&mut out, exported_symbols.rom_size);
        push_word(&mut out, exported_symbols.rom_ram_size);
        push_word(&mut out, exported_symbols.start);
    }
    append_slice(&mut out, relocation_bytearray);
    push_word(&mut out, payload_alignment as u32);
    append_fill(&mut out, constants::TEXT_ALIGNMENT_PADDING_VALUE, payload_alignment);
    append_slice(&mut out, partition_bytearray);
    append_fill(&mut out, constants::PADDING_VALUE, padding_size);
    assert(out@ =~= fae1_body(
        startup_code@,
        exported_symbols,
        relocation_bytearray@,
        partition_bytearray@,
        abi,
        binary_size as int,
        payload_alignment as int,
        padding_size as int,
    ));
    out
}

fn concatenate_fae1(
    startup_code: &[u8],
    exported_symbols: ExportedSymbols,
    relocation_bytearray: &[u8],
    align_payload: usize,
    align_size: usize,
    partition_bytearray: &[u8],
    isa: DescriptorWords,
    abi: Fae1Abi,
) -> (r: Result<Vec<u8>, Error>)
    requires
        fae1_fits(
            exported_symbols,
            startup_code@.len(),
            relocation_bytearray@.len(),
            partition_bytearray@.len(),
            align_payload,
            align_size,
            isa,
            abi,
        ),
    ensures
        ({
            let spec = spec_fae1_image(
                startup_code@,
                exported_symbols,
                relocation_bytearray@,
                align_payload,
                align_size,
                partition_bytearray@,
                isa,
                abi,
            );
            &&& r is Ok <==> spec is Ok
            &&& r matches Ok(v) ==> spec == Ok::<Seq<u8>, Error>(v@)
            &&& r matches Err(e) ==> spec == Err::<Seq<u8>, Error>(e)
        }),
{
    let footer = fae1_footer(startup_code, exported_symbols, isa, abi)?;
    let ghost f = footer@;
    let footer_size = match footer.size() {
        Ok(v) => v,
        Err(e) => {
            return Err(e);
        },
    };
    let (payload_alignment, aligned_binary_size, padding_size) = fae1_layout(
        startup_code,
        relocation_bytearray,
        partition_bytearray.len(),
        align_payload,
        align_size,
        abi,
        footer_size,
        Ghost(f),
    )?;
    let mut out = write_fae1_body(
        startup_code,
        exported_symbols,
        relocation_bytearray,
        partition_bytearray,
        abi,
        aligned_binary_size as u32,
        payload_alignment,
        padding_size,
    );
    match footer.append_to(&mut out) {
        Ok(()) => {},
        Err(e) => {
            return Err(e);
        },
    }
    Ok(out)
}

/// Whether building an image in `format` stays clear of the roundings that
/// would overflow.
pub open spec fn image_fits(
    startup: Seq<u8>,
    symbols: ExportedSymbols,
    relocations: Seq<u8>,
    align_payload: usize,
    align_size: usize,
    partition: Seq<u8>,
    format: OutputFormat,
) -> bool {
    match format {
        OutputFormat::Facade12 => legacy_fits(
            startup.len(),
            relocations.len(),
            align_payload,
            align_size,
            partition.len(),
        ),
        OutputFormat::Fae1 { isa, abi } => fae1_fits(
            symbols,
            startup.len(),
            relocations.len(),
            partition.len(),
            align_payload,
            align_size,
            isa,
            abi,
        ),
    }
}

/// Whether an image of these parts can be built without overflow in the
/// chosen format (`image_fits`).
pub fn fits_image(
    startup_code: &[u8],
    exported_symbols: ExportedSymbols,
    relocation_bytearray: &[u8],
    align_payload: usize,
    align_size: usize,
    partition_bytearray: &[u8],
    format: OutputFormat,
) -> (r: bool)
    ensures
        r == image_fits(
            startup_code@,
            exported_symbols,
            relocation_bytearray@,
            align_payload,
            align_size,
            partition_bytearray@,
            format,
        ),
{
    let max = usize::MAX as u128;
    let hs = startup_code.len() as u128 + 4 + relocation_bytearray.len() as u128;
    let p = partition_bytearray.len() as u128;
    let fa: u128 = if align_size >= 1 {
        align_size as u128
    } else {
        1
    };
    match format {
        OutputFormat::Facade12 => {
            if hs + 4 > max {
                return false;
            }
            if align_payload > 1 && hs + 4 + align_payload as u128 > max + 1 {
                return false;
            }
            let aligned: u128 = if align_payload <= 1 {
                hs + 4
            } else {
                round_up_pow2((hs + 4) as usize, align_payload) as u128
            };
            aligned + p + 28 + fa <= max + 1
        },
        OutputFormat::Fae1 { isa, abi } => {
            if hs > max {
                return false;
            }
            match fae1_footer(startup_code, exported_symbols, isa, abi) {
                Err(_) => true,
                Ok(f) => {
                    let base: u128 = if abi.uses_rustlet_layout() {
                        hs + 20
                    } else {
                        hs
                    };
                    if base + 4 > max {
                        return true;
                    }
                    if align_payload > 1 && base + 4 + align_payload as u128 > max + 1 {
                        return false;
                    }
                    let aligned: u128 = if align_payload <= 1 {
                        base + 4
                    } else {
                        round_up_pow2((base + 4) as usize, align_payload) as u128
                    };
                    let footer = 4 * (5 + f.isa_extra_words.len() as u128 + f.abi_extra_words.len() as u128);
                    let u = aligned + p + footer;
                    if u > max {
                        return true;
                    }
                    u + fa <= max + 1
                },
            }
        },
    }
}

/// The image in `format`, or why it cannot be built.
pub open spec fn spec_image(
    startup: Seq<u8>,
    symbols: ExportedSymbols,
    relocations: Seq<u8>,
    align_payload: usize,
    align_size: usize,
    partition: Seq<u8>,
    format: OutputFormat,
) -> Result<Seq<u8>, Error> {
    match format {
        OutputFormat::Facade12 => Ok(
            spec_legacy_image(startup, symbols, relocations, align_payload, align_size, partition),
        ),
        OutputFormat::Fae1 { isa, abi } => spec_fae1_image(
            startup,
            symbols,
            relocations,
            align_payload,
            align_size,
            partition,
            isa,
            abi,
        ),
    }
}

/// Images of up to 2^28 bytes of input and alignment are built without
/// overflow in any format.
pub proof fn lemma_small_image_fits(
    startup: Seq<u8>,
    symbols: ExportedSymbols,
    relocations: Seq<u8>,
    align_payload: usize,
    align_size: usize,
    partition: Seq<u8>,
    format: OutputFormat,
)
    requires
        startup.len() + relocations.len() + partition.len() + align_payload + align_size <= 0x1000_0000,
    ensures
        image_fits(startup, symbols, relocations, align_payload, align_size, partition, format),
{
    let hs = spec_header_size(startup.len() as int, relocations.len() as int);
    if align_payload > 1 {
        crate::common::lemma_round_up_pow2((hs + 4) as usize, align_payload);
    }
    assert(spec_aligned_header_size(hs, align_payload) <= hs + 4 + align_payload);
    match format {
        OutputFormat::Facade12 => {},
        OutputFormat::Fae1 { isa, abi } => {
            let base = fae1_base(startup.len(), relocations.len(), abi);
            if align_payload > 1 {
                crate::common::lemma_round_up_pow2((base + 4) as usize, align_payload);
            }
            assert(spec_payload_alignment(base, align_payload) <= align_payload);
        },
    }
}

/// Builds an image in the legacy or the FAE 1.0 format.
pub fn concatenate_and_pad_bytearray_for_format(
    startup_code: &[u8],
    exported_symbols: ExportedSymbols,
    relocation_bytearray: &[u8],
    align_payload: usize,
    align_size: usize,
    partition_bytearray: &[u8],
    format: OutputFormat,
) -> (r: Result<Vec<u8>, Error>)
    requires
        image_fits(
            startup_code@,
            exported_symbols,
            relocation_bytearray@,
            align_payload,
            align_size,
            partition_bytearray@,
            format,
        ),
    ensures
        ({
            let spec = spec_image(
                startup_code@,
                exported_symbols,
                relocation_bytearray@,
                align_payload,
                align_size,
                partition_bytearray@,
                format,
            );
            &&& r is Ok <==> spec is Ok
            &&& r matches Ok(v) ==> spec == Ok::<Seq<u8>, Error>(v@)
            &&& r matches Err(e) ==> spec == Err::<Seq<u8>, Error>(e)
        }),
{
    match format {
        OutputFormat::Facade12 => Ok(
            concatenate_legacy(
                startup_code,
                exported_symbols,
                relocation_bytearray,
                align_payload,
                align_size,
                partition_bytearray,
            ),
        ),
        OutputFormat::Fae1 { isa, abi } => concatenate_fae1(
            startup_code,
            exported_symbols,
            relocation_bytearray,
            align_payload,
            align_size,
            partition_bytearray,
            isa,
            abi,
        ),
    }
}

/// A FAE 1.0 image reads back as what was put in it: its footer decodes to
/// the footer that was built (for XiPFS, the exported symbols and the startup
/// code size), the binary size word after the startup code holds the image's
/// length, the length is a multiple of the file alignment when that is a power
/// of two, and the partition lies unchanged at the aligned header offset.
pub proof fn lemma_fae1_image_reads_back(
    startup: Seq<u8>,
    symbols: ExportedSymbols,
    relocations: Seq<u8>,
    align_payload: usize,
    align_size: usize,
    partition: Seq<u8>,
    isa: DescriptorWords,
    abi: Fae1Abi,
)
    requires
        fae1_fits(
            symbols,
            startup.len(),
            relocations.len(),
            partition.len(),
            align_payload,
            align_size,
            isa,
            abi,
        ),
        spec_fae1_image(
            startup,
            symbols,
            relocations,
            align_payload,
            align_size,
            partition,
            isa,
            abi,
        ) is Ok,
    ensures
        ({
            let img = spec_fae1_image(
                startup,
                symbols,
                relocations,
                align_payload,
                align_size,
                partition,
                isa,
                abi,
            )->Ok_0;
            let f = spec_fae1_footer(symbols, startup.len(), isa, abi)->Ok_0;
            let base = fae1_base(startup.len(), relocations.len(), abi);
            let off = base + constants::PAYLOAD_PADDING_BYTESIZE + spec_payload_alignment(
                base,
                align_payload,
            );
            &&& crate::fae1::decode_error(img) is None
            &&& crate::fae1::decoded_footer(img) == f
            &&& abi is Xipfs ==> f.abi.family == registry::abi::XIPFS && f.abi_extra_words
                == xipfs_profile_of(symbols, startup.len()).spec_words()
            &&& img.len() == fae1_aligned(
                fae1_unaligned(base, align_payload, partition.len(), f),
                align_size,
            )
            &&& le_word(img, startup.len() as int) == img.len()
            &&& is_power_of_two(file_alignment(align_size)) ==> (img.len() as int) % (
            file_alignment(align_size) as int) == 0
            &&& img.subrange(off, off + partition.len()) == partition
        }),
{
    let f = spec_fae1_footer(symbols, startup.len(), isa, abi)->Ok_0;
    let base = fae1_base(startup.len(), relocations.len(), abi);
    let u = fae1_unaligned(base, align_payload, partition.len(), f);
    let aligned = fae1_aligned(u, align_size);
    let pa = spec_payload_alignment(base, align_payload);
    crate::common::lemma_round_up_pow2(u as usize, file_alignment(align_size));
    if align_payload > 1 {
        crate::common::lemma_round_up_pow2(
            (base + constants::PAYLOAD_PADDING_BYTESIZE) as usize,
            align_payload,
        );
    }
    let body = fae1_body(startup, symbols, relocations, partition, abi, aligned, pa, aligned - u);
    crate::fae1::lemma_footer_round_trip(body, f);
    lemma_fae1_image_parts(startup, symbols, relocations, partition, abi, aligned, pa, aligned - u, f);
}

/// Where the parts of a FAE 1.0 image lie.
proof fn lemma_fae1_image_parts(
    startup: Seq<u8>,
    symbols: ExportedSymbols,
    relocations: Seq<u8>,
    partition: Seq<u8>,
    abi: Fae1Abi,
    aligned: int,
    pa: int,
    padding: int,
    f: FooterView,
)
    requires
        0 <= pa,
        0 <= padding,
        f.extra_words.len() == 0,
    ensures
        ({
            let img = crate::fae1::spec_appended(
                fae1_body(startup, symbols, relocations, partition, abi, aligned, pa, padding),
                f,
            );
            let off = fae1_base(startup.len(), relocations.len(), abi) + 4 + pa;
            &&& img.len() == off + partition.len() + padding + fae1_footer_bytes(f)
            &&& img.subrange(off, off + partition.len()) == partition
            &&& le_word(img, startup.len() as int) == aligned as u32
        }),
{
    lemma_le_bytes_len(aligned as u32);
    lemma_le_bytes_len(pa as u32);
    lemma_le_bytes_len(symbols.ram_size);
    lemma_le_bytes_len(symbols.got_size);
    lemma_le_bytes_len(symbols.rom_size);
    lemma_le_bytes_len(symbols.rom_ram_size);
    lemma_le_bytes_len(symbols.start);
    lemma_le_bytes_len(0);
    lemma_le_bytes_len(f.extra_words.len() as u32);
    lemma_le_bytes_len(f.abi.spec_encode());
    lemma_le_bytes_len(f.isa.spec_encode());
    lemma_le_bytes_len(crate::fae1::MAGIC_AND_VERSION);
    crate::common::lemma_le_words_len(f.abi_extra_words.reverse());
    crate::common::lemma_le_words_len(f.isa_extra_words.reverse());
    crate::common::lemma_le_words_len(f.extra_words.reverse());
    let body = fae1_body(startup, symbols, relocations, partition, abi, aligned, pa, padding);
    let img = crate::fae1::spec_appended(body, f);
    let meta = rustlet_metadata(symbols, abi);
    let head = startup + le_bytes(aligned as u32) + meta + relocations + le_bytes(pa as u32)
        + fill(0, pa as nat);
    let prefix = body + crate::fae1::extension_bytes(f);
    let crc = crate::fae1::spec_crc32(prefix + le_bytes(0) + crate::fae1::trailer_bytes(f));
    let tail = fill(0xFF, padding as nat) + crate::fae1::extension_bytes(f) + le_bytes(crc)
        + crate::fae1::trailer_bytes(f);
    assert(img =~= head + partition + tail);
    assert(head.len() == fae1_base(startup.len(), relocations.len(), abi) + 4 + pa);
    assert(img.subrange(head.len() as int, head.len() as int + partition.len() as int)
        =~= partition);
    let rest = meta + relocations + le_bytes(pa as u32) + fill(0, pa as nat) + partition + tail;
    assert(img =~= startup + le_bytes(aligned as u32) + rest);
    crate::common::lemma_le_word_of_bytes_in_middle(startup, aligned as u32, rest);
}

/// Where the partition of an image lies: at the aligned header size for its
/// format, which for the legacy format and FAE 1.0 without the Rustlet
/// layout is the legacy aligned header size, and for the Rustlet layout is
/// the startup code, size word and relocation table with 24 bytes more,
/// rounded up to the payload alignment.
pub proof fn lemma_partition_at_header_size(
    startup: Seq<u8>,
    symbols: ExportedSymbols,
    relocations: Seq<u8>,
    align_payload: usize,
    align_size: usize,
    partition: Seq<u8>,
    format: OutputFormat,
)
    requires
        image_fits(startup, symbols, relocations, align_payload, align_size, partition, format),
        spec_image(startup, symbols, relocations, align_payload, align_size, partition, format) is Ok,
    ensures
        ({
            let h = spec_header_size(startup.len() as int, relocations.len() as int);
            let at = spec_aligned_header_size_for_format(h, align_payload, format);
            let img = spec_image(startup, symbols, relocations, align_payload, align_size, partition, format)->Ok_0;
            &&& format.spec_private_metadata_size() == 0 ==> at == spec_aligned_header_size(h, align_payload)
            &&& format.spec_private_metadata_size() != 0 ==> at == (if align_payload <= 1 {
                h + 24
            } else {
                spec_round_up_pow2((h + 24) as usize, align_payload) as int
            })
            &&& img.subrange(at, at + partition.len()) == partition
        }),
{
    let h = spec_header_size(startup.len() as int, relocations.len() as int);
    let at = spec_aligned_header_size_for_format(h, align_payload, format);
    match format {
        OutputFormat::Facade12 => {
            let pa = spec_payload_alignment(h, align_payload);
            if align_payload > 1 {
                crate::common::lemma_round_up_pow2((h + 4) as usize, align_payload);
            }
            assert(pa >= 0);
            let raw = legacy_raw_size(startup.len(), relocations.len(), align_payload, partition.len());
            let aligned = legacy_aligned_size(
                startup.len(),
                relocations.len(),
                align_payload,
                align_size,
                partition.len(),
            );
            let padding = aligned - raw - constants::FOOTER_BYTESIZE;
            let head = startup + le_bytes(aligned as u32) + relocations + le_bytes(pa as u32) + fill(
                0,
                pa as nat,
            );
            lemma_le_bytes_len(aligned as u32);
            lemma_le_bytes_len(pa as u32);
            assert(head.len() == at);
            let img = spec_legacy_image(startup, symbols, relocations, align_payload, align_size, partition);
            assert(img == head + partition + fill(0xFF, padding as nat) + legacy_footer(symbols, startup.len()));
            assert(img.subrange(at, at + partition.len()) =~= partition);
        },
        OutputFormat::Fae1 { isa, abi } => {
            lemma_fae1_image_reads_back(
                startup,
                symbols,
                relocations,
                align_payload,
                align_size,
                partition,
                isa,
                abi,
            );
        },
    }
}

/// Choosing the legacy format gives the legacy image, byte for byte.
pub proof fn lemma_legacy_format_is_legacy_image(
    startup: Seq<u8>,
    symbols: ExportedSymbols,
    relocations: Seq<u8>,
    align_payload: usize,
    align_size: usize,
    partition: Seq<u8>,
)
    ensures
        spec_image(startup, symbols, relocations, align_payload, align_size, partition, OutputFormat::Facade12)
            == Ok::<Seq<u8>, Error>(
            spec_legacy_image(startup, symbols, relocations, align_payload, align_size, partition),
        ),
        image_fits(startup, symbols, relocations, align_payload, align_size, partition, OutputFormat::Facade12)
            == legacy_fits(startup.len(), relocations.len(), align_payload, align_size, partition.len()),
{
}

/// An image that fits and is built leaves room to compute its aligned
/// header size.
pub proof fn lemma_built_image_header_fits(
    startup: Seq<u8>,
    symbols: ExportedSymbols,
    relocations: Seq<u8>,
    align_payload: usize,
    align_size: usize,
    partition: Seq<u8>,
    format: OutputFormat,
)
    requires
        image_fits(startup, symbols, relocations, align_payload, align_size, partition, format),
        spec_image(startup, symbols, relocations, align_payload, align_size, partition, format) is Ok,
    ensures
        spec_header_size(startup.len() as int, relocations.len() as int) + format.spec_private_metadata_size()
            + constants::PAYLOAD_PADDING_BYTESIZE <= usize::MAX,
        align_payload > 1 ==> spec_header_size(startup.len() as int, relocations.len() as int)
            + format.spec_private_metadata_size() + constants::PAYLOAD_PADDING_BYTESIZE + align_payload
            <= usize::MAX + 1,
{
}

/// A FAE 1.0 image built for the XiPFS ABI carries, in its footer, the
/// exported symbols as they are: the decoded footer is of the XiPFS family,
/// and its profile gives the RAM, GOT, ROM and `.rom.ram` sizes, the entry
/// point and the startup code's size, field by field.
pub proof fn lemma_xipfs_image_profile(
    startup: Seq<u8>,
    symbols: ExportedSymbols,
    relocations: Seq<u8>,
    align_payload: usize,
    align_size: usize,
    partition: Seq<u8>,
    isa: DescriptorWords,
)
    requires
        fae1_fits(
            symbols,
            startup.len(),
            relocations.len(),
            partition.len(),
            align_payload,
            align_size,
            isa,
            Fae1Abi::Xipfs,
        ),
        spec_fae1_image(startup, symbols, relocations, align_payload, align_size, partition, isa, Fae1Abi::Xipfs) is Ok,
    ensures
        ({
            let img = spec_fae1_image(
                startup,
                symbols,
                relocations,
                align_payload,
                align_size,
                partition,
                isa,
                Fae1Abi::Xipfs,
            )->Ok_0;
            let f = crate::fae1::decoded_footer(img);
            &&& crate::fae1::decode_error(img) is None
            &&& f.abi.family == registry::abi::XIPFS
            &&& crate::fae1::profile_error(f, registry::abi::XIPFS, 6) is None
            &&& f.abi_extra_words == seq![
                symbols.ram_size,
                symbols.got_size,
                symbols.rom_size,
                symbols.rom_ram_size,
                symbols.start,
                startup.len() as u32,
            ]
            &&& forall|p: XipfsProfile| #[trigger] p.spec_words() == f.abi_extra_words ==> {
                &&& p.ram_size == symbols.ram_size
                &&& p.got_size == symbols.got_size
                &&& p.rom_size == symbols.rom_size
                &&& p.rom_ram_size == symbols.rom_ram_size
                &&& p.entrypoint_offset == symbols.start
                &&& p.startup_code_size == startup.len()
            }
        }),
{
    lemma_fae1_image_reads_back(
        startup,
        symbols,
        relocations,
        align_payload,
        align_size,
        partition,
        isa,
        Fae1Abi::Xipfs,
    );
    let img = spec_fae1_image(startup, symbols, relocations, align_payload, align_size, partition, isa, Fae1Abi::Xipfs)->Ok_0;
    let f = crate::fae1::decoded_footer(img);
    let q = xipfs_profile_of(symbols, startup.len());
    assert(startup.len() <= u32::MAX);
    crate::fae1::lemma_xipfs_profile_round_trip(q, f);
    assert forall|p: XipfsProfile| #[trigger] p.spec_words() == f.abi_extra_words implies {
        &&& p.ram_size == symbols.ram_size
        &&& p.got_size == symbols.got_size
        &&& p.rom_size == symbols.rom_size
        &&& p.rom_ram_size == symbols.rom_ram_size
        &&& p.entrypoint_offset == symbols.start
        &&& p.startup_code_size == startup.len()
    } by {
        assert(p == q);
    }
}

} // verus!

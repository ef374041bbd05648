//! Reading the linked application and startup ELF files: symbols, sections,
//! relocation tables, and the rewriting of executable references to
//! runtime-writable data into SB-relative ones.

use vstd::prelude::*;
use vstd::string::*;

use crate::constants;
use crate::fae_format::{remap_offset_to_padded_layout, spec_remap_offset, ExportedSymbols};

verus! {

/// ELF machine number of 32-bit ARM.
pub const EM_ARM: u16 = 40;

/// ELF section type of a symbol table.
pub const SHT_SYMTAB: u32 = 2;

/// ELF section type of relocations with explicit addends.
pub const SHT_RELA: u32 = 4;

/// ELF section type of a section that occupies no file space.
pub const SHT_NOBITS: u32 = 8;

/// ELF section type of relocations without addends.
pub const SHT_REL: u32 = 9;

/// ELF section flag: occupies memory at run time.
pub const SHF_ALLOC: u64 = 2;

/// ELF section flag: holds executable instructions.
pub const SHF_EXECINSTR: u64 = 4;

// ---------------------------------------------------------------------------
// The model of a parsed ELF file
// ---------------------------------------------------------------------------
/// A section header, with its name looked up in the section name table.
#[derive(Debug, Clone)]
pub struct ElfSection {
    pub name: Option<String>,
    pub sh_type: u32,
    pub flags: u64,
    pub addr: u64,
    pub offset: u64,
    pub size: u64,
    pub entsize: u64,
    pub info: u32,
    pub link: u32,
}

/// A symbol table entry, with its name looked up in the string table.
#[derive(Debug, Clone)]
pub struct ElfSymbol {
    pub name_index: usize,
    pub name: Option<String>,
    pub value: u64,
    pub shndx: usize,
}

/// The machine of an ELF file's header, and its section headers and symbol
/// table, in file order.
#[derive(Debug, Clone)]
pub struct ElfFile {
    pub machine: u16,
    pub sections: Vec<ElfSection>,
    pub symbols: Vec<ElfSymbol>,
}

impl ElfSection {
    pub fn new(
        name: Option<&str>,
        sh_type: u32,
        flags: u64,
        addr: u64,
        offset: u64,
        size: u64,
        entsize: u64,
        info: u32,
        link: u32,
    ) -> (r: Self)
        ensures
            r.name.is_some() == name.is_some(),
            name matches Some(n) ==> r.name->Some_0@ == n@,
            r.sh_type == sh_type,
            r.flags == flags,
            r.addr == addr,
            r.offset == offset,
            r.size == size,
            r.entsize == entsize,
            r.info == info,
            r.link == link,
    {
        let name = match name {
            Some(n) => Some(n.to_owned()),
            None => None,
        };
        ElfSection { name, sh_type, flags, addr, offset, size, entsize, info, link }
    }
}

impl ElfSymbol {
    /// A copy of the symbol.
    pub fn duplicate(&self) -> (r: Self)
        ensures
            r == *self,
    {
        let name = match &self.name {
            Some(n) => Some(n.clone()),
            None => None,
        };
        ElfSymbol { name_index: self.name_index, name, value: self.value, shndx: self.shndx }
    }

    pub fn new(name_index: usize, name: Option<&str>, value: u64, shndx: usize) -> (r: Self)
        ensures
            r.name_index == name_index,
            r.name.is_some() == name.is_some(),
            name matches Some(n) ==> r.name->Some_0@ == n@,
            r.value == value,
            r.shndx == shndx,
    {
        let name = match name {
            Some(n) => Some(n.to_owned()),
            None => None,
        };
        ElfSymbol { name_index, name, value, shndx }
    }
}

/// The section headers and symbols that goblin reads from `bytes`, or `None`
/// where goblin refuses them.
pub uninterp spec fn goblin_elf_model(bytes: Seq<u8>) -> Option<ElfFile>;

/// Parses `bytes` with `goblin::elf::Elf::parse` and copies out the header's
/// machine and, in file order, each section header (its name looked up with the section name
/// table's `get_at`) and each symbol of the symbol table (its name looked up
/// with the string table's `get_at`). What goblin accepts and what it reads is
/// named, not stated: the result is `goblin_elf_model` of the bytes, `None`
/// where goblin refuses them. A refusal comes back as goblin's error message,
/// of which nothing is stated.
#[verifier::external_body]
fn goblin_parse(bytes: &[u8]) -> (r: Result<ElfFile, String>)
    ensures
        r is Ok <==> goblin_elf_model(bytes@) is Some,
        r matches Ok(f) ==> goblin_elf_model(bytes@) == Some(f),
{
    let elf = goblin::elf::Elf::parse(bytes).map_err(|e| e.to_string())?;
    let strtab = &elf.shdr_strtab;
    let sections = elf.section_headers.iter().map(|sh| ElfSection::new(strtab.get_at(sh.sh_name),
        sh.sh_type, sh.sh_flags, sh.sh_addr, sh.sh_offset, sh.sh_size, sh.sh_entsize, sh.sh_info,
        sh.sh_link)).collect();
    let symbols = elf.syms.iter().map(|s| ElfSymbol::new(s.st_name, elf.strtab.get_at(s.st_name),
        s.st_value, s.st_shndx)).collect();
    Ok(ElfFile { machine: elf.header.e_machine, sections, symbols })
}

/// A symbol as errors name it: its own name where it has one, and the
/// runtime-writable section it lies in.
#[derive(Debug, Clone)]
pub struct SymbolRef {
    pub name: Option<String>,
    pub section: String,
}

#[derive(Debug)]
pub enum ElfError {
    Parse(String),
    MissingSymtab,
    SymtabWrongType,
    MissingSymbol(String),
    DuplicateSymbol(String),
    MissingStartupSection,
    StartupSectionNobits,
    StartupRelocationSection(String),
    StartupUnexpectedSection(String),
    StartupAllocatableSection(String),
    MissingStartSymbol,
    DuplicateStartSymbol,
    StartSymbolOutsideStartupSection,
    StartSymbolNotAtSectionStart,
    StartupSectionEmpty,
    StartupSectionEndOverflow,
    StartupSectionOutOfBounds,
    InvalidTargetSection { relocation: String, index: usize },
    MalformedRelocationSection(String),
    RelocationSectionEndOverflow(String),
    RelocationSectionOutOfBounds(String),
    InvalidAbs32Target { relocation: String, target: String },
    InvalidSymbolIndex { relocation: String, entry: usize, symbol: usize },
    ExecutableWritableReference {
        relocation: String,
        entry: usize,
        symbol: String,
        symbol_section: String,
        target: String,
    },
    SectionAddressOverflow,
    AddressOutsideSection { vaddr: u32, start: u32, end: u32 },
    AmbiguousThumbAddPc(u16),
    SectionFileRangeOverflow,
    SectionBeyondFile,
    LiteralAddressOverflow,
    MultipleLiteralPatterns(u32),
    TruncatedHalfword(usize),
    TruncatedWord(usize),
    RewriteInvalidTargetSection { relocation: Option<String>, index: usize },
    RewriteMalformedRelocationSection(Option<String>),
    RewriteRelocationEndOverflow,
    RewriteRelocationOutOfBounds,
    RewriteInvalidSymbolIndex { relocation: Option<String>, entry: usize, symbol: usize },
    UnsupportedRel32Reference { symbol: SymbolRef, relocation: Option<String> },
    SymbolBeforeWritableData(SymbolRef),
    UnsupportedRelocationPattern { symbol: SymbolRef, relocation: Option<String> },
    MovRegisterMismatch(SymbolRef),
    MissingThumbAddPc { symbol: SymbolRef, register: u16, found: Option<u16> },
    TruncatedArmSequence,
    ArmMovRegisterMismatch(SymbolRef),
    ArmAddRegisterMismatch(SymbolRef),
    ArmLdrRegisterMismatch(SymbolRef),
    UnsupportedArmMaterialization { symbol: SymbolRef, register: u32, found: u32 },
    PatchEndOverflow,
    PatchOutOfBounds(usize),
    UnsupportedRela(String),
    NotRelocationSection(String),
    MalformedRelocationTable(String),
    RelocationEntryOutOfBounds { table: String, entry: usize },
    UnsupportedRelocationType { table: String, entry: usize },
    NonWritableRelocationTarget { table: String, entry: usize, offset: u32 },
    UnmappableRelocation { table: String, entry: usize, offset: u32 },
    MissingSection(String),
    SectionSizeMismatch { section: String, actual: usize, expected: usize },
    NobitsSection(String),
    SectionEndOverflow(String),
    SectionOutOfBounds(String),
}

/// Parses an ELF file into its section headers and symbols.
pub fn parse_elf(bytes: &[u8]) -> (r: Result<ElfFile, ElfError>)
    ensures
        r is Ok <==> goblin_elf_model(bytes@) is Some,
        r matches Ok(f) ==> goblin_elf_model(bytes@) == Some(f),
        r matches Err(e) ==> e is Parse,
{
    match goblin_parse(bytes) {
        Ok(f) => Ok(f),
        Err(e) => Err(ElfError::Parse(e)),
    }
}

// ---------------------------------------------------------------------------
// Names
// ---------------------------------------------------------------------------
/// `name` is present and spells `s`.
pub open spec fn named(name: Option<String>, s: Seq<char>) -> bool {
    name matches Some(n) && n@ == s
}

/// Whether `name` is present and spells `s`.
pub fn name_is(name: &Option<String>, s: &str) -> (r: bool)
    ensures
        r == named(*name, s@),
{
    match name {
        Some(n) => *n == s.to_owned(),
        None => false,
    }
}

/// The name, or `fallback` where there is none.
pub open spec fn name_or(name: Option<String>, fallback: Seq<char>) -> Seq<char> {
    match name {
        Some(n) => n@,
        None => fallback,
    }
}

fn name_or_else(name: &Option<String>, fallback: &str) -> (r: String)
    ensures
        r@ == name_or(*name, fallback@),
{
    match name {
        Some(n) => n.clone(),
        None => fallback.to_owned(),
    }
}

/// The index of the first section named `name`, if any.
pub open spec fn first_section_named(sections: Seq<ElfSection>, name: Seq<char>) -> Option<int> {
    if exists|i: int| 0 <= i < sections.len() && named(#[trigger] sections[i].name, name) {
        Some(
            choose|i: int|
                0 <= i < sections.len() && named(#[trigger] sections[i].name, name) && forall|
                    j: int,
                | 0 <= j < i ==> !named(#[trigger] sections[j].name, name),
        )
    } else {
        None
    }
}

proof fn lemma_first_section_named(sections: Seq<ElfSection>, name: Seq<char>, i: int)
    requires
        0 <= i < sections.len(),
        named(sections[i].name, name),
        forall|j: int| 0 <= j < i ==> !named(#[trigger] sections[j].name, name),
    ensures
        first_section_named(sections, name) == Some(i),
{
    let k = choose|k: int|
        0 <= k < sections.len() && named(#[trigger] sections[k].name, name) && forall|j: int|
            0 <= j < k ==> !named(#[trigger] sections[j].name, name);
    assert(0 <= k < sections.len() && named(sections[k].name, name) && forall|j: int|
        0 <= j < k ==> !named(#[trigger] sections[j].name, name));
    if k < i {
        assert(!named(sections[k].name, name));
    }
    if i < k {
        assert(!named(sections[i].name, name));
    }
}

/// The index of the first section named `name`.
fn find_section(sections: &Vec<ElfSection>, name: &str) -> (r: Option<usize>)
    ensures
        r matches Some(i) ==> i < sections@.len() && first_section_named(sections@, name@) == Some(
            i as int,
        ),
        r is None ==> first_section_named(sections@, name@) is None,
{
    let mut i: usize = 0;
    while i < sections.len()
        invariant
            i <= sections@.len(),
            forall|j: int| 0 <= j < i ==> !named(#[trigger] sections@[j].name, name@),
        decreases sections@.len() - i,
    {
        if name_is(&sections[i].name, name) {
            proof {
                lemma_first_section_named(sections@, name@, i as int);
            }
            return Some(i);
        }
        i = i + 1;
    }
    assert(!exists|k: int| 0 <= k < sections@.len() && named(#[trigger] sections@[k].name, name@));
    None
}

// ---------------------------------------------------------------------------
// Code modes
// ---------------------------------------------------------------------------
#[derive(Debug, Clone, Copy, PartialEq, Eq)]
pub enum ArmCodeMode {
    Arm,
    Thumb,
}

impl ArmCodeMode {
    /// Thumb when the low bit of the symbol value is set, ARM otherwise.
    pub fn from_symbol_value(value: u32) -> (r: Self)
        ensures
            r == (if value & 1 != 0 {
                ArmCodeMode::Thumb
            } else {
                ArmCodeMode::Arm
            }),
    {
        if (value & 1) != 0 {
            ArmCodeMode::Thumb
        } else {
            ArmCodeMode::Arm
        }
    }

    pub fn as_str(self) -> (r: &'static str)
        ensures
            r@ == (match self {
                ArmCodeMode::Arm => "ARM"@,
                ArmCodeMode::Thumb => "Thumb"@,
            }),
    {
        match self {
            ArmCodeMode::Arm => "ARM",
            ArmCodeMode::Thumb => "Thumb",
        }
    }
}

// ---------------------------------------------------------------------------
// Instruction encodings
// ---------------------------------------------------------------------------
/// The two little-endian bytes of a halfword.
pub open spec fn le_half(x: u16) -> Seq<u8> {
    seq![(x & 0xff) as u8, (x >> 8u16) as u8]
}

/// The little-endian halfword at `s[i..i + 2]`.
pub open spec fn half_at(s: Seq<u8>, i: int) -> u16 {
    (s[i] + 256 * s[i + 1]) as u16
}

fn half_bytes(x: u16) -> (r: [u8; 2])
    ensures
        r@ == le_half(x),
{
    let r = [(x & 0xff) as u8, (x >> 8u16) as u8];
    assert(r@ =~= le_half(x));
    r
}

/// The first halfword of a Thumb-2 MOVW or MOVT: the opcode, `i` and `imm4`.
pub open spec fn thumb_mov_first(opcode: u16, imm16: u16) -> u16 {
    opcode | (((imm16 >> 11u16) & 0x1) << 10u16) | ((imm16 >> 12u16) & 0xf)
}

/// The second halfword of a Thumb-2 MOVW or MOVT: `imm3`, `Rd` and `imm8`.
pub open spec fn thumb_mov_second(rd: u16, imm16: u16) -> u16 {
    (((imm16 >> 8u16) & 0x7) << 12u16) | (rd << 8u16) | (imm16 & 0xff)
}

fn encode_thumb_mov(opcode: u16, rd: u16, imm16: u16) -> (r: [u8; 4])
    ensures
        r@ == le_half(thumb_mov_first(opcode, imm16)) + le_half(thumb_mov_second(rd, imm16)),
{
    let first = opcode | (((imm16 >> 11u16) & 0x1) << 10u16) | ((imm16 >> 12u16) & 0xf);
    let second = (((imm16 >> 8u16) & 0x7) << 12u16) | (rd << 8u16) | (imm16 & 0xff);
    let first = half_bytes(first);
    let second = half_bytes(second);
    let r = [first[0], first[1], second[0], second[1]];
    assert(r@ =~= le_half(thumb_mov_first(opcode, imm16)) + le_half(
        thumb_mov_second(rd, imm16),
    ));
    r
}

/// Thumb-2 `movw rd, #imm16`.
fn encode_thumb_movw(rd: u16, imm16: u16) -> (r: [u8; 4])
    ensures
        r@ == le_half(thumb_mov_first(0xf240, imm16)) + le_half(thumb_mov_second(rd, imm16)),
{
    encode_thumb_mov(0xf240, rd, imm16)
}

/// Thumb-2 `movt rd, #imm16`.
fn encode_thumb_movt(rd: u16, imm16: u16) -> (r: [u8; 4])
    ensures
        r@ == le_half(thumb_mov_first(0xf2c0, imm16)) + le_half(thumb_mov_second(rd, imm16)),
{
    encode_thumb_mov(0xf2c0, rd, imm16)
}

/// Thumb `add rd, rm` with any registers: `0x4400 | D << 7 | Rm << 3 | Rdn`.
pub open spec fn thumb_add_register(rd: u16, rm: u16) -> u16 {
    0x4400u16 | ((rd & 0x8) << 4u16) | (rm << 3u16) | (rd & 0x7)
}

/// Thumb `add rd, sb` (`r9`).
pub fn encode_thumb_add_sb(rd: u16) -> (r: [u8; 2])
    ensures
        r@ == le_half(thumb_add_register(rd, 9)),
{
    half_bytes(0x4400u16 | ((rd & 0x8) << 4u16) | (9u16 << 3u16) | (rd & 0x7))
}

/// Thumb `add rd, pc`.
pub fn encode_thumb_add_pc(rd: u16) -> (r: [u8; 2])
    ensures
        r@ == le_half(thumb_add_register(rd, 15)),
{
    half_bytes(0x4400u16 | ((rd & 0x8) << 4u16) | (15u16 << 3u16) | (rd & 0x7))
}

/// The destination and source registers of a Thumb `add rd, rm`.
pub open spec fn spec_decode_thumb_add_register(insn: u16) -> Option<(u16, u16)> {
    if insn & 0xfc00 != 0x4400 {
        None
    } else {
        Some((((insn >> 4u16) & 0x8) | (insn & 0x7), (insn >> 3u16) & 0xf))
    }
}

pub fn decode_thumb_add_register(insn: u16) -> (r: Option<(u16, u16)>)
    ensures
        r == spec_decode_thumb_add_register(insn),
{
    if (insn & 0xfc00) != 0x4400 {
        return None;
    }
    let rd = ((insn >> 4u16) & 0x8) | (insn & 0x7);
    let rm = (insn >> 3u16) & 0xf;
    Some((rd, rm))
}

/// A Thumb `add rd, rm` decodes back to its registers.
pub proof fn lemma_thumb_add_register_round_trip(rd: u16, rm: u16)
    requires
        rd < 16,
        rm < 16,
    ensures
        spec_decode_thumb_add_register(thumb_add_register(rd, rm)) == Some((rd, rm)),
{
    let insn = thumb_add_register(rd, rm);
    assert(rd < 16 && rm < 16 ==> (0x4400u16 | ((rd & 0x8) << 4u16) | (rm << 3u16) | (rd & 0x7))
        & 0xfc00 == 0x4400) by (bit_vector);
    assert(rd < 16 && rm < 16 ==> (((0x4400u16 | ((rd & 0x8) << 4u16) | (rm << 3u16) | (rd
        & 0x7)) >> 4u16) & 0x8) | ((0x4400u16 | ((rd & 0x8) << 4u16) | (rm << 3u16) | (rd & 0x7))
        & 0x7) == rd) by (bit_vector);
    assert(rd < 16 && rm < 16 ==> ((0x4400u16 | ((rd & 0x8) << 4u16) | (rm << 3u16) | (rd & 0x7))
        >> 3u16) & 0xf == rm) by (bit_vector);
}

/// The little-endian bytes of an ARM instruction word.
pub open spec fn arm_add_reg_base(cond: u32, rd: u32, rn: u32, rm: u32) -> u32 {
    (cond << 28u32) | 0x00800000u32 | (rn << 16u32) | (rd << 12u32) | rm
}

pub open spec fn arm_ldr_reg_offset(cond: u32, rd: u32, rn: u32, rm: u32) -> u32 {
    (cond << 28u32) | 0x07900000u32 | (rn << 16u32) | (rd << 12u32) | rm
}

/// ARM `add rd, rn, rm` under condition `cond`.
fn encode_arm_add_reg_base(cond: u32, rd: u32, rn: u32, rm: u32) -> (r: [u8; 4])
    ensures
        r@ == crate::common::le_bytes(arm_add_reg_base(cond, rd, rn, rm)),
{
    crate::common::to_word((cond << 28u32) | 0x00800000u32 | (rn << 16u32) | (rd << 12u32) | rm)
}

/// ARM `ldr rd, [rn, rm]` under condition `cond`.
fn encode_arm_ldr_reg_offset(cond: u32, rd: u32, rn: u32, rm: u32) -> (r: [u8; 4])
    ensures
        r@ == crate::common::le_bytes(arm_ldr_reg_offset(cond, rd, rn, rm)),
{
    crate::common::to_word((cond << 28u32) | 0x07900000u32 | (rn << 16u32) | (rd << 12u32) | rm)
}

/// The condition and register of an ARM `add rd, pc, rd` (data processing,
/// register operand, no shift, flags untouched).
pub open spec fn spec_decode_arm_add_pc_self(insn: u32) -> Option<(u32, u32)> {
    let is_data_proc_reg = (insn >> 26u32) & 0x3 == 0 && (insn >> 25u32) & 0x1 == 0;
    if is_data_proc_reg && (insn >> 21u32) & 0xf == 0x4 && (insn >> 20u32) & 0x1 == 0 && (insn
        >> 16u32) & 0xf == 15 && (insn >> 12u32) & 0xf == insn & 0xf && (insn >> 7u32) & 0x1f == 0
        && (insn >> 5u32) & 0x3 == 0 && (insn >> 4u32) & 0x1 == 0 {
        Some((insn >> 28u32, (insn >> 12u32) & 0xf))
    } else {
        None
    }
}

pub fn decode_arm_add_pc_self(insn: u32) -> (r: Option<(u32, u32)>)
    ensures
        r == spec_decode_arm_add_pc_self(insn),
{
    let cond = insn >> 28u32;
    let opcode = (insn >> 21u32) & 0xf;
    let s = (insn >> 20u32) & 0x1;
    let rn = (insn >> 16u32) & 0xf;
    let rd = (insn >> 12u32) & 0xf;
    let shift_imm = (insn >> 7u32) & 0x1f;
    let shift_ty = (insn >> 5u32) & 0x3;
    let reg_shift = (insn >> 4u32) & 0x1;
    let rm = insn & 0xf;
    let is_data_proc_reg = ((insn >> 26u32) & 0x3) == 0 && ((insn >> 25u32) & 0x1) == 0;
    if is_data_proc_reg && opcode == 0x4 && s == 0 && rn == 15 && rd == rm && shift_imm == 0
        && shift_ty == 0 && reg_shift == 0 {
        Some((cond, rd))
    } else {
        None
    }
}

/// The condition and register of an ARM `ldr rd, [pc, rd]` (pre-indexed,
/// added offset, word, no write-back, no shift).
pub open spec fn spec_decode_arm_ldr_pc_self(insn: u32) -> Option<(u32, u32)> {
    if (insn >> 25u32) & 0x7 == 0b011 && (insn >> 24u32) & 0x1 == 1 && (insn >> 23u32) & 0x1 == 1
        && (insn >> 22u32) & 0x1 == 0 && (insn >> 21u32) & 0x1 == 0 && (insn >> 20u32) & 0x1 == 1
        && (insn >> 16u32) & 0xf == 15 && (insn >> 12u32) & 0xf == insn & 0xf && (insn >> 7u32)
        & 0x1f == 0 && (insn >> 5u32) & 0x3 == 0 && (insn >> 4u32) & 0x1 == 0 {
        Some((insn >> 28u32, (insn >> 12u32) & 0xf))
    } else {
        None
    }
}

pub fn decode_arm_ldr_pc_self(insn: u32) -> (r: Option<(u32, u32)>)
    ensures
        r == spec_decode_arm_ldr_pc_self(insn),
{
    let cond = insn >> 28u32;
    let class = (insn >> 25u32) & 0x7;
    let p = (insn >> 24u32) & 0x1;
    let u = (insn >> 23u32) & 0x1;
    let b = (insn >> 22u32) & 0x1;
    let w = (insn >> 21u32) & 0x1;
    let l = (insn >> 20u32) & 0x1;
    let rn = (insn >> 16u32) & 0xf;
    let rd = (insn >> 12u32) & 0xf;
    let shift_imm = (insn >> 7u32) & 0x1f;
    let shift_ty = (insn >> 5u32) & 0x3;
    let reg_shift = (insn >> 4u32) & 0x1;
    let rm = insn & 0xf;
    if class == 0b011 && p == 1 && u == 1 && b == 0 && w == 0 && l == 1 && rn == 15 && rd == rm
        && shift_imm == 0 && shift_ty == 0 && reg_shift == 0 {
        Some((cond, rd))
    } else {
        None
    }
}

/// An ARM `add rd, pc, rd` and `ldr rd, [pc, rd]` written with the encoders
/// decode back to their condition and register.
pub proof fn lemma_arm_pc_self_round_trip(cond: u32, rd: u32)
    requires
        cond < 16,
        rd < 16,
    ensures
        spec_decode_arm_add_pc_self(arm_add_reg_base(cond, rd, 15, rd)) == Some((cond, rd)),
        spec_decode_arm_ldr_pc_self(arm_ldr_reg_offset(cond, rd, 15, rd)) == Some((cond, rd)),
{
    let a = arm_add_reg_base(cond, rd, 15, rd);
    assert(cond < 16 && rd < 16 && a == (cond << 28u32) | 0x00800000u32 | (15u32 << 16u32) | (rd
        << 12u32) | rd ==> (a >> 26u32) & 0x3 == 0 && (a >> 25u32) & 0x1 == 0 && (a >> 21u32) & 0xf
        == 0x4 && (a >> 20u32) & 0x1 == 0 && (a >> 16u32) & 0xf == 15 && (a >> 12u32) & 0xf == rd
        && a & 0xf == rd && (a >> 7u32) & 0x1f == 0 && (a >> 5u32) & 0x3 == 0 && (a >> 4u32) & 0x1
        == 0 && a >> 28u32 == cond) by (bit_vector);
    let l = arm_ldr_reg_offset(cond, rd, 15, rd);
    assert(cond < 16 && rd < 16 && l == (cond << 28u32) | 0x07900000u32 | (15u32 << 16u32) | (rd
        << 12u32) | rd ==> (l >> 25u32) & 0x7 == 0b011 && (l >> 24u32) & 0x1 == 1 && (l >> 23u32)
        & 0x1 == 1 && (l >> 22u32) & 0x1 == 0 && (l >> 21u32) & 0x1 == 0 && (l >> 20u32) & 0x1 == 1
        && (l >> 16u32) & 0xf == 15 && (l >> 12u32) & 0xf == rd && l & 0xf == rd && (l >> 7u32)
        & 0x1f == 0 && (l >> 5u32) & 0x3 == 0 && (l >> 4u32) & 0x1 == 0 && l >> 28u32 == cond)
        by (bit_vector);
}

/// The ARM MOVW/MOVT instruction word as this tool writes it.
pub open spec fn arm_mov(base: u32, rd: u32, imm16: u32) -> u32 {
    base | (((imm16 >> 12u32) & 0xf) << 16u32) | (rd << 12u32) | (((imm16 >> 11u32) & 0x1)
        << 26u32) | ((imm16 >> 8u32) & 0xf) | (imm16 & 0xff)
}

fn encode_arm_movw(rd: u32, imm16: u32) -> (r: [u8; 4])
    ensures
        r@ == crate::common::le_bytes(arm_mov(0xe3000000, rd, imm16)),
{
    crate::common::to_word(
        0xe3000000u32 | (((imm16 >> 12u32) & 0xf) << 16u32) | (rd << 12u32) | (((imm16 >> 11u32)
            & 0x1) << 26u32) | ((imm16 >> 8u32) & 0xf) | (imm16 & 0xff),
    )
}

fn encode_arm_movt(rd: u32, imm16: u32) -> (r: [u8; 4])
    ensures
        r@ == crate::common::le_bytes(arm_mov(0xe3400000, rd, imm16)),
{
    crate::common::to_word(
        0xe3400000u32 | (((imm16 >> 12u32) & 0xf) << 16u32) | (rd << 12u32) | (((imm16 >> 11u32)
            & 0x1) << 26u32) | ((imm16 >> 8u32) & 0xf) | (imm16 & 0xff),
    )
}

// ---------------------------------------------------------------------------
// Reading the file
// ---------------------------------------------------------------------------
pub open spec fn spec_read_u16(bytes: Seq<u8>, offset: int) -> Result<u16, ElfError> {
    if offset + 2 <= bytes.len() {
        Ok(half_at(bytes, offset))
    } else {
        Err(ElfError::TruncatedHalfword(offset as usize))
    }
}

/// The little-endian halfword at `offset`.
fn read_u16(bytes: &[u8], offset: usize) -> (r: Result<u16, ElfError>)
    ensures
        r == spec_read_u16(bytes@, offset as int),
{
    if bytes.len() < 2 || offset > bytes.len() - 2 {
        return Err(ElfError::TruncatedHalfword(offset));
    }
    Ok((bytes[offset] as u16) + 256 * (bytes[offset + 1] as u16))
}

pub open spec fn spec_read_u32(bytes: Seq<u8>, offset: int) -> Result<u32, ElfError> {
    if offset + 4 <= bytes.len() {
        Ok(crate::common::le_word(bytes, offset))
    } else {
        Err(ElfError::TruncatedWord(offset as usize))
    }
}

/// The little-endian word at `offset`.
fn read_u32(bytes: &[u8], offset: usize) -> (r: Result<u32, ElfError>)
    ensures
        r == spec_read_u32(bytes@, offset as int),
{
    if bytes.len() < 4 || offset > bytes.len() - 4 {
        return Err(ElfError::TruncatedWord(offset));
    }
    Ok(crate::common::read_le_word(bytes, offset))
}

/// The file offset of `vaddr` inside `section`; an offset past `usize` is
/// refused as an address overflow.
pub open spec fn spec_file_offset_for_vaddr(
    section: ElfSection,
    vaddr: u32,
) -> Result<usize, ElfError> {
    let start = section.addr as u32;
    let end = start + section.size as u32;
    if end > u32::MAX {
        Err(ElfError::SectionAddressOverflow)
    } else if vaddr < start || vaddr >= end {
        Err(ElfError::AddressOutsideSection { vaddr, start, end: end as u32 })
    } else if section.offset as usize + (vaddr - start) > usize::MAX {
        Err(ElfError::SectionAddressOverflow)
    } else {
        Ok((section.offset as usize + (vaddr - start)) as usize)
    }
}

fn file_offset_for_vaddr(section: &ElfSection, vaddr: u32) -> (r: Result<usize, ElfError>)
    ensures
        r == spec_file_offset_for_vaddr(*section, vaddr),
{
    let section_start = section.addr as u32;
    let section_size = section.size as u32;
    let section_end = match section_start.checked_add(section_size) {
        Some(v) => v,
        None => {
            return Err(ElfError::SectionAddressOverflow);
        },
    };
    if vaddr < section_start || vaddr >= section_end {
        return Err(
            ElfError::AddressOutsideSection { vaddr, start: section_start, end: section_end },
        );
    }
    let local = (vaddr - section_start) as usize;
    match (section.offset as usize).checked_add(local) {
        Some(v) => Ok(v),
        None => Err(ElfError::SectionAddressOverflow),
    }
}

/// Scans the halfwords from `off` below `end` for a single `add rd, pc`,
/// `found` being the one met so far.
pub open spec fn spec_scan_add_pc(
    bytes: Seq<u8>,
    off: int,
    end: int,
    rd: u16,
    found: Option<usize>,
) -> Result<Option<usize>, ElfError>
    decreases end - off,
{
    if off + 2 > end {
        Ok(found)
    } else if off + 2 > bytes.len() {
        Err(ElfError::TruncatedHalfword(off as usize))
    } else if spec_decode_thumb_add_register(half_at(bytes, off)) == Some((rd, 15u16)) {
        if found is Some {
            Err(ElfError::AmbiguousThumbAddPc(rd))
        } else {
            spec_scan_add_pc(bytes, off + 2, end, rd, Some(off as usize))
        }
    } else {
        spec_scan_add_pc(bytes, off + 2, end, rd, found)
    }
}

/// The offset of the one `add rd, pc` among the halfwords between
/// `search_start` and `search_end`; an error where there are two.
pub fn find_thumb_add_pc_for_register(
    elf_bytes: &[u8],
    search_start: usize,
    search_end: usize,
    rd: u16,
) -> (r: Result<Option<usize>, ElfError>)
    ensures
        r == spec_scan_add_pc(elf_bytes@, search_start as int, search_end as int, rd, None),
{
    let mut found: Option<usize> = None;
    let mut off = search_start;
    while off <= search_end && search_end - off >= 2
        invariant
            off <= search_start || off <= search_end,
            spec_scan_add_pc(elf_bytes@, search_start as int, search_end as int, rd, None)
                == spec_scan_add_pc(elf_bytes@, off as int, search_end as int, rd, found),
        decreases search_end - off,
    {
        let insn = match read_u16(elf_bytes, off) {
            Ok(v) => v,
            Err(e) => {
                return Err(e);
            },
        };
        if decode_thumb_add_register(insn) == Some((rd, 15u16)) {
            if found.is_some() {
                return Err(ElfError::AmbiguousThumbAddPc(rd));
            }
            found = Some(off);
        }
        off = off + 2;
    }
    Ok(found)
}

/// Offset and type-and-symbol word of relocation entry `i`.
pub open spec fn rel_entry_offset(start: int, entsize: int, i: int) -> int {
    start + i * entsize
}

pub proof fn lemma_entry_in_table(start: int, entsize: int, count: int, i: int)
    requires
        0 <= i < count,
        8 <= entsize,
        0 <= start,
    ensures
        rel_entry_offset(start, entsize, i) + 8 <= start + count * entsize,
        rel_entry_offset(start, entsize, i) + entsize <= start + count * entsize,
        0 <= i * entsize,
{
    assert(i * entsize + entsize <= count * entsize) by (nonlinear_arith)
        requires
            0 <= i < count,
            8 <= entsize,
    ;
    assert(0 <= i * entsize) by (nonlinear_arith)
        requires
            0 <= i,
            8 <= entsize,
    ;
}

/// The MOVT relocation paired with the MOVW at entry `movw_index`: the first
/// later entry of type `expected` for the same symbol, looking no further than
/// `max_offset`.
pub open spec fn spec_paired_movt(
    bytes: Seq<u8>,
    start: int,
    entsize: int,
    count: int,
    candidate: int,
    symbol_index: usize,
    max_offset: u32,
    expected: u32,
) -> Option<(usize, u32)>
    decreases count - candidate,
{
    if candidate >= count {
        None
    } else {
        let off = rel_entry_offset(start, entsize, candidate);
        let r_offset = crate::common::le_word(bytes, off);
        let r_info = crate::common::le_word(bytes, off + 4);
        if r_offset > max_offset {
            None
        } else if r_info & 0xff == expected && (r_info >> 8u32) as usize == symbol_index {
            Some((off as usize, r_offset))
        } else {
            spec_paired_movt(
                bytes,
                start,
                entsize,
                count,
                candidate + 1,
                symbol_index,
                max_offset,
                expected,
            )
        }
    }
}

fn find_paired_movt_relocation(
    elf_bytes: &[u8],
    rel_start: usize,
    rel_entsize: usize,
    rel_count: usize,
    movw_index: usize,
    symbol_index: usize,
    movw_offset: u32,
    expected_movt_type: u32,
) -> (r: Result<Option<(usize, u32)>, ElfError>)
    requires
        8 <= rel_entsize,
        movw_index < rel_count,
        rel_start + rel_count * rel_entsize <= elf_bytes@.len(),
    ensures
        r == Ok::<Option<(usize, u32)>, ElfError>(
            spec_paired_movt(
                elf_bytes@,
                rel_start as int,
                rel_entsize as int,
                rel_count as int,
                movw_index + 1,
                symbol_index,
                movw_offset.saturating_add(16),
                expected_movt_type,
            ),
        ),
{
    let max_search_offset = movw_offset.saturating_add(16);
    let mut candidate_index = movw_index + 1;
    let len = elf_bytes.len();
    while candidate_index < rel_count
        invariant
            len == elf_bytes@.len(),
            max_search_offset == movw_offset.saturating_add(16),
            8 <= rel_entsize,
            movw_index < candidate_index <= rel_count,
            rel_start + rel_count * rel_entsize <= elf_bytes@.len(),
            spec_paired_movt(
                elf_bytes@,
                rel_start as int,
                rel_entsize as int,
                rel_count as int,
                movw_index + 1,
                symbol_index,
                max_search_offset,
                expected_movt_type,
            ) == spec_paired_movt(
                elf_bytes@,
                rel_start as int,
                rel_entsize as int,
                rel_count as int,
                candidate_index as int,
                symbol_index,
                max_search_offset,
                expected_movt_type,
            ),
        decreases rel_count - candidate_index,
    {
        proof {
            lemma_entry_in_table(
                rel_start as int,
                rel_entsize as int,
                rel_count as int,
                candidate_index as int,
            );
        }
        assert(candidate_index * rel_entsize + 8 <= rel_count * rel_entsize);
        let candidate_off = rel_start + candidate_index * rel_entsize;
        let candidate_r_offset = crate::common::read_le_word(elf_bytes, candidate_off);
        if candidate_r_offset > max_search_offset {
            return Ok(None);
        }
        let candidate_r_info = crate::common::read_le_word(elf_bytes, candidate_off + 4);
        let candidate_r_type = candidate_r_info & 0xff;
        let candidate_symbol_index = (candidate_r_info >> 8u32) as usize;
        if candidate_r_type == expected_movt_type && candidate_symbol_index == symbol_index {
            return Ok(Some((candidate_off, candidate_r_offset)));
        }
        candidate_index = candidate_index + 1;
    }
    Ok(None)
}

/// The first `add rd, pc` among the halfwords from `off` below `end`.
pub open spec fn spec_first_add_pc(bytes: Seq<u8>, off: int, end: int, rd: u16) -> Option<usize>
    decreases end - off,
{
    if off + 2 > end {
        None
    } else if spec_decode_thumb_add_register(half_at(bytes, off)) == Some((rd, 15u16)) {
        Some(off as usize)
    } else {
        spec_first_add_pc(bytes, off + 2, end, rd)
    }
}

/// The address a Thumb `ldr rd, [pc, #imm8 * 4]` at `instr_vaddr` loads from,
/// unless it passes 2^32.
pub open spec fn literal_address(instr_vaddr: u32, imm8: u32) -> Option<u32> {
    let base = instr_vaddr.wrapping_add(4) & !3u32;
    if base + imm8 * 4 > u32::MAX {
        None
    } else {
        Some((base + imm8 * 4) as u32)
    }
}

/// Scans the section for a Thumb `ldr rd, [pc, #..]` of the literal at
/// `literal` followed within 16 bytes by an `add rd, pc`.
pub open spec fn spec_scan_literal_pattern(
    bytes: Seq<u8>,
    section_start: int,
    section_end: int,
    addr: u32,
    literal: u32,
    off: int,
    found: Option<(usize, usize, u16)>,
) -> Result<Option<(usize, usize, u16)>, ElfError>
    decreases section_end - off,
{
    if off + 4 > section_end {
        Ok(found)
    } else {
        let insn = half_at(bytes, off);
        let next = spec_scan_literal_pattern(
            bytes,
            section_start,
            section_end,
            addr,
            literal,
            off + 2,
            found,
        );
        if insn & 0xf800 == 0x4800 {
            let rd = (insn >> 8u16) & 0x7;
            let imm8 = (insn & 0xff) as u32;
            let instr_vaddr = addr.wrapping_add((off - section_start) as u32);
            match literal_address(instr_vaddr, imm8) {
                None => Err(ElfError::LiteralAddressOverflow),
                Some(a) => if a == literal {
                    let search_end = if off + 16 < section_end {
                        off + 16
                    } else {
                        section_end
                    };
                    match spec_first_add_pc(bytes, off + 2, search_end, rd) {
                        Some(add_off) => if found is Some {
                            Err(ElfError::MultipleLiteralPatterns(literal))
                        } else {
                            spec_scan_literal_pattern(
                                bytes,
                                section_start,
                                section_end,
                                addr,
                                literal,
                                off + 2,
                                Some((off as usize, add_off, rd)),
                            )
                        },
                        None => next,
                    }
                } else {
                    next
                },
            }
        } else {
            next
        }
    }
}

/// Where the section lies in the file, or why it cannot be read.
pub open spec fn spec_section_file_range(section: ElfSection, file_len: int) -> Result<
    (int, int),
    ElfError,
> {
    let start = section.offset as usize as int;
    let end = start + section.size as usize;
    if end > usize::MAX {
        Err(ElfError::SectionFileRangeOverflow)
    } else if end > file_len {
        Err(ElfError::SectionBeyondFile)
    } else {
        Ok((start, end))
    }
}

fn find_first_add_pc(elf_bytes: &[u8], start: usize, end: usize, rd: u16) -> (r: Option<usize>)
    requires
        start <= end,
        end <= elf_bytes@.len() <= usize::MAX - 16,
    ensures
        r == spec_first_add_pc(elf_bytes@, start as int, end as int, rd),
{
    let mut add_off = start;
    while add_off + 2 <= end
        invariant
            end <= elf_bytes@.len() <= usize::MAX - 16,
            add_off <= end,
            spec_first_add_pc(elf_bytes@, start as int, end as int, rd) == spec_first_add_pc(
                elf_bytes@,
                add_off as int,
                end as int,
                rd,
            ),
        decreases end - add_off,
    {
        let add_insn = (elf_bytes[add_off] as u16) + 256 * (elf_bytes[add_off + 1] as u16);
        if decode_thumb_add_register(add_insn) == Some((rd, 15u16)) {
            return Some(add_off);
        }
        add_off = add_off + 2;
    }
    None
}

/// The Thumb literal-load pattern that materialises the address stored at
/// `literal_vaddr`: the offsets of the `ldr` and of its `add rd, pc`, and `rd`.
fn find_thumb_ldr_literal_add_pc_pattern(
    elf_bytes: &[u8],
    target_section: &ElfSection,
    literal_vaddr: u32,
) -> (r: Result<Option<(usize, usize, u16)>, ElfError>)
    requires
        elf_bytes@.len() <= usize::MAX - 16,
    ensures
        r == match spec_section_file_range(*target_section, elf_bytes@.len() as int) {
            Err(e) => Err(e),
            Ok((start, end)) => spec_scan_literal_pattern(
                elf_bytes@,
                start,
                end,
                target_section.addr as u32,
                literal_vaddr,
                start,
                None,
            ),
        },
{
    let section_file_start = target_section.offset as usize;
    let section_file_end = match section_file_start.checked_add(target_section.size as usize) {
        Some(v) => v,
        None => {
            return Err(ElfError::SectionFileRangeOverflow);
        },
    };
    if section_file_end > elf_bytes.len() {
        return Err(ElfError::SectionBeyondFile);
    }
    let addr = target_section.addr as u32;
    let mut found: Option<(usize, usize, u16)> = None;
    let mut off = section_file_start;
    while off + 4 <= section_file_end
        invariant
            section_file_end <= elf_bytes@.len() <= usize::MAX - 16,
            section_file_start <= off <= section_file_end,
            addr == target_section.addr as u32,
            spec_section_file_range(*target_section, elf_bytes@.len() as int) == Ok::<
                (int, int),
                ElfError,
            >((section_file_start as int, section_file_end as int)),
            spec_scan_literal_pattern(
                elf_bytes@,
                section_file_start as int,
                section_file_end as int,
                addr,
                literal_vaddr,
                section_file_start as int,
                None,
            ) == spec_scan_literal_pattern(
                elf_bytes@,
                section_file_start as int,
                section_file_end as int,
                addr,
                literal_vaddr,
                off as int,
                found,
            ),
        decreases section_file_end - off,
    {
        let insn = (elf_bytes[off] as u16) + 256 * (elf_bytes[off + 1] as u16);
        if (insn & 0xf800) == 0x4800 {
            let rd = (insn >> 8u16) & 0x7;
            let imm8 = (insn & 0xff) as u32;
            let instr_vaddr = addr.wrapping_add((off - section_file_start) as u32);
            let base = instr_vaddr.wrapping_add(4) & !3u32;
            let literal_addr = match base.checked_add(imm8 * 4) {
                Some(v) => v,
                None => {
                    assert(literal_address(instr_vaddr, imm8) is None);
                    return Err(ElfError::LiteralAddressOverflow);
                },
            };
            assert(literal_address(instr_vaddr, imm8) == Some(literal_addr));
            if literal_addr == literal_vaddr {
                let search_end = if off + 16 < section_file_end {
                    off + 16
                } else {
                    section_file_end
                };
                match find_first_add_pc(elf_bytes, off + 2, search_end, rd) {
                    Some(add_off) => {
                        if found.is_some() {
                            return Err(ElfError::MultipleLiteralPatterns(literal_vaddr));
                        }
                        found = Some((off, add_off, rd));
                    },
                    None => {},
                }
            }
        }
        off = off + 2;
    }
    Ok(found)
}

// ---------------------------------------------------------------------------
// Symbols
// ---------------------------------------------------------------------------
/// The symbols with a name (a nonzero name index) that spells `name`, in table order.
pub open spec fn symbols_named(symbols: Seq<ElfSymbol>, name: Seq<char>) -> Seq<ElfSymbol>
    decreases symbols.len(),
{
    if symbols.len() == 0 {
        Seq::empty()
    } else {
        let rest = symbols_named(symbols.drop_last(), name);
        if symbols.last().name_index != 0 && named(symbols.last().name, name) {
            rest.push(symbols.last())
        } else {
            rest
        }
    }
}

fn collect_symbols_named(symbols: &Vec<ElfSymbol>, name: &str) -> (r: Vec<ElfSymbol>)
    ensures
        r@ == symbols_named(symbols@, name@),
{
    let mut out: Vec<ElfSymbol> = Vec::new();
    let mut i: usize = 0;
    while i < symbols.len()
        invariant
            i <= symbols@.len(),
            out@ == symbols_named(symbols@.take(i as int), name@),
        decreases symbols@.len() - i,
    {
        assert(symbols@.take(i + 1).drop_last() =~= symbols@.take(i as int));
        let symbol = &symbols[i];
        if symbol.name_index != 0 && name_is(&symbol.name, name) {
            out.push(symbol.duplicate());
            assert(out@ =~= symbols_named(symbols@.take(i + 1), name@)) by {
                assert(symbols@.take(i + 1).last() == symbols@[i as int]);
            }
        } else {
            assert(symbols@.take(i + 1).last() == symbols@[i as int]);
        }
        i = i + 1;
    }
    assert(symbols@.take(symbols@.len() as int) =~= symbols@);
    out
}

/// Why looking up the single symbol `name` fails, if it does.
pub open spec fn single_symbol_failure(
    symbols: Seq<ElfSymbol>,
    name: Seq<char>,
    e: ElfError,
) -> bool {
    let found = symbols_named(symbols, name);
    &&& found.len() == 0 ==> (e matches ElfError::MissingSymbol(n) && n@ == name)
    &&& found.len() > 1 ==> (e matches ElfError::DuplicateSymbol(n) && n@ == name)
    &&& found.len() != 1
}

/// The value of the one symbol called `name`.
fn single_symbol_value(symbols: &Vec<ElfSymbol>, name: &str) -> (r: Result<u32, ElfError>)
    ensures
        r matches Ok(v) ==> symbols_named(symbols@, name@).len() == 1 && v
            == symbols_named(symbols@, name@)[0].value as u32,
        r matches Err(e) ==> single_symbol_failure(symbols@, name@, e),
        r is Ok <==> symbols_named(symbols@, name@).len() == 1,
{
    let found = collect_symbols_named(symbols, name);
    if found.len() == 0 {
        return Err(ElfError::MissingSymbol(name.to_owned()));
    }
    if found.len() > 1 {
        return Err(ElfError::DuplicateSymbol(name.to_owned()));
    }
    Ok(found[0].value as u32)
}

/// The value of the one symbol called `symbol_name`; the file must have a
/// `.symtab` section.
pub fn export_symbol_value(elf: &ElfFile, symbol_name: &str) -> (r: Result<u32, ElfError>)
    ensures
        first_section_named(elf.sections@, ".symtab"@) is None ==> r matches Err(
            ElfError::MissingSymtab,
        ),
        first_section_named(elf.sections@, ".symtab"@) is Some ==> {
            &&& r matches Ok(v) ==> symbols_named(elf.symbols@, symbol_name@).len() == 1 && v
                == symbols_named(elf.symbols@, symbol_name@)[0].value as u32
            &&& r matches Err(e) ==> single_symbol_failure(elf.symbols@, symbol_name@, e)
            &&& r is Ok <==> symbols_named(elf.symbols@, symbol_name@).len() == 1
        },
{
    proof {
        reveal_strlit(".symtab");
    }
    match find_section(&elf.sections, ".symtab") {
        None => Err(ElfError::MissingSymtab),
        Some(_) => single_symbol_value(&elf.symbols, symbol_name),
    }
}

/// The code mode of the symbol `symbol_name`, by the low bit of its value.
pub fn symbol_code_mode(elf: &ElfFile, symbol_name: &str) -> (r: Result<ArmCodeMode, ElfError>)
    ensures
        first_section_named(elf.sections@, ".symtab"@) is None ==> r matches Err(
            ElfError::MissingSymtab,
        ),
        first_section_named(elf.sections@, ".symtab"@) is Some ==> {
            &&& r matches Ok(m) ==> symbols_named(elf.symbols@, symbol_name@).len() == 1 && m == (
            if (symbols_named(elf.symbols@, symbol_name@)[0].value as u32) & 1 != 0 {
                ArmCodeMode::Thumb
            } else {
                ArmCodeMode::Arm
            })
            &&& r matches Err(e) ==> single_symbol_failure(elf.symbols@, symbol_name@, e)
            &&& r is Ok <==> symbols_named(elf.symbols@, symbol_name@).len() == 1
        },
{
    let value = export_symbol_value(elf, symbol_name)?;
    Ok(ArmCodeMode::from_symbol_value(value))
}

/// The value of the single symbol `name` in `symbols`.
pub open spec fn single_value(symbols: Seq<ElfSymbol>, name: Seq<char>) -> u32 {
    symbols_named(symbols, name)[0].value as u32
}

/// What `export_symbols_to_struct` gives for an ELF and an entry symbol name.
pub open spec fn exported_symbols_outcome(
    elf: ElfFile,
    runtime_entry_symbol: Seq<char>,
    r: Result<ExportedSymbols, ElfError>,
) -> bool {
    ({
            let syms = elf.symbols@;
            let symtab = first_section_named(elf.sections@, ".symtab"@);
            let names = seq![
                runtime_entry_symbol,
                constants::EXPORTED_SYMBOL_ROM_RAM_SIZE@,
                constants::EXPORTED_SYMBOL_ROM_SIZE@,
                constants::EXPORTED_SYMBOL_GOT_SIZE@,
                constants::EXPORTED_SYMBOL_RAM_SIZE@,
            ];
            match symtab {
                None => r matches Err(ElfError::MissingSymtab),
                Some(i) => if elf.sections@[i].sh_type != SHT_SYMTAB {
                    r matches Err(ElfError::SymtabWrongType)
                } else {
                    &&& r is Ok <==> forall|k: int|
                        0 <= k < 5 ==> #[trigger] symbols_named(syms, names[k]).len() == 1
                    &&& r matches Ok(s) ==> s == ExportedSymbols {
                        start: single_value(syms, names[0]),
                        rom_ram_size: single_value(syms, names[1]),
                        rom_size: single_value(syms, names[2]),
                        got_size: single_value(syms, names[3]),
                        ram_size: single_value(syms, names[4]),
                    }
                    &&& r matches Err(e) ==> exists|k: int|
                        0 <= k < 5 && single_symbol_failure(syms, names[k], e) && forall|l: int|
                            0 <= l < k ==> #[trigger] symbols_named(syms, names[l]).len() == 1
                },
            }
        })
}

/// The runtime entry point and the four section sizes of an application.
pub fn export_symbols_to_struct(elf: &ElfFile, runtime_entry_symbol: &str) -> (r: Result<
    ExportedSymbols,
    ElfError,
>)
    ensures
        exported_symbols_outcome(*elf, runtime_entry_symbol@, r),
{
    proof {
        reveal_strlit(".symtab");
    }
    let ghost names = seq![
        runtime_entry_symbol@,
        constants::EXPORTED_SYMBOL_ROM_RAM_SIZE@,
        constants::EXPORTED_SYMBOL_ROM_SIZE@,
        constants::EXPORTED_SYMBOL_GOT_SIZE@,
        constants::EXPORTED_SYMBOL_RAM_SIZE@,
    ];
    let index = match find_section(&elf.sections, ".symtab") {
        None => {
            return Err(ElfError::MissingSymtab);
        },
        Some(i) => i,
    };
    if elf.sections[index].sh_type != SHT_SYMTAB {
        return Err(ElfError::SymtabWrongType);
    }
    let ghost syms = elf.symbols@;
    let start = match single_symbol_value(&elf.symbols, runtime_entry_symbol) {
        Ok(v) => v,
        Err(e) => {
            assert(single_symbol_failure(syms, names[0], e));
            return Err(e);
        },
    };
    let rom_ram_size = match single_symbol_value(
        &elf.symbols,
        constants::EXPORTED_SYMBOL_ROM_RAM_SIZE,
    ) {
        Ok(v) => v,
        Err(e) => {
            assert(single_symbol_failure(syms, names[1], e) && symbols_named(syms, names[0]).len()
                == 1);
            return Err(e);
        },
    };
    let rom_size = match single_symbol_value(&elf.symbols, constants::EXPORTED_SYMBOL_ROM_SIZE) {
        Ok(v) => v,
        Err(e) => {
            assert(single_symbol_failure(syms, names[2], e) && symbols_named(syms, names[0]).len()
                == 1 && symbols_named(syms, names[1]).len() == 1);
            return Err(e);
        },
    };
    let got_size = match single_symbol_value(&elf.symbols, constants::EXPORTED_SYMBOL_GOT_SIZE) {
        Ok(v) => v,
        Err(e) => {
            assert(single_symbol_failure(syms, names[3], e) && symbols_named(syms, names[0]).len()
                == 1 && symbols_named(syms, names[1]).len() == 1 && symbols_named(
                syms,
                names[2],
            ).len() == 1);
            return Err(e);
        },
    };
    let ram_size = match single_symbol_value(&elf.symbols, constants::EXPORTED_SYMBOL_RAM_SIZE) {
        Ok(v) => v,
        Err(e) => {
            assert(single_symbol_failure(syms, names[4], e) && symbols_named(syms, names[0]).len()
                == 1 && symbols_named(syms, names[1]).len() == 1 && symbols_named(
                syms,
                names[2],
            ).len() == 1 && symbols_named(syms, names[3]).len() == 1);
            return Err(e);
        },
    };
    assert(forall|k: int| 0 <= k < 5 ==> #[trigger] symbols_named(syms, names[k]).len() == 1) by {
        assert(symbols_named(syms, names[0]).len() == 1);
        assert(symbols_named(syms, names[1]).len() == 1);
        assert(symbols_named(syms, names[2]).len() == 1);
        assert(symbols_named(syms, names[3]).len() == 1);
        assert(symbols_named(syms, names[4]).len() == 1);
    }
    Ok(ExportedSymbols { start, rom_ram_size, rom_size, got_size, ram_size })
}

// ---------------------------------------------------------------------------
// Sections
// ---------------------------------------------------------------------------
/// The bytes of a section, or why they cannot be embedded.
pub open spec fn section_bytes_failure(
    section: ElfSection,
    name: Seq<char>,
    expected_size: usize,
    file_len: int,
    e: ElfError,
) -> bool {
    let size = section.size as usize;
    let start = section.offset as usize;
    if size != expected_size {
        e matches ElfError::SectionSizeMismatch { section: n, actual, expected } && n@ == name
            && actual == size && expected == expected_size
    } else if section.sh_type == SHT_NOBITS {
        e matches ElfError::NobitsSection(n) && n@ == name
    } else if start + size > usize::MAX {
        e matches ElfError::SectionEndOverflow(n) && n@ == name
    } else {
        e matches ElfError::SectionOutOfBounds(n) && n@ == name
    }
}

/// The bytes of the section `name` where it can be embedded: `expected_size`
/// bytes of the file, none where the section is empty or, when nothing is
/// expected, missing.
#[verifier::opaque]
pub open spec fn spec_section_bytes(elf: ElfFile, bytes: Seq<u8>, name: Seq<char>, expected_size: usize) -> Option<
    Seq<u8>,
> {
    match first_section_named(elf.sections@, name) {
        None => if expected_size == 0 {
            Some(Seq::empty())
        } else {
            None
        },
        Some(i) => {
            let section = elf.sections@[i];
            let size = section.size as usize;
            let start = section.offset as usize;
            if size != expected_size {
                None
            } else if size == 0 {
                Some(Seq::empty())
            } else if section.sh_type != SHT_NOBITS && start + size <= bytes.len() {
                Some(bytes.subrange(start as int, start + size))
            } else {
                None
            }
        },
    }
}

/// The error reading the section `name` gives.
#[verifier::opaque]
pub open spec fn section_bytes_error(
    elf: ElfFile,
    bytes: Seq<u8>,
    name: Seq<char>,
    expected_size: usize,
    e: ElfError,
) -> bool {
    match first_section_named(elf.sections@, name) {
        None => e matches ElfError::MissingSection(n) && n@ == name,
        Some(i) => section_bytes_failure(elf.sections@[i], name, expected_size, bytes.len() as int, e),
    }
}

/// The bytes of the section `section_name`, which must be `expected_size`
/// long; no section at all is accepted where nothing is expected.
pub fn export_section_bytes(
    elf: &ElfFile,
    elf_bytes: &[u8],
    section_name: &str,
    expected_size: usize,
) -> (r: Result<Vec<u8>, ElfError>)
    ensures
        r is Ok <==> spec_section_bytes(*elf, elf_bytes@, section_name@, expected_size) is Some,
        r matches Ok(v) ==> spec_section_bytes(*elf, elf_bytes@, section_name@, expected_size) == Some(
            v@,
        ),
        r matches Err(e) ==> section_bytes_error(*elf, elf_bytes@, section_name@, expected_size, e),
        match first_section_named(elf.sections@, section_name@) {
            None => if expected_size == 0 {
                r matches Ok(v) && v@.len() == 0
            } else {
                r matches Err(ElfError::MissingSection(n)) && n@ == section_name@
            },
            Some(i) => {
                let section = elf.sections@[i];
                let size = section.size as usize;
                let start = section.offset as usize;
                let readable = size == expected_size && (size == 0 || (section.sh_type
                    != SHT_NOBITS && start + size <= elf_bytes@.len()));
                &&& r is Ok <==> readable
                &&& r matches Ok(v) ==> if size == 0 {
                    v@.len() == 0
                } else {
                    v@ == elf_bytes@.subrange(start as int, start + size)
                }
                &&& r matches Err(e) ==> section_bytes_failure(
                    section,
                    section_name@,
                    expected_size,
                    elf_bytes@.len() as int,
                    e,
                )
            },
        },
{
    proof {
        reveal(spec_section_bytes);
        reveal(section_bytes_error);
    }
    let index = match find_section(&elf.sections, section_name) {
        None => {
            if expected_size == 0 {
                return Ok(Vec::new());
            }
            return Err(ElfError::MissingSection(section_name.to_owned()));
        },
        Some(i) => i,
    };
    let section = &elf.sections[index];
    let actual_size = section.size as usize;
    if actual_size != expected_size {
        return Err(
            ElfError::SectionSizeMismatch {
                section: section_name.to_owned(),
                actual: actual_size,
                expected: expected_size,
            },
        );
    }
    if actual_size == 0 {
        return Ok(Vec::new());
    }
    if section.sh_type == SHT_NOBITS {
        return Err(ElfError::NobitsSection(section_name.to_owned()));
    }
    let start = section.offset as usize;
    let file_len = elf_bytes.len();
    let end = match start.checked_add(actual_size) {
        Some(v) => v,
        None => {
            assert(file_len == elf_bytes@.len());
            return Err(ElfError::SectionEndOverflow(section_name.to_owned()));
        },
    };
    if end > elf_bytes.len() {
        return Err(ElfError::SectionOutOfBounds(section_name.to_owned()));
    }
    Ok(copy_range(elf_bytes, start, end))
}

/// A copy of `bytes[start..end]`.
pub(crate) fn copy_range(bytes: &[u8], start: usize, end: usize) -> (r: Vec<u8>)
    requires
        start <= end <= bytes@.len(),
    ensures
        r@ == bytes@.subrange(start as int, end as int),
{
    let mut out: Vec<u8> = Vec::new();
    let mut i: usize = start;
    while i < end
        invariant
            start <= i <= end <= bytes@.len(),
            out@ == bytes@.subrange(start as int, i as int),
        decreases end - i,
    {
        out.push(bytes[i]);
        i = i + 1;
        assert(out@ =~= bytes@.subrange(start as int, i as int));
    }
    out
}

// ---------------------------------------------------------------------------
// Startup code
// ---------------------------------------------------------------------------
/// The sections a startup ELF may hold besides `._start`: its symbol and
/// string tables and debug information.
pub open spec fn allowed_startup_section(name: Seq<char>) -> bool {
    ||| name == "._start"@
    ||| name == ".symtab"@
    ||| name == ".strtab"@
    ||| name == ".shstrtab"@
    ||| name == ".debug_info"@
    ||| name == ".debug_abbrev"@
    ||| name == ".debug_loclists"@
    ||| name == ".debug_aranges"@
    ||| name == ".debug_rnglists"@
    ||| name == ".debug_line"@
    ||| name == ".debug_str"@
    ||| name == ".debug_frame"@
    ||| name == ".debug_loc"@
    ||| name == ".debug_ranges"@
}

fn eq_str(a: &String, b: &str) -> (r: bool)
    ensures
        r == (a@ == b@),
{
    *a == b.to_owned()
}

fn is_allowed_startup_section(name: &String) -> (r: bool)
    ensures
        r == allowed_startup_section(name@),
{
    eq_str(name, "._start") || eq_str(name, ".symtab") || eq_str(name, ".strtab") || eq_str(
        name,
        ".shstrtab",
    ) || eq_str(name, ".debug_info") || eq_str(name, ".debug_abbrev") || eq_str(
        name,
        ".debug_loclists",
    ) || eq_str(name, ".debug_aranges") || eq_str(name, ".debug_rnglists") || eq_str(
        name,
        ".debug_line",
    ) || eq_str(name, ".debug_str") || eq_str(name, ".debug_frame") || eq_str(name, ".debug_loc")
        || eq_str(name, ".debug_ranges")
}

/// A relocation section.
pub open spec fn is_relocation_type(sh_type: u32) -> bool {
    sh_type == SHT_REL || sh_type == SHT_RELA
}

/// Section `i` of a startup ELF whose code is section `startup` is refused.
pub open spec fn startup_section_fault(section: ElfSection, i: int, startup: int) -> bool {
    ||| is_relocation_type(section.sh_type)
    ||| !allowed_startup_section(name_or(section.name, Seq::empty()))
    ||| (i != startup && section.flags & SHF_ALLOC != 0)
}

/// The error that reports the refused section `i`.
pub open spec fn startup_section_error(section: ElfSection, e: ElfError) -> bool {
    let name = name_or(section.name, Seq::empty());
    if is_relocation_type(section.sh_type) {
        e matches ElfError::StartupRelocationSection(n) && n@ == name
    } else if !allowed_startup_section(name) {
        e matches ElfError::StartupUnexpectedSection(n) && n@ == name
    } else {
        e matches ElfError::StartupAllocatableSection(n) && n@ == name
    }
}

/// Checks the sections after the null one; the first refused is reported.
fn check_startup_sections(sections: &Vec<ElfSection>, startup_index: usize) -> (r: Result<
    (),
    ElfError,
>)
    ensures
        r is Ok <==> forall|i: int|
            1 <= i < sections@.len() ==> !startup_section_fault(
                #[trigger] sections@[i],
                i,
                startup_index as int,
            ),
        r matches Err(e) ==> exists|i: int|
            1 <= i < sections@.len() && startup_section_fault(
                #[trigger] sections@[i],
                i,
                startup_index as int,
            ) && startup_section_error(sections@[i], e) && forall|j: int|
                1 <= j < i ==> !startup_section_fault(
                    #[trigger] sections@[j],
                    j,
                    startup_index as int,
                ),
{
    let mut idx: usize = 1;
    while idx < sections.len()
        invariant
            1 <= idx,
            idx <= sections@.len() || sections@.len() == 0,
            forall|j: int|
                1 <= j < idx && j < sections@.len() ==> !startup_section_fault(
                    #[trigger] sections@[j],
                    j,
                    startup_index as int,
                ),
        decreases sections@.len() - idx,
    {
        let sh = &sections[idx];
        let name = match &sh.name {
            Some(n) => n.clone(),
            None => String::new(),
        };
        assert(name@ == name_or(sh.name, Seq::empty()));
        if sh.sh_type == SHT_REL || sh.sh_type == SHT_RELA {
            assert(startup_section_fault(sections@[idx as int], idx as int, startup_index as int));
            return Err(ElfError::StartupRelocationSection(name));
        }
        if !is_allowed_startup_section(&name) {
            assert(startup_section_fault(sections@[idx as int], idx as int, startup_index as int));
            return Err(ElfError::StartupUnexpectedSection(name));
        }
        if idx != startup_index && (sh.flags & SHF_ALLOC) != 0 {
            assert(startup_section_fault(sections@[idx as int], idx as int, startup_index as int));
            return Err(ElfError::StartupAllocatableSection(name));
        }
        idx = idx + 1;
    }
    Ok(())
}

/// What `export_startup_code` reads from a startup ELF whose sections pass.
pub open spec fn startup_symbol_outcome(
    elf: ElfFile,
    bytes: Seq<u8>,
    startup_index: int,
    r: Result<Vec<u8>, ElfError>,
) -> bool {
    let section = elf.sections@[startup_index];
    let found = symbols_named(elf.symbols@, "_start"@);
    let size = section.size as usize;
    let start = section.offset as usize;
    if found.len() == 0 {
        r matches Err(ElfError::MissingStartSymbol)
    } else if found.len() > 1 {
        r matches Err(ElfError::DuplicateStartSymbol)
    } else if found[0].shndx != startup_index {
        r matches Err(ElfError::StartSymbolOutsideStartupSection)
    } else if found[0].value & !1u64 != section.addr {
        r matches Err(ElfError::StartSymbolNotAtSectionStart)
    } else if size == 0 {
        r matches Err(ElfError::StartupSectionEmpty)
    } else if start + size > usize::MAX {
        r matches Err(ElfError::StartupSectionEndOverflow)
    } else if start + size > bytes.len() {
        r matches Err(ElfError::StartupSectionOutOfBounds)
    } else {
        r matches Ok(v) && v@ == bytes.subrange(start as int, start + size)
    }
}

/// What `export_startup_code` gives for a startup ELF parsed from `bytes`.
pub open spec fn startup_code_outcome(
    elf: ElfFile,
    bytes: Seq<u8>,
    r: Result<Vec<u8>, ElfError>,
) -> bool {
    match first_section_named(elf.sections@, "._start"@) {
            None => r matches Err(ElfError::MissingStartupSection),
            Some(k) => if elf.sections@[k].sh_type == SHT_NOBITS {
                r matches Err(ElfError::StartupSectionNobits)
            } else if exists|i: int|
                1 <= i < elf.sections@.len() && startup_section_fault(
                    #[trigger] elf.sections@[i],
                    i,
                    k,
                ) {
                r matches Err(e) && exists|i: int|
                    1 <= i < elf.sections@.len() && startup_section_fault(
                        #[trigger] elf.sections@[i],
                        i,
                        k,
                    ) && startup_section_error(elf.sections@[i], e) && forall|j: int|
                        1 <= j < i ==> !startup_section_fault(#[trigger] elf.sections@[j], j, k)
            } else {
                startup_symbol_outcome(elf, bytes, k, r)
            },
        }
}

/// The code of the `._start` section of a startup ELF, which must hold
/// nothing else that is loaded and no relocations, and whose `_start` symbol
/// must be its first byte.
pub fn export_startup_code(elf: &ElfFile, elf_bytes: &[u8]) -> (r: Result<Vec<u8>, ElfError>)
    ensures
        startup_code_outcome(*elf, elf_bytes@, r),
{
    let startup_section_index = match find_section(&elf.sections, constants::STARTUP_SECTION_NAME) {
        Some(i) => i,
        None => {
            return Err(ElfError::MissingStartupSection);
        },
    };
    let startup_section = &elf.sections[startup_section_index];
    if startup_section.sh_type == SHT_NOBITS {
        return Err(ElfError::StartupSectionNobits);
    }
    check_startup_sections(&elf.sections, startup_section_index)?;
    let start_symbols = collect_symbols_named(&elf.symbols, constants::STARTUP_SYMBOL_NAME);
    if start_symbols.len() == 0 {
        return Err(ElfError::MissingStartSymbol);
    }
    if start_symbols.len() > 1 {
        return Err(ElfError::DuplicateStartSymbol);
    }
    let start_symbol = &start_symbols[0];
    if start_symbol.shndx != startup_section_index {
        return Err(ElfError::StartSymbolOutsideStartupSection);
    }
    let normalized_start = start_symbol.value & !1u64;
    if normalized_start != startup_section.addr {
        return Err(ElfError::StartSymbolNotAtSectionStart);
    }
    let actual_size = startup_section.size as usize;
    if actual_size == 0 {
        return Err(ElfError::StartupSectionEmpty);
    }
    let start = startup_section.offset as usize;
    let file_len = elf_bytes.len();
    let end = match start.checked_add(actual_size) {
        Some(v) => v,
        None => {
            return Err(ElfError::StartupSectionEndOverflow);
        },
    };
    if end > file_len {
        return Err(ElfError::StartupSectionOutOfBounds);
    }
    Ok(copy_range(elf_bytes, start, end))
}

// ---------------------------------------------------------------------------
// The exported relocation table
// ---------------------------------------------------------------------------
/// Why an entry of the exported relocation table is refused.
#[derive(Debug, Clone, Copy, PartialEq, Eq)]
pub enum RelocationEntryFault {
    OutOfBounds(usize),
    UnsupportedType(usize),
    NonWritable(usize, u32),
    Unmappable(usize, u32),
}

/// The target offset of entry `i`, or why it is refused: it must be an
/// `R_ARM_ABS32` into the writable area that padding can remap.
pub open spec fn relocation_entry(
    bytes: Seq<u8>,
    base: int,
    entsize: int,
    i: int,
    raw: ExportedSymbols,
    padded: ExportedSymbols,
) -> Result<u32, RelocationEntryFault> {
    let off = rel_entry_offset(base, entsize, i);
    let writable_start = raw.rom_size + raw.got_size;
    let writable_end = writable_start + raw.rom_ram_size + raw.ram_size;
    if off + 8 > bytes.len() {
        Err(RelocationEntryFault::OutOfBounds(i as usize))
    } else {
        let r_offset = crate::common::le_word(bytes, off);
        let r_info = crate::common::le_word(bytes, off + 4);
        if r_info & 0xff != constants::R_ARM_ABS32 {
            Err(RelocationEntryFault::UnsupportedType(i as usize))
        } else if r_offset < writable_start || r_offset >= writable_end {
            Err(RelocationEntryFault::NonWritable(i as usize, r_offset))
        } else if spec_remap_offset(r_offset, raw, padded) is None {
            Err(RelocationEntryFault::Unmappable(i as usize, r_offset))
        } else {
            Ok(r_offset)
        }
    }
}

/// The target offsets of the first `n` entries, or the first refusal.
pub open spec fn relocation_entries(
    bytes: Seq<u8>,
    base: int,
    entsize: int,
    n: int,
    raw: ExportedSymbols,
    padded: ExportedSymbols,
) -> Result<Seq<u32>, RelocationEntryFault>
    decreases n,
{
    if n <= 0 {
        Ok(Seq::empty())
    } else {
        match relocation_entries(bytes, base, entsize, n - 1, raw, padded) {
            Err(f) => Err(f),
            Ok(s) => match relocation_entry(bytes, base, entsize, n - 1, raw, padded) {
                Err(f) => Err(f),
                Ok(o) => Ok(s.push(o)),
            },
        }
    }
}

/// A refusal among the first `k` entries stays the answer for more entries.
proof fn lemma_relocation_fault_persists(
    bytes: Seq<u8>,
    base: int,
    entsize: int,
    k: int,
    n: int,
    raw: ExportedSymbols,
    padded: ExportedSymbols,
)
    requires
        0 <= k <= n,
        relocation_entries(bytes, base, entsize, k, raw, padded) is Err,
    ensures
        relocation_entries(bytes, base, entsize, n, raw, padded) == relocation_entries(
            bytes,
            base,
            entsize,
            k,
            raw,
            padded,
        ),
    decreases n - k,
{
    if k < n {
        lemma_relocation_fault_persists(bytes, base, entsize, k, n - 1, raw, padded);
    }
}

/// The offsets remapped to the padded layout.
pub open spec fn remapped(
    offsets: Seq<u32>,
    raw: ExportedSymbols,
    padded: ExportedSymbols,
) -> Seq<u32> {
    offsets.map_values(|o: u32| spec_remap_offset(o, raw, padded)->Some_0)
}

/// Reads the relocation entries of a table: the raw target offsets, and the
/// table as it is exported (entry count, then each remapped offset).
pub fn export_relocation_entries(
    elf_bytes: &[u8],
    base: usize,
    entsize: usize,
    count: usize,
    raw_symbols: ExportedSymbols,
    padded_symbols: ExportedSymbols,
) -> (r: Result<(Vec<u8>, Vec<u32>), RelocationEntryFault>)
    requires
        count > 0 ==> base + (count - 1) * entsize + 8 <= usize::MAX,
        raw_symbols.rom_size + raw_symbols.got_size + raw_symbols.rom_ram_size
            + raw_symbols.ram_size <= usize::MAX,
    ensures
        ({
            let spec = relocation_entries(
                elf_bytes@,
                base as int,
                entsize as int,
                count as int,
                raw_symbols,
                padded_symbols,
            );
            &&& r is Ok <==> spec is Ok
            &&& r matches Err(f) ==> spec == Err::<Seq<u32>, RelocationEntryFault>(f)
            &&& r matches Ok((table, offsets)) ==> spec == Ok::<Seq<u32>, RelocationEntryFault>(
                offsets@,
            ) && table@ == crate::common::le_bytes(count as u32) + crate::common::le_words(
                remapped(offsets@, raw_symbols, padded_symbols),
            )
        }),
{
    let mut out: Vec<u8> = Vec::new();
    let mut raw_offsets: Vec<u32> = Vec::new();
    crate::common::push_word(&mut out, count as u32);
    let rom_size = raw_symbols.rom_size as usize;
    let got_size = raw_symbols.got_size as usize;
    let rom_ram_size = raw_symbols.rom_ram_size as usize;
    let ram_size = raw_symbols.ram_size as usize;
    let writable_start = rom_size + got_size;
    let writable_end = writable_start + rom_ram_size + ram_size;
    let file_len = elf_bytes.len();
    let mut i: usize = 0;
    while i < count
        invariant
            i <= count,
            file_len == elf_bytes@.len(),
            count > 0 ==> base + (count - 1) * entsize + 8 <= usize::MAX,
            writable_start == raw_symbols.rom_size + raw_symbols.got_size,
            writable_end == writable_start + raw_symbols.rom_ram_size + raw_symbols.ram_size,
            relocation_entries(
                elf_bytes@,
                base as int,
                entsize as int,
                i as int,
                raw_symbols,
                padded_symbols,
            ) == Ok::<Seq<u32>, RelocationEntryFault>(raw_offsets@),
            out@ == crate::common::le_bytes(count as u32) + crate::common::le_words(
                remapped(raw_offsets@, raw_symbols, padded_symbols),
            ),
        decreases count - i,
    {
        assert(i * entsize <= (count - 1) * entsize) by (nonlinear_arith)
            requires
                i < count,
        ;
        let off = base + i * entsize;
        let fault = if off + 8 > file_len {
            Some(RelocationEntryFault::OutOfBounds(i))
        } else {
            let r_offset = crate::common::read_le_word(elf_bytes, off);
            let r_info = crate::common::read_le_word(elf_bytes, off + 4);
            let target = r_offset as usize;
            if r_info & 0xff != constants::R_ARM_ABS32 {
                Some(RelocationEntryFault::UnsupportedType(i))
            } else if target < writable_start || target >= writable_end {
                Some(RelocationEntryFault::NonWritable(i, r_offset))
            } else if remap_offset_to_padded_layout(r_offset, raw_symbols, padded_symbols).is_none() {
                Some(RelocationEntryFault::Unmappable(i, r_offset))
            } else {
                None
            }
        };
        if let Some(f) = fault {
            proof {
                lemma_relocation_fault_persists(
                    elf_bytes@,
                    base as int,
                    entsize as int,
                    i + 1,
                    count as int,
                    raw_symbols,
                    padded_symbols,
                );
            }
            return Err(f);
        }
        let r_offset = crate::common::read_le_word(elf_bytes, off);
        let mapped = match remap_offset_to_padded_layout(r_offset, raw_symbols, padded_symbols) {
            Some(m) => m,
            None => {
                return Err(RelocationEntryFault::Unmappable(i, r_offset));
            },
        };
        let ghost before = raw_offsets@;
        raw_offsets.push(r_offset);
        crate::common::push_word(&mut out, mapped);
        proof {
            assert(remapped(raw_offsets@, raw_symbols, padded_symbols) =~= remapped(
                before,
                raw_symbols,
                padded_symbols,
            ).push(mapped));
            crate::common::lemma_le_words_push(remapped(before, raw_symbols, padded_symbols), mapped);
        }
        i = i + 1;
    }
    Ok((out, raw_offsets))
}

/// The error that reports a refused entry of the table `name`.
pub open spec fn relocation_fault_error(
    f: RelocationEntryFault,
    name: Seq<char>,
    e: ElfError,
) -> bool {
    match f {
        RelocationEntryFault::OutOfBounds(i) => e matches ElfError::RelocationEntryOutOfBounds {
            table,
            entry,
        } && table@ == name && entry == i,
        RelocationEntryFault::UnsupportedType(i) => e matches ElfError::UnsupportedRelocationType {
            table,
            entry,
        } && table@ == name && entry == i,
        RelocationEntryFault::NonWritable(i, o) => e matches ElfError::NonWritableRelocationTarget {
            table,
            entry,
            offset,
        } && table@ == name && entry == i && offset == o,
        RelocationEntryFault::Unmappable(i, o) => e matches ElfError::UnmappableRelocation {
            table,
            entry,
            offset,
        } && table@ == name && entry == i && offset == o,
    }
}

/// The entries of a well-formed table can be addressed in `usize`.
pub open spec fn relocation_table_addressable(section: ElfSection) -> bool {
    let entsize = section.entsize as usize;
    let size = section.size as usize;
    let count = size / entsize;
    entsize != 0 && size % entsize == 0 && count > 0 ==> section.offset as usize + (count - 1)
        * entsize + 8 <= usize::MAX
}

/// Whether `export_relocation_table` can address the table `name` and the
/// writable area of `raw_symbols` in `usize`.
pub fn relocation_table_fits(elf: &ElfFile, name: &str, raw_symbols: ExportedSymbols) -> (r: bool)
    ensures
        r == (raw_symbols.rom_size + raw_symbols.got_size + raw_symbols.rom_ram_size
            + raw_symbols.ram_size <= usize::MAX && match first_section_named(
            elf.sections@,
            name@,
        ) {
            Some(k) => relocation_table_addressable(elf.sections@[k]),
            None => true,
        }),
{
    let total: u64 = raw_symbols.rom_size as u64 + raw_symbols.got_size as u64
        + raw_symbols.rom_ram_size as u64 + raw_symbols.ram_size as u64;
    if total > usize::MAX as u64 {
        return false;
    }
    match find_section(&elf.sections, name) {
        None => true,
        Some(k) => {
            let section = &elf.sections[k];
            let entsize = section.entsize as usize;
            let size = section.size as usize;
            if entsize == 0 || size % entsize != 0 {
                return true;
            }
            let count = size / entsize;
            if count == 0 {
                return true;
            }
            assert((count - 1) * entsize <= size) by (nonlinear_arith)
                requires
                    count == size / entsize,
                    entsize > 0,
                    count > 0,
            ;
            let base = section.offset as usize;
            match base.checked_add((count - 1) * entsize) {
                None => false,
                Some(v) => v <= usize::MAX - 8,
            }
        },
    }
}

/// What `export_relocation_table` gives for the named table of an ELF parsed
/// from `bytes`.
pub open spec fn relocation_table_outcome(
    elf: ElfFile,
    bytes: Seq<u8>,
    relocation_table_name: Seq<char>,
    raw_symbols: ExportedSymbols,
    padded_symbols: ExportedSymbols,
    r: Result<(Vec<u8>, Vec<u32>), ElfError>,
) -> bool {
    match first_section_named(elf.sections@, relocation_table_name) {
            None => r matches Ok((table, offsets)) && table@ == crate::common::le_bytes(0)
                && offsets@.len() == 0,
            Some(k) => {
                let section = elf.sections@[k];
                let entsize = section.entsize as usize;
                let size = section.size as usize;
                let count = size / entsize;
                let name = relocation_table_name;
                if section.sh_type == SHT_RELA {
                    r matches Err(ElfError::UnsupportedRela(n)) && n@ == name
                } else if section.sh_type != SHT_REL {
                    r matches Err(ElfError::NotRelocationSection(n)) && n@ == name
                } else if entsize == 0 || size % entsize != 0 {
                    r matches Err(ElfError::MalformedRelocationTable(n)) && n@ == name
                } else {
                    match relocation_entries(
                        bytes,
                        section.offset as usize as int,
                        entsize as int,
                        count as int,
                        raw_symbols,
                        padded_symbols,
                    ) {
                        Err(f) => r matches Err(e) && relocation_fault_error(f, name, e),
                        Ok(offsets) => r matches Ok((t, o)) && o@ == offsets && t@
                            == crate::common::le_bytes(count as u32) + crate::common::le_words(
                            remapped(offsets, raw_symbols, padded_symbols),
                        ),
                    }
                }
            },
        }
}

/// The relocation table `relocation_table_name` as an image carries it (its
/// entry count, then each target offset remapped to the padded layout), and
/// the raw target offsets; every entry must be an `R_ARM_ABS32` into the
/// writable area. A file without the table gives an empty one.
pub fn export_relocation_table(
    elf: &ElfFile,
    elf_bytes: &[u8],
    relocation_table_name: &str,
    raw_symbols: ExportedSymbols,
    padded_symbols: ExportedSymbols,
) -> (r: Result<(Vec<u8>, Vec<u32>), ElfError>)
    requires
        raw_symbols.rom_size + raw_symbols.got_size + raw_symbols.rom_ram_size
            + raw_symbols.ram_size <= usize::MAX,
        first_section_named(elf.sections@, relocation_table_name@) matches Some(k)
            ==> relocation_table_addressable(elf.sections@[k]),
    ensures
        relocation_table_outcome(*elf, elf_bytes@, relocation_table_name@, raw_symbols, padded_symbols, r),
{
    let index = match find_section(&elf.sections, relocation_table_name) {
        None => {
            let mut table: Vec<u8> = Vec::new();
            crate::common::push_word(&mut table, 0);
            assert(table@ =~= crate::common::le_bytes(0));
            return Ok((table, Vec::new()));
        },
        Some(i) => i,
    };
    let section = &elf.sections[index];
    if section.sh_type == SHT_RELA {
        return Err(ElfError::UnsupportedRela(relocation_table_name.to_owned()));
    }
    if section.sh_type != SHT_REL {
        return Err(ElfError::NotRelocationSection(relocation_table_name.to_owned()));
    }
    let entsize = section.entsize as usize;
    let size = section.size as usize;
    if entsize == 0 || size % entsize != 0 {
        return Err(ElfError::MalformedRelocationTable(relocation_table_name.to_owned()));
    }
    let count = size / entsize;
    match export_relocation_entries(
        elf_bytes,
        section.offset as usize,
        entsize,
        count,
        raw_symbols,
        padded_symbols,
    ) {
        Ok(v) => Ok(v),
        Err(f) => {
            let table = relocation_table_name.to_owned();
            Err(
                match f {
                    RelocationEntryFault::OutOfBounds(entry) => ElfError::RelocationEntryOutOfBounds {
                        table,
                        entry,
                    },
                    RelocationEntryFault::UnsupportedType(entry) => {
                        ElfError::UnsupportedRelocationType { table, entry }
                    },
                    RelocationEntryFault::NonWritable(entry, offset) => {
                        ElfError::NonWritableRelocationTarget { table, entry, offset }
                    },
                    RelocationEntryFault::Unmappable(entry, offset) => {
                        ElfError::UnmappableRelocation { table, entry, offset }
                    },
                },
            )
        },
    }
}

// ---------------------------------------------------------------------------
// Checks over the relocation sections
// ---------------------------------------------------------------------------
/// The name of section `idx`, where there is such a section with a name.
pub open spec fn section_name_at(elf: ElfFile, idx: int) -> Option<String> {
    if 0 <= idx < elf.sections@.len() {
        elf.sections@[idx].name
    } else {
        None
    }
}

fn section_name_of(elf: &ElfFile, idx: usize) -> (r: Option<String>)
    ensures
        r == section_name_at(*elf, idx as int),
{
    if idx < elf.sections.len() {
        match &elf.sections[idx].name {
            Some(n) => Some(n.clone()),
            None => None,
        }
    } else {
        None
    }
}

/// Why a relocation section cannot be read.
#[derive(Debug, Clone, Copy, PartialEq, Eq)]
pub enum RelocationSectionFault {
    Malformed,
    EndOverflow,
    OutOfBounds,
}

/// Where the entries of a relocation section lie: start, end and entry size.
pub open spec fn relocation_layout(section: ElfSection, entry_size: int, file_len: int) -> Result<
    (int, int, int),
    RelocationSectionFault,
> {
    let entsize = section.entsize as usize;
    let size = section.size as usize;
    let start = section.offset as usize;
    if entsize < entry_size || entsize == 0 || size % entsize != 0 {
        Err(RelocationSectionFault::Malformed)
    } else if start + size > usize::MAX {
        Err(RelocationSectionFault::EndOverflow)
    } else if start + size > file_len {
        Err(RelocationSectionFault::OutOfBounds)
    } else {
        Ok((start as int, start + size, entsize as int))
    }
}

fn read_relocation_layout(section: &ElfSection, entry_size: usize, file_len: usize) -> (r: Result<
    (usize, usize, usize),
    RelocationSectionFault,
>)
    ensures
        match relocation_layout(*section, entry_size as int, file_len as int) {
            Err(f) => r == Err::<(usize, usize, usize), RelocationSectionFault>(f),
            Ok((start, end, entsize)) => r matches Ok((a, b, c)) && a == start && b == end && c
                == entsize,
        },
{
    let entsize = section.entsize as usize;
    let size = section.size as usize;
    if entsize < entry_size || entsize == 0 || size % entsize != 0 {
        return Err(RelocationSectionFault::Malformed);
    }
    let start = section.offset as usize;
    let end = match start.checked_add(size) {
        Some(v) => v,
        None => {
            return Err(RelocationSectionFault::EndOverflow);
        },
    };
    if end > file_len {
        return Err(RelocationSectionFault::OutOfBounds);
    }
    Ok((start, end, entsize))
}

/// The error that reports an unreadable relocation section.
pub open spec fn layout_fault_error(
    f: RelocationSectionFault,
    name: Seq<char>,
    e: ElfError,
) -> bool {
    match f {
        RelocationSectionFault::Malformed => e matches ElfError::MalformedRelocationSection(n) && n@
            == name,
        RelocationSectionFault::EndOverflow => e matches ElfError::RelocationSectionEndOverflow(n)
            && n@ == name,
        RelocationSectionFault::OutOfBounds => e matches ElfError::RelocationSectionOutOfBounds(n)
            && n@ == name,
    }
}

fn layout_error(f: RelocationSectionFault, name: String) -> (e: ElfError)
    ensures
        layout_fault_error(f, name@, e),
{
    match f {
        RelocationSectionFault::Malformed => ElfError::MalformedRelocationSection(name),
        RelocationSectionFault::EndOverflow => ElfError::RelocationSectionEndOverflow(name),
        RelocationSectionFault::OutOfBounds => ElfError::RelocationSectionOutOfBounds(name),
    }
}

/// The entry size of a relocation section type: 8 for REL, 12 for RELA.
pub open spec fn relocation_entry_size(sh_type: u32) -> int {
    if sh_type == SHT_REL {
        8
    } else {
        12
    }
}

/// Entry `k` of a relocation section laid out from `start` by `entsize`:
/// its type-and-symbol word.
pub open spec fn entry_info(bytes: Seq<u8>, start: int, entsize: int, k: int) -> u32 {
    crate::common::le_word(bytes, rel_entry_offset(start, entsize, k) + 4)
}

/// The symbol of an ABS32 relocation lies in `.rom`.
pub open spec fn symbol_in_rom(elf: ElfFile, symbol_index: int) -> bool {
    0 <= symbol_index < elf.symbols@.len() && named(
        section_name_at(elf, elf.symbols@[symbol_index].shndx as int),
        constants::ROM_SECTION_NAME@,
    )
}

/// An ABS32 relocation into a loaded section that is neither the initialised
/// data `.rom.ram` nor a `.rom` reference to `.rom` itself.
pub open spec fn abs32_entry_refused(
    elf: ElfFile,
    info: u32,
    target_name: Seq<char>,
    target_alloc: bool,
    target_nobits: bool,
) -> bool {
    &&& info & 0xff == constants::R_ARM_ABS32
    &&& target_alloc
    &&& !(target_name == constants::ROM_SECTION_NAME@ && symbol_in_rom(elf, (info >> 8u32) as int))
    &&& (target_name != constants::ROM_RAM_SECTION_NAME@ || target_nobits)
}

/// Whether the relocation section `i` (laid out as given) holds a refused
/// ABS32 entry.
pub open spec fn abs32_section_refused(
    elf: ElfFile,
    bytes: Seq<u8>,
    i: int,
    start: int,
    end: int,
    entsize: int,
) -> bool {
    let section = elf.sections@[i];
    let target = elf.sections@[section.info as int];
    exists|k: int|
        0 <= k < (end - start) / entsize && abs32_entry_refused(
            elf,
            #[trigger] entry_info(bytes, start, entsize, k),
            name_or(target.name, "<unnamed>"@),
            target.flags & SHF_ALLOC != 0,
            target.sh_type == SHT_NOBITS,
        )
}

/// A pair of relocation and target section names.
pub open spec fn pair_view(p: (String, String)) -> (Seq<char>, Seq<char>) {
    (p.0@, p.1@)
}

/// `list` with `p` appended unless it holds it already.
pub open spec fn push_unique_pair(list: Seq<(Seq<char>, Seq<char>)>, p: (Seq<char>, Seq<char>)) -> Seq<
    (Seq<char>, Seq<char>),
> {
    if list.contains(p) {
        list
    } else {
        list.push(p)
    }
}

/// What the scan of the first `n` sections for refused ABS32 relocations
/// finds: the (relocation, target) name pairs without repetition, or the
/// section that cannot be read.
pub open spec fn abs32_scan(elf: ElfFile, bytes: Seq<u8>, n: int) -> Result<
    Seq<(Seq<char>, Seq<char>)>,
    (int, Option<RelocationSectionFault>),
>
    decreases n,
{
    if n <= 0 {
        Ok(Seq::empty())
    } else {
        match abs32_scan(elf, bytes, n - 1) {
            Err(x) => Err(x),
            Ok(list) => {
                let i = n - 1;
                let section = elf.sections@[i];
                if !is_relocation_type(section.sh_type) {
                    Ok(list)
                } else if section.info as int >= elf.sections@.len() {
                    Err((i, None))
                } else {
                    match relocation_layout(
                        section,
                        relocation_entry_size(section.sh_type),
                        bytes.len() as int,
                    ) {
                        Err(f) => Err((i, Some(f))),
                        Ok((start, end, entsize)) => if abs32_section_refused(
                            elf,
                            bytes,
                            i,
                            start,
                            end,
                            entsize,
                        ) {
                            Ok(
                                push_unique_pair(
                                    list,
                                    (
                                        name_or(section.name, "<unnamed>"@),
                                        name_or(
                                            elf.sections@[section.info as int].name,
                                            "<unnamed>"@,
                                        ),
                                    ),
                                ),
                            )
                        } else {
                            Ok(list)
                        },
                    }
                }
            },
        }
    }
}

/// The error that reports an unreadable relocation section `i`.
pub open spec fn relocation_section_error(
    elf: ElfFile,
    i: int,
    fault: Option<RelocationSectionFault>,
    e: ElfError,
) -> bool {
    let section = elf.sections@[i];
    let name = name_or(section.name, "<unnamed>"@);
    match fault {
        None => e matches ElfError::InvalidTargetSection { relocation, index } && relocation@
            == name && index == section.info as usize,
        Some(f) => layout_fault_error(f, name, e),
    }
}

proof fn lemma_abs32_scan_err_persists(elf: ElfFile, bytes: Seq<u8>, k: int, n: int)
    requires
        0 <= k <= n,
        abs32_scan(elf, bytes, k) is Err,
    ensures
        abs32_scan(elf, bytes, n) == abs32_scan(elf, bytes, k),
    decreases n - k,
{
    if k < n {
        lemma_abs32_scan_err_persists(elf, bytes, k, n - 1);
    }
}

/// Whether some ABS32 entry of a relocation section is refused.
fn abs32_section_has_refused_entry(
    elf: &ElfFile,
    elf_bytes: &[u8],
    i: usize,
    start: usize,
    end: usize,
    entsize: usize,
    target_name: &String,
    target_alloc: bool,
    target_nobits: bool,
) -> (r: bool)
    requires
        i < elf.sections@.len(),
        (elf.sections@[i as int].info as int) < elf.sections@.len(),
        target_name@ == name_or(elf.sections@[elf.sections@[i as int].info as int].name, "<unnamed>"@),
        target_alloc == (elf.sections@[elf.sections@[i as int].info as int].flags & SHF_ALLOC != 0),
        target_nobits == (elf.sections@[elf.sections@[i as int].info as int].sh_type == SHT_NOBITS),
        8 <= entsize,
        start <= end <= elf_bytes@.len(),
        (end - start) % (entsize as int) == 0,
    ensures
        r == abs32_section_refused(*elf, elf_bytes@, i as int, start as int, end as int, entsize as int),
{
    let count = (end - start) / entsize;
    let ghost target_alloc_spec = target_alloc;
    let mut k: usize = 0;
    while k < count
        invariant
            count == (end - start) / (entsize as int),
            8 <= entsize,
            start <= end <= elf_bytes@.len(),
            (end - start) % (entsize as int) == 0,
            k <= count,
            i < elf.sections@.len(),
            (elf.sections@[i as int].info as int) < elf.sections@.len(),
            target_name@ == name_or(
                elf.sections@[elf.sections@[i as int].info as int].name,
                "<unnamed>"@,
            ),
            target_alloc == (elf.sections@[elf.sections@[i as int].info as int].flags & SHF_ALLOC
                != 0),
            target_nobits == (elf.sections@[elf.sections@[i as int].info as int].sh_type
                == SHT_NOBITS),
            forall|m: int|
                0 <= m < k ==> !abs32_entry_refused(
                    *elf,
                    #[trigger] entry_info(elf_bytes@, start as int, entsize as int, m),
                    target_name@,
                    target_alloc,
                    target_nobits,
                ),
        decreases count - k,
    {
        proof {
            lemma_entry_in_table(start as int, entsize as int, count as int, k as int);
            assert(count * entsize == end - start) by (nonlinear_arith)
                requires
                    count == (end - start) / (entsize as int),
                    (end - start) % (entsize as int) == 0,
                    entsize > 0,
            ;
        }
        let off = start + k * entsize;
        let r_info = crate::common::read_le_word(elf_bytes, off + 4);
        assert(r_info == entry_info(elf_bytes@, start as int, entsize as int, k as int));
        let r_type = r_info & 0xff;
        if r_type == constants::R_ARM_ABS32 && target_alloc {
            let mut exempt = false;
            if eq_str(target_name, constants::ROM_SECTION_NAME) {
                let symbol_index = (r_info >> 8u32) as usize;
                if symbol_index < elf.symbols.len() {
                    let name = section_name_of(elf, elf.symbols[symbol_index].shndx);
                    exempt = name_is(&name, constants::ROM_SECTION_NAME);
                }
            }
            if !exempt && (!eq_str(target_name, constants::ROM_RAM_SECTION_NAME) || target_nobits) {
                assert(abs32_entry_refused(
                    *elf,
                    entry_info(elf_bytes@, start as int, entsize as int, k as int),
                    target_name@,
                    target_alloc,
                    target_nobits,
                ));
                return true;
            }
        }
        k = k + 1;
    }
    false
}

fn push_unique(list: &mut Vec<(String, String)>, entry: (String, String))
    ensures
        final(list)@.map_values(|p: (String, String)| pair_view(p)) == push_unique_pair(
            old(list)@.map_values(|p: (String, String)| pair_view(p)),
            pair_view(entry),
        ),
{
    let ghost views = list@.map_values(|p: (String, String)| pair_view(p));
    let mut k: usize = 0;
    while k < list.len()
        invariant
            k <= list@.len(),
            views == list@.map_values(|p: (String, String)| pair_view(p)),
            forall|m: int| 0 <= m < k ==> #[trigger] views[m] != pair_view(entry),
        decreases list@.len() - k,
    {
        if list[k].0 == entry.0 && list[k].1 == entry.1 {
            assert(views[k as int] == pair_view(entry));
            assert(views.contains(pair_view(entry)));
            return;
        }
        k = k + 1;
    }
    assert(!views.contains(pair_view(entry)));
    list.push(entry);
    assert(list@.map_values(|p: (String, String)| pair_view(p)) =~= views.push(pair_view(entry)));
}

/// The (relocation, target) section name pairs, without repetition, of the
/// relocation sections that apply an `R_ARM_ABS32` to a loaded section other
/// than the initialised data `.rom.ram` (a `.rom` entry whose symbol lies in
/// `.rom` is let through).
pub fn collect_invalid_alloc_abs32_target_sections(elf: &ElfFile, elf_bytes: &[u8]) -> (r: Result<
    Vec<(String, String)>,
    ElfError,
>)
    ensures
        match abs32_scan(*elf, elf_bytes@, elf.sections@.len() as int) {
            Ok(list) => r matches Ok(v) && v@.map_values(|p: (String, String)| pair_view(p))
                == list,
            Err((i, f)) => r matches Err(e) && relocation_section_error(*elf, i, f, e),
        },
{
    let mut invalid_targets: Vec<(String, String)> = Vec::new();
    assert(invalid_targets@.map_values(|p: (String, String)| pair_view(p)) =~= Seq::empty());
    let file_len = elf_bytes.len();
    let mut i: usize = 0;
    while i < elf.sections.len()
        invariant
            i <= elf.sections@.len(),
            file_len == elf_bytes@.len(),
            abs32_scan(*elf, elf_bytes@, i as int) == Ok::<
                Seq<(Seq<char>, Seq<char>)>,
                (int, Option<RelocationSectionFault>),
            >(invalid_targets@.map_values(|p: (String, String)| pair_view(p))),
        decreases elf.sections@.len() - i,
    {
        let section = &elf.sections[i];
        if section.sh_type == SHT_REL || section.sh_type == SHT_RELA {
            let relocation_name = name_or_else(&section.name, "<unnamed>");
            let target_index = section.info as usize;
            if target_index >= elf.sections.len() {
                proof {
                    lemma_abs32_scan_err_persists(*elf, elf_bytes@, i + 1, elf.sections@.len() as int);
                }
                return Err(
                    ElfError::InvalidTargetSection { relocation: relocation_name, index: target_index },
                );
            }
            let target_section = &elf.sections[target_index];
            let target_name = name_or_else(&target_section.name, "<unnamed>");
            let target_is_alloc = (target_section.flags & SHF_ALLOC) != 0;
            let target_is_nobits = target_section.sh_type == SHT_NOBITS;
            let entry_size: usize = if section.sh_type == SHT_REL {
                8
            } else {
                12
            };
            let (start, end, entsize) = match read_relocation_layout(section, entry_size, file_len) {
                Ok(v) => v,
                Err(f) => {
                    proof {
                        lemma_abs32_scan_err_persists(
                            *elf,
                            elf_bytes@,
                            i + 1,
                            elf.sections@.len() as int,
                        );
                    }
                    return Err(layout_error(f, relocation_name));
                },
            };
            if abs32_section_has_refused_entry(
                elf,
                elf_bytes,
                i,
                start,
                end,
                entsize,
                &target_name,
                target_is_alloc,
                target_is_nobits,
            ) {
                push_unique(&mut invalid_targets, (relocation_name, target_name));
            }
        }
        i = i + 1;
    }
    Ok(invalid_targets)
}

/// What `validate_abs32_relocation_targets` gives for an ELF parsed from `bytes`.
pub open spec fn abs32_outcome(elf: ElfFile, bytes: Seq<u8>, r: Result<(), ElfError>) -> bool {
    match abs32_scan(elf, bytes, elf.sections@.len() as int) {
            Ok(list) => if list.len() == 0 {
                r is Ok
            } else {
                r matches Err(ElfError::InvalidAbs32Target { relocation, target }) && (relocation@,
                target@) == list[0]
            },
            Err((i, f)) => r matches Err(e) && relocation_section_error(elf, i, f, e),
        }
}

/// Refuses an application whose loaded sections take `R_ARM_ABS32`
/// relocations anywhere but in `.rom.ram`; the first offending pair is
/// reported.
pub fn validate_abs32_relocation_targets(elf: &ElfFile, elf_bytes: &[u8]) -> (r: Result<(), ElfError>)
    ensures
        abs32_outcome(*elf, elf_bytes@, r),
{
    let invalid_targets = collect_invalid_alloc_abs32_target_sections(elf, elf_bytes)?;
    if invalid_targets.len() > 0 {
        let (relocation, target) = &invalid_targets[0];
        assert(invalid_targets@.map_values(|p: (String, String)| pair_view(p))[0] == pair_view(
            invalid_targets@[0],
        ));
        return Err(
            ElfError::InvalidAbs32Target { relocation: relocation.clone(), target: target.clone() },
        );
    }
    Ok(())
}

/// The sections that hold data written at run time.
pub open spec fn runtime_writable_name(name: Seq<char>) -> bool {
    name == constants::GOT_SECTION_NAME@ || name == constants::ROM_RAM_SECTION_NAME@ || name
        == ".ram"@
}

fn is_runtime_writable_name(name: &String) -> (r: bool)
    ensures
        r == runtime_writable_name(name@),
{
    eq_str(name, constants::GOT_SECTION_NAME) || eq_str(name, constants::ROM_RAM_SECTION_NAME)
        || eq_str(name, ".ram")
}

/// The relocation types that already address data relative to the static base.
pub open spec fn sb_relative_type(t: u32) -> bool {
    t == constants::R_ARM_GOT_BREL || t == constants::R_ARM_SBREL32 || t
        == constants::R_ARM_MOVW_BREL_NC || t == constants::R_ARM_MOVT_BREL || t
        == constants::R_ARM_THM_MOVW_BREL_NC || t == constants::R_ARM_THM_MOVT_BREL
}

/// An entry of an executable section's relocations is refused: its symbol
/// index is out of range, or it addresses runtime-writable data other than
/// through the static base.
pub open spec fn exec_entry_fault(elf: ElfFile, info: u32) -> bool {
    let t = info & 0xff;
    let si = (info >> 8u32) as int;
    &&& t != 0
    &&& si != 0
    &&& (si >= elf.symbols@.len() || (section_name_at(elf, elf.symbols@[si].shndx as int) matches Some(
        n,
    ) && runtime_writable_name(n@) && !sb_relative_type(t)))
}

/// The error that reports the refused entry `k`.
pub open spec fn exec_entry_error(
    elf: ElfFile,
    info: u32,
    k: int,
    relocation_name: Seq<char>,
    target_name: Seq<char>,
    e: ElfError,
) -> bool {
    let si = (info >> 8u32) as int;
    if si >= elf.symbols@.len() {
        e matches ElfError::InvalidSymbolIndex { relocation, entry, symbol } && relocation@
            == relocation_name && entry == k && symbol == si
    } else {
        let section_name = section_name_at(elf, elf.symbols@[si].shndx as int)->Some_0@;
        e matches ElfError::ExecutableWritableReference {
            relocation,
            entry,
            symbol,
            symbol_section,
            target,
        } && relocation@ == relocation_name && entry == k && symbol@ == name_or(
            elf.symbols@[si].name,
            section_name,
        ) && symbol_section@ == section_name && target@ == target_name
    }
}

/// A section loaded as code.
pub open spec fn is_exec_section(section: ElfSection) -> bool {
    section.flags & SHF_ALLOC != 0 && section.flags & SHF_EXECINSTR != 0
}

/// Relocation section `i` passes the check of executable relocations.
pub open spec fn exec_section_ok(elf: ElfFile, bytes: Seq<u8>, i: int) -> bool {
    let section = elf.sections@[i];
    let ti = section.info as int;
    !is_relocation_type(section.sh_type) || (ti < elf.sections@.len() && (!is_exec_section(
        elf.sections@[ti],
    ) || (relocation_layout(section, relocation_entry_size(section.sh_type), bytes.len() as int) matches Ok(
        (start, end, entsize),
    ) && forall|k: int|
        0 <= k < (end - start) / entsize ==> !exec_entry_fault(
            elf,
            #[trigger] entry_info(bytes, start, entsize, k),
        ))))
}

/// The error that reports why relocation section `i` fails the check.
pub open spec fn exec_section_error(elf: ElfFile, bytes: Seq<u8>, i: int, e: ElfError) -> bool {
    let section = elf.sections@[i];
    let ti = section.info as int;
    let name = name_or(section.name, "<unnamed>"@);
    if ti >= elf.sections@.len() {
        e matches ElfError::InvalidTargetSection { relocation, index } && relocation@ == name
            && index == section.info as usize
    } else {
        match relocation_layout(section, relocation_entry_size(section.sh_type), bytes.len() as int) {
            Err(f) => layout_fault_error(f, name, e),
            Ok((start, end, entsize)) => exists|k: int|
                0 <= k < (end - start) / entsize && exec_entry_fault(
                    elf,
                    #[trigger] entry_info(bytes, start, entsize, k),
                ) && (forall|m: int|
                    0 <= m < k ==> !exec_entry_fault(
                        elf,
                        #[trigger] entry_info(bytes, start, entsize, m),
                    )) && exec_entry_error(
                    elf,
                    entry_info(bytes, start, entsize, k),
                    k,
                    name,
                    name_or(elf.sections@[ti].name, "<unnamed>"@),
                    e,
                ),
        }
    }
}

fn check_exec_relocation_section(elf: &ElfFile, elf_bytes: &[u8], i: usize) -> (r: Result<
    (),
    ElfError,
>)
    requires
        i < elf.sections@.len(),
        is_relocation_type(elf.sections@[i as int].sh_type),
    ensures
        r is Ok <==> exec_section_ok(*elf, elf_bytes@, i as int),
        r matches Err(e) ==> exec_section_error(*elf, elf_bytes@, i as int, e),
{
    let section = &elf.sections[i];
    let file_len = elf_bytes.len();
    let relocation_name = name_or_else(&section.name, "<unnamed>");
    let target_index = section.info as usize;
    if target_index >= elf.sections.len() {
        return Err(
            ElfError::InvalidTargetSection { relocation: relocation_name, index: target_index },
        );
    }
    let target_section = &elf.sections[target_index];
    let target_is_exec = (target_section.flags & SHF_ALLOC) != 0 && (target_section.flags
        & SHF_EXECINSTR) != 0;
    if !target_is_exec {
        return Ok(());
    }
    let entry_size: usize = if section.sh_type == SHT_REL {
        8
    } else {
        12
    };
    let (start, end, entsize) = match read_relocation_layout(section, entry_size, file_len) {
        Ok(v) => v,
        Err(f) => {
            return Err(layout_error(f, relocation_name));
        },
    };
    let count = (end - start) / entsize;
    let mut k: usize = 0;
    while k < count
        invariant
            count == (end - start) / (entsize as int),
            8 <= entsize,
            start <= end <= elf_bytes@.len(),
            (end - start) % (entsize as int) == 0,
            k <= count,
            i < elf.sections@.len(),
            target_index == elf.sections@[i as int].info,
            target_index < elf.sections@.len(),
            is_exec_section(elf.sections@[target_index as int]),
            is_relocation_type(elf.sections@[i as int].sh_type),
            relocation_name@ == name_or(elf.sections@[i as int].name, "<unnamed>"@),
            relocation_layout(
                elf.sections@[i as int],
                relocation_entry_size(elf.sections@[i as int].sh_type),
                elf_bytes@.len() as int,
            ) == Ok::<(int, int, int), RelocationSectionFault>(
                (start as int, end as int, entsize as int),
            ),
            forall|m: int|
                0 <= m < k ==> !exec_entry_fault(
                    *elf,
                    #[trigger] entry_info(elf_bytes@, start as int, entsize as int, m),
                ),
        decreases count - k,
    {
        proof {
            lemma_entry_in_table(start as int, entsize as int, count as int, k as int);
            assert(count * entsize == end - start) by (nonlinear_arith)
                requires
                    count == (end - start) / (entsize as int),
                    (end - start) % (entsize as int) == 0,
                    entsize > 0,
            ;
        }
        let off = start + k * entsize;
        let r_info = crate::common::read_le_word(elf_bytes, off + 4);
        let ghost info = entry_info(elf_bytes@, start as int, entsize as int, k as int);
        assert(r_info == info);
        let r_type = r_info & 0xff;
        let symbol_index = (r_info >> 8u32) as usize;
        if r_type != 0 && symbol_index != 0 {
            if symbol_index >= elf.symbols.len() {
                assert(exec_entry_fault(*elf, info));
                assert(0 <= k < (end - start) / (entsize as int));
                let ghost sec = elf.sections@[i as int];
                assert(is_relocation_type(sec.sh_type));
                assert((sec.info as int) < elf.sections@.len());
                assert(is_exec_section(elf.sections@[sec.info as int]));
                assert(relocation_layout(sec, relocation_entry_size(sec.sh_type), elf_bytes@.len() as int) matches Ok((a, b, c)) && a == start && b == end && c == entsize);
                assert(!exec_section_ok(*elf, elf_bytes@, i as int));
                return Err(
                    ElfError::InvalidSymbolIndex {
                        relocation: relocation_name,
                        entry: k,
                        symbol: symbol_index,
                    },
                );
            }
            let symbol = &elf.symbols[symbol_index];
            match section_name_of(elf, symbol.shndx) {
                Some(symbol_section_name) => {
                    if is_runtime_writable_name(&symbol_section_name) && !(r_type
                        == constants::R_ARM_GOT_BREL || r_type == constants::R_ARM_SBREL32
                        || r_type == constants::R_ARM_MOVW_BREL_NC || r_type
                        == constants::R_ARM_MOVT_BREL || r_type
                        == constants::R_ARM_THM_MOVW_BREL_NC || r_type
                        == constants::R_ARM_THM_MOVT_BREL) {
                        assert(exec_entry_fault(*elf, info));
                        assert(0 <= k < (end - start) / (entsize as int));
                        let ghost sec = elf.sections@[i as int];
                        assert(is_relocation_type(sec.sh_type));
                        assert((sec.info as int) < elf.sections@.len());
                        assert(is_exec_section(elf.sections@[sec.info as int]));
                        assert(relocation_layout(
                            sec,
                            relocation_entry_size(sec.sh_type),
                            elf_bytes@.len() as int,
                        ) matches Ok((a, b, c)) && a == start && b == end && c == entsize);
                        assert(!exec_section_ok(*elf, elf_bytes@, i as int));
                        let symbol_name = match &symbol.name {
                            Some(n) => n.clone(),
                            None => symbol_section_name.clone(),
                        };
                        let target = name_or_else(&elf.sections[target_index].name, "<unnamed>");
                        return Err(
                            ElfError::ExecutableWritableReference {
                                relocation: relocation_name,
                                entry: k,
                                symbol: symbol_name,
                                symbol_section: symbol_section_name,
                                target,
                            },
                        );
                    }
                },
                None => {},
            }
        }
        k = k + 1;
    }
    Ok(())
}

/// What `validate_no_exec_relocations_to_runtime_writable_sections` gives for an
/// ELF parsed from `bytes`.
pub open spec fn exec_relocations_outcome(
    elf: ElfFile,
    bytes: Seq<u8>,
    r: Result<(), ElfError>,
) -> bool {
    &&& (r is Ok <==> forall|i: int|
            0 <= i < elf.sections@.len() ==> #[trigger] exec_section_ok(elf, bytes, i))
    &&& (r matches Err(e) ==> exists|i: int|
            0 <= i < elf.sections@.len() && !#[trigger] exec_section_ok(elf, bytes, i)
                && exec_section_error(elf, bytes, i, e) && forall|j: int|
                0 <= j < i ==> #[trigger] exec_section_ok(elf, bytes, j))
}

/// Refuses an application whose code takes ELF relocations against data
/// written at run time (`.got`, `.rom.ram`, `.ram`), other than those relative
/// to the static base; the first offending entry is reported.
pub fn validate_no_exec_relocations_to_runtime_writable_sections(
    elf: &ElfFile,
    elf_bytes: &[u8],
) -> (r: Result<(), ElfError>)
    ensures
        exec_relocations_outcome(*elf, elf_bytes@, r),
{
    let mut i: usize = 0;
    while i < elf.sections.len()
        invariant
            i <= elf.sections@.len(),
            forall|j: int| 0 <= j < i ==> #[trigger] exec_section_ok(*elf, elf_bytes@, j),
        decreases elf.sections@.len() - i,
    {
        let section = &elf.sections[i];
        if section.sh_type == SHT_REL || section.sh_type == SHT_RELA {
            check_exec_relocation_section(elf, elf_bytes, i)?;
        }
        i = i + 1;
    }
    Ok(())
}

// ---------------------------------------------------------------------------
// Rewriting executable references to runtime-writable data
// ---------------------------------------------------------------------------
/// A run of bytes to write at a file offset.
pub struct BytePatch {
    pub offset: usize,
    pub bytes: Vec<u8>,
}

pub open spec fn patch_view(p: BytePatch) -> (usize, Seq<u8>) {
    (p.offset, p.bytes@)
}

pub open spec fn patches_view(v: Seq<BytePatch>) -> Seq<(usize, Seq<u8>)> {
    v.map_values(|p: BytePatch| patch_view(p))
}

fn patch(offset: usize, bytes: &[u8]) -> (r: BytePatch)
    ensures
        patch_view(r) == (offset, bytes@),
{
    let mut v: Vec<u8> = Vec::new();
    crate::common::append_slice(&mut v, bytes);
    assert(v@ =~= bytes@);
    BytePatch { offset, bytes: v }
}

fn clone_name(name: &Option<String>) -> (r: Option<String>)
    ensures
        r == *name,
{
    match name {
        Some(n) => Some(n.clone()),
        None => None,
    }
}

/// The runtime-writable section that a symbol lies in, if it does.
pub open spec fn writable_section_of(elf: ElfFile, symbol: ElfSymbol) -> Option<String> {
    match section_name_at(elf, symbol.shndx as int) {
        Some(n) => if runtime_writable_name(n@) {
            Some(n)
        } else {
            None
        },
        None => None,
    }
}

fn runtime_writable_symbol_section_name(elf: &ElfFile, symbol: &ElfSymbol) -> (r: Option<String>)
    ensures
        r == writable_section_of(*elf, *symbol),
{
    match section_name_of(elf, symbol.shndx) {
        Some(n) => if is_runtime_writable_name(&n) {
            Some(n)
        } else {
            None
        },
        None => None,
    }
}

/// The patches for an `R_ARM_REL32` entry whose literal feeds a Thumb
/// `ldr rd, [pc, #..]; add rd, pc`: the literal becomes the SB-relative
/// offset, the `add` becomes `add rd, sb`, and the entry's type word is cleared.
#[verifier::opaque]
pub open spec fn spec_rel32_entry(
    elf: ElfFile,
    bytes: Seq<u8>,
    rom_size: u32,
    section: ElfSection,
    target: ElfSection,
    entry: int,
    off: int,
    r_offset: u32,
    r_info: u32,
) -> Result<Option<Seq<(usize, Seq<u8>)>>, ElfError> {
    let si = (r_info >> 8u32) as int;
    if si >= elf.symbols@.len() {
        Err(
            ElfError::RewriteInvalidSymbolIndex {
                relocation: section.name,
                entry: entry as usize,
                symbol: si as usize,
            },
        )
    } else {
        let symbol = elf.symbols@[si];
        match writable_section_of(elf, symbol) {
            None => Ok(None),
            Some(section_name) => {
                let sref = SymbolRef { name: symbol.name, section: section_name };
                match spec_file_offset_for_vaddr(target, r_offset) {
                    Err(e) => Err(e),
                    Ok(literal_off) => match spec_section_file_range(target, bytes.len() as int) {
                        Err(e) => Err(e),
                        Ok((start, end)) => match spec_scan_literal_pattern(
                            bytes,
                            start,
                            end,
                            target.addr as u32,
                            r_offset,
                            start,
                            None,
                        ) {
                            Err(e) => Err(e),
                            Ok(None) => Err(
                                ElfError::UnsupportedRel32Reference {
                                    symbol: sref,
                                    relocation: section.name,
                                },
                            ),
                            Ok(Some((_, add_off, rd))) => if (symbol.value as u32) < rom_size {
                                Err(ElfError::SymbolBeforeWritableData(sref))
                            } else {
                                Ok(
                                    Some(
                                        seq![
                                            (literal_off, crate::common::le_bytes(
                                                ((symbol.value as u32) - rom_size) as u32,
                                            )),
                                            (add_off, le_half(thumb_add_register(rd, 9))),
                                            ((off + 4) as usize, crate::common::le_bytes(0)),
                                        ],
                                    ),
                                )
                            },
                        },
                    },
                }
            },
        }
    }
}

fn rel32_entry(
    elf: &ElfFile,
    elf_bytes: &[u8],
    rom_size: u32,
    section_index: usize,
    target_index: usize,
    entry: usize,
    off: usize,
    r_offset: u32,
    r_info: u32,
) -> (r: Result<Option<Vec<BytePatch>>, ElfError>)
    requires
        section_index < elf.sections@.len(),
        target_index < elf.sections@.len(),
        off + 8 <= elf_bytes@.len(),
        elf_bytes@.len() <= usize::MAX - 32,
    ensures
        ({
            let spec = spec_rel32_entry(
                *elf,
                elf_bytes@,
                rom_size,
                elf.sections@[section_index as int],
                elf.sections@[target_index as int],
                entry as int,
                off as int,
                r_offset,
                r_info,
            );
            match r {
                Ok(Some(v)) => spec == Ok::<Option<Seq<(usize, Seq<u8>)>>, ElfError>(
                    Some(patches_view(v@)),
                ),
                Ok(None) => spec == Ok::<Option<Seq<(usize, Seq<u8>)>>, ElfError>(None),
                Err(e) => spec == Err::<Option<Seq<(usize, Seq<u8>)>>, ElfError>(e),
            }
        }),
{
    reveal(spec_rel32_entry);
    let section = &elf.sections[section_index];
    let target_section = &elf.sections[target_index];
    let symbol_index = (r_info >> 8u32) as usize;
    if symbol_index >= elf.symbols.len() {
        return Err(
            ElfError::RewriteInvalidSymbolIndex {
                relocation: clone_name(&section.name),
                entry,
                symbol: symbol_index,
            },
        );
    }
    let symbol = &elf.symbols[symbol_index];
    let symbol_section_name = match runtime_writable_symbol_section_name(elf, symbol) {
        None => {
            return Ok(None);
        },
        Some(n) => n,
    };
    let sref = SymbolRef { name: clone_name(&symbol.name), section: symbol_section_name };
    let literal_file_off = file_offset_for_vaddr(target_section, r_offset)?;
    let pattern = find_thumb_ldr_literal_add_pc_pattern(elf_bytes, target_section, r_offset)?;
    let (add_file_off, rd) = match pattern {
        None => {
            return Err(
                ElfError::UnsupportedRel32Reference {
                    symbol: sref,
                    relocation: clone_name(&section.name),
                },
            );
        },
        Some((_, a, rd)) => (a, rd),
    };
    let sbrel = symbol.value as u32;
    if sbrel < rom_size {
        return Err(ElfError::SymbolBeforeWritableData(sref));
    }
    let sbrel = sbrel - rom_size;
    let mut patches: Vec<BytePatch> = Vec::new();
    let w = crate::common::to_word(sbrel);
    patches.push(patch(literal_file_off, &w));
    let a = encode_thumb_add_sb(rd);
    patches.push(patch(add_file_off, &a));
    let z = crate::common::to_word(0);
    patches.push(patch(off + 4, &z));
    assert(patches_view(patches@) =~= seq![
        (literal_file_off, crate::common::le_bytes(sbrel)),
        (add_file_off, le_half(thumb_add_register(rd, 9))),
        ((off + 4) as usize, crate::common::le_bytes(0)),
    ]);
    Ok(Some(patches))
}

/// The Thumb-2 MOVW/MOVT instruction bytes.
pub open spec fn thumb_movw_bytes(rd: u16, imm16: u16) -> Seq<u8> {
    le_half(thumb_mov_first(0xf240, imm16)) + le_half(thumb_mov_second(rd, imm16))
}

pub open spec fn thumb_movt_bytes(rd: u16, imm16: u16) -> Seq<u8> {
    le_half(thumb_mov_first(0xf2c0, imm16)) + le_half(thumb_mov_second(rd, imm16))
}

/// The end of the search for the `add rd, pc` that follows a MOVT.
pub open spec fn add_search_end(search_start: int, file_len: int) -> int {
    if search_start + 16 <= file_len {
        search_start + 16
    } else {
        file_len
    }
}

/// The patches for a Thumb MOVW/MOVT pair: both rewritten with the
/// SB-relative offset, and the `add rd, pc` after them made `add rd, sb`.
pub open spec fn spec_thumb_pair(
    bytes: Seq<u8>,
    sref: SymbolRef,
    sbrel: u32,
    movw_off: usize,
    movt_off: usize,
) -> Result<Seq<(usize, Seq<u8>)>, ElfError> {
    match spec_read_u16(bytes, movw_off.wrapping_add(2) as int) {
        Err(e) => Err(e),
        Ok(movw_second) => match spec_read_u16(bytes, movt_off.wrapping_add(2) as int) {
            Err(e) => Err(e),
            Ok(movt_second) => {
                let rd = (movw_second >> 8u16) & 0xf;
                if rd != (movt_second >> 8u16) & 0xf {
                    Err(ElfError::MovRegisterMismatch(sref))
                } else {
                    let search_start = movt_off.wrapping_add(4) as int;
                    let search_end = add_search_end(search_start, bytes.len() as int);
                    match spec_scan_add_pc(bytes, search_start, search_end, rd, None) {
                        Err(e) => Err(e),
                        Ok(None) => Err(
                            ElfError::MissingThumbAddPc {
                                symbol: sref,
                                register: rd,
                                found: if search_start + 2 <= bytes.len() {
                                    Some(half_at(bytes, search_start))
                                } else {
                                    None
                                },
                            },
                        ),
                        Ok(Some(add_off)) => Ok(
                            seq![
                                (movw_off, thumb_movw_bytes(rd, (sbrel & 0xffff) as u16)),
                                (movt_off, thumb_movt_bytes(rd, (sbrel >> 16u32) as u16)),
                                (add_off, le_half(thumb_add_register(rd, 9))),
                            ],
                        ),
                    }
                }
            },
        },
    }
}

fn thumb_pair(
    elf_bytes: &[u8],
    sref: SymbolRef,
    sbrel: u32,
    movw_off: usize,
    movt_off: usize,
) -> (r: Result<Vec<BytePatch>, ElfError>)
    requires
        elf_bytes@.len() <= usize::MAX - 32,
    ensures
        match r {
            Ok(v) => spec_thumb_pair(elf_bytes@, sref, sbrel, movw_off, movt_off) == Ok::<
                Seq<(usize, Seq<u8>)>,
                ElfError,
            >(patches_view(v@)),
            Err(e) => spec_thumb_pair(elf_bytes@, sref, sbrel, movw_off, movt_off) == Err::<
                Seq<(usize, Seq<u8>)>,
                ElfError,
            >(e),
        },
{
    let movw_second = read_u16(elf_bytes, movw_off.wrapping_add(2))?;
    let movt_second = read_u16(elf_bytes, movt_off.wrapping_add(2))?;
    let rd = (movw_second >> 8u16) & 0xf;
    let movt_rd = (movt_second >> 8u16) & 0xf;
    if rd != movt_rd {
        return Err(ElfError::MovRegisterMismatch(sref));
    }
    let len = elf_bytes.len();
    let search_start = movt_off.wrapping_add(4);
    let search_end = if search_start <= len && len - search_start >= 16 {
        search_start + 16
    } else {
        len
    };
    let add_file_off = match find_thumb_add_pc_for_register(elf_bytes, search_start, search_end, rd)? {
        Some(a) => a,
        None => {
            let found = if search_start <= len && len - search_start >= 2 {
                Some((elf_bytes[search_start] as u16) + 256 * (elf_bytes[search_start + 1] as u16))
            } else {
                None
            };
            return Err(ElfError::MissingThumbAddPc { symbol: sref, register: rd, found });
        },
    };
    let mut patches: Vec<BytePatch> = Vec::new();
    let movw = encode_thumb_movw(rd, (sbrel & 0xffff) as u16);
    patches.push(patch(movw_off, &movw));
    let movt = encode_thumb_movt(rd, (sbrel >> 16u32) as u16);
    patches.push(patch(movt_off, &movt));
    let add = encode_thumb_add_sb(rd);
    patches.push(patch(add_file_off, &add));
    assert(patches_view(patches@) =~= seq![
        (movw_off, thumb_movw_bytes(rd, (sbrel & 0xffff) as u16)),
        (movt_off, thumb_movt_bytes(rd, (sbrel >> 16u32) as u16)),
        (add_file_off, le_half(thumb_add_register(rd, 9))),
    ]);
    Ok(patches)
}

/// The patches for an ARM MOVW/MOVT pair: both rewritten with the
/// SB-relative offset, and the `add rd, pc, rd` or `ldr rd, [pc, rd]` after
/// them made to use `sb` in place of `pc`.
pub open spec fn spec_arm_pair(
    bytes: Seq<u8>,
    sref: SymbolRef,
    sbrel: u32,
    movw_off: usize,
    movt_off: usize,
) -> Result<Seq<(usize, Seq<u8>)>, ElfError> {
    let op_off = movt_off.wrapping_add(4);
    if op_off + 4 > bytes.len() {
        Err(ElfError::TruncatedArmSequence)
    } else {
        match spec_read_u32(bytes, movw_off as int) {
            Err(e) => Err(e),
            Ok(movw_insn) => match spec_read_u32(bytes, movt_off as int) {
                Err(e) => Err(e),
                Ok(movt_insn) => {
                    let rd = (movw_insn >> 12u32) & 0xf;
                    let op = crate::common::le_word(bytes, op_off as int);
                    if rd != (movt_insn >> 12u32) & 0xf {
                        Err(ElfError::ArmMovRegisterMismatch(sref))
                    } else {
                        let replacement = match spec_decode_arm_add_pc_self(op) {
                            Some((cond, decoded)) => if decoded != rd {
                                Err(ElfError::ArmAddRegisterMismatch(sref))
                            } else {
                                Ok(crate::common::le_bytes(arm_add_reg_base(cond, rd, 9, rd)))
                            },
                            None => match spec_decode_arm_ldr_pc_self(op) {
                                Some((cond, decoded)) => if decoded != rd {
                                    Err(ElfError::ArmLdrRegisterMismatch(sref))
                                } else {
                                    Ok(
                                        crate::common::le_bytes(
                                            arm_ldr_reg_offset(cond, rd, 9, rd),
                                        ),
                                    )
                                },
                                None => Err(
                                    ElfError::UnsupportedArmMaterialization {
                                        symbol: sref,
                                        register: rd,
                                        found: op,
                                    },
                                ),
                            },
                        };
                        match replacement {
                            Err(e) => Err(e),
                            Ok(rep) => Ok(
                                seq![
                                    (movw_off, crate::common::le_bytes(
                                        arm_mov(0xe3000000, rd, sbrel & 0xffff),
                                    )),
                                    (movt_off, crate::common::le_bytes(
                                        arm_mov(0xe3400000, rd, (sbrel >> 16u32) & 0xffff),
                                    )),
                                    (op_off, rep),
                                ],
                            ),
                        }
                    }
                },
            },
        }
    }
}

fn arm_pair(
    elf_bytes: &[u8],
    sref: SymbolRef,
    sbrel: u32,
    movw_off: usize,
    movt_off: usize,
) -> (r: Result<Vec<BytePatch>, ElfError>)
    ensures
        match r {
            Ok(v) => spec_arm_pair(elf_bytes@, sref, sbrel, movw_off, movt_off) == Ok::<
                Seq<(usize, Seq<u8>)>,
                ElfError,
            >(patches_view(v@)),
            Err(e) => spec_arm_pair(elf_bytes@, sref, sbrel, movw_off, movt_off) == Err::<
                Seq<(usize, Seq<u8>)>,
                ElfError,
            >(e),
        },
{
    let op_file_off = movt_off.wrapping_add(4);
    let len = elf_bytes.len();
    if op_file_off > len || len - op_file_off < 4 {
        return Err(ElfError::TruncatedArmSequence);
    }
    let movw_insn = read_u32(elf_bytes, movw_off)?;
    let movt_insn = read_u32(elf_bytes, movt_off)?;
    let rd = (movw_insn >> 12u32) & 0xf;
    let movt_rd = (movt_insn >> 12u32) & 0xf;
    let op_insn = crate::common::read_le_word(elf_bytes, op_file_off);
    if rd != movt_rd {
        return Err(ElfError::ArmMovRegisterMismatch(sref));
    }
    let replacement = match decode_arm_add_pc_self(op_insn) {
        Some((cond, decoded_rd)) => {
            if decoded_rd != rd {
                return Err(ElfError::ArmAddRegisterMismatch(sref));
            }
            encode_arm_add_reg_base(cond, rd, 9, rd)
        },
        None => match decode_arm_ldr_pc_self(op_insn) {
            Some((cond, decoded_rd)) => {
                if decoded_rd != rd {
                    return Err(ElfError::ArmLdrRegisterMismatch(sref));
                }
                encode_arm_ldr_reg_offset(cond, rd, 9, rd)
            },
            None => {
                return Err(
                    ElfError::UnsupportedArmMaterialization {
                        symbol: sref,
                        register: rd,
                        found: op_insn,
                    },
                );
            },
        },
    };
    let mut patches: Vec<BytePatch> = Vec::new();
    let movw = encode_arm_movw(rd, sbrel & 0xffff);
    patches.push(patch(movw_off, &movw));
    let movt = encode_arm_movt(rd, (sbrel >> 16u32) & 0xffff);
    patches.push(patch(movt_off, &movt));
    patches.push(patch(op_file_off, &replacement));
    assert(patches_view(patches@) =~= seq![
        (movw_off, crate::common::le_bytes(arm_mov(0xe3000000, rd, sbrel & 0xffff))),
        (movt_off, crate::common::le_bytes(arm_mov(0xe3400000, rd, (sbrel >> 16u32) & 0xffff))),
        (op_file_off, replacement@),
    ]);
    Ok(patches)
}

/// The patches for a MOVW entry (`R_ARM_THM_MOVW_PREL_NC` or
/// `R_ARM_MOVW_PREL_NC`) of a runtime-writable symbol, with its paired MOVT:
/// the instructions rewritten SB-relative and both entries' type words cleared.
#[verifier::opaque]
pub open spec fn spec_mov_entry(
    elf: ElfFile,
    bytes: Seq<u8>,
    rom_size: u32,
    section: ElfSection,
    target: ElfSection,
    start: int,
    entsize: int,
    count: int,
    entry: int,
    off: int,
    r_offset: u32,
    r_info: u32,
) -> Result<Option<Seq<(usize, Seq<u8>)>>, ElfError> {
    let t = r_info & 0xff;
    let si = (r_info >> 8u32) as int;
    if t != constants::R_ARM_THM_MOVW_PREL_NC && t != constants::R_ARM_MOVW_PREL_NC {
        Ok(None)
    } else if si >= elf.symbols@.len() {
        Err(
            ElfError::RewriteInvalidSymbolIndex {
                relocation: section.name,
                entry: entry as usize,
                symbol: si as usize,
            },
        )
    } else {
        let symbol = elf.symbols@[si];
        match writable_section_of(elf, symbol) {
            None => Ok(None),
            Some(section_name) => {
                let sref = SymbolRef { name: symbol.name, section: section_name };
                let thumb = t == constants::R_ARM_THM_MOVW_PREL_NC;
                let expected = if thumb {
                    constants::R_ARM_THM_MOVT_PREL
                } else {
                    constants::R_ARM_MOVT_PREL
                };
                match spec_paired_movt(
                    bytes,
                    start,
                    entsize,
                    count,
                    entry + 1,
                    si as usize,
                    r_offset.saturating_add(16),
                    expected,
                ) {
                    None => Err(
                        ElfError::UnsupportedRelocationPattern {
                            symbol: sref,
                            relocation: section.name,
                        },
                    ),
                    Some((next_off, next_r_offset)) => if (symbol.value as u32) < rom_size {
                        Err(ElfError::SymbolBeforeWritableData(sref))
                    } else {
                        let sbrel = ((symbol.value as u32) - rom_size) as u32;
                        match spec_file_offset_for_vaddr(target, r_offset) {
                            Err(e) => Err(e),
                            Ok(movw_off) => match spec_file_offset_for_vaddr(target, next_r_offset) {
                                Err(e) => Err(e),
                                Ok(movt_off) => {
                                    let pair = if thumb {
                                        spec_thumb_pair(bytes, sref, sbrel, movw_off, movt_off)
                                    } else {
                                        spec_arm_pair(bytes, sref, sbrel, movw_off, movt_off)
                                    };
                                    match pair {
                                        Err(e) => Err(e),
                                        Ok(ps) => Ok(
                                            Some(
                                                ps + seq![
                                                    ((off + 4) as usize, crate::common::le_bytes(0)),
                                                    ((next_off + 4) as usize, crate::common::le_bytes(
                                                        0,
                                                    )),
                                                ],
                                            ),
                                        ),
                                    }
                                },
                            },
                        }
                    },
                }
            },
        }
    }
}

fn mov_entry(
    elf: &ElfFile,
    elf_bytes: &[u8],
    rom_size: u32,
    section_index: usize,
    target_index: usize,
    start: usize,
    entsize: usize,
    count: usize,
    entry: usize,
    off: usize,
    r_offset: u32,
    r_info: u32,
) -> (r: Result<Option<Vec<BytePatch>>, ElfError>)
    requires
        section_index < elf.sections@.len(),
        target_index < elf.sections@.len(),
        8 <= entsize,
        entry < count,
        start + count * entsize <= elf_bytes@.len(),
        off + 8 <= elf_bytes@.len(),
        elf_bytes@.len() <= usize::MAX - 32,
    ensures
        ({
            let spec = spec_mov_entry(
                *elf,
                elf_bytes@,
                rom_size,
                elf.sections@[section_index as int],
                elf.sections@[target_index as int],
                start as int,
                entsize as int,
                count as int,
                entry as int,
                off as int,
                r_offset,
                r_info,
            );
            match r {
                Ok(Some(v)) => spec == Ok::<Option<Seq<(usize, Seq<u8>)>>, ElfError>(
                    Some(patches_view(v@)),
                ),
                Ok(None) => spec == Ok::<Option<Seq<(usize, Seq<u8>)>>, ElfError>(None),
                Err(e) => spec == Err::<Option<Seq<(usize, Seq<u8>)>>, ElfError>(e),
            }
        }),
{
    reveal(spec_mov_entry);
    let section = &elf.sections[section_index];
    let target_section = &elf.sections[target_index];
    let r_type = r_info & 0xff;
    if r_type != constants::R_ARM_THM_MOVW_PREL_NC && r_type != constants::R_ARM_MOVW_PREL_NC {
        return Ok(None);
    }
    let symbol_index = (r_info >> 8u32) as usize;
    if symbol_index >= elf.symbols.len() {
        return Err(
            ElfError::RewriteInvalidSymbolIndex {
                relocation: clone_name(&section.name),
                entry,
                symbol: symbol_index,
            },
        );
    }
    let symbol = &elf.symbols[symbol_index];
    let symbol_section_name = match runtime_writable_symbol_section_name(elf, symbol) {
        None => {
            return Ok(None);
        },
        Some(n) => n,
    };
    let sref = SymbolRef { name: clone_name(&symbol.name), section: symbol_section_name };
    let is_thumb_mov_pair = r_type == constants::R_ARM_THM_MOVW_PREL_NC;
    let expected_movt_type = if is_thumb_mov_pair {
        constants::R_ARM_THM_MOVT_PREL
    } else {
        constants::R_ARM_MOVT_PREL
    };
    let paired = find_paired_movt_relocation(
        elf_bytes,
        start,
        entsize,
        count,
        entry,
        symbol_index,
        r_offset,
        expected_movt_type,
    )?;
    let (next_off, next_r_offset) = match paired {
        None => {
            return Err(
                ElfError::UnsupportedRelocationPattern {
                    symbol: sref,
                    relocation: clone_name(&section.name),
                },
            );
        },
        Some(p) => p,
    };
    let sbrel = symbol.value as u32;
    if sbrel < rom_size {
        return Err(ElfError::SymbolBeforeWritableData(sref));
    }
    let sbrel = sbrel - rom_size;
    let movw_file_off = file_offset_for_vaddr(target_section, r_offset)?;
    let movt_file_off = file_offset_for_vaddr(target_section, next_r_offset)?;
    let mut patches = if is_thumb_mov_pair {
        thumb_pair(elf_bytes, sref, sbrel, movw_file_off, movt_file_off)?
    } else {
        arm_pair(elf_bytes, sref, sbrel, movw_file_off, movt_file_off)?
    };
    let ghost first = patches_view(patches@);
    let z = crate::common::to_word(0);
    patches.push(patch(off + 4, &z));
    proof {
        assert(spec_paired_movt(
            elf_bytes@,
            start as int,
            entsize as int,
            count as int,
            entry + 1,
            symbol_index,
            r_offset.saturating_add(16),
            expected_movt_type,
        ) == Some((next_off, next_r_offset)));
        lemma_paired_movt_in_table(
            elf_bytes@,
            start as int,
            entsize as int,
            count as int,
            entry + 1,
            symbol_index,
            r_offset.saturating_add(16),
            expected_movt_type,
        );
    }
    patches.push(patch(next_off + 4, &z));
    assert(patches_view(patches@) =~= first + seq![
        ((off + 4) as usize, crate::common::le_bytes(0)),
        ((next_off + 4) as usize, crate::common::le_bytes(0)),
    ]);
    Ok(Some(patches))
}

/// A paired MOVT entry lies inside the table.
proof fn lemma_paired_movt_in_table(
    bytes: Seq<u8>,
    start: int,
    entsize: int,
    count: int,
    candidate: int,
    symbol_index: usize,
    max_offset: u32,
    expected: u32,
)
    requires
        8 <= entsize,
        0 <= start,
        0 <= candidate,
        start + count * entsize <= bytes.len(),
    ensures
        spec_paired_movt(bytes, start, entsize, count, candidate, symbol_index, max_offset, expected) matches Some(
            (next_off, _),
        ) ==> next_off + 8 <= bytes.len(),
    decreases count - candidate,
{
    if candidate < count {
        lemma_entry_in_table(start, entsize, count, candidate);
        lemma_paired_movt_in_table(
            bytes,
            start,
            entsize,
            count,
            candidate + 1,
            symbol_index,
            max_offset,
            expected,
        );
    }
}

/// The patches for entry `k` of the REL section `i` that targets section `ti`.
pub open spec fn spec_rewrite_entry(
    elf: ElfFile,
    bytes: Seq<u8>,
    rom_size: u32,
    i: int,
    ti: int,
    start: int,
    entsize: int,
    count: int,
    k: int,
) -> Result<Option<Seq<(usize, Seq<u8>)>>, ElfError> {
    let off = rel_entry_offset(start, entsize, k);
    let r_offset = crate::common::le_word(bytes, off);
    let r_info = crate::common::le_word(bytes, off + 4);
    if r_info & 0xff == constants::R_ARM_REL32 {
        spec_rel32_entry(
            elf,
            bytes,
            rom_size,
            elf.sections@[i],
            elf.sections@[ti],
            k,
            off,
            r_offset,
            r_info,
        )
    } else {
        spec_mov_entry(
            elf,
            bytes,
            rom_size,
            elf.sections@[i],
            elf.sections@[ti],
            start,
            entsize,
            count,
            k,
            off,
            r_offset,
            r_info,
        )
    }
}

/// The patches and the number of rewritten references of the first `n`
/// entries of the REL section `i`.
pub open spec fn spec_rewrite_entries(
    elf: ElfFile,
    bytes: Seq<u8>,
    rom_size: u32,
    i: int,
    ti: int,
    start: int,
    entsize: int,
    count: int,
    n: int,
) -> Result<(Seq<(usize, Seq<u8>)>, nat), ElfError>
    decreases n,
{
    if n <= 0 {
        Ok((Seq::empty(), 0))
    } else {
        match spec_rewrite_entries(elf, bytes, rom_size, i, ti, start, entsize, count, n - 1) {
            Err(e) => Err(e),
            Ok((ps, pairs)) => match spec_rewrite_entry(
                elf,
                bytes,
                rom_size,
                i,
                ti,
                start,
                entsize,
                count,
                n - 1,
            ) {
                Err(e) => Err(e),
                Ok(None) => Ok((ps, pairs)),
                Ok(Some(q)) => Ok((ps + q, pairs + 1)),
            },
        }
    }
}

proof fn lemma_rewrite_entries_err_persists(
    elf: ElfFile,
    bytes: Seq<u8>,
    rom_size: u32,
    i: int,
    ti: int,
    start: int,
    entsize: int,
    count: int,
    k: int,
    n: int,
)
    requires
        0 <= k <= n,
        spec_rewrite_entries(elf, bytes, rom_size, i, ti, start, entsize, count, k) is Err,
    ensures
        spec_rewrite_entries(elf, bytes, rom_size, i, ti, start, entsize, count, n)
            == spec_rewrite_entries(elf, bytes, rom_size, i, ti, start, entsize, count, k),
    decreases n - k,
{
    if k < n {
        lemma_rewrite_entries_err_persists(
            elf,
            bytes,
            rom_size,
            i,
            ti,
            start,
            entsize,
            count,
            k,
            n - 1,
        );
    }
}

/// What the REL section `i` contributes, or why it stops the rewrite.
pub open spec fn spec_rewrite_section(elf: ElfFile, bytes: Seq<u8>, rom_size: u32, i: int) -> Result<
    (Seq<(usize, Seq<u8>)>, nat),
    ElfError,
> {
    let section = elf.sections@[i];
    let ti = section.info as int;
    if section.sh_type != SHT_REL {
        Ok((Seq::empty(), 0))
    } else if ti >= elf.sections@.len() {
        Err(ElfError::RewriteInvalidTargetSection { relocation: section.name, index: ti as usize })
    } else if !is_exec_section(elf.sections@[ti]) {
        Ok((Seq::empty(), 0))
    } else {
        match relocation_layout(section, 8, bytes.len() as int) {
            Err(RelocationSectionFault::Malformed) => Err(
                ElfError::RewriteMalformedRelocationSection(section.name),
            ),
            Err(RelocationSectionFault::EndOverflow) => Err(ElfError::RewriteRelocationEndOverflow),
            Err(RelocationSectionFault::OutOfBounds) => Err(ElfError::RewriteRelocationOutOfBounds),
            Ok((start, end, entsize)) => spec_rewrite_entries(
                elf,
                bytes,
                rom_size,
                i,
                ti,
                start,
                entsize,
                (end - start) / entsize,
                (end - start) / entsize,
            ),
        }
    }
}

/// The patches and the number of rewritten references of the first `n`
/// sections.
pub open spec fn spec_rewrite_sections(elf: ElfFile, bytes: Seq<u8>, rom_size: u32, n: int) -> Result<
    (Seq<(usize, Seq<u8>)>, nat),
    ElfError,
>
    decreases n,
{
    if n <= 0 {
        Ok((Seq::empty(), 0))
    } else {
        match spec_rewrite_sections(elf, bytes, rom_size, n - 1) {
            Err(e) => Err(e),
            Ok((ps, pairs)) => match spec_rewrite_section(elf, bytes, rom_size, n - 1) {
                Err(e) => Err(e),
                Ok((q, c)) => Ok((ps + q, pairs + c)),
            },
        }
    }
}

proof fn lemma_rewrite_sections_err_persists(elf: ElfFile, bytes: Seq<u8>, rom_size: u32, k: int, n: int)
    requires
        0 <= k <= n,
        spec_rewrite_sections(elf, bytes, rom_size, k) is Err,
    ensures
        spec_rewrite_sections(elf, bytes, rom_size, n) == spec_rewrite_sections(
            elf,
            bytes,
            rom_size,
            k,
        ),
    decreases n - k,
{
    if k < n {
        lemma_rewrite_sections_err_persists(elf, bytes, rom_size, k, n - 1);
    }
}

/// A count kept in a `usize` that wraps around.
pub open spec fn wrapped(n: nat) -> usize {
    (n % (usize::MAX as nat + 1)) as usize
}

proof fn lemma_wrapped_step(n: nat, x: usize)
    requires
        x == wrapped(n),
    ensures
        x.wrapping_add(1) == wrapped(n + 1),
{
    let m = usize::MAX as nat + 1;
    assert(n % m < m) by (nonlinear_arith)
        requires
            m > 0,
    ;
    if n % m + 1 < m {
        assert((n + 1) % m == n % m + 1) by (nonlinear_arith)
            requires
                m > 0,
                n % m + 1 < m,
        ;
    } else {
        assert((n + 1) % m == 0) by (nonlinear_arith)
            requires
                m > 0,
                n % m + 1 == m,
        ;
    }
}

fn rewrite_section_entries(
    elf: &ElfFile,
    elf_bytes: &[u8],
    rom_size: u32,
    i: usize,
    ti: usize,
    start: usize,
    entsize: usize,
    count: usize,
    patched_pairs: &mut usize,
    Ghost(before): Ghost<nat>,
) -> (r: Result<Vec<BytePatch>, ElfError>)
    requires
        i < elf.sections@.len(),
        ti < elf.sections@.len(),
        8 <= entsize,
        start + count * entsize <= elf_bytes@.len(),
        elf_bytes@.len() <= usize::MAX - 32,
        *old(patched_pairs) == wrapped(before),
    ensures
        match spec_rewrite_entries(
            *elf,
            elf_bytes@,
            rom_size,
            i as int,
            ti as int,
            start as int,
            entsize as int,
            count as int,
            count as int,
        ) {
            Err(e) => r matches Err(e2) && e2 == e,
            Ok((q, c)) => r matches Ok(v) && patches_view(v@) == q && *final(patched_pairs)
                == wrapped(before + c),
        },
{
    let mut patches: Vec<BytePatch> = Vec::new();
    let ghost mut counted: nat = 0;
    let mut k: usize = 0;
    assert(patches_view(patches@) =~= Seq::empty());
    while k < count
        invariant
            i < elf.sections@.len(),
            ti < elf.sections@.len(),
            8 <= entsize,
            start + count * entsize <= elf_bytes@.len(),
            elf_bytes@.len() <= usize::MAX - 32,
            k <= count,
            spec_rewrite_entries(
                *elf,
                elf_bytes@,
                rom_size,
                i as int,
                ti as int,
                start as int,
                entsize as int,
                count as int,
                k as int,
            ) == Ok::<(Seq<(usize, Seq<u8>)>, nat), ElfError>((patches_view(patches@), counted)),
            *patched_pairs == wrapped(before + counted),
        decreases count - k,
    {
        proof {
            lemma_entry_in_table(start as int, entsize as int, count as int, k as int);
        }
        let off = start + k * entsize;
        let r_offset = crate::common::read_le_word(elf_bytes, off);
        let r_info = crate::common::read_le_word(elf_bytes, off + 4);
        let result = if r_info & 0xff == constants::R_ARM_REL32 {
            rel32_entry(elf, elf_bytes, rom_size, i, ti, k, off, r_offset, r_info)
        } else {
            mov_entry(elf, elf_bytes, rom_size, i, ti, start, entsize, count, k, off, r_offset, r_info)
        };
        let ghost prev = patches_view(patches@);
        match result {
            Err(e) => {
                proof {
                    lemma_rewrite_entries_err_persists(
                        *elf,
                        elf_bytes@,
                        rom_size,
                        i as int,
                        ti as int,
                        start as int,
                        entsize as int,
                        count as int,
                        k + 1,
                        count as int,
                    );
                }
                return Err(e);
            },
            Ok(None) => {},
            Ok(Some(mut q)) => {
                let ghost qv = patches_view(q@);
                patches.append(&mut q);
                assert(patches_view(patches@) =~= prev + qv);
                proof {
                    lemma_wrapped_step(before + counted, *patched_pairs);
                    counted = counted + 1;
                }
                *patched_pairs = patched_pairs.wrapping_add(1);
            },
        }
        k = k + 1;
    }
    Ok(patches)
}

/// `bytes` with `data` written at `offset`.
pub open spec fn splice(bytes: Seq<u8>, offset: int, data: Seq<u8>) -> Seq<u8> {
    bytes.subrange(0, offset) + data + bytes.subrange(offset + data.len(), bytes.len() as int)
}

/// `bytes` after the first `n` patches, and the error that stopped them if one did.
pub open spec fn spec_apply_patches(bytes: Seq<u8>, patches: Seq<(usize, Seq<u8>)>, n: int) -> (
    Seq<u8>,
    Option<ElfError>,
)
    decreases n,
{
    if n <= 0 {
        (bytes, None)
    } else {
        let (b, err) = spec_apply_patches(bytes, patches, n - 1);
        if err is Some {
            (b, err)
        } else {
            let (offset, data) = patches[n - 1];
            if offset + data.len() > usize::MAX {
                (b, Some(ElfError::PatchEndOverflow))
            } else if offset + data.len() > b.len() {
                (b, Some(ElfError::PatchOutOfBounds(offset)))
            } else {
                (splice(b, offset as int, data), None)
            }
        }
    }
}

proof fn lemma_apply_err_persists(bytes: Seq<u8>, patches: Seq<(usize, Seq<u8>)>, k: int, n: int)
    requires
        0 <= k <= n,
        spec_apply_patches(bytes, patches, k).1 is Some,
    ensures
        spec_apply_patches(bytes, patches, n) == spec_apply_patches(bytes, patches, k),
    decreases n - k,
{
    if k < n {
        lemma_apply_err_persists(bytes, patches, k, n - 1);
    }
}

fn apply_patches(elf_bytes: &mut [u8], patches: &Vec<BytePatch>) -> (r: Result<(), ElfError>)
    ensures
        ({
            let (b, err) = spec_apply_patches(
                old(elf_bytes)@,
                patches_view(patches@),
                patches@.len() as int,
            );
            &&& final(elf_bytes)@ == b
            &&& match err {
                None => r is Ok,
                Some(e) => r matches Err(e2) && e2 == e,
            }
        }),
{
    let ghost original = elf_bytes@;
    let ghost pv = patches_view(patches@);
    let mut n: usize = 0;
    while n < patches.len()
        invariant
            n <= patches@.len(),
            pv == patches_view(patches@),
            original == old(elf_bytes)@,
            spec_apply_patches(original, pv, n as int) == (elf_bytes@, None::<ElfError>),
        decreases patches@.len() - n,
    {
        let p = &patches[n];
        assert(pv[n as int] == (p.offset, p.bytes@));
        let file_len = elf_bytes.len();
        let end = match p.offset.checked_add(p.bytes.len()) {
            Some(v) => v,
            None => {
                proof {
                    lemma_apply_err_persists(original, pv, n + 1, patches@.len() as int);
                }
                return Err(ElfError::PatchEndOverflow);
            },
        };
        if end > file_len {
            proof {
                lemma_apply_err_persists(original, pv, n + 1, patches@.len() as int);
            }
            return Err(ElfError::PatchOutOfBounds(p.offset));
        }
        let ghost before = elf_bytes@;
        let mut t: usize = 0;
        while t < p.bytes.len()
            invariant
                end == p.offset + p.bytes@.len(),
                end <= before.len(),
                elf_bytes@.len() == before.len(),
                t <= p.bytes@.len(),
                elf_bytes@ == before.subrange(0, p.offset as int) + p.bytes@.subrange(0, t as int)
                    + before.subrange(p.offset + t, before.len() as int),
            decreases p.bytes@.len() - t,
        {
            elf_bytes[p.offset + t] = p.bytes[t];
            t = t + 1;
            assert(elf_bytes@ =~= before.subrange(0, p.offset as int) + p.bytes@.subrange(
                0,
                t as int,
            ) + before.subrange(p.offset + t, before.len() as int));
        }
        assert(p.bytes@.subrange(0, p.bytes@.len() as int) =~= p.bytes@);
        assert(elf_bytes@ =~= splice(before, p.offset as int, p.bytes@));
        n = n + 1;
    }
    Ok(())
}

/// The SB-relative rewrite of the references of executable code to
/// runtime-writable data, for the parsed file `elf` whose bytes are
/// `elf_bytes`: the patches are gathered section by section, entry by entry,
/// then written in that order. Nothing is written where gathering fails.
pub fn rewrite_parsed_exec_references_to_sbrel(
    elf: &ElfFile,
    elf_bytes: &mut [u8],
    rom_size: u32,
) -> (r: Result<usize, ElfError>)
    requires
        old(elf_bytes)@.len() <= usize::MAX - 32,
    ensures
        match spec_rewrite_sections(*elf, old(elf_bytes)@, rom_size, elf.sections@.len() as int) {
            Err(e) => r matches Err(e2) && e2 == e && final(elf_bytes)@ == old(elf_bytes)@,
            Ok((patches, pairs)) => {
                let (b, err) = spec_apply_patches(old(elf_bytes)@, patches, patches.len() as int);
                &&& final(elf_bytes)@ == b
                &&& match err {
                    None => r == Ok::<usize, ElfError>(wrapped(pairs)),
                    Some(e) => r matches Err(e2) && e2 == e,
                }
            },
        },
{
    let mut patched_pairs: usize = 0;
    let ghost mut counted: nat = 0;
    let mut patches: Vec<BytePatch> = Vec::new();
    assert(patches_view(patches@) =~= Seq::empty());
    let file_len = elf_bytes.len();
    let mut i: usize = 0;
    while i < elf.sections.len()
        invariant
            i <= elf.sections@.len(),
            file_len == elf_bytes@.len(),
            elf_bytes@.len() <= usize::MAX - 32,
            spec_rewrite_sections(*elf, elf_bytes@, rom_size, i as int) == Ok::<
                (Seq<(usize, Seq<u8>)>, nat),
                ElfError,
            >((patches_view(patches@), counted)),
            patched_pairs == wrapped(counted),
        decreases elf.sections@.len() - i,
    {
        let section = &elf.sections[i];
        if section.sh_type == SHT_REL {
            let target_index = section.info as usize;
            if target_index >= elf.sections.len() {
                proof {
                    lemma_rewrite_sections_err_persists(
                        *elf,
                        elf_bytes@,
                        rom_size,
                        i + 1,
                        elf.sections@.len() as int,
                    );
                }
                return Err(
                    ElfError::RewriteInvalidTargetSection {
                        relocation: clone_name(&section.name),
                        index: target_index,
                    },
                );
            }
            let target_section = &elf.sections[target_index];
            let target_is_exec = (target_section.flags & SHF_ALLOC) != 0 && (target_section.flags
                & SHF_EXECINSTR) != 0;
            if target_is_exec {
                let layout = read_relocation_layout(section, 8, file_len);
                let (start, end, entsize) = match layout {
                    Ok(v) => v,
                    Err(f) => {
                        proof {
                            lemma_rewrite_sections_err_persists(
                                *elf,
                                elf_bytes@,
                                rom_size,
                                i + 1,
                                elf.sections@.len() as int,
                            );
                        }
                        return Err(
                            match f {
                                RelocationSectionFault::Malformed => {
                                    ElfError::RewriteMalformedRelocationSection(
                                        clone_name(&section.name),
                                    )
                                },
                                RelocationSectionFault::EndOverflow => {
                                    ElfError::RewriteRelocationEndOverflow
                                },
                                RelocationSectionFault::OutOfBounds => {
                                    ElfError::RewriteRelocationOutOfBounds
                                },
                            },
                        );
                    },
                };
                let entry_count = (end - start) / entsize;
                proof {
                    assert(entry_count * entsize <= end - start) by (nonlinear_arith)
                        requires
                            entry_count == (end - start) / (entsize as int),
                            entsize > 0,
                            start <= end,
                    ;
                }
                let ghost prev = patches_view(patches@);
                let ghost prev_count = counted;
                let section_patches = rewrite_section_entries(
                    elf,
                    elf_bytes,
                    rom_size,
                    i,
                    target_index,
                    start,
                    entsize,
                    entry_count,
                    &mut patched_pairs,
                    Ghost(counted),
                );
                let mut section_patches = match section_patches {
                    Ok(v) => v,
                    Err(e) => {
                        proof {
                            lemma_rewrite_sections_err_persists(
                                *elf,
                                elf_bytes@,
                                rom_size,
                                i + 1,
                                elf.sections@.len() as int,
                            );
                        }
                        return Err(e);
                    },
                };
                let ghost q = patches_view(section_patches@);
                patches.append(&mut section_patches);
                assert(patches_view(patches@) =~= prev + q);
                proof {
                    let c = spec_rewrite_section(*elf, elf_bytes@, rom_size, i as int)->Ok_0.1;
                    counted = prev_count + c;
                }
            }
        }
        i = i + 1;
    }
    apply_patches(elf_bytes, &patches)?;
    Ok(patched_pairs)
}

/// Parses `elf_bytes` and rewrites, in place, the references of executable
/// code to runtime-writable data so that they address it relative to the
/// static base (`sb`, `r9`), `rom_size` bytes below the writable data: the
/// literal or MOVW/MOVT immediates become SB-relative offsets, the `pc`-based
/// additions or loads become `sb`-based, and the relocation entries that
/// described them are cleared. Returns how many references were rewritten.
pub fn rewrite_exec_runtime_references_to_sbrel(elf_bytes: &mut [u8], rom_size: u32) -> (r: Result<
    usize,
    ElfError,
>)
    requires
        old(elf_bytes)@.len() <= usize::MAX - 32,
    ensures
        goblin_elf_model(old(elf_bytes)@) is None ==> r matches Err(ElfError::Parse(_)),
        goblin_elf_model(old(elf_bytes)@) is None ==> final(elf_bytes)@ == old(elf_bytes)@,
        goblin_elf_model(old(elf_bytes)@) matches Some(elf) ==> {
            match spec_rewrite_sections(elf, old(elf_bytes)@, rom_size, elf.sections@.len() as int) {
                Err(e) => r matches Err(e2) && e2 == e && final(elf_bytes)@ == old(elf_bytes)@,
                Ok((patches, pairs)) => {
                    let (b, err) = spec_apply_patches(
                        old(elf_bytes)@,
                        patches,
                        patches.len() as int,
                    );
                    &&& final(elf_bytes)@ == b
                    &&& match err {
                        None => r == Ok::<usize, ElfError>(wrapped(pairs)),
                        Some(e) => r matches Err(e2) && e2 == e,
                    }
                },
            }
        },
{
    let elf = parse_elf(elf_bytes)?;
    rewrite_parsed_exec_references_to_sbrel(&elf, elf_bytes, rom_size)
}

} // verus!

//! The decisions of the image builder: its numbers and names on the command
//! line, the startup code it embeds, the output format, and the partition it
//! lays out.

use vstd::prelude::*;

use crate::common::{append_fill, append_slice, fill, le_bytes, le_word, push_word, read_le_word, to_word};
use crate::constants;
use crate::elf::{
    export_symbol_value, first_section_named, single_symbol_failure, single_value, symbol_code_mode,
    symbols_named, section_bytes_error, spec_section_bytes, export_section_bytes,
    ArmCodeMode, ElfError, ElfFile, EM_ARM,
};
use crate::fae1::registry::isa::arm;
use crate::fae1::{
    lemma_isa_descriptor_round_trip, registry, AbiDescriptor, AbiVersion, IsaDescriptor,
    RustletProfileKind,
};
use crate::fae_format::{
    remap_offset_to_padded_layout, spec_remap_offset, DescriptorWords, ExportedSymbols, Fae1Abi,
    OutputFormat,
};
use crate::gdbinit::GdbMemoryLayout;
use crate::section_plan::eq_chars;
use crate::text::{chars_of, trimmed, trim_str};

verus! {

broadcast use vstd::string::group_string_axioms;

// ---------------------------------------------------------------------------
// Unsigned numbers in text
// ---------------------------------------------------------------------------
/// The value of a digit in base `radix` (ten or sixteen), if it is one.
pub open spec fn digit_value(c: char, radix: nat) -> Option<nat> {
    let v: int = if '0' <= c && c <= '9' {
        (c as int) - ('0' as int)
    } else if 'a' <= c && c <= 'f' {
        (c as int) - ('a' as int) + 10
    } else if 'A' <= c && c <= 'F' {
        (c as int) - ('A' as int) + 10
    } else {
        -1
    };
    if 0 <= v && v < radix {
        Some(v as nat)
    } else {
        None
    }
}

/// Every character of `s` is a digit in base `radix`.
pub open spec fn all_digits(s: Seq<char>, radix: nat) -> bool {
    forall|i: int| 0 <= i < s.len() ==> #[trigger] digit_value(s[i], radix) is Some
}

/// The number the digits `s` spell in base `radix`.
pub open spec fn digits_value(s: Seq<char>, radix: nat) -> nat
    decreases s.len(),
{
    if s.len() == 0 {
        0
    } else {
        digits_value(s.drop_last(), radix) * radix + match digit_value(s.last(), radix) {
            Some(d) => d,
            None => 0,
        }
    }
}

/// The digits of an unsigned number: the text without one leading '+'.
pub open spec fn unsigned_digits(s: Seq<char>) -> Seq<char> {
    if s.len() > 0 && s[0] == '+' {
        s.drop_first()
    } else {
        s
    }
}

/// The unsigned number the text `s` spells in base `radix`, if it is one no
/// larger than `max`: an optional '+' and then at least one digit, as Rust's
/// integer parsing reads them.
pub open spec fn parse_unsigned(s: Seq<char>, radix: nat, max: nat) -> Option<nat> {
    let d = unsigned_digits(s);
    if d.len() > 0 && all_digits(d, radix) && digits_value(d, radix) <= max {
        Some(digits_value(d, radix))
    } else {
        None
    }
}

proof fn lemma_digits_value_grows(s: Seq<char>, k: int, radix: nat)
    requires
        0 <= k <= s.len(),
        radix >= 1,
    ensures
        digits_value(s.take(k), radix) <= digits_value(s, radix),
    decreases s.len() - k,
{
    if k < s.len() {
        let t = s.take(k + 1);
        assert(t.drop_last() =~= s.take(k));
        let a = digits_value(s.take(k), radix);
        assert(a * radix >= a) by (nonlinear_arith)
            requires
                radix >= 1,
        ;
        lemma_digits_value_grows(s, k + 1, radix);
        assert(s.take(s.len() as int) =~= s);
    } else {
        assert(s.take(k) =~= s);
    }
}

fn char_digit(c: char, radix: u64) -> (r: Option<u64>)
    requires
        radix == 10 || radix == 16,
    ensures
        match r {
            Some(d) => digit_value(c, radix as nat) == Some(d as nat) && d < radix,
            None => digit_value(c, radix as nat) is None,
        },
{
    let v: u64 = if '0' <= c && c <= '9' {
        (c as u32 - '0' as u32) as u64
    } else if 'a' <= c && c <= 'f' {
        (c as u32 - 'a' as u32 + 10) as u64
    } else if 'A' <= c && c <= 'F' {
        (c as u32 - 'A' as u32 + 10) as u64
    } else {
        return None;
    };
    if v < radix {
        Some(v)
    } else {
        None
    }
}

/// Reads `s` as an unsigned number in base `radix` no larger than `max`.
fn parse_unsigned_chars(s: &Vec<char>, radix: u64, max: u64) -> (r: Option<u64>)
    requires
        radix == 10 || radix == 16,
    ensures
        match r {
            Some(v) => parse_unsigned(s@, radix as nat, max as nat) == Some(v as nat),
            None => parse_unsigned(s@, radix as nat, max as nat) is None,
        },
{
    let ghost d = unsigned_digits(s@);
    let start: usize = if s.len() > 0 && s[0] == '+' {
        1
    } else {
        0
    };
    assert(d =~= s@.subrange(start as int, s@.len() as int));
    if start >= s.len() {
        return None;
    }
    let mut acc: u64 = 0;
    let mut i: usize = start;
    while i < s.len()
        invariant
            start <= i <= s@.len(),
            d == unsigned_digits(s@),
            d == s@.subrange(start as int, s@.len() as int),
            radix == 10 || radix == 16,
            all_digits(d.take(i - start), radix as nat),
            acc as nat == digits_value(d.take(i - start), radix as nat),
            acc <= max,
        decreases s@.len() - i,
    {
        let ghost k = i - start;
        assert(d.take(k + 1).drop_last() =~= d.take(k));
        assert(d[k] == s@[i as int]);
        let digit = match char_digit(s[i], radix) {
            Some(v) => v,
            None => {
                assert(digit_value(d[k], radix as nat) is None);
                assert(!all_digits(d, radix as nat));
                return None;
            },
        };
        if digit > max {
            proof {
                lemma_digits_value_grows(d, k + 1, radix as nat);
            }
            return None;
        }
        if acc > (max - digit) / radix {
            proof {
                assert(acc * radix + digit > max) by (nonlinear_arith)
                    requires
                        acc > ((max - digit) as u64) / radix,
                        radix > 0,
                        digit <= max,
                ;
                lemma_digits_value_grows(d, k + 1, radix as nat);
            }
            return None;
        }
        assert(acc * radix + digit <= max) by (nonlinear_arith)
            requires
                acc <= ((max - digit) as u64) / radix,
                radix > 0,
                digit <= max,
        ;
        acc = acc * radix + digit;
        proof {
            assert forall|j: int| 0 <= j < k + 1 implies #[trigger] digit_value(
                d.take(k + 1)[j],
                radix as nat,
            ) is Some by {
                if j < k {
                    assert(d.take(k + 1)[j] == d.take(k)[j]);
                }
            }
        }
        i = i + 1;
    }
    assert(d.take(s@.len() - start) =~= d);
    Some(acc)
}

/// `text` with every '_' taken out.
pub open spec fn without_underscores(text: Seq<char>) -> Seq<char> {
    text.filter(|c: char| c != '_')
}

/// The 32-bit number an option value spells: trimmed, with '_' separators
/// taken out, hexadecimal after "0x" or "0X", decimal otherwise.
pub open spec fn spec_parse_u32_value(value: Seq<char>) -> Option<u32> {
    let compact = without_underscores(trimmed(value));
    let hex = compact.len() >= 2 && compact[0] == '0' && (compact[1] == 'x' || compact[1] == 'X');
    let parsed = if hex {
        parse_unsigned(compact.skip(2), 16, u32::MAX as nat)
    } else {
        parse_unsigned(compact, 10, u32::MAX as nat)
    };
    match parsed {
        Some(v) => Some(v as u32),
        None => None,
    }
}

/// Reads a 32-bit descriptor or word given on the command line.
pub fn parse_u32_value(value: &str) -> (r: Option<u32>)
    ensures
        r == spec_parse_u32_value(value@),
{
    let t = trim_str(value);
    let cs = chars_of(t.as_str());
    let mut compact: Vec<char> = Vec::new();
    let mut i: usize = 0;
    while i < cs.len()
        invariant
            i <= cs@.len(),
            cs@ == trimmed(value@),
            compact@ == without_underscores(cs@.take(i as int)),
        decreases cs@.len() - i,
    {
        proof {
            assert(cs@.take(i + 1) =~= cs@.take(i as int).push(cs@[i as int]));
            cs@.take(i as int).lemma_filter_push(cs@[i as int], |c: char| c != '_');
        }
        if cs[i] != '_' {
            compact.push(cs[i]);
        }
        i = i + 1;
    }
    assert(cs@.take(cs@.len() as int) =~= cs@);
    let hex = compact.len() >= 2 && compact[0] == '0' && (compact[1] == 'x' || compact[1] == 'X');
    let parsed = if hex {
        let mut rest: Vec<char> = Vec::new();
        let mut j: usize = 2;
        while j < compact.len()
            invariant
                2 <= j <= compact@.len(),
                rest@ == compact@.subrange(2, j as int),
            decreases compact@.len() - j,
        {
            rest.push(compact[j]);
            j = j + 1;
            assert(rest@ =~= compact@.subrange(2, j as int));
        }
        assert(rest@ =~= compact@.skip(2));
        parse_unsigned_chars(&rest, 16, 0xFFFF_FFFF)
    } else {
        parse_unsigned_chars(&compact, 10, 0xFFFF_FFFF)
    };
    match parsed {
        Some(v) => Some(v as u32),
        None => None,
    }
}

/// The unsigned 32-bit number `value` spells in decimal, as `str::parse` reads it.
pub open spec fn spec_parse_u32_decimal(value: Seq<char>) -> Option<u32> {
    match parse_unsigned(value, 10, u32::MAX as nat) {
        Some(v) => Some(v as u32),
        None => None,
    }
}

/// Reads `value` as a decimal 32-bit number, with nothing trimmed.
pub fn parse_u32_decimal(value: &str) -> (r: Option<u32>)
    ensures
        r == spec_parse_u32_decimal(value@),
{
    let cs = chars_of(value);
    match parse_unsigned_chars(&cs, 10, 0xFFFF_FFFF) {
        Some(v) => Some(v as u32),
        None => None,
    }
}

/// Why an alignment given on the command line was refused.
#[derive(Debug, Clone, Copy, PartialEq, Eq)]
pub enum AlignmentError {
    NotAnInteger,
    NotPowerOfTwo,
}

/// The alignment `value` spells: trimmed decimal, and 0, 1, or a power of two.
pub open spec fn spec_parse_alignment(value: Seq<char>) -> Result<usize, AlignmentError> {
    match parse_unsigned(trimmed(value), 10, usize::MAX as nat) {
        None => Err(AlignmentError::NotAnInteger),
        Some(v) => if v > 1 && !crate::common::is_power_of_two(v as usize) {
            Err(AlignmentError::NotPowerOfTwo)
        } else {
            Ok(v as usize)
        },
    }
}

/// Reads an alignment given on the command line.
pub fn parse_alignment(value: &str) -> (r: Result<usize, AlignmentError>)
    ensures
        r == spec_parse_alignment(value@),
{
    let t = trim_str(value);
    let cs = chars_of(t.as_str());
    let max: u64 = usize::MAX as u64;
    match parse_unsigned_chars(&cs, 10, max) {
        None => Err(AlignmentError::NotAnInteger),
        Some(v) => {
            let align = v as usize;
            if align > 1 && align & (align - 1) != 0 {
                Err(AlignmentError::NotPowerOfTwo)
            } else {
                Ok(align)
            }
        },
    }
}

// ---------------------------------------------------------------------------
// Startup code and boards
// ---------------------------------------------------------------------------
/// The instruction set of the bundled runtime startup code.
#[derive(Debug, Clone, Copy, PartialEq, Eq)]
pub enum StartupKind {
    Thumb,
    ThumbV6M,
    Arm,
}

/// A board whose firmware startup code is bundled.
#[derive(Debug, Clone, Copy, PartialEq, Eq)]
pub enum FirmwareBoard {
    Mps2An385,
    Mps2An386,
    OlimexStm32H405,
    BL475eIot01a,
}

/// Bundled startup code: a runtime for an instruction set, or a board's firmware.
#[derive(Debug, Clone, Copy, PartialEq, Eq)]
pub enum EmbeddedStartup {
    Runtime(StartupKind),
    Firmware(FirmwareBoard),
}

/// The startup kind a (trimmed) name on the command line stands for.
pub open spec fn startup_kind_named(name: Seq<char>) -> Option<StartupKind> {
    if name == "thumb"@ {
        Some(StartupKind::Thumb)
    } else if name == "thumbv6m"@ {
        Some(StartupKind::ThumbV6M)
    } else if name == "arm"@ {
        Some(StartupKind::Arm)
    } else {
        None
    }
}

/// The board a (trimmed) name on the command line stands for.
pub open spec fn firmware_board_named(name: Seq<char>) -> Option<FirmwareBoard> {
    if name == "mps2-an385"@ {
        Some(FirmwareBoard::Mps2An385)
    } else if name == "mps2-an386"@ {
        Some(FirmwareBoard::Mps2An386)
    } else if name == "olimex-stm32-h405"@ {
        Some(FirmwareBoard::OlimexStm32H405)
    } else if name == "b-l475e-iot01a"@ {
        Some(FirmwareBoard::BL475eIot01a)
    } else {
        None
    }
}

/// The startup kind `value` names, white space around it ignored.
pub fn parse_startup_kind(value: &str) -> (r: Option<StartupKind>)
    ensures
        r == startup_kind_named(trimmed(value@)),
{
    let t = trim_str(value);
    if eq_chars(&t, "thumb") {
        Some(StartupKind::Thumb)
    } else if eq_chars(&t, "thumbv6m") {
        Some(StartupKind::ThumbV6M)
    } else if eq_chars(&t, "arm") {
        Some(StartupKind::Arm)
    } else {
        None
    }
}

/// The board `value` names, white space around it ignored.
pub fn parse_firmware_board(value: &str) -> (r: Option<FirmwareBoard>)
    ensures
        r == firmware_board_named(trimmed(value@)),
{
    let t = trim_str(value);
    if eq_chars(&t, "mps2-an385") {
        Some(FirmwareBoard::Mps2An385)
    } else if eq_chars(&t, "mps2-an386") {
        Some(FirmwareBoard::Mps2An386)
    } else if eq_chars(&t, "olimex-stm32-h405") {
        Some(FirmwareBoard::OlimexStm32H405)
    } else if eq_chars(&t, "b-l475e-iot01a") {
        Some(FirmwareBoard::BL475eIot01a)
    } else {
        None
    }
}

impl StartupKind {
    pub fn embedded(self) -> (r: EmbeddedStartup)
        ensures
            r == EmbeddedStartup::Runtime(self),
    {
        EmbeddedStartup::Runtime(self)
    }
}

impl FirmwareBoard {
    pub fn embedded(self) -> (r: EmbeddedStartup)
        ensures
            r == EmbeddedStartup::Firmware(self),
    {
        EmbeddedStartup::Firmware(self)
    }

    pub open spec fn spec_flash_base(self) -> u32 {
        match self {
            FirmwareBoard::Mps2An385 | FirmwareBoard::Mps2An386 => 0x0000_0000,
            FirmwareBoard::OlimexStm32H405 | FirmwareBoard::BL475eIot01a => 0x0800_0000,
        }
    }

    /// Where the board's flash begins.
    pub fn flash_base(self) -> (r: u32)
        ensures
            r == self.spec_flash_base(),
    {
        match self {
            FirmwareBoard::Mps2An385 | FirmwareBoard::Mps2An386 => 0x0000_0000,
            FirmwareBoard::OlimexStm32H405 | FirmwareBoard::BL475eIot01a => 0x0800_0000,
        }
    }

    /// Where the board's RAM begins: the same on every bundled board.
    pub fn ram_base(self) -> (r: u32)
        ensures
            r == 0x2000_0000,
    {
        0x2000_0000
    }
}

/// The stem of the file names of bundled startup code.
pub open spec fn startup_stem(e: EmbeddedStartup) -> Seq<char> {
    match e {
        EmbeddedStartup::Runtime(StartupKind::Thumb) => "rt0-thumb"@,
        EmbeddedStartup::Runtime(StartupKind::ThumbV6M) => "rt0-thumbv6m"@,
        EmbeddedStartup::Runtime(StartupKind::Arm) => "rt0-arm"@,
        EmbeddedStartup::Firmware(FirmwareBoard::Mps2An385) => "boot-mps2-an385"@,
        EmbeddedStartup::Firmware(FirmwareBoard::Mps2An386) => "boot-mps2-an386"@,
        EmbeddedStartup::Firmware(FirmwareBoard::OlimexStm32H405) => "boot-olimex-stm32-h405"@,
        EmbeddedStartup::Firmware(FirmwareBoard::BL475eIot01a) => "boot-b-l475e-iot01a"@,
    }
}

/// The file names of bundled startup code: the ELF that goes into the image
/// (generated) and the copy kept beside the image for its symbols, for the
/// legacy, FAE 1.0 and Rustlet layouts (the last for runtimes only).
#[derive(Debug, Clone)]
pub struct EmbeddedStartupSpec {
    pub output_stem: String,
    pub symbol_filename: String,
    pub generated_filename: String,
    pub fae1_symbol_filename: String,
    pub fae1_generated_filename: String,
    pub rustlet_symbol_filename: Option<String>,
    pub rustlet_generated_filename: Option<String>,
}

fn concat3(a: &str, b: &str, c: &str) -> (r: String)
    ensures
        r@ == a@ + b@ + c@,
{
    let mut out = a.to_owned();
    let bs = chars_of(b);
    let cs = chars_of(c);
    let mut i: usize = 0;
    while i < bs.len()
        invariant
            i <= bs@.len(),
            bs@ == b@,
            out@ == a@ + bs@.take(i as int),
        decreases bs@.len() - i,
    {
        out.push(bs[i]);
        assert(bs@.take(i + 1) =~= bs@.take(i as int).push(bs@[i as int]));
        i = i + 1;
    }
    assert(bs@.take(bs@.len() as int) =~= bs@);
    let mut j: usize = 0;
    while j < cs.len()
        invariant
            j <= cs@.len(),
            cs@ == c@,
            out@ == a@ + b@ + cs@.take(j as int),
        decreases cs@.len() - j,
    {
        out.push(cs[j]);
        assert(cs@.take(j + 1) =~= cs@.take(j as int).push(cs@[j as int]));
        j = j + 1;
    }
    assert(cs@.take(cs@.len() as int) =~= cs@);
    out
}

impl EmbeddedStartup {
    pub fn stem(self) -> (r: &'static str)
        ensures
            r@ == startup_stem(self),
    {
        match self {
            EmbeddedStartup::Runtime(StartupKind::Thumb) => "rt0-thumb",
            EmbeddedStartup::Runtime(StartupKind::ThumbV6M) => "rt0-thumbv6m",
            EmbeddedStartup::Runtime(StartupKind::Arm) => "rt0-arm",
            EmbeddedStartup::Firmware(FirmwareBoard::Mps2An385) => "boot-mps2-an385",
            EmbeddedStartup::Firmware(FirmwareBoard::Mps2An386) => "boot-mps2-an386",
            EmbeddedStartup::Firmware(FirmwareBoard::OlimexStm32H405) => "boot-olimex-stm32-h405",
            EmbeddedStartup::Firmware(FirmwareBoard::BL475eIot01a) => "boot-b-l475e-iot01a",
        }
    }

    /// The file names of this startup code: all made from its stem.
    pub fn startup_spec(self) -> (r: EmbeddedStartupSpec)
        ensures
            r.output_stem@ == startup_stem(self),
            r.symbol_filename@ == "build_fae-"@ + startup_stem(self) + ".elf"@,
            r.generated_filename@ == startup_stem(self) + ".elf"@,
            r.fae1_symbol_filename@ == "build_fae-"@ + startup_stem(self) + "-fae1.elf"@,
            r.fae1_generated_filename@ == startup_stem(self) + "-fae1.elf"@,
            r.rustlet_symbol_filename is Some <==> self is Runtime,
            r.rustlet_generated_filename is Some <==> self is Runtime,
            r.rustlet_symbol_filename matches Some(n) ==> n@ == "build_fae-"@ + startup_stem(self)
                + "-rustlet.elf"@,
            r.rustlet_generated_filename matches Some(n) ==> n@ == startup_stem(self)
                + "-rustlet.elf"@,
    {
        let stem = self.stem();
        proof {
            reveal_strlit("");
            assert(""@ + stem@ =~= stem@);
        }
        let rustlet = match self {
            EmbeddedStartup::Runtime(_) => true,
            EmbeddedStartup::Firmware(_) => false,
        };
        EmbeddedStartupSpec {
            output_stem: stem.to_owned(),
            symbol_filename: concat3("build_fae-", stem, ".elf"),
            generated_filename: concat3("", stem, ".elf"),
            fae1_symbol_filename: concat3("build_fae-", stem, "-fae1.elf"),
            fae1_generated_filename: concat3("", stem, "-fae1.elf"),
            rustlet_symbol_filename: if rustlet {
                Some(concat3("build_fae-", stem, "-rustlet.elf"))
            } else {
                None
            },
            rustlet_generated_filename: if rustlet {
                Some(concat3("", stem, "-rustlet.elf"))
            } else {
                None
            },
        }
    }
}

// ---------------------------------------------------------------------------
// ABI profiles and the resolved startup code
// ---------------------------------------------------------------------------
/// The ABI the image is built for.
#[derive(Debug, Clone, Copy)]
pub enum BuildAbi {
    Xipfs,
    Rustlet,
    RustletSecurityDomain,
    Explicit(DescriptorWords),
}

impl BuildAbi {
    pub open spec fn spec_uses_rustlet_layout(self) -> bool {
        match self {
            BuildAbi::Rustlet | BuildAbi::RustletSecurityDomain => true,
            BuildAbi::Explicit(words) => AbiDescriptor::spec_decode(words.spec_descriptor()).family
                == registry::abi::OXIDE_SE,
            BuildAbi::Xipfs => false,
        }
    }

    /// Whether the image takes the Rustlet layout: for the two Rustlet
    /// profiles, and for an explicit descriptor of the Oxide SE family.
    pub fn uses_rustlet_layout(self) -> (r: bool)
        ensures
            r == self.spec_uses_rustlet_layout(),
    {
        match self {
            BuildAbi::Rustlet | BuildAbi::RustletSecurityDomain => true,
            BuildAbi::Explicit(words) => AbiDescriptor::decode(words.descriptor()).family
                == registry::abi::OXIDE_SE,
            BuildAbi::Xipfs => false,
        }
    }

    /// Whether this is the default XiPFS ABI.
    pub fn is_xipfs(self) -> (r: bool)
        ensures
            r == (self is Xipfs),
    {
        match self {
            BuildAbi::Xipfs => true,
            _ => false,
        }
    }
}

/// Where the startup code comes from.
#[derive(Debug, Clone)]
pub enum StartupSource {
    EmbeddedDefaultRuntime,
    EmbeddedFirmware(FirmwareBoard),
    ExplicitElf(String),
}

/// How the bundled runtime's instruction set is chosen.
#[derive(Debug, Clone, Copy, PartialEq, Eq)]
pub enum StartupSelection {
    Auto,
    Explicit(StartupKind),
}

/// The startup code an image is built with: bundled (with the layout it is
/// generated for) or an ELF file given by its path.
#[derive(Debug, Clone)]
pub enum ResolvedStartup {
    Embedded { startup: EmbeddedStartup, fae1: bool, rustlet: bool },
    Path { elf_path: String },
}

/// The file-name ending of bundled startup code generated for a layout.
pub open spec fn layout_suffix(fae1: bool, rustlet: bool) -> Seq<char> {
    if rustlet {
        "-rustlet.elf"@
    } else if fae1 {
        "-fae1.elf"@
    } else {
        ".elf"@
    }
}

/// The memory map GDB is given for the startup code.
pub open spec fn spec_gdb_memory_layout(startup: ResolvedStartup) -> GdbMemoryLayout {
    match startup {
        ResolvedStartup::Embedded { startup: EmbeddedStartup::Firmware(board), .. } => GdbMemoryLayout::Fixed {
            flash_base: board.spec_flash_base(),
            ram_base: 0x2000_0000,
        },
        _ => GdbMemoryLayout::Relocatable { flash_base_hint: None },
    }
}

impl ResolvedStartup {
    /// Only bundled runtimes come in the Rustlet layout.
    pub open spec fn wf(&self) -> bool {
        match self {
            ResolvedStartup::Embedded { startup, rustlet, .. } => *rustlet ==> startup is Runtime,
            ResolvedStartup::Path { .. } => true,
        }
    }

    /// The memory map for GDB: the board's fixed bases for bundled firmware,
    /// relocatable otherwise.
    pub fn gdb_memory_layout(&self) -> (r: GdbMemoryLayout)
        ensures
            r == spec_gdb_memory_layout(*self),
    {
        match self {
            ResolvedStartup::Embedded { startup: EmbeddedStartup::Firmware(board), .. } => GdbMemoryLayout::Fixed {
                flash_base: board.flash_base(),
                ram_base: board.ram_base(),
            },
            _ => GdbMemoryLayout::Relocatable { flash_base_hint: None },
        }
    }

    /// The name of the bundled ELF that goes into the image, for the layout
    /// it was generated for; none for a startup given by its path.
    pub fn generated_filename(&self) -> (r: Option<String>)
        requires
            self.wf(),
        ensures
            match *self {
                ResolvedStartup::Embedded { startup, fae1, rustlet } => r matches Some(n) && n@
                    == startup_stem(startup) + layout_suffix(fae1, rustlet),
                ResolvedStartup::Path { .. } => r is None,
            },
    {
        match self {
            ResolvedStartup::Embedded { startup, fae1, rustlet } => {
                let spec = startup.startup_spec();
                if *rustlet {
                    match spec.rustlet_generated_filename {
                        Some(n) => Some(n),
                        None => None,
                    }
                } else if *fae1 {
                    Some(spec.fae1_generated_filename)
                } else {
                    Some(spec.generated_filename)
                }
            },
            ResolvedStartup::Path { .. } => None,
        }
    }

    /// The name under which the bundled ELF is kept beside the image for its
    /// symbols; none for a startup given by its path.
    pub fn symbol_filename(&self) -> (r: Option<String>)
        requires
            self.wf(),
        ensures
            match *self {
                ResolvedStartup::Embedded { startup, fae1, rustlet } => r matches Some(n) && n@
                    == "build_fae-"@ + startup_stem(startup) + layout_suffix(fae1, rustlet),
                ResolvedStartup::Path { .. } => r is None,
            },
    {
        match self {
            ResolvedStartup::Embedded { startup, fae1, rustlet } => {
                let spec = startup.startup_spec();
                if *rustlet {
                    match spec.rustlet_symbol_filename {
                        Some(n) => Some(n),
                        None => None,
                    }
                } else if *fae1 {
                    Some(spec.fae1_symbol_filename)
                } else {
                    Some(spec.symbol_filename)
                }
            },
            ResolvedStartup::Path { .. } => None,
        }
    }

    /// The file name of an image of bundled startup code alone: its stem and
    /// the image suffix; none for a startup given by its path.
    pub fn startup_alone_output_name(&self) -> (r: Option<String>)
        ensures
            match *self {
                ResolvedStartup::Embedded { startup, .. } => r matches Some(n) && n@ == startup_stem(
                    startup,
                ) + constants::SUFFIX@,
                ResolvedStartup::Path { .. } => r is None,
            },
    {
        match self {
            ResolvedStartup::Embedded { startup, .. } => {
                let stem = startup.stem();
                proof {
                    reveal_strlit("");
                    assert(""@ + stem@ =~= stem@);
                }
                Some(concat3("", stem, constants::SUFFIX))
            },
            ResolvedStartup::Path { .. } => None,
        }
    }
}

/// The symbol `name` can be looked up: the file has a `.symtab` section and
/// exactly one symbol of that name.
pub open spec fn symbol_found(elf: ElfFile, name: Seq<char>) -> bool {
    first_section_named(elf.sections@, ".symtab"@) is Some && symbols_named(elf.symbols@, name).len()
        == 1
}

/// The code mode of the symbol `name` by the low bit of its value.
pub open spec fn spec_symbol_mode(elf: ElfFile, name: Seq<char>) -> ArmCodeMode {
    if single_value(elf.symbols@, name) & 1 != 0 {
        ArmCodeMode::Thumb
    } else {
        ArmCodeMode::Arm
    }
}

/// The error looking up the symbol `name` gives.
pub open spec fn symbol_lookup_error(elf: ElfFile, name: Seq<char>, e: ElfError) -> bool {
    if first_section_named(elf.sections@, ".symtab"@) is None {
        e is MissingSymtab
    } else {
        single_symbol_failure(elf.symbols@, name, e)
    }
}

/// Why the startup code could not be chosen.
#[derive(Debug)]
pub enum StartupError {
    /// The instruction set is chosen from the input only for ARM ELF files.
    AutoSelectionNeedsArm,
    Elf(ElfError),
}

/// The runtime an input ELF calls for: by the code mode of its entry point.
pub open spec fn spec_detect_startup_kind(elf: ElfFile, runtime_entry_point: Seq<char>) -> Option<
    StartupKind,
> {
    if elf.machine != EM_ARM || !symbol_found(elf, runtime_entry_point) {
        None
    } else if spec_symbol_mode(elf, runtime_entry_point) is Thumb {
        Some(StartupKind::Thumb)
    } else {
        Some(StartupKind::Arm)
    }
}

/// The error choosing the runtime for an input ELF gives.
pub open spec fn detect_error(
    elf: ElfFile,
    runtime_entry_point: Seq<char>,
    e: StartupError,
) -> bool {
    if elf.machine != EM_ARM {
        e is AutoSelectionNeedsArm
    } else {
        e matches StartupError::Elf(inner) && symbol_lookup_error(elf, runtime_entry_point, inner)
    }
}

/// The runtime an input ELF calls for, by the code mode of its entry point:
/// Thumb or ARM; only ARM files are accepted.
pub fn detect_startup_kind(elf: &ElfFile, runtime_entry_point: &str) -> (r: Result<
    StartupKind,
    StartupError,
>)
    ensures
        match r {
            Ok(k) => spec_detect_startup_kind(*elf, runtime_entry_point@) == Some(k),
            Err(e) => spec_detect_startup_kind(*elf, runtime_entry_point@) is None && detect_error(
                *elf,
                runtime_entry_point@,
                e,
            ),
        },
{
    if elf.machine != EM_ARM {
        return Err(StartupError::AutoSelectionNeedsArm);
    }
    match symbol_code_mode(elf, runtime_entry_point) {
        Ok(ArmCodeMode::Thumb) => Ok(StartupKind::Thumb),
        Ok(ArmCodeMode::Arm) => Ok(StartupKind::Arm),
        Err(e) => Err(StartupError::Elf(e)),
    }
}

/// The startup code an image is built with.
pub open spec fn spec_resolve_startup(
    source: StartupSource,
    selection: StartupSelection,
    elf: Option<ElfFile>,
    runtime_entry_point: Seq<char>,
    facade12: bool,
    abi: BuildAbi,
) -> Option<ResolvedStartup> {
    match source {
        StartupSource::EmbeddedDefaultRuntime => {
            let kind = match selection {
                StartupSelection::Auto => match elf {
                    Some(f) => spec_detect_startup_kind(f, runtime_entry_point),
                    None => Some(StartupKind::Thumb),
                },
                StartupSelection::Explicit(k) => Some(k),
            };
            match kind {
                Some(k) => Some(
                    ResolvedStartup::Embedded {
                        startup: EmbeddedStartup::Runtime(k),
                        fae1: !facade12,
                        rustlet: !facade12 && abi.spec_uses_rustlet_layout(),
                    },
                ),
                None => None,
            }
        },
        StartupSource::EmbeddedFirmware(board) => Some(
            ResolvedStartup::Embedded {
                startup: EmbeddedStartup::Firmware(board),
                fae1: !facade12,
                rustlet: false,
            },
        ),
        StartupSource::ExplicitElf(path) => if selection is Auto && elf is Some
            && spec_detect_startup_kind(elf->Some_0, runtime_entry_point) is None {
            None
        } else {
            Some(ResolvedStartup::Path { elf_path: path })
        },
    }
}

/// Chooses the startup code: a bundled runtime (picked from the input ELF's
/// entry point unless one was named, Thumb where there is no input), a
/// board's firmware, or the given ELF file (whose input must still pass the
/// check of the automatic choice).
pub fn resolve_startup(
    source: &StartupSource,
    selection: StartupSelection,
    elf: Option<&ElfFile>,
    runtime_entry_point: &str,
    facade12: bool,
    abi: BuildAbi,
) -> (r: Result<ResolvedStartup, StartupError>)
    ensures
        ({
            let model = match elf {
                Some(f) => Some(*f),
                None => None,
            };
            let expected = spec_resolve_startup(*source, selection, model, runtime_entry_point@, facade12, abi);
            &&& r is Ok <==> expected is Some
            &&& r matches Ok(s) ==> expected == Some(s) && s.wf()
            &&& r matches Err(e) ==> elf is Some && selection is Auto && !(*source is EmbeddedFirmware)
                && detect_error(*elf->Some_0, runtime_entry_point@, e)
        }),
{
    match source {
        StartupSource::EmbeddedDefaultRuntime => {
            let kind = match selection {
                StartupSelection::Auto => match elf {
                    Some(f) => match detect_startup_kind(f, runtime_entry_point) {
                        Ok(k) => k,
                        Err(e) => {
                            return Err(e);
                        },
                    },
                    None => StartupKind::Thumb,
                },
                StartupSelection::Explicit(k) => k,
            };
            Ok(
                ResolvedStartup::Embedded {
                    startup: kind.embedded(),
                    fae1: !facade12,
                    rustlet: !facade12 && abi.uses_rustlet_layout(),
                },
            )
        },
        StartupSource::EmbeddedFirmware(board) => Ok(
            ResolvedStartup::Embedded { startup: board.embedded(), fae1: !facade12, rustlet: false },
        ),
        StartupSource::ExplicitElf(path) => {
            match selection {
                StartupSelection::Auto => {
                    match elf {
                        Some(f) => match detect_startup_kind(f, runtime_entry_point) {
                            Ok(_) => {},
                            Err(e) => {
                                return Err(e);
                            },
                        },
                        None => {},
                    }
                },
                StartupSelection::Explicit(_) => {},
            }
            Ok(ResolvedStartup::Path { elf_path: path.clone() })
        },
    }
}

// ---------------------------------------------------------------------------
// The output format
// ---------------------------------------------------------------------------
/// The output format chosen, and the explicit and inferred ISA descriptors
/// where an explicit one disagrees with what the input and startup call for.
#[derive(Debug, Clone, Copy)]
pub struct FormatChoice {
    pub format: OutputFormat,
    pub isa_mismatch: Option<(u32, u32)>,
}

/// The ARM execution mode the image's ISA descriptor names: Thumb v6-M for
/// the bundled Thumb v6-M runtime, else by the entry point's code mode.
pub open spec fn spec_isa_subgroup(
    startup: ResolvedStartup,
    payload_elf: ElfFile,
    runtime_entry_point: Seq<char>,
) -> u8 {
    if startup matches ResolvedStartup::Embedded { startup: EmbeddedStartup::Runtime(StartupKind::ThumbV6M), .. } {
        arm::THUMB_V6M
    } else if spec_symbol_mode(payload_elf, runtime_entry_point) is Arm {
        arm::A32
    } else {
        arm::THUMB_2
    }
}

/// The entry point must be looked up to choose the ISA.
pub open spec fn needs_entry_mode(startup: ResolvedStartup, facade12: bool) -> bool {
    !facade12 && !(startup matches ResolvedStartup::Embedded {
        startup: EmbeddedStartup::Runtime(StartupKind::ThumbV6M),
        ..
    })
}

/// The FAE 1.0 ABI a build ABI is written as; Rustlet profiles ask for ABI
/// version 1.0.0.0 and carry the stack size.
pub open spec fn spec_fae1_abi(abi: BuildAbi, stack_size: u32) -> Fae1Abi {
    match abi {
        BuildAbi::Xipfs => Fae1Abi::Xipfs,
        BuildAbi::Rustlet => Fae1Abi::Rustlet {
            kind: RustletProfileKind::Application,
            minimum_version: AbiVersion { major: 1, minor: 0, patch: 0, revision: 0 },
            stack_size,
        },
        BuildAbi::RustletSecurityDomain => Fae1Abi::Rustlet {
            kind: RustletProfileKind::SecurityDomain,
            minimum_version: AbiVersion { major: 1, minor: 0, patch: 0, revision: 0 },
            stack_size,
        },
        BuildAbi::Explicit(words) => Fae1Abi::Explicit(words),
    }
}

/// What `output_format` chooses.
pub open spec fn format_outcome(
    startup: ResolvedStartup,
    payload_elf: ElfFile,
    runtime_entry_point: Seq<char>,
    facade12: bool,
    explicit_isa: Option<DescriptorWords>,
    abi: BuildAbi,
    stack_size: u32,
    r: Result<FormatChoice, ElfError>,
) -> bool {
    &&& (facade12 ==> (r matches Ok(c) && c.format == OutputFormat::Facade12 && c.isa_mismatch is None))
    &&& (needs_entry_mode(startup, facade12) && !symbol_found(payload_elf, runtime_entry_point)
            ==> (r matches Err(e) && symbol_lookup_error(payload_elf, runtime_entry_point, e)))
    &&& (!facade12 && (needs_entry_mode(startup, facade12) ==> symbol_found(
            payload_elf,
            runtime_entry_point,
        )) ==> {
            let subgroup = spec_isa_subgroup(startup, payload_elf, runtime_entry_point);
            let inferred = (IsaDescriptor {
                family: registry::isa::ARM,
                subgroup,
                inline_bits: 0,
                extra_word_count: 0,
            }).spec_encode();
            &&& r matches Ok(c)
            &&& c.format matches OutputFormat::Fae1 { isa, abi: a }
            &&& a == spec_fae1_abi(abi, stack_size)
            &&& match explicit_isa {
                Some(words) => {
                    let requested = IsaDescriptor::spec_decode(words.spec_descriptor());
                    let disagrees = requested.family != registry::isa::ARM || requested.subgroup
                        != subgroup;
                    &&& isa == words
                    &&& c.isa_mismatch == (if disagrees {
                        Some((words.spec_descriptor(), inferred))
                    } else {
                        None
                    })
                },
                None => isa.spec_descriptor() == inferred && isa.spec_words() == Seq::<u32>::empty()
                    && c.isa_mismatch is None,
            }
        })
}

/// Chooses the output format: the legacy one when asked for, else FAE 1.0
/// with the explicit ISA descriptor or the one for the execution mode the
/// startup and the entry point call for, and the ABI of the build.
pub fn output_format(
    startup: &ResolvedStartup,
    payload_elf: &ElfFile,
    runtime_entry_point: &str,
    facade12: bool,
    explicit_isa: Option<DescriptorWords>,
    abi: BuildAbi,
    stack_size: u32,
) -> (r: Result<FormatChoice, ElfError>)
    ensures
        format_outcome(*startup, *payload_elf, runtime_entry_point@, facade12, explicit_isa, abi, stack_size, r),
{
    if facade12 {
        return Ok(FormatChoice { format: OutputFormat::Facade12, isa_mismatch: None });
    }
    let is_v6m = match startup {
        ResolvedStartup::Embedded { startup: EmbeddedStartup::Runtime(StartupKind::ThumbV6M), .. } => true,
        _ => false,
    };
    let isa_subgroup = if is_v6m {
        arm::THUMB_V6M
    } else {
        match symbol_code_mode(payload_elf, runtime_entry_point) {
            Ok(ArmCodeMode::Arm) => arm::A32,
            Ok(ArmCodeMode::Thumb) => arm::THUMB_2,
            Err(e) => {
                return Err(e);
            },
        }
    };
    let inferred_isa = DescriptorWords::arm(isa_subgroup);
    let (isa, isa_mismatch) = match explicit_isa {
        Some(explicit) => {
            let requested = IsaDescriptor::decode(explicit.descriptor());
            let inferred = IsaDescriptor::decode(inferred_isa.descriptor());
            proof {
                lemma_isa_descriptor_round_trip(IsaDescriptor {
                    family: registry::isa::ARM,
                    subgroup: isa_subgroup,
                    inline_bits: 0,
                    extra_word_count: 0,
                });
            }
            if requested.family != inferred.family || requested.subgroup != inferred.subgroup {
                (explicit, Some((explicit.descriptor(), inferred_isa.descriptor())))
            } else {
                (explicit, None)
            }
        },
        None => (inferred_isa, None),
    };
    let fae1_abi = match abi {
        BuildAbi::Xipfs => Fae1Abi::Xipfs,
        BuildAbi::Rustlet => Fae1Abi::Rustlet {
            kind: RustletProfileKind::Application,
            minimum_version: AbiVersion { major: 1, minor: 0, patch: 0, revision: 0 },
            stack_size,
        },
        BuildAbi::RustletSecurityDomain => Fae1Abi::Rustlet {
            kind: RustletProfileKind::SecurityDomain,
            minimum_version: AbiVersion { major: 1, minor: 0, patch: 0, revision: 0 },
            stack_size,
        },
        BuildAbi::Explicit(words) => Fae1Abi::Explicit(words),
    };
    Ok(FormatChoice { format: OutputFormat::Fae1 { isa, abi: fae1_abi }, isa_mismatch })
}

// ---------------------------------------------------------------------------
// The startup code against the payload
// ---------------------------------------------------------------------------
/// The code modes of the startup's `_start` and the payload's entry point
/// where they differ.
#[derive(Debug, Clone, Copy, PartialEq, Eq)]
pub struct ModeMismatch {
    pub rt0_mode: ArmCodeMode,
    pub payload_mode: ArmCodeMode,
}

/// Why the startup code does not fit the payload.
#[derive(Debug)]
pub enum CompatibilityError {
    MachineMismatch { rt0: u16, payload: u16 },
    NotArm,
    Elf(ElfError),
    ModeMismatch(ModeMismatch),
}

/// What `validate_rt0_payload_compatibility` gives for a startup and a payload ELF.
pub open spec fn compatibility_outcome(
    rt0_elf: ElfFile,
    payload_elf: ElfFile,
    runtime_entry_point: Seq<char>,
    allow_mismatch: bool,
    r: Result<Option<ModeMismatch>, CompatibilityError>,
) -> bool {
    &&& (rt0_elf.machine != payload_elf.machine ==> (r matches Err(
            CompatibilityError::MachineMismatch { rt0, payload },
        ) && rt0 == rt0_elf.machine && payload == payload_elf.machine))
    &&& (rt0_elf.machine == payload_elf.machine && rt0_elf.machine != EM_ARM ==> r matches Err(
            CompatibilityError::NotArm,
        ))
    &&& (rt0_elf.machine == payload_elf.machine == EM_ARM ==> {
            &&& !symbol_found(rt0_elf, constants::STARTUP_SYMBOL_NAME@) ==> (r matches Err(
                CompatibilityError::Elf(e),
            ) && symbol_lookup_error(rt0_elf, constants::STARTUP_SYMBOL_NAME@, e))
            &&& symbol_found(rt0_elf, constants::STARTUP_SYMBOL_NAME@) && !symbol_found(
                payload_elf,
                runtime_entry_point,
            ) ==> (r matches Err(CompatibilityError::Elf(e)) && symbol_lookup_error(
                payload_elf,
                runtime_entry_point,
                e,
            ))
            &&& symbol_found(rt0_elf, constants::STARTUP_SYMBOL_NAME@) && symbol_found(
                payload_elf,
                runtime_entry_point,
            ) ==> {
                let m = ModeMismatch {
                    rt0_mode: spec_symbol_mode(rt0_elf, constants::STARTUP_SYMBOL_NAME@),
                    payload_mode: spec_symbol_mode(payload_elf, runtime_entry_point),
                };
                if m.rt0_mode == m.payload_mode {
                    r matches Ok(None)
                } else if allow_mismatch {
                    r matches Ok(Some(x)) && x == m
                } else {
                    r matches Err(CompatibilityError::ModeMismatch(x)) && x == m
                }
            }
        })
}

/// Checks that the startup code and the payload are both ARM and that
/// `_start` and the payload's entry point use the same instruction set; a
/// mode mismatch is handed back instead of refused where it is allowed.
pub fn validate_rt0_payload_compatibility(
    rt0_elf: &ElfFile,
    payload_elf: &ElfFile,
    runtime_entry_point: &str,
    allow_mismatch: bool,
) -> (r: Result<Option<ModeMismatch>, CompatibilityError>)
    ensures
        compatibility_outcome(*rt0_elf, *payload_elf, runtime_entry_point@, allow_mismatch, r),
{
    if rt0_elf.machine != payload_elf.machine {
        return Err(
            CompatibilityError::MachineMismatch { rt0: rt0_elf.machine, payload: payload_elf.machine },
        );
    }
    if rt0_elf.machine != EM_ARM {
        return Err(CompatibilityError::NotArm);
    }
    let rt0_mode = match symbol_code_mode(rt0_elf, constants::STARTUP_SYMBOL_NAME) {
        Ok(m) => m,
        Err(e) => {
            return Err(CompatibilityError::Elf(e));
        },
    };
    let payload_entry = match export_symbol_value(payload_elf, runtime_entry_point) {
        Ok(v) => v,
        Err(e) => {
            return Err(CompatibilityError::Elf(e));
        },
    };
    let payload_mode = ArmCodeMode::from_symbol_value(payload_entry);
    let same = match (rt0_mode, payload_mode) {
        (ArmCodeMode::Arm, ArmCodeMode::Arm) | (ArmCodeMode::Thumb, ArmCodeMode::Thumb) => true,
        _ => false,
    };
    if !same {
        let m = ModeMismatch { rt0_mode, payload_mode };
        if allow_mismatch {
            return Ok(Some(m));
        } else {
            return Err(CompatibilityError::ModeMismatch(m));
        }
    }
    Ok(None)
}

// ---------------------------------------------------------------------------
// The partition
// ---------------------------------------------------------------------------
/// Why the partition could not be laid out.
#[derive(Debug)]
pub enum PartitionError {
    Elf(ElfError),
    GotNotWordMultiple,
    CannotRemapGot(u32),
    RelocationBeyondRomRam(u32),
    CannotRemapRomRam(u32),
}

/// The bytes of a section read at an expected size, none where it cannot be.
pub open spec fn spec_section_bytes_of(
    elf: ElfFile,
    bytes: Seq<u8>,
    name: Seq<char>,
    size: u32,
) -> Seq<u8> {
    match spec_section_bytes(elf, bytes, name, size as usize) {
        Some(v) => v,
        None => Seq::empty(),
    }
}

/// `s` cut or padded with `pad` to `n` bytes.
pub open spec fn resized(s: Seq<u8>, n: nat, pad: u8) -> Seq<u8> {
    if n <= s.len() {
        s.take(n as int)
    } else {
        s + fill(pad, (n - s.len()) as nat)
    }
}

/// The `.got` with each of its words moved to the padded layout, or the first
/// word that cannot be.
#[verifier::opaque]
pub open spec fn remapped_got(got: Seq<u8>, raw: ExportedSymbols, padded: ExportedSymbols) -> Result<
    Seq<u8>,
    u32,
>
    decreases got.len(),
{
    if got.len() < 4 {
        Ok(Seq::empty())
    } else {
        let front = got.take(got.len() - 4);
        let w = le_word(got, got.len() - 4);
        match remapped_got(front, raw, padded) {
            Err(x) => Err(x),
            Ok(done) => match spec_remap_offset(w, raw, padded) {
                None => Err(w),
                Some(m) => Ok(done + le_bytes(m)),
            },
        }
    }
}

/// The `.rom.ram` after moving the word a relocation points at, where it
/// points into `.rom.ram`, to the padded layout.
pub open spec fn patch_rom_ram_word(rom_ram: Seq<u8>, offset: u32, raw: ExportedSymbols, padded: ExportedSymbols) -> Result<
    Seq<u8>,
    PartitionError,
> {
    let rom_ram_start = raw.rom_size + raw.got_size;
    let rom_ram_end = rom_ram_start + raw.rom_ram_size;
    if offset < rom_ram_start || offset >= rom_ram_end {
        Ok(rom_ram)
    } else {
        let local = offset - rom_ram_start;
        if local + 4 > rom_ram.len() {
            Err(PartitionError::RelocationBeyondRomRam(offset))
        } else {
            let w = le_word(rom_ram, local);
            match spec_remap_offset(w, raw, padded) {
                None => Err(PartitionError::CannotRemapRomRam(w)),
                Some(m) => Ok(rom_ram.take(local) + le_bytes(m) + rom_ram.skip(local + 4)),
            }
        }
    }
}

/// The `.rom.ram` after the relocations at `offsets`, in order.
#[verifier::opaque]
pub open spec fn patched_rom_ram(rom_ram: Seq<u8>, offsets: Seq<u32>, raw: ExportedSymbols, padded: ExportedSymbols) -> Result<
    Seq<u8>,
    PartitionError,
>
    decreases offsets.len(),
{
    if offsets.len() == 0 {
        Ok(rom_ram)
    } else {
        match patched_rom_ram(rom_ram, offsets.drop_last(), raw, padded) {
            Err(e) => Err(e),
            Ok(cur) => patch_rom_ram_word(cur, offsets.last(), raw, padded),
        }
    }
}

/// The partition made from the three sections' bytes: `.rom`, the remapped
/// `.got` and the relocated `.rom.ram`, each cut or padded with zeros to its
/// padded size.
pub open spec fn spec_partition(
    rom: Seq<u8>,
    got: Seq<u8>,
    rom_ram: Seq<u8>,
    raw: ExportedSymbols,
    padded: ExportedSymbols,
    offsets: Seq<u32>,
) -> Result<Seq<u8>, PartitionError> {
    if got.len() % 4 != 0 {
        Err(PartitionError::GotNotWordMultiple)
    } else {
        match remapped_got(got, raw, padded) {
            Err(w) => Err(PartitionError::CannotRemapGot(w)),
            Ok(g) => match patched_rom_ram(rom_ram, offsets, raw, padded) {
                Err(e) => Err(e),
                Ok(rr) => Ok(
                    resized(rom, padded.rom_size as nat, constants::TEXT_ALIGNMENT_PADDING_VALUE)
                        + resized(g, padded.got_size as nat, constants::TEXT_ALIGNMENT_PADDING_VALUE)
                        + resized(rr, padded.rom_ram_size as nat, constants::TEXT_ALIGNMENT_PADDING_VALUE),
                ),
            },
        }
    }
}

fn resize_to(v: &mut Vec<u8>, n: usize)
    ensures
        final(v)@ == resized(old(v)@, n as nat, constants::TEXT_ALIGNMENT_PADDING_VALUE),
{
    if n <= v.len() {
        v.truncate(n);
    } else {
        let extra = n - v.len();
        append_fill(v, constants::TEXT_ALIGNMENT_PADDING_VALUE, extra);
    }
}

fn remap_got(got: &Vec<u8>, raw: ExportedSymbols, padded: ExportedSymbols) -> (r: Result<Vec<u8>, u32>)
    requires
        got@.len() % 4 == 0,
    ensures
        match r {
            Ok(v) => remapped_got(got@, raw, padded) == Ok::<Seq<u8>, u32>(v@),
            Err(w) => remapped_got(got@, raw, padded) == Err::<Seq<u8>, u32>(w),
        },
{
    let mut out: Vec<u8> = Vec::new();
    let mut i: usize = 0;
    proof {
        lemma_remapped_got_empty(got@, raw, padded);
    }
    while i < got.len()
        invariant
            i <= got@.len(),
            i % 4 == 0,
            got@.len() % 4 == 0,
            remapped_got(got@.take(i as int), raw, padded) == Ok::<Seq<u8>, u32>(out@),
        decreases got@.len() - i,
    {
        proof {
            lemma_remapped_got_step(got@, i as int, raw, padded);
        }
        let w = read_le_word(got.as_slice(), i);
        match remap_offset_to_padded_layout(w, raw, padded) {
            None => {
                proof {
                    lemma_remapped_got_prefix_error(got@, (i + 4) as int, raw, padded);
                }
                return Err(w);
            },
            Some(m) => {
                push_word(&mut out, m);
            },
        }
        i = i + 4;
    }
    assert(got@.take(got@.len() as int) =~= got@);
    Ok(out)
}

proof fn lemma_remapped_got_step(got: Seq<u8>, k: int, raw: ExportedSymbols, padded: ExportedSymbols)
    requires
        0 <= k,
        k + 4 <= got.len(),
    ensures
        remapped_got(got.take(k + 4), raw, padded) == match remapped_got(got.take(k), raw, padded) {
            Err(x) => Err(x),
            Ok(done) => match spec_remap_offset(le_word(got, k), raw, padded) {
                None => Err(le_word(got, k)),
                Some(m) => Ok(done + le_bytes(m)),
            },
        },
{
    reveal(remapped_got);
    let prefix = got.take(k + 4);
    assert(prefix.take(prefix.len() - 4) =~= got.take(k));
    assert(le_word(prefix, prefix.len() - 4) == le_word(got, k));
}

proof fn lemma_remapped_got_empty(got: Seq<u8>, raw: ExportedSymbols, padded: ExportedSymbols)
    ensures
        remapped_got(got.take(0), raw, padded) == Ok::<Seq<u8>, u32>(Seq::empty()),
{
    reveal(remapped_got);
}

proof fn lemma_patched_step(rom_ram: Seq<u8>, offsets: Seq<u32>, k: int, raw: ExportedSymbols, padded: ExportedSymbols)
    requires
        0 <= k < offsets.len(),
    ensures
        patched_rom_ram(rom_ram, offsets.take(k + 1), raw, padded) == match patched_rom_ram(rom_ram, offsets.take(k), raw, padded) {
            Err(e) => Err(e),
            Ok(cur) => patch_rom_ram_word(cur, offsets[k], raw, padded),
        },
        patched_rom_ram(rom_ram, offsets.take(0), raw, padded) == Ok::<Seq<u8>, PartitionError>(rom_ram),
{
    reveal(patched_rom_ram);
    let next = offsets.take(k + 1);
    assert(next.drop_last() =~= offsets.take(k));
}

proof fn lemma_remapped_got_prefix_error(got: Seq<u8>, k: int, raw: ExportedSymbols, padded: ExportedSymbols)
    requires
        0 <= k <= got.len(),
        k % 4 == 0,
        got.len() % 4 == 0,
        remapped_got(got.take(k), raw, padded) is Err,
    ensures
        remapped_got(got, raw, padded) == remapped_got(got.take(k), raw, padded),
    decreases got.len() - k,
{
    reveal(remapped_got);
    if k < got.len() {
        let next = got.take(k + 4);
        assert(next.take(next.len() - 4) =~= got.take(k));
        lemma_remapped_got_prefix_error(got, k + 4, raw, padded);
    } else {
        assert(got.take(k) =~= got);
    }
}

fn patch_word(rom_ram: &mut Vec<u8>, offset: u32, raw: ExportedSymbols, padded: ExportedSymbols) -> (r: Result<(), PartitionError>)
    requires
        raw.rom_size + raw.got_size + raw.rom_ram_size <= u32::MAX,
    ensures
        match patch_rom_ram_word(old(rom_ram)@, offset, raw, padded) {
            Ok(v) => r is Ok && final(rom_ram)@ == v,
            Err(e) => r matches Err(x) && x == e,
        },
{
    let rom_ram_start = raw.rom_size + raw.got_size;
    let rom_ram_end = rom_ram_start + raw.rom_ram_size;
    if offset < rom_ram_start || offset >= rom_ram_end {
        return Ok(());
    }
    let local = (offset - rom_ram_start) as usize;
    if local > rom_ram.len() || rom_ram.len() - local < 4 {
        return Err(PartitionError::RelocationBeyondRomRam(offset));
    }
    let w = read_le_word(rom_ram.as_slice(), local);
    let m = match remap_offset_to_padded_layout(w, raw, padded) {
        None => {
            return Err(PartitionError::CannotRemapRomRam(w));
        },
        Some(m) => m,
    };
    let bytes = to_word(m);
    let ghost before = rom_ram@;
    rom_ram.set(local, bytes[0]);
    rom_ram.set(local + 1, bytes[1]);
    rom_ram.set(local + 2, bytes[2]);
    rom_ram.set(local + 3, bytes[3]);
    assert(rom_ram@ =~= before.take(local as int) + le_bytes(m) + before.skip(local + 4));
    Ok(())
}

/// What `export_partition` gives for an ELF parsed from `bytes`.
pub open spec fn partition_outcome(
    elf: ElfFile,
    bytes: Seq<u8>,
    raw_symbols: ExportedSymbols,
    padded_symbols: ExportedSymbols,
    relocation_offsets: Seq<u32>,
    r: Result<Vec<u8>, PartitionError>,
) -> bool {
    ({
            let rom = spec_section_bytes(elf, bytes, constants::ROM_SECTION_NAME@, raw_symbols.rom_size as usize);
            let got = spec_section_bytes(elf, bytes, constants::GOT_SECTION_NAME@, raw_symbols.got_size as usize);
            let rom_ram = spec_section_bytes(elf, bytes, constants::ROM_RAM_SECTION_NAME@, raw_symbols.rom_ram_size as usize);
            if rom is None {
                r matches Err(PartitionError::Elf(e)) && section_bytes_error(elf, bytes, constants::ROM_SECTION_NAME@, raw_symbols.rom_size as usize, e)
            } else if got is None {
                r matches Err(PartitionError::Elf(e)) && section_bytes_error(elf, bytes, constants::GOT_SECTION_NAME@, raw_symbols.got_size as usize, e)
            } else if rom_ram is None {
                r matches Err(PartitionError::Elf(e)) && section_bytes_error(elf, bytes, constants::ROM_RAM_SECTION_NAME@, raw_symbols.rom_ram_size as usize, e)
            } else {
                match spec_partition(rom->Some_0, got->Some_0, rom_ram->Some_0, raw_symbols, padded_symbols, relocation_offsets) {
                    Ok(v) => r matches Ok(p) && p@ == v,
                    Err(e) => r matches Err(x) && x == e,
                }
            }
        })
}

/// Lays out the partition of an application: the `.rom`, `.got` and
/// `.rom.ram` sections read from the ELF at their raw sizes, the `.got`
/// words and the `.rom.ram` words that relocations point at moved to the
/// padded layout, and each section cut or padded with zeros to its padded
/// size, one after the other.
pub fn export_partition(
    elf: &ElfFile,
    elf_bytes: &[u8],
    raw_symbols: ExportedSymbols,
    padded_symbols: ExportedSymbols,
    relocation_offsets: &[u32],
) -> (r: Result<Vec<u8>, PartitionError>)
    requires
        raw_symbols.rom_size + raw_symbols.got_size + raw_symbols.rom_ram_size <= u32::MAX,
    ensures
        ({
            let rom = spec_section_bytes(*elf, elf_bytes@, constants::ROM_SECTION_NAME@, raw_symbols.rom_size as usize);
            let got = spec_section_bytes(*elf, elf_bytes@, constants::GOT_SECTION_NAME@, raw_symbols.got_size as usize);
            let rom_ram = spec_section_bytes(*elf, elf_bytes@, constants::ROM_RAM_SECTION_NAME@, raw_symbols.rom_ram_size as usize);
            if rom is None {
                r matches Err(PartitionError::Elf(e)) && section_bytes_error(*elf, elf_bytes@, constants::ROM_SECTION_NAME@, raw_symbols.rom_size as usize, e)
            } else if got is None {
                r matches Err(PartitionError::Elf(e)) && section_bytes_error(*elf, elf_bytes@, constants::GOT_SECTION_NAME@, raw_symbols.got_size as usize, e)
            } else if rom_ram is None {
                r matches Err(PartitionError::Elf(e)) && section_bytes_error(*elf, elf_bytes@, constants::ROM_RAM_SECTION_NAME@, raw_symbols.rom_ram_size as usize, e)
            } else {
                match spec_partition(rom->Some_0, got->Some_0, rom_ram->Some_0, raw_symbols, padded_symbols, relocation_offsets@) {
                    Ok(v) => r matches Ok(p) && p@ == v,
                    Err(e) => r matches Err(x) && x == e,
                }
            }
        }),
{
    let mut rom = match export_section_bytes(elf, elf_bytes, constants::ROM_SECTION_NAME, raw_symbols.rom_size as usize) {
        Ok(v) => v,
        Err(e) => {
            return Err(PartitionError::Elf(e));
        },
    };
    let got = match export_section_bytes(elf, elf_bytes, constants::GOT_SECTION_NAME, raw_symbols.got_size as usize) {
        Ok(v) => v,
        Err(e) => {
            return Err(PartitionError::Elf(e));
        },
    };
    let mut rom_ram = match export_section_bytes(elf, elf_bytes, constants::ROM_RAM_SECTION_NAME, raw_symbols.rom_ram_size as usize) {
        Ok(v) => v,
        Err(e) => {
            return Err(PartitionError::Elf(e));
        },
    };
    if got.len() % 4 != 0 {
        return Err(PartitionError::GotNotWordMultiple);
    }
    let mut got = match remap_got(&got, raw_symbols, padded_symbols) {
        Ok(v) => v,
        Err(w) => {
            return Err(PartitionError::CannotRemapGot(w));
        },
    };
    match patch_all(&mut rom_ram, relocation_offsets, raw_symbols, padded_symbols) {
        Ok(()) => {},
        Err(e) => {
            return Err(e);
        },
    }
    resize_to(&mut got, padded_symbols.got_size as usize);
    resize_to(&mut rom_ram, padded_symbols.rom_ram_size as usize);
    resize_to(&mut rom, padded_symbols.rom_size as usize);
    let mut partition: Vec<u8> = Vec::new();
    append_slice(&mut partition, rom.as_slice());
    append_slice(&mut partition, got.as_slice());
    append_slice(&mut partition, rom_ram.as_slice());
    Ok(partition)
}

fn patch_all(rom_ram: &mut Vec<u8>, offsets: &[u32], raw: ExportedSymbols, padded: ExportedSymbols) -> (r: Result<(), PartitionError>)
    requires
        raw.rom_size + raw.got_size + raw.rom_ram_size <= u32::MAX,
    ensures
        match patched_rom_ram(old(rom_ram)@, offsets@, raw, padded) {
            Ok(v) => r is Ok && final(rom_ram)@ == v,
            Err(e) => r matches Err(x) && x == e,
        },
{
    let ghost rr0 = rom_ram@;
    let mut i: usize = 0;
    proof {
        if offsets@.len() > 0 {
            lemma_patched_step(rr0, offsets@, 0, raw, padded);
        } else {
            reveal(patched_rom_ram);
        }
    }
    while i < offsets.len()
        invariant
            i <= offsets@.len(),
            rr0 == old(rom_ram)@,
            raw.rom_size + raw.got_size + raw.rom_ram_size <= u32::MAX,
            patched_rom_ram(rr0, offsets@.take(i as int), raw, padded) == Ok::<Seq<u8>, PartitionError>(rom_ram@),
        decreases offsets@.len() - i,
    {
        proof {
            lemma_patched_step(rr0, offsets@, i as int, raw, padded);
        }
        match patch_word(rom_ram, offsets[i], raw, padded) {
            Ok(()) => {},
            Err(e) => {
                proof {
                    lemma_patched_prefix_error(rr0, offsets@, (i + 1) as int, raw, padded);
                }
                return Err(e);
            },
        }
        i = i + 1;
    }
    assert(offsets@.take(offsets@.len() as int) =~= offsets@);
    Ok(())
}

proof fn lemma_patched_prefix_error(
    rom_ram: Seq<u8>,
    offsets: Seq<u32>,
    k: int,
    raw: ExportedSymbols,
    padded: ExportedSymbols,
)
    requires
        0 <= k <= offsets.len(),
        patched_rom_ram(rom_ram, offsets.take(k), raw, padded) is Err,
    ensures
        patched_rom_ram(rom_ram, offsets, raw, padded) == patched_rom_ram(rom_ram, offsets.take(k), raw, padded),
    decreases offsets.len() - k,
{
    reveal(patched_rom_ram);
    if k < offsets.len() {
        let next = offsets.take(k + 1);
        assert(next.drop_last() =~= offsets.take(k));
        lemma_patched_prefix_error(rom_ram, offsets, k + 1, raw, padded);
    } else {
        assert(offsets.take(k) =~= offsets);
    }
}

} // verus!

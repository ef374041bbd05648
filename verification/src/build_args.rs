//! The image builder's command line: the options it reads, one argument (or
//! an option and its value) at a time, and the checks made once all are read.

use vstd::prelude::*;

use crate::build_cli::{
    firmware_board_named, parse_alignment, parse_firmware_board, parse_startup_kind,
    parse_u32_decimal, parse_u32_value, spec_parse_alignment, spec_parse_u32_decimal,
    spec_parse_u32_value, startup_kind_named, AlignmentError, BuildAbi, FirmwareBoard, StartupKind,
    StartupSelection, StartupSource,
};
use crate::constants;
use crate::fae_format::DescriptorWords;
use crate::section_plan::{contains_name, eq_chars, has_prefix, names, starts_with};
use crate::read_cli::starts_with_dash;
use crate::text::{chars_of, string_of, trimmed, trim_str};

verus! {

broadcast use vstd::string::group_string_axioms;

pub const CLI_OPTION_RT0: &'static str = "--rt0";
pub const CLI_OPTION_RT0_SHORT: &'static str = "-rt0";
pub const CLI_OPTION_FIRMWARE: &'static str = "--firmware";
pub const CLI_OPTION_STARTUP_ALONE: &'static str = "--startup-alone";
pub const CLI_OPTION_RUNTIME_ENTRY_POINT: &'static str = "--runtime-entry-point";
pub const CLI_OPTION_RAM_SIZE: &'static str = "--ram-size";
pub const CLI_OPTION_VERBOSE: &'static str = "-v";
pub const CLI_OPTION_VERBOSE_LONG: &'static str = "--verbose";
pub const CLI_OPTION_HELP: &'static str = "-h";
pub const CLI_OPTION_HELP_LONG: &'static str = "--help";
pub const CLI_OPTION_ALIGN_PAYLOAD: &'static str = "--align_payload";
pub const CLI_OPTION_ALIGN_SIZE: &'static str = "--align_size";
pub const CLI_OPTION_FACADE12: &'static str = "--facade12";
pub const CLI_OPTION_ABI: &'static str = "--abi";
pub const CLI_OPTION_ABI_WORD: &'static str = "--abi-word";
pub const CLI_OPTION_ISA: &'static str = "--isa";
pub const CLI_OPTION_ISA_WORD: &'static str = "--isa-word";
pub const CLI_OPTION_RUSTLET: &'static str = "--rustlet";
pub const CLI_OPTION_RUSTLET_SHORT: &'static str = "-rs";
pub const CLI_OPTION_SECURITY_DOMAIN: &'static str = "--securitydomain";
pub const CLI_OPTION_SECURITY_DOMAIN_SHORT: &'static str = "-sd";
pub const CLI_OPTION_STACK_SIZE: &'static str = "--stack-size";
pub const CLI_OPTION_ALLOW_RT0_MISMATCH: &'static str = "--allow-rt0-mismatch";

/// The stack size a Rustlet asks for when none is given.
pub const DEFAULT_RUSTLET_STACK_SIZE: u32 = 2048;

pub const PREFIX_RT0: &'static str = "--rt0=";
pub const PREFIX_RT0_SHORT: &'static str = "-rt0=";
pub const PREFIX_FIRMWARE: &'static str = "--firmware=";
pub const PREFIX_ALIGN_PAYLOAD: &'static str = "--align_payload=";
pub const PREFIX_ALIGN_SIZE: &'static str = "--align_size=";
pub const PREFIX_ISA: &'static str = "--isa=";
pub const PREFIX_ISA_WORD: &'static str = "--isa-word=";
pub const PREFIX_ABI: &'static str = "--abi=";
pub const PREFIX_ABI_WORD: &'static str = "--abi-word=";

/// An option that takes a value or may clash with another.
#[derive(Debug, Clone, Copy, PartialEq, Eq)]
pub enum CliOption {
    Rt0,
    Firmware,
    RuntimeEntryPoint,
    RamSize,
    AlignPayload,
    AlignSize,
    Isa,
    IsaWord,
    Abi,
    AbiWord,
    Rustlet,
    SecurityDomain,
    StackSize,
    StartupAlone,
}

/// An option's long name.
pub open spec fn cli_option_name(o: CliOption) -> Seq<char> {
    match o {
        CliOption::Rt0 => CLI_OPTION_RT0@,
        CliOption::Firmware => CLI_OPTION_FIRMWARE@,
        CliOption::RuntimeEntryPoint => CLI_OPTION_RUNTIME_ENTRY_POINT@,
        CliOption::RamSize => CLI_OPTION_RAM_SIZE@,
        CliOption::AlignPayload => CLI_OPTION_ALIGN_PAYLOAD@,
        CliOption::AlignSize => CLI_OPTION_ALIGN_SIZE@,
        CliOption::Isa => CLI_OPTION_ISA@,
        CliOption::IsaWord => CLI_OPTION_ISA_WORD@,
        CliOption::Abi => CLI_OPTION_ABI@,
        CliOption::AbiWord => CLI_OPTION_ABI_WORD@,
        CliOption::Rustlet => CLI_OPTION_RUSTLET@,
        CliOption::SecurityDomain => CLI_OPTION_SECURITY_DOMAIN@,
        CliOption::StackSize => CLI_OPTION_STACK_SIZE@,
        CliOption::StartupAlone => CLI_OPTION_STARTUP_ALONE@,
    }
}

impl CliOption {
    /// The option's long name.
    pub fn name(self) -> (r: &'static str)
        ensures
            r@ == cli_option_name(self),
    {
        match self {
            CliOption::Rt0 => CLI_OPTION_RT0,
            CliOption::Firmware => CLI_OPTION_FIRMWARE,
            CliOption::RuntimeEntryPoint => CLI_OPTION_RUNTIME_ENTRY_POINT,
            CliOption::RamSize => CLI_OPTION_RAM_SIZE,
            CliOption::AlignPayload => CLI_OPTION_ALIGN_PAYLOAD,
            CliOption::AlignSize => CLI_OPTION_ALIGN_SIZE,
            CliOption::Isa => CLI_OPTION_ISA,
            CliOption::IsaWord => CLI_OPTION_ISA_WORD,
            CliOption::Abi => CLI_OPTION_ABI,
            CliOption::AbiWord => CLI_OPTION_ABI_WORD,
            CliOption::Rustlet => CLI_OPTION_RUSTLET,
            CliOption::SecurityDomain => CLI_OPTION_SECURITY_DOMAIN,
            CliOption::StackSize => CLI_OPTION_STACK_SIZE,
            CliOption::StartupAlone => CLI_OPTION_STARTUP_ALONE,
        }
    }
}

/// Which descriptor an error is about.
#[derive(Debug, Clone, Copy, PartialEq, Eq)]
pub enum DescriptorKind {
    Isa,
    Abi,
}

/// Why the builder's command line was refused (besides an unknown option).
#[derive(Debug, Clone, Copy, PartialEq, Eq)]
pub enum UsageProblem {
    /// The option needs a value and is the last argument.
    MissingValue(CliOption),
    /// A second startup source was given after `--rt0` or `--firmware`.
    StartupSourceRepeated,
    /// `--firmware` given together with `--rt0`.
    FirmwareWithRt0,
    /// The `--rt0` value is no startup kind and no existing file.
    InvalidRt0,
    /// The `--firmware` value names no bundled board.
    InvalidFirmware,
    NotAnInteger(CliOption),
    NotPowerOfTwo(CliOption),
    /// The value is no 32-bit decimal or 0x-prefixed number.
    NotAU32(CliOption),
    /// `--abi` given after a profile alias.
    AbiWithProfile,
    /// A profile alias given after an ABI descriptor or another alias.
    ProfileWithOtherAbi(CliOption),
    /// The descriptor's low nibble does not count the words given for it.
    InvalidDescriptor { kind: DescriptorKind, expected: usize, actual: usize },
    /// Words given for a descriptor that was not.
    WordWithoutDescriptor(DescriptorKind),
    EmptyEntryPoint,
    Facade12WithFae1Options,
    ProfileNeedsInputElf,
    StartupAloneWithInput,
    StartupAloneWithEntryPoint,
    ExpectedOneInput,
    RamSizeNeedsStartupAlone,
}

/// Why the builder did not start a build.
#[derive(Debug, Clone, PartialEq, Eq)]
pub enum ArgsError {
    HelpRequested,
    Usage(UsageProblem),
    UnrecognizedOption(String),
}

impl ArgsError {
    /// The exit status the builder ends with.
    pub fn exit_code(&self) -> (r: i32)
        ensures
            r == (if *self is HelpRequested { 0i32 } else { 1i32 }),
    {
        match self {
            ArgsError::HelpRequested => 0,
            _ => 1,
        }
    }
}

/// What a build makes: an application image from an input ELF, or an image
/// of the startup code alone.
#[derive(Debug, Clone)]
pub enum BuildMode {
    Application { elf_filename: String },
    StartupAlone,
}

/// Everything the command line decides.
#[derive(Debug, Clone)]
pub struct BuildOptions {
    pub startup_source: StartupSource,
    pub startup_selection: StartupSelection,
    pub mode: BuildMode,
    pub runtime_entry_point: String,
    pub ram_size: u32,
    pub align_payload: usize,
    pub align_size: usize,
    pub facade12: bool,
    pub isa: Option<DescriptorWords>,
    pub abi: BuildAbi,
    pub stack_size: u32,
    pub allow_rt0_mismatch: bool,
    pub verbose: bool,
}

// ---------------------------------------------------------------------------
// The model
// ---------------------------------------------------------------------------
/// A startup source, with the path as text.
pub enum SourceView {
    EmbeddedDefaultRuntime,
    EmbeddedFirmware(FirmwareBoard),
    ExplicitElf(Seq<char>),
}

pub open spec fn source_view(s: StartupSource) -> SourceView {
    match s {
        StartupSource::EmbeddedDefaultRuntime => SourceView::EmbeddedDefaultRuntime,
        StartupSource::EmbeddedFirmware(b) => SourceView::EmbeddedFirmware(b),
        StartupSource::ExplicitElf(p) => SourceView::ExplicitElf(p@),
    }
}

/// An ABI, an explicit descriptor as its word and extra words.
pub enum AbiView {
    Xipfs,
    Rustlet,
    RustletSecurityDomain,
    Explicit(u32, Seq<u32>),
}

pub open spec fn abi_view(a: BuildAbi) -> AbiView {
    match a {
        BuildAbi::Xipfs => AbiView::Xipfs,
        BuildAbi::Rustlet => AbiView::Rustlet,
        BuildAbi::RustletSecurityDomain => AbiView::RustletSecurityDomain,
        BuildAbi::Explicit(w) => AbiView::Explicit(w.spec_descriptor(), w.spec_words()),
    }
}

/// What has been read of the command line so far.
pub struct ArgsView {
    pub startup_source: SourceView,
    pub startup_selection: StartupSelection,
    pub has_explicit_startup_source: bool,
    pub startup_alone: bool,
    pub runtime_entry_point: Seq<char>,
    pub ram_size: u32,
    pub align_payload: usize,
    pub align_size: usize,
    pub facade12: bool,
    pub isa_descriptor: Option<u32>,
    pub isa_words: Seq<u32>,
    pub abi: AbiView,
    pub abi_descriptor: Option<u32>,
    pub abi_words: Seq<u32>,
    pub stack_size: u32,
    pub allow_rt0_mismatch: bool,
    pub verbose: bool,
    pub positional: Seq<Seq<char>>,
}

/// Nothing read yet: every setting at its default.
pub open spec fn initial_args() -> ArgsView {
    ArgsView {
        startup_source: SourceView::EmbeddedDefaultRuntime,
        startup_selection: StartupSelection::Auto,
        has_explicit_startup_source: false,
        startup_alone: false,
        runtime_entry_point: constants::DEFAULT_RUNTIME_ENTRY_POINT@,
        ram_size: constants::DEFAULT_STARTUP_ALONE_RAM_SIZE,
        align_payload: 0,
        align_size: constants::PADDING_MPU_ALIGNMENT,
        facade12: false,
        isa_descriptor: None,
        isa_words: Seq::empty(),
        abi: AbiView::Xipfs,
        abi_descriptor: None,
        abi_words: Seq::empty(),
        stack_size: DEFAULT_RUSTLET_STACK_SIZE,
        allow_rt0_mismatch: false,
        verbose: false,
        positional: Seq::empty(),
    }
}

/// Why reading an argument failed.
pub enum ArgsFailure {
    Usage(UsageProblem),
    Unrecognized(Seq<char>),
}

/// The outcome of reading one argument: what has been read and where the next
/// argument is, or the failure.
pub enum ArgStep {
    Next(ArgsView, int),
    Fail(ArgsFailure),
}

pub open spec fn usage_fail(p: UsageProblem) -> ArgStep {
    ArgStep::Fail(ArgsFailure::Usage(p))
}

/// The startup given by an `--rt0` value: a startup kind, or an existing ELF
/// file.
pub open spec fn rt0_step(st: ArgsView, value: Seq<char>, files: Seq<Seq<char>>, next: int) -> ArgStep {
    match startup_kind_named(trimmed(value)) {
        Some(k) => ArgStep::Next(
            ArgsView {
                startup_selection: StartupSelection::Explicit(k),
                has_explicit_startup_source: true,
                ..st
            },
            next,
        ),
        None => if files.contains(value) {
            ArgStep::Next(
                ArgsView {
                    startup_source: SourceView::ExplicitElf(value),
                    has_explicit_startup_source: true,
                    ..st
                },
                next,
            )
        } else {
            usage_fail(UsageProblem::InvalidRt0)
        },
    }
}

/// The board given by a `--firmware` value.
pub open spec fn firmware_step(st: ArgsView, value: Seq<char>, next: int) -> ArgStep {
    match firmware_board_named(trimmed(value)) {
        Some(b) => ArgStep::Next(
            ArgsView {
                startup_source: SourceView::EmbeddedFirmware(b),
                has_explicit_startup_source: true,
                ..st
            },
            next,
        ),
        None => usage_fail(UsageProblem::InvalidFirmware),
    }
}

/// The alignment given for `option`, stored by `payload`.
pub open spec fn alignment_step(st: ArgsView, value: Seq<char>, option: CliOption, payload: bool, next: int) -> ArgStep {
    match spec_parse_alignment(value) {
        Err(AlignmentError::NotAnInteger) => usage_fail(UsageProblem::NotAnInteger(option)),
        Err(AlignmentError::NotPowerOfTwo) => usage_fail(UsageProblem::NotPowerOfTwo(option)),
        Ok(v) => ArgStep::Next(
            if payload {
                ArgsView { align_payload: v, ..st }
            } else {
                ArgsView { align_size: v, ..st }
            },
            next,
        ),
    }
}

/// The 32-bit number given for one of the descriptor options.
pub open spec fn descriptor_step(st: ArgsView, value: Seq<char>, option: CliOption, next: int) -> ArgStep {
    match spec_parse_u32_value(value) {
        None => usage_fail(UsageProblem::NotAU32(option)),
        Some(v) => ArgStep::Next(
            match option {
                CliOption::Isa => ArgsView { isa_descriptor: Some(v), ..st },
                CliOption::IsaWord => ArgsView { isa_words: st.isa_words.push(v), ..st },
                CliOption::Abi => ArgsView { abi_descriptor: Some(v), ..st },
                _ => ArgsView { abi_words: st.abi_words.push(v), ..st },
            },
            next,
        ),
    }
}

/// Reading the argument at `i`.
pub open spec fn arg_step(args: Seq<Seq<char>>, files: Seq<Seq<char>>, i: int, st: ArgsView) -> ArgStep {
    let a = args[i];
    let has_value = i + 1 < args.len();
    if a == CLI_OPTION_RT0_SHORT@ || a == CLI_OPTION_RT0@ {
        if !has_value {
            usage_fail(UsageProblem::MissingValue(CliOption::Rt0))
        } else if st.has_explicit_startup_source {
            usage_fail(UsageProblem::StartupSourceRepeated)
        } else {
            rt0_step(st, trimmed(args[i + 1]), files, i + 2)
        }
    } else if starts_with(a, PREFIX_RT0@) || starts_with(a, PREFIX_RT0_SHORT@) {
        let value = if starts_with(a, PREFIX_RT0@) {
            a.skip(PREFIX_RT0@.len() as int)
        } else {
            a.skip(PREFIX_RT0_SHORT@.len() as int)
        };
        if st.has_explicit_startup_source {
            usage_fail(UsageProblem::StartupSourceRepeated)
        } else {
            rt0_step(st, value, files, i + 1)
        }
    } else if a == CLI_OPTION_FIRMWARE@ {
        if !has_value {
            usage_fail(UsageProblem::MissingValue(CliOption::Firmware))
        } else if st.has_explicit_startup_source {
            usage_fail(UsageProblem::FirmwareWithRt0)
        } else {
            firmware_step(st, args[i + 1], i + 2)
        }
    } else if starts_with(a, PREFIX_FIRMWARE@) {
        if st.has_explicit_startup_source {
            usage_fail(UsageProblem::FirmwareWithRt0)
        } else {
            firmware_step(st, a.skip(PREFIX_FIRMWARE@.len() as int), i + 1)
        }
    } else if a == CLI_OPTION_RUNTIME_ENTRY_POINT@ {
        if !has_value {
            usage_fail(UsageProblem::MissingValue(CliOption::RuntimeEntryPoint))
        } else {
            ArgStep::Next(ArgsView { runtime_entry_point: trimmed(args[i + 1]), ..st }, i + 2)
        }
    } else if a == CLI_OPTION_STARTUP_ALONE@ {
        ArgStep::Next(ArgsView { startup_alone: true, ..st }, i + 1)
    } else if a == CLI_OPTION_RAM_SIZE@ {
        if !has_value {
            usage_fail(UsageProblem::MissingValue(CliOption::RamSize))
        } else {
            match spec_parse_u32_decimal(trimmed(args[i + 1])) {
                None => usage_fail(UsageProblem::NotAnInteger(CliOption::RamSize)),
                Some(v) => ArgStep::Next(ArgsView { ram_size: v, ..st }, i + 2),
            }
        }
    } else if a == CLI_OPTION_ALIGN_PAYLOAD@ {
        if !has_value {
            usage_fail(UsageProblem::MissingValue(CliOption::AlignPayload))
        } else {
            alignment_step(st, args[i + 1], CliOption::AlignPayload, true, i + 2)
        }
    } else if starts_with(a, PREFIX_ALIGN_PAYLOAD@) {
        alignment_step(st, a.skip(PREFIX_ALIGN_PAYLOAD@.len() as int), CliOption::AlignPayload, true, i + 1)
    } else if a == CLI_OPTION_ALIGN_SIZE@ {
        if !has_value {
            usage_fail(UsageProblem::MissingValue(CliOption::AlignSize))
        } else {
            alignment_step(st, args[i + 1], CliOption::AlignSize, false, i + 2)
        }
    } else if starts_with(a, PREFIX_ALIGN_SIZE@) {
        alignment_step(st, a.skip(PREFIX_ALIGN_SIZE@.len() as int), CliOption::AlignSize, false, i + 1)
    } else if a == CLI_OPTION_FACADE12@ {
        ArgStep::Next(ArgsView { facade12: true, ..st }, i + 1)
    } else if a == CLI_OPTION_ISA@ {
        if !has_value {
            usage_fail(UsageProblem::MissingValue(CliOption::Isa))
        } else {
            descriptor_step(st, args[i + 1], CliOption::Isa, i + 2)
        }
    } else if starts_with(a, PREFIX_ISA@) {
        descriptor_step(st, a.skip(PREFIX_ISA@.len() as int), CliOption::Isa, i + 1)
    } else if a == CLI_OPTION_ISA_WORD@ {
        if !has_value {
            usage_fail(UsageProblem::MissingValue(CliOption::IsaWord))
        } else {
            descriptor_step(st, args[i + 1], CliOption::IsaWord, i + 2)
        }
    } else if starts_with(a, PREFIX_ISA_WORD@) {
        descriptor_step(st, a.skip(PREFIX_ISA_WORD@.len() as int), CliOption::IsaWord, i + 1)
    } else if a == CLI_OPTION_ABI@ {
        if !has_value {
            usage_fail(UsageProblem::MissingValue(CliOption::Abi))
        } else if !(st.abi is Xipfs) {
            usage_fail(UsageProblem::AbiWithProfile)
        } else {
            descriptor_step(st, args[i + 1], CliOption::Abi, i + 2)
        }
    } else if starts_with(a, PREFIX_ABI@) {
        if !(st.abi is Xipfs) {
            usage_fail(UsageProblem::AbiWithProfile)
        } else {
            descriptor_step(st, a.skip(PREFIX_ABI@.len() as int), CliOption::Abi, i + 1)
        }
    } else if a == CLI_OPTION_ABI_WORD@ {
        if !has_value {
            usage_fail(UsageProblem::MissingValue(CliOption::AbiWord))
        } else {
            descriptor_step(st, args[i + 1], CliOption::AbiWord, i + 2)
        }
    } else if starts_with(a, PREFIX_ABI_WORD@) {
        descriptor_step(st, a.skip(PREFIX_ABI_WORD@.len() as int), CliOption::AbiWord, i + 1)
    } else if a == CLI_OPTION_RUSTLET@ || a == CLI_OPTION_RUSTLET_SHORT@ {
        if st.abi_descriptor is Some || !(st.abi is Xipfs) {
            usage_fail(UsageProblem::ProfileWithOtherAbi(CliOption::Rustlet))
        } else {
            ArgStep::Next(ArgsView { abi: AbiView::Rustlet, ..st }, i + 1)
        }
    } else if a == CLI_OPTION_SECURITY_DOMAIN@ || a == CLI_OPTION_SECURITY_DOMAIN_SHORT@ {
        if st.abi_descriptor is Some || !(st.abi is Xipfs) {
            usage_fail(UsageProblem::ProfileWithOtherAbi(CliOption::SecurityDomain))
        } else {
            ArgStep::Next(ArgsView { abi: AbiView::RustletSecurityDomain, ..st }, i + 1)
        }
    } else if a == CLI_OPTION_STACK_SIZE@ {
        if !has_value {
            usage_fail(UsageProblem::MissingValue(CliOption::StackSize))
        } else {
            match spec_parse_u32_decimal(args[i + 1]) {
                None => usage_fail(UsageProblem::NotAnInteger(CliOption::StackSize)),
                Some(v) => ArgStep::Next(ArgsView { stack_size: v, ..st }, i + 2),
            }
        }
    } else if a == CLI_OPTION_ALLOW_RT0_MISMATCH@ {
        ArgStep::Next(ArgsView { allow_rt0_mismatch: true, ..st }, i + 1)
    } else if a == CLI_OPTION_VERBOSE@ || a == CLI_OPTION_VERBOSE_LONG@ {
        ArgStep::Next(ArgsView { verbose: true, ..st }, i + 1)
    } else if a.len() > 0 && a[0] == '-' {
        ArgStep::Fail(ArgsFailure::Unrecognized(a))
    } else {
        ArgStep::Next(ArgsView { positional: st.positional.push(a), ..st }, i + 1)
    }
}

/// Reading the arguments from `i` on.
pub open spec fn args_from(args: Seq<Seq<char>>, files: Seq<Seq<char>>, i: int, st: ArgsView) -> Result<
    ArgsView,
    ArgsFailure,
>
    decreases args.len() - i,
{
    if i < 0 || i >= args.len() {
        Ok(st)
    } else {
        match arg_step(args, files, i, st) {
            ArgStep::Fail(f) => Err(f),
            ArgStep::Next(next, j) => if i < j {
                args_from(args, files, j, next)
            } else {
                Ok(next)
            },
        }
    }
}

/// The options decided by the command line.
pub struct OptionsView {
    pub startup_source: SourceView,
    pub startup_selection: StartupSelection,
    pub application_elf: Option<Seq<char>>,
    pub runtime_entry_point: Seq<char>,
    pub ram_size: u32,
    pub align_payload: usize,
    pub align_size: usize,
    pub facade12: bool,
    pub isa: Option<(u32, Seq<u32>)>,
    pub abi: AbiView,
    pub stack_size: u32,
    pub allow_rt0_mismatch: bool,
    pub verbose: bool,
}

pub open spec fn options_view(o: BuildOptions) -> OptionsView {
    OptionsView {
        startup_source: source_view(o.startup_source),
        startup_selection: o.startup_selection,
        application_elf: match o.mode {
            BuildMode::Application { elf_filename } => Some(elf_filename@),
            BuildMode::StartupAlone => None,
        },
        runtime_entry_point: o.runtime_entry_point@,
        ram_size: o.ram_size,
        align_payload: o.align_payload,
        align_size: o.align_size,
        facade12: o.facade12,
        isa: match o.isa {
            Some(w) => Some((w.spec_descriptor(), w.spec_words())),
            None => None,
        },
        abi: abi_view(o.abi),
        stack_size: o.stack_size,
        allow_rt0_mismatch: o.allow_rt0_mismatch,
        verbose: o.verbose,
    }
}

/// The descriptor's low nibble counts the words given for it.
pub open spec fn words_fit(descriptor: u32, words: Seq<u32>) -> bool {
    (descriptor & 0x0F) as int == words.len()
}

/// The checks made once every argument is read, and the options they leave.
pub open spec fn finish_args(st: ArgsView) -> Result<OptionsView, UsageProblem> {
    let isa_ok = match st.isa_descriptor {
        Some(d) => words_fit(d, st.isa_words),
        None => true,
    };
    let abi_ok = match st.abi_descriptor {
        Some(d) => words_fit(d, st.abi_words),
        None => true,
    };
    let isa = match st.isa_descriptor {
        Some(d) => Some((d, st.isa_words)),
        None => None,
    };
    let abi = match st.abi_descriptor {
        Some(d) => AbiView::Explicit(d, st.abi_words),
        None => st.abi,
    };
    if !isa_ok {
        Err(UsageProblem::InvalidDescriptor {
            kind: DescriptorKind::Isa,
            expected: (st.isa_descriptor->Some_0 & 0x0F) as usize,
            actual: st.isa_words.len() as usize,
        })
    } else if st.isa_descriptor is None && st.isa_words.len() > 0 {
        Err(UsageProblem::WordWithoutDescriptor(DescriptorKind::Isa))
    } else if !abi_ok {
        Err(UsageProblem::InvalidDescriptor {
            kind: DescriptorKind::Abi,
            expected: (st.abi_descriptor->Some_0 & 0x0F) as usize,
            actual: st.abi_words.len() as usize,
        })
    } else if st.abi_descriptor is None && st.abi_words.len() > 0 {
        Err(UsageProblem::WordWithoutDescriptor(DescriptorKind::Abi))
    } else if st.runtime_entry_point.len() == 0 {
        Err(UsageProblem::EmptyEntryPoint)
    } else if st.facade12 && (!(abi is Xipfs) || isa is Some) {
        Err(UsageProblem::Facade12WithFae1Options)
    } else if st.startup_alone && !(abi is Xipfs) {
        Err(UsageProblem::ProfileNeedsInputElf)
    } else if st.startup_source is EmbeddedFirmware && !(st.startup_selection is Auto) {
        Err(UsageProblem::FirmwareWithRt0)
    } else if st.startup_alone && st.positional.len() > 0 {
        Err(UsageProblem::StartupAloneWithInput)
    } else if st.startup_alone && st.runtime_entry_point != constants::DEFAULT_RUNTIME_ENTRY_POINT@ {
        Err(UsageProblem::StartupAloneWithEntryPoint)
    } else if !st.startup_alone && st.positional.len() != 1 {
        Err(UsageProblem::ExpectedOneInput)
    } else if !st.startup_alone && st.ram_size != constants::DEFAULT_STARTUP_ALONE_RAM_SIZE {
        Err(UsageProblem::RamSizeNeedsStartupAlone)
    } else {
        Ok(
            OptionsView {
                startup_source: st.startup_source,
                startup_selection: st.startup_selection,
                application_elf: if st.startup_alone {
                    None
                } else {
                    Some(trimmed(st.positional[0]))
                },
                runtime_entry_point: st.runtime_entry_point,
                ram_size: st.ram_size,
                align_payload: st.align_payload,
                align_size: st.align_size,
                facade12: st.facade12,
                isa,
                abi,
                stack_size: st.stack_size,
                allow_rt0_mismatch: st.allow_rt0_mismatch,
                verbose: st.verbose,
            },
        )
    }
}

/// What the command line comes to.
pub enum ArgsOutcome {
    Help,
    Problem(UsageProblem),
    Unrecognized(Seq<char>),
    Options(OptionsView),
}

/// Reading the builder's command line `args` (the program name first), with
/// `files` the `--rt0` values that name existing files: help alone, or every
/// argument read in turn and then the checks on the whole.
pub open spec fn spec_parse_build_args(args: Seq<Seq<char>>, files: Seq<Seq<char>>) -> ArgsOutcome {
    if args.len() == 2 && (args[1] == CLI_OPTION_HELP@ || args[1] == CLI_OPTION_HELP_LONG@) {
        ArgsOutcome::Help
    } else {
        match args_from(args, files, 1, initial_args()) {
            Err(ArgsFailure::Usage(p)) => ArgsOutcome::Problem(p),
            Err(ArgsFailure::Unrecognized(a)) => ArgsOutcome::Unrecognized(a),
            Ok(st) => match finish_args(st) {
                Err(p) => ArgsOutcome::Problem(p),
                Ok(o) => ArgsOutcome::Options(o),
            },
        }
    }
}

// ---------------------------------------------------------------------------
// Reading the arguments
// ---------------------------------------------------------------------------
/// What has been read of the command line so far.
struct ArgsState {
    startup_source: StartupSource,
    startup_selection: StartupSelection,
    has_explicit_startup_source: bool,
    startup_alone: bool,
    runtime_entry_point: String,
    ram_size: u32,
    align_payload: usize,
    align_size: usize,
    facade12: bool,
    isa_descriptor: Option<u32>,
    isa_words: Vec<u32>,
    abi: BuildAbi,
    abi_descriptor: Option<u32>,
    abi_words: Vec<u32>,
    stack_size: u32,
    allow_rt0_mismatch: bool,
    verbose: bool,
    positional: Vec<String>,
}

spec fn state_view(s: ArgsState) -> ArgsView {
    ArgsView {
        startup_source: source_view(s.startup_source),
        startup_selection: s.startup_selection,
        has_explicit_startup_source: s.has_explicit_startup_source,
        startup_alone: s.startup_alone,
        runtime_entry_point: s.runtime_entry_point@,
        ram_size: s.ram_size,
        align_payload: s.align_payload,
        align_size: s.align_size,
        facade12: s.facade12,
        isa_descriptor: s.isa_descriptor,
        isa_words: s.isa_words@,
        abi: abi_view(s.abi),
        abi_descriptor: s.abi_descriptor,
        abi_words: s.abi_words@,
        stack_size: s.stack_size,
        allow_rt0_mismatch: s.allow_rt0_mismatch,
        verbose: s.verbose,
        positional: names(s.positional@),
    }
}

/// The exec outcome of a step agrees with the model's.
spec fn step_agrees(step: ArgStep, r: Result<usize, ArgsError>, after: ArgsState) -> bool {
    match step {
        ArgStep::Next(v, j) => r == Ok::<usize, ArgsError>(j as usize) && state_view(after) == v,
        ArgStep::Fail(ArgsFailure::Usage(p)) => r == Err::<usize, ArgsError>(ArgsError::Usage(p)),
        ArgStep::Fail(ArgsFailure::Unrecognized(a)) => r matches Err(ArgsError::UnrecognizedOption(s))
            && s@ == a,
    }
}

/// The text of `s` after `prefix`.
fn text_after(s: &String, prefix: &str) -> (r: String)
    requires
        starts_with(s@, prefix@),
    ensures
        r@ == s@.skip(prefix@.len() as int),
{
    let cs = chars_of(s.as_str());
    let ps = chars_of(prefix);
    let out = string_of(&cs, ps.len(), cs.len());
    assert(out@ =~= s@.skip(prefix@.len() as int));
    out
}

fn apply_rt0(st: &mut ArgsState, value: String, files: &[String], next: usize) -> (r: Result<usize, ArgsError>)
    ensures
        step_agrees(rt0_step(state_view(*old(st)), value@, names(files@), next as int), r, *final(st)),
{
    match parse_startup_kind(value.as_str()) {
        Some(k) => {
            st.startup_selection = StartupSelection::Explicit(k);
            st.has_explicit_startup_source = true;
            Ok(next)
        },
        None => {
            let mut found = false;
            let mut i: usize = 0;
            while i < files.len()
                invariant
                    i <= files@.len(),
                    found == names(files@).take(i as int).contains(value@),
                decreases files@.len() - i,
            {
                assert(names(files@).take(i + 1) =~= names(files@).take(i as int).push(files@[i as int]@));
                if eq_chars(&files[i], value.as_str()) {
                    found = true;
                }
                proof {
                    let t = names(files@).take(i + 1);
                    if found {
                        if names(files@).take(i as int).contains(value@) {
                            let k = choose|k: int| 0 <= k < i && names(files@).take(i as int)[k] == value@;
                            assert(t[k] == value@);
                        } else {
                            assert(t[i as int] == value@);
                        }
                    } else {
                        if t.contains(value@) {
                            let k = choose|k: int| 0 <= k < t.len() && t[k] == value@;
                            if k < i {
                                assert(names(files@).take(i as int)[k] == value@);
                            }
                        }
                    }
                }
                i = i + 1;
            }
            assert(names(files@).take(files@.len() as int) =~= names(files@));
            if found {
                st.startup_source = StartupSource::ExplicitElf(value);
                st.has_explicit_startup_source = true;
                Ok(next)
            } else {
                Err(ArgsError::Usage(UsageProblem::InvalidRt0))
            }
        },
    }
}

fn apply_firmware(st: &mut ArgsState, value: &str, next: usize) -> (r: Result<usize, ArgsError>)
    ensures
        step_agrees(firmware_step(state_view(*old(st)), value@, next as int), r, *final(st)),
{
    match parse_firmware_board(value) {
        Some(b) => {
            st.startup_source = StartupSource::EmbeddedFirmware(b);
            st.has_explicit_startup_source = true;
            Ok(next)
        },
        None => Err(ArgsError::Usage(UsageProblem::InvalidFirmware)),
    }
}

fn apply_alignment(st: &mut ArgsState, value: &str, option: CliOption, payload: bool, next: usize) -> (r: Result<
    usize,
    ArgsError,
>)
    ensures
        step_agrees(alignment_step(state_view(*old(st)), value@, option, payload, next as int), r, *final(st)),
{
    match parse_alignment(value) {
        Err(AlignmentError::NotAnInteger) => Err(ArgsError::Usage(UsageProblem::NotAnInteger(option))),
        Err(AlignmentError::NotPowerOfTwo) => Err(ArgsError::Usage(UsageProblem::NotPowerOfTwo(option))),
        Ok(v) => {
            if payload {
                st.align_payload = v;
            } else {
                st.align_size = v;
            }
            Ok(next)
        },
    }
}

fn apply_descriptor(st: &mut ArgsState, value: &str, option: CliOption, next: usize) -> (r: Result<
    usize,
    ArgsError,
>)
    requires
        option is Isa || option is IsaWord || option is Abi || option is AbiWord,
    ensures
        step_agrees(descriptor_step(state_view(*old(st)), value@, option, next as int), r, *final(st)),
{
    match parse_u32_value(value) {
        None => Err(ArgsError::Usage(UsageProblem::NotAU32(option))),
        Some(v) => {
            match option {
                CliOption::Isa => {
                    st.isa_descriptor = Some(v);
                },
                CliOption::IsaWord => {
                    st.isa_words.push(v);
                },
                CliOption::Abi => {
                    st.abi_descriptor = Some(v);
                },
                _ => {
                    st.abi_words.push(v);
                },
            }
            Ok(next)
        },
    }
}

/// Reads the argument at `i` (and its value, for an option that takes one).
fn read_arg(args: &[String], files: &[String], i: usize, st: &mut ArgsState) -> (r: Result<usize, ArgsError>)
    requires
        i < args@.len(),
    ensures
        step_agrees(arg_step(names(args@), names(files@), i as int, state_view(*old(st))), r, *final(st)),
{
    let a = &args[i];
    let has_value = i + 1 < args.len();
    assert(names(args@)[i as int] == a@);
    if has_value {
        assert(names(args@)[i + 1] == args@[i + 1]@);
    }
    if eq_chars(a, CLI_OPTION_RT0_SHORT) || eq_chars(a, CLI_OPTION_RT0) {
        if !has_value {
            Err(ArgsError::Usage(UsageProblem::MissingValue(CliOption::Rt0)))
        } else if st.has_explicit_startup_source {
            Err(ArgsError::Usage(UsageProblem::StartupSourceRepeated))
        } else {
            let value = trim_str(args[i + 1].as_str());
            apply_rt0(st, value, files, i + 2)
        }
    } else if has_prefix(a, PREFIX_RT0) || has_prefix(a, PREFIX_RT0_SHORT) {
        let value = if has_prefix(a, PREFIX_RT0) {
            text_after(a, PREFIX_RT0)
        } else {
            text_after(a, PREFIX_RT0_SHORT)
        };
        if st.has_explicit_startup_source {
            Err(ArgsError::Usage(UsageProblem::StartupSourceRepeated))
        } else {
            apply_rt0(st, value, files, i + 1)
        }
    } else if eq_chars(a, CLI_OPTION_FIRMWARE) {
        if !has_value {
            Err(ArgsError::Usage(UsageProblem::MissingValue(CliOption::Firmware)))
        } else if st.has_explicit_startup_source {
            Err(ArgsError::Usage(UsageProblem::FirmwareWithRt0))
        } else {
            apply_firmware(st, args[i + 1].as_str(), i + 2)
        }
    } else if has_prefix(a, PREFIX_FIRMWARE) {
        if st.has_explicit_startup_source {
            Err(ArgsError::Usage(UsageProblem::FirmwareWithRt0))
        } else {
            let value = text_after(a, PREFIX_FIRMWARE);
            apply_firmware(st, value.as_str(), i + 1)
        }
    } else {
        read_other_arg(args, files, i, st)
    }
}

/// Reads an argument that selects no startup source.
fn read_other_arg(args: &[String], files: &[String], i: usize, st: &mut ArgsState) -> (r: Result<usize, ArgsError>)
    requires
        i < args@.len(),
        !(args@[i as int]@ == CLI_OPTION_RT0_SHORT@ || args@[i as int]@ == CLI_OPTION_RT0@),
        !(starts_with(args@[i as int]@, PREFIX_RT0@) || starts_with(args@[i as int]@, PREFIX_RT0_SHORT@)),
        args@[i as int]@ != CLI_OPTION_FIRMWARE@,
        !starts_with(args@[i as int]@, PREFIX_FIRMWARE@),
    ensures
        step_agrees(arg_step(names(args@), names(files@), i as int, state_view(*old(st))), r, *final(st)),
{
    let a = &args[i];
    let has_value = i + 1 < args.len();
    assert(names(args@)[i as int] == a@);
    if has_value {
        assert(names(args@)[i + 1] == args@[i + 1]@);
    }
    if eq_chars(a, CLI_OPTION_RUNTIME_ENTRY_POINT) {
        if !has_value {
            Err(ArgsError::Usage(UsageProblem::MissingValue(CliOption::RuntimeEntryPoint)))
        } else {
            st.runtime_entry_point = trim_str(args[i + 1].as_str());
            Ok(i + 2)
        }
    } else if eq_chars(a, CLI_OPTION_STARTUP_ALONE) {
        st.startup_alone = true;
        Ok(i + 1)
    } else if eq_chars(a, CLI_OPTION_RAM_SIZE) {
        if !has_value {
            Err(ArgsError::Usage(UsageProblem::MissingValue(CliOption::RamSize)))
        } else {
            let t = trim_str(args[i + 1].as_str());
            match parse_u32_decimal(t.as_str()) {
                None => Err(ArgsError::Usage(UsageProblem::NotAnInteger(CliOption::RamSize))),
                Some(v) => {
                    st.ram_size = v;
                    Ok(i + 2)
                },
            }
        }
    } else if eq_chars(a, CLI_OPTION_ALIGN_PAYLOAD) {
        if !has_value {
            Err(ArgsError::Usage(UsageProblem::MissingValue(CliOption::AlignPayload)))
        } else {
            apply_alignment(st, args[i + 1].as_str(), CliOption::AlignPayload, true, i + 2)
        }
    } else if has_prefix(a, PREFIX_ALIGN_PAYLOAD) {
        let value = text_after(a, PREFIX_ALIGN_PAYLOAD);
        apply_alignment(st, value.as_str(), CliOption::AlignPayload, true, i + 1)
    } else if eq_chars(a, CLI_OPTION_ALIGN_SIZE) {
        if !has_value {
            Err(ArgsError::Usage(UsageProblem::MissingValue(CliOption::AlignSize)))
        } else {
            apply_alignment(st, args[i + 1].as_str(), CliOption::AlignSize, false, i + 2)
        }
    } else if has_prefix(a, PREFIX_ALIGN_SIZE) {
        let value = text_after(a, PREFIX_ALIGN_SIZE);
        apply_alignment(st, value.as_str(), CliOption::AlignSize, false, i + 1)
    } else if eq_chars(a, CLI_OPTION_FACADE12) {
        st.facade12 = true;
        Ok(i + 1)
    } else {
        read_descriptor_arg(args, files, i, st)
    }
}

/// Reads an argument about the ISA or ABI descriptors, or a later one.
fn read_descriptor_arg(args: &[String], files: &[String], i: usize, st: &mut ArgsState) -> (r: Result<
    usize,
    ArgsError,
>)
    requires
        i < args@.len(),
        !(args@[i as int]@ == CLI_OPTION_RT0_SHORT@ || args@[i as int]@ == CLI_OPTION_RT0@),
        !(starts_with(args@[i as int]@, PREFIX_RT0@) || starts_with(args@[i as int]@, PREFIX_RT0_SHORT@)),
        args@[i as int]@ != CLI_OPTION_FIRMWARE@,
        !starts_with(args@[i as int]@, PREFIX_FIRMWARE@),
        args@[i as int]@ != CLI_OPTION_RUNTIME_ENTRY_POINT@,
        args@[i as int]@ != CLI_OPTION_STARTUP_ALONE@,
        args@[i as int]@ != CLI_OPTION_RAM_SIZE@,
        args@[i as int]@ != CLI_OPTION_ALIGN_PAYLOAD@,
        !starts_with(args@[i as int]@, PREFIX_ALIGN_PAYLOAD@),
        args@[i as int]@ != CLI_OPTION_ALIGN_SIZE@,
        !starts_with(args@[i as int]@, PREFIX_ALIGN_SIZE@),
        args@[i as int]@ != CLI_OPTION_FACADE12@,
    ensures
        step_agrees(arg_step(names(args@), names(files@), i as int, state_view(*old(st))), r, *final(st)),
{
    let a = &args[i];
    let has_value = i + 1 < args.len();
    assert(names(args@)[i as int] == a@);
    if has_value {
        assert(names(args@)[i + 1] == args@[i + 1]@);
    }
    if eq_chars(a, CLI_OPTION_ISA) {
        if !has_value {
            Err(ArgsError::Usage(UsageProblem::MissingValue(CliOption::Isa)))
        } else {
            apply_descriptor(st, args[i + 1].as_str(), CliOption::Isa, i + 2)
        }
    } else if has_prefix(a, PREFIX_ISA) {
        let value = text_after(a, PREFIX_ISA);
        apply_descriptor(st, value.as_str(), CliOption::Isa, i + 1)
    } else if eq_chars(a, CLI_OPTION_ISA_WORD) {
        if !has_value {
            Err(ArgsError::Usage(UsageProblem::MissingValue(CliOption::IsaWord)))
        } else {
            apply_descriptor(st, args[i + 1].as_str(), CliOption::IsaWord, i + 2)
        }
    } else if has_prefix(a, PREFIX_ISA_WORD) {
        let value = text_after(a, PREFIX_ISA_WORD);
        apply_descriptor(st, value.as_str(), CliOption::IsaWord, i + 1)
    } else if eq_chars(a, CLI_OPTION_ABI) {
        if !has_value {
            Err(ArgsError::Usage(UsageProblem::MissingValue(CliOption::Abi)))
        } else if !st.abi.is_xipfs() {
            Err(ArgsError::Usage(UsageProblem::AbiWithProfile))
        } else {
            apply_descriptor(st, args[i + 1].as_str(), CliOption::Abi, i + 2)
        }
    } else if has_prefix(a, PREFIX_ABI) {
        if !st.abi.is_xipfs() {
            Err(ArgsError::Usage(UsageProblem::AbiWithProfile))
        } else {
            let value = text_after(a, PREFIX_ABI);
            apply_descriptor(st, value.as_str(), CliOption::Abi, i + 1)
        }
    } else if eq_chars(a, CLI_OPTION_ABI_WORD) {
        if !has_value {
            Err(ArgsError::Usage(UsageProblem::MissingValue(CliOption::AbiWord)))
        } else {
            apply_descriptor(st, args[i + 1].as_str(), CliOption::AbiWord, i + 2)
        }
    } else if has_prefix(a, PREFIX_ABI_WORD) {
        let value = text_after(a, PREFIX_ABI_WORD);
        apply_descriptor(st, value.as_str(), CliOption::AbiWord, i + 1)
    } else {
        read_last_arg(args, files, i, st)
    }
}

/// Reads a profile alias, a flag, or an input file name.
fn read_last_arg(args: &[String], files: &[String], i: usize, st: &mut ArgsState) -> (r: Result<usize, ArgsError>)
    requires
        i < args@.len(),
        !(args@[i as int]@ == CLI_OPTION_RT0_SHORT@ || args@[i as int]@ == CLI_OPTION_RT0@),
        !(starts_with(args@[i as int]@, PREFIX_RT0@) || starts_with(args@[i as int]@, PREFIX_RT0_SHORT@)),
        args@[i as int]@ != CLI_OPTION_FIRMWARE@,
        !starts_with(args@[i as int]@, PREFIX_FIRMWARE@),
        args@[i as int]@ != CLI_OPTION_RUNTIME_ENTRY_POINT@,
        args@[i as int]@ != CLI_OPTION_STARTUP_ALONE@,
        args@[i as int]@ != CLI_OPTION_RAM_SIZE@,
        args@[i as int]@ != CLI_OPTION_ALIGN_PAYLOAD@,
        !starts_with(args@[i as int]@, PREFIX_ALIGN_PAYLOAD@),
        args@[i as int]@ != CLI_OPTION_ALIGN_SIZE@,
        !starts_with(args@[i as int]@, PREFIX_ALIGN_SIZE@),
        args@[i as int]@ != CLI_OPTION_FACADE12@,
        args@[i as int]@ != CLI_OPTION_ISA@,
        !starts_with(args@[i as int]@, PREFIX_ISA@),
        args@[i as int]@ != CLI_OPTION_ISA_WORD@,
        !starts_with(args@[i as int]@, PREFIX_ISA_WORD@),
        args@[i as int]@ != CLI_OPTION_ABI@,
        !starts_with(args@[i as int]@, PREFIX_ABI@),
        args@[i as int]@ != CLI_OPTION_ABI_WORD@,
        !starts_with(args@[i as int]@, PREFIX_ABI_WORD@),
    ensures
        step_agrees(arg_step(names(args@), names(files@), i as int, state_view(*old(st))), r, *final(st)),
{
    let a = &args[i];
    let has_value = i + 1 < args.len();
    assert(names(args@)[i as int] == a@);
    if has_value {
        assert(names(args@)[i + 1] == args@[i + 1]@);
    }
    if eq_chars(a, CLI_OPTION_RUSTLET) || eq_chars(a, CLI_OPTION_RUSTLET_SHORT) {
        if st.abi_descriptor.is_some() || !st.abi.is_xipfs() {
            Err(ArgsError::Usage(UsageProblem::ProfileWithOtherAbi(CliOption::Rustlet)))
        } else {
            st.abi = BuildAbi::Rustlet;
            Ok(i + 1)
        }
    } else if eq_chars(a, CLI_OPTION_SECURITY_DOMAIN) || eq_chars(a, CLI_OPTION_SECURITY_DOMAIN_SHORT) {
        if st.abi_descriptor.is_some() || !st.abi.is_xipfs() {
            Err(ArgsError::Usage(UsageProblem::ProfileWithOtherAbi(CliOption::SecurityDomain)))
        } else {
            st.abi = BuildAbi::RustletSecurityDomain;
            Ok(i + 1)
        }
    } else if eq_chars(a, CLI_OPTION_STACK_SIZE) {
        if !has_value {
            Err(ArgsError::Usage(UsageProblem::MissingValue(CliOption::StackSize)))
        } else {
            match parse_u32_decimal(args[i + 1].as_str()) {
                None => Err(ArgsError::Usage(UsageProblem::NotAnInteger(CliOption::StackSize))),
                Some(v) => {
                    st.stack_size = v;
                    Ok(i + 2)
                },
            }
        }
    } else if eq_chars(a, CLI_OPTION_ALLOW_RT0_MISMATCH) {
        st.allow_rt0_mismatch = true;
        Ok(i + 1)
    } else if eq_chars(a, CLI_OPTION_VERBOSE) || eq_chars(a, CLI_OPTION_VERBOSE_LONG) {
        st.verbose = true;
        Ok(i + 1)
    } else if starts_with_dash(a) {
        Err(ArgsError::UnrecognizedOption(a.clone()))
    } else {
        let ghost before = names(st.positional@);
        st.positional.push(a.clone());
        assert(names(st.positional@) =~= before.push(a@));
        Ok(i + 1)
    }
}

proof fn lemma_arg_step_advances(args: Seq<Seq<char>>, files: Seq<Seq<char>>, i: int, st: ArgsView)
    requires
        0 <= i < args.len(),
    ensures
        arg_step(args, files, i, st) matches ArgStep::Next(_, j) ==> i < j <= args.len(),
{
}

fn initial_state() -> (r: ArgsState)
    ensures
        state_view(r) == initial_args(),
{
    let r = ArgsState {
        startup_source: StartupSource::EmbeddedDefaultRuntime,
        startup_selection: StartupSelection::Auto,
        has_explicit_startup_source: false,
        startup_alone: false,
        runtime_entry_point: constants::DEFAULT_RUNTIME_ENTRY_POINT.to_owned(),
        ram_size: constants::DEFAULT_STARTUP_ALONE_RAM_SIZE,
        align_payload: 0,
        align_size: constants::PADDING_MPU_ALIGNMENT,
        facade12: false,
        isa_descriptor: None,
        isa_words: Vec::new(),
        abi: BuildAbi::Xipfs,
        abi_descriptor: None,
        abi_words: Vec::new(),
        stack_size: DEFAULT_RUSTLET_STACK_SIZE,
        allow_rt0_mismatch: false,
        verbose: false,
        positional: Vec::new(),
    };
    assert(names(r.positional@) =~= Seq::<Seq<char>>::empty());
    r
}

fn descriptor_words(kind: DescriptorKind, descriptor: u32, words: &Vec<u32>) -> (r: Result<DescriptorWords, ArgsError>)
    ensures
        words_fit(descriptor, words@) ==> (r matches Ok(w) && w.spec_descriptor() == descriptor
            && w.spec_words() == words@),
        !words_fit(descriptor, words@) ==> r == Err::<DescriptorWords, ArgsError>(
            ArgsError::Usage(
                UsageProblem::InvalidDescriptor {
                    kind,
                    expected: (descriptor & 0x0F) as usize,
                    actual: words@.len() as usize,
                },
            ),
        ),
{
    match DescriptorWords::new(descriptor, words.as_slice()) {
        Ok(w) => Ok(w),
        Err(_) => Err(
            ArgsError::Usage(
                UsageProblem::InvalidDescriptor {
                    kind,
                    expected: (descriptor & 0x0F) as usize,
                    actual: words.len(),
                },
            ),
        ),
    }
}

/// The checks made once every argument is read.
fn finish(st: ArgsState) -> (r: Result<BuildOptions, ArgsError>)
    ensures
        match finish_args(state_view(st)) {
            Err(p) => r == Err::<BuildOptions, ArgsError>(ArgsError::Usage(p)),
            Ok(o) => r matches Ok(x) && options_view(x) == o,
        },
{
    let ghost v = state_view(st);
    let isa = match st.isa_descriptor {
        Some(d) => match descriptor_words(DescriptorKind::Isa, d, &st.isa_words) {
            Ok(w) => Some(w),
            Err(e) => {
                return Err(e);
            },
        },
        None => {
            if st.isa_words.len() > 0 {
                return Err(ArgsError::Usage(UsageProblem::WordWithoutDescriptor(DescriptorKind::Isa)));
            }
            None
        },
    };
    let abi = match st.abi_descriptor {
        Some(d) => match descriptor_words(DescriptorKind::Abi, d, &st.abi_words) {
            Ok(w) => BuildAbi::Explicit(w),
            Err(e) => {
                return Err(e);
            },
        },
        None => {
            if st.abi_words.len() > 0 {
                return Err(ArgsError::Usage(UsageProblem::WordWithoutDescriptor(DescriptorKind::Abi)));
            }
            st.abi
        },
    };
    let entry_chars = chars_of(st.runtime_entry_point.as_str());
    if entry_chars.len() == 0 {
        return Err(ArgsError::Usage(UsageProblem::EmptyEntryPoint));
    }
    if st.facade12 && (!abi.is_xipfs() || isa.is_some()) {
        return Err(ArgsError::Usage(UsageProblem::Facade12WithFae1Options));
    }
    if st.startup_alone && !abi.is_xipfs() {
        return Err(ArgsError::Usage(UsageProblem::ProfileNeedsInputElf));
    }
    let firmware = match st.startup_source {
        StartupSource::EmbeddedFirmware(_) => true,
        _ => false,
    };
    let auto = match st.startup_selection {
        StartupSelection::Auto => true,
        _ => false,
    };
    if firmware && !auto {
        return Err(ArgsError::Usage(UsageProblem::FirmwareWithRt0));
    }
    let mode = if st.startup_alone {
        if st.positional.len() > 0 {
            return Err(ArgsError::Usage(UsageProblem::StartupAloneWithInput));
        }
        if !eq_chars(&st.runtime_entry_point, constants::DEFAULT_RUNTIME_ENTRY_POINT) {
            return Err(ArgsError::Usage(UsageProblem::StartupAloneWithEntryPoint));
        }
        BuildMode::StartupAlone
    } else {
        if st.positional.len() != 1 {
            return Err(ArgsError::Usage(UsageProblem::ExpectedOneInput));
        }
        if st.ram_size != constants::DEFAULT_STARTUP_ALONE_RAM_SIZE {
            return Err(ArgsError::Usage(UsageProblem::RamSizeNeedsStartupAlone));
        }
        assert(names(st.positional@)[0] == st.positional@[0]@);
        BuildMode::Application { elf_filename: trim_str(st.positional[0].as_str()) }
    };
    Ok(
        BuildOptions {
            startup_source: st.startup_source,
            startup_selection: st.startup_selection,
            mode,
            runtime_entry_point: st.runtime_entry_point,
            ram_size: st.ram_size,
            align_payload: st.align_payload,
            align_size: st.align_size,
            facade12: st.facade12,
            isa,
            abi,
            stack_size: st.stack_size,
            allow_rt0_mismatch: st.allow_rt0_mismatch,
            verbose: st.verbose,
        },
    )
}

/// Reads the builder's command line `args` (the program name first);
/// `existing_files` are the values given to `--rt0` that name existing files.
/// Help alone asks for help; otherwise each argument is read in turn (an
/// option with a value takes the next argument, or the text after its '=')
/// and the whole is checked: one input ELF, or none with `--startup-alone`,
/// descriptors with as many words as they declare, and no clashing options.
pub fn parse_args(args: &[String], existing_files: &[String]) -> (r: Result<BuildOptions, ArgsError>)
    requires
        args@.len() >= 1,
    ensures
        match spec_parse_build_args(names(args@), names(existing_files@)) {
            ArgsOutcome::Help => r == Err::<BuildOptions, ArgsError>(ArgsError::HelpRequested),
            ArgsOutcome::Problem(p) => r == Err::<BuildOptions, ArgsError>(ArgsError::Usage(p)),
            ArgsOutcome::Unrecognized(a) => r matches Err(ArgsError::UnrecognizedOption(s)) && s@ == a,
            ArgsOutcome::Options(o) => r matches Ok(x) && options_view(x) == o,
        },
{
    let ghost a = names(args@);
    let ghost f = names(existing_files@);
    if args.len() == 2 && (eq_chars(&args[1], CLI_OPTION_HELP) || eq_chars(&args[1], CLI_OPTION_HELP_LONG)) {
        assert(a[1] == args@[1]@);
        return Err(ArgsError::HelpRequested);
    }
    proof {
        if args@.len() == 2 {
            assert(a[1] == args@[1]@);
        }
    }
    let mut st = initial_state();
    let mut i: usize = 1;
    while i < args.len()
        invariant
            1 <= i <= args@.len(),
            a == names(args@),
            f == names(existing_files@),
            !(a.len() == 2 && (a[1] == CLI_OPTION_HELP@ || a[1] == CLI_OPTION_HELP_LONG@)),
            args_from(a, f, 1, initial_args()) == args_from(a, f, i as int, state_view(st)),
        decreases args@.len() - i,
    {
        let ghost before = state_view(st);
        proof {
            lemma_arg_step_advances(a, f, i as int, before);
        }
        match read_arg(args, existing_files, i, &mut st) {
            Ok(j) => {
                i = j;
            },
            Err(e) => {
                assert(args_from(a, f, i as int, before) matches Err(_));
                return Err(e);
            },
        }
    }
    assert(args_from(a, f, i as int, state_view(st)) == Ok::<ArgsView, ArgsFailure>(state_view(st)));
    finish(st)
}

} // verus!

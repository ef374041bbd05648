//! Building an application image from its parsed ELF and startup code: the
//! checks on the payload, the exported sizes, the relocation table, the
//! output format, the partition, and the image.

use vstd::prelude::*;

use crate::build_args::BuildOptions;
use crate::build_cli::{
    compatibility_outcome, export_partition, format_outcome, output_format, partition_outcome,
    spec_partition, spec_section_bytes_of, validate_rt0_payload_compatibility, BuildAbi,
    CompatibilityError, FormatChoice, ModeMismatch, PartitionError, ResolvedStartup,
};
use crate::constants;
use crate::elf::{
    abs32_outcome, exec_relocations_outcome, export_relocation_table, export_startup_code,
    export_symbols_to_struct, exported_symbols_outcome, first_section_named,
    relocation_table_addressable, relocation_table_fits, relocation_table_outcome,
    startup_code_outcome, validate_abs32_relocation_targets,
    validate_no_exec_relocations_to_runtime_writable_sections, ElfError, ElfFile,
};
use crate::fae1;
use crate::fae_format::{
    compute_aligned_header_size_for_format, concatenate_and_pad_bytearray_for_format,
    fits_image, image_fits, lemma_built_image_header_fits, padded_exported_symbols, remap_offset_to_padded_layout,
    spec_aligned_header_size_for_format, spec_header_size, spec_image,
    spec_padded_exported_symbols, spec_remap_offset, ExportedSymbols,
};

verus! {

/// Why an application image could not be built.
#[derive(Debug)]
pub enum BuildError {
    /// The startup code could not be taken from its ELF.
    Startup(ElfError),
    /// The payload ELF was refused.
    Payload(ElfError),
    Compatibility(CompatibilityError),
    Partition(PartitionError),
    Image(fae1::Error),
    /// The sizes would overflow the machine's address arithmetic.
    TooLarge,
}

/// An application image and the parts it is made of.
#[derive(Debug)]
pub struct ApplicationImage {
    pub startup_code: Vec<u8>,
    pub raw_symbols: ExportedSymbols,
    pub symbols: ExportedSymbols,
    pub relocations: Vec<u8>,
    pub relocation_offsets: Vec<u32>,
    pub format: FormatChoice,
    pub metadata_size: usize,
    pub partition: Vec<u8>,
    pub rt0_mismatch: Option<ModeMismatch>,
    pub bytes: Vec<u8>,
}

/// The sizes and entry point the image records: every size padded to a word,
/// and the entry point moved to the padded layout (where it can be) with its
/// Thumb bit kept.
pub open spec fn spec_image_symbols(raw: ExportedSymbols) -> ExportedSymbols {
    let padded = spec_padded_exported_symbols(raw);
    let base = raw.start & 0xFFFF_FFFEu32;
    let mapped = match spec_remap_offset(base, raw, padded) {
        Some(m) => m,
        None => base,
    };
    ExportedSymbols { start: mapped | (raw.start & 1u32), ..padded }
}

/// The startup code can be taken from the startup ELF.
pub open spec fn startup_code_passes(startup_elf: ElfFile, startup_bytes: Seq<u8>) -> bool {
    exists|v: Vec<u8>| #[trigger] startup_code_outcome(startup_elf, startup_bytes, Ok(v))
}

/// The startup and payload ELFs suit each other.
pub open spec fn compatibility_passes(
    startup_elf: ElfFile,
    elf: ElfFile,
    entry: Seq<char>,
    allow: bool,
) -> bool {
    exists|m: Option<ModeMismatch>| #[trigger] compatibility_outcome(startup_elf, elf, entry, allow, Ok(m))
}

/// The startup code and the checks on the payload, in turn: the startup
/// code, the ABS32 relocation targets, the relocations of executable
/// sections, the fit of the payload to the startup code, and the exported
/// symbols. The first that fails gives the error.
#[verifier::opaque]
pub open spec fn parts_outcome(
    elf: ElfFile,
    bytes: Seq<u8>,
    startup_elf: ElfFile,
    startup_bytes: Seq<u8>,
    entry: Seq<char>,
    allow: bool,
    r: Result<(Vec<u8>, Option<ModeMismatch>, ExportedSymbols), BuildError>,
) -> bool {
    match r {
        Ok((code, m, raw)) => {
            &&& startup_code_outcome(startup_elf, startup_bytes, Ok(code))
            &&& abs32_outcome(elf, bytes, Ok(()))
            &&& exec_relocations_outcome(elf, bytes, Ok(()))
            &&& compatibility_outcome(startup_elf, elf, entry, allow, Ok(m))
            &&& exported_symbols_outcome(elf, entry, Ok(raw))
        },
        Err(BuildError::Startup(e)) => startup_code_outcome(startup_elf, startup_bytes, Err(e)),
        Err(BuildError::Payload(e)) => startup_code_passes(startup_elf, startup_bytes) && (abs32_outcome(
            elf,
            bytes,
            Err(e),
        ) || abs32_outcome(elf, bytes, Ok(())) && (exec_relocations_outcome(elf, bytes, Err(e)) || (
        exec_relocations_outcome(elf, bytes, Ok(())) && compatibility_passes(startup_elf, elf, entry, allow)
            && exported_symbols_outcome(elf, entry, Err(e))))),
        Err(BuildError::Compatibility(e)) => {
            &&& startup_code_passes(startup_elf, startup_bytes)
            &&& abs32_outcome(elf, bytes, Ok(()))
            &&& exec_relocations_outcome(elf, bytes, Ok(()))
            &&& compatibility_outcome(startup_elf, elf, entry, allow, Err(e))
        },
        Err(_) => false,
    }
}

/// The relocation table can be read without overflow: the exported sizes
/// fit in memory and the table's section can be addressed.
pub open spec fn relocations_fit(elf: ElfFile, raw: ExportedSymbols) -> bool {
    &&& raw.rom_size + raw.got_size + raw.rom_ram_size + raw.ram_size <= usize::MAX
    &&& match first_section_named(elf.sections@, constants::EXPORTED_RELOCATION_TABLE@) {
        Some(k) => relocation_table_addressable(elf.sections@[k]),
        None => true,
    }
}

/// The relocation table of `.rel.rom.ram`, or why it could not be read.
#[verifier::opaque]
pub open spec fn relocation_outcome(
    elf: ElfFile,
    bytes: Seq<u8>,
    raw: ExportedSymbols,
    symbols: ExportedSymbols,
    r: Result<(Vec<u8>, Vec<u32>), BuildError>,
) -> bool {
    if !relocations_fit(elf, raw) {
        r matches Err(BuildError::TooLarge)
    } else {
        match r {
            Ok(t) => relocation_table_outcome(elf, bytes, constants::EXPORTED_RELOCATION_TABLE@, raw, symbols, Ok(t)),
            Err(BuildError::Payload(e)) => relocation_table_outcome(
                elf,
                bytes,
                constants::EXPORTED_RELOCATION_TABLE@,
                raw,
                symbols,
                Err(e),
            ),
            Err(_) => false,
        }
    }
}

/// The output format for the options, or why the payload could not be
/// placed.
#[verifier::opaque]
pub open spec fn chosen_format_outcome(
    elf: ElfFile,
    startup: ResolvedStartup,
    options: BuildOptions,
    r: Result<FormatChoice, BuildError>,
) -> bool {
    let entry = options.runtime_entry_point@;
    match r {
        Ok(f) => format_outcome(startup, elf, entry, options.facade12, options.isa, options.abi, options.stack_size, Ok(f)),
        Err(BuildError::Payload(e)) => format_outcome(
            startup,
            elf,
            entry,
            options.facade12,
            options.isa,
            options.abi,
            options.stack_size,
            Err(e),
        ),
        Err(_) => false,
    }
}

/// Why building fails once the partition is laid out: the image would
/// overflow in the chosen format, or cannot be written in it.
#[verifier::opaque]
pub open spec fn failure_after_partition(
    code: Seq<u8>,
    symbols: ExportedSymbols,
    table: Seq<u8>,
    partition: Seq<u8>,
    align_payload: usize,
    align_size: usize,
    format: FormatChoice,
    e: BuildError,
) -> bool {
    if !image_fits(code, symbols, table, align_payload, align_size, partition, format.format) {
        e is TooLarge
    } else {
        e matches BuildError::Image(x) && spec_image(
            code,
            symbols,
            table,
            align_payload,
            align_size,
            partition,
            format.format,
        ) == Err::<Seq<u8>, fae1::Error>(x)
    }
}

/// Why building fails once the output format is chosen.
#[verifier::opaque]
pub open spec fn failure_after_format(
    elf: ElfFile,
    bytes: Seq<u8>,
    options: BuildOptions,
    code: Seq<u8>,
    raw: ExportedSymbols,
    table: Seq<u8>,
    offsets: Seq<u32>,
    format: FormatChoice,
    e: BuildError,
) -> bool {
    let symbols = spec_image_symbols(raw);
    if raw.rom_size + raw.got_size + raw.rom_ram_size > 0xFFFF_FFFF {
        e is TooLarge
    } else {
        ||| e matches BuildError::Partition(x) && partition_outcome(elf, bytes, raw, symbols, offsets, Err(x))
        ||| exists|p: Vec<u8>|
            #[trigger] partition_outcome(elf, bytes, raw, symbols, offsets, Ok(p)) && failure_after_partition(
                code,
                symbols,
                table,
                p@,
                options.align_payload,
                options.align_size,
                format,
                e,
            )
    }
}

/// Why building fails once the relocation table is read.
#[verifier::opaque]
pub open spec fn failure_after_relocations(
    elf: ElfFile,
    bytes: Seq<u8>,
    startup: ResolvedStartup,
    options: BuildOptions,
    code: Seq<u8>,
    raw: ExportedSymbols,
    table: Seq<u8>,
    offsets: Seq<u32>,
    e: BuildError,
) -> bool {
    ||| chosen_format_outcome(elf, startup, options, Err(e))
    ||| exists|f: FormatChoice|
        #[trigger] chosen_format_outcome(elf, startup, options, Ok(f)) && failure_after_format(
            elf,
            bytes,
            options,
            code,
            raw,
            table,
            offsets,
            f,
            e,
        )
}

/// Why building fails once the startup code and the payload checks pass.
#[verifier::opaque]
pub open spec fn failure_after_parts(
    elf: ElfFile,
    bytes: Seq<u8>,
    startup: ResolvedStartup,
    options: BuildOptions,
    code: Seq<u8>,
    raw: ExportedSymbols,
    e: BuildError,
) -> bool {
    let symbols = spec_image_symbols(raw);
    if (usize::MAX as int) < 0xFFFF_FFFF + 3 {
        e is TooLarge
    } else {
        ||| relocation_outcome(elf, bytes, raw, symbols, Err(e))
        ||| exists|t: (Vec<u8>, Vec<u32>)|
            #[trigger] relocation_outcome(elf, bytes, raw, symbols, Ok(t)) && failure_after_relocations(
                elf,
                bytes,
                startup,
                options,
                code,
                raw,
                t.0@,
                t.1@,
                e,
            )
    }
}

/// Why building an application image fails: the first step that fails
/// gives the error.
#[verifier::opaque]
pub open spec fn application_failure(
    elf: ElfFile,
    bytes: Seq<u8>,
    startup: ResolvedStartup,
    startup_elf: ElfFile,
    startup_bytes: Seq<u8>,
    options: BuildOptions,
    e: BuildError,
) -> bool {
    let entry = options.runtime_entry_point@;
    let allow = options.allow_rt0_mismatch;
    ||| parts_outcome(elf, bytes, startup_elf, startup_bytes, entry, allow, Err(e))
    ||| exists|p: (Vec<u8>, Option<ModeMismatch>, ExportedSymbols)|
        #[trigger] parts_outcome(elf, bytes, startup_elf, startup_bytes, entry, allow, Ok(p))
            && failure_after_parts(elf, bytes, startup, options, p.0@, p.2, e)
}

/// The startup code, and the checks the payload must pass: its relocations,
/// and its fit to the startup code (a mode mismatch comes back where it is
/// allowed).
fn checked_parts(
    elf: &ElfFile,
    elf_bytes: &[u8],
    startup_elf: &ElfFile,
    startup_elf_bytes: &[u8],
    options: &BuildOptions,
) -> (r: Result<(Vec<u8>, Option<ModeMismatch>, ExportedSymbols), BuildError>)
    ensures
        parts_outcome(
            *elf,
            elf_bytes@,
            *startup_elf,
            startup_elf_bytes@,
            options.runtime_entry_point@,
            options.allow_rt0_mismatch,
            r,
        ),
        r matches Ok((_, m, _)) ==> (m is Some ==> options.allow_rt0_mismatch),
{
    proof {
        reveal(parts_outcome);
    }
    let startup_code = match export_startup_code(startup_elf, startup_elf_bytes) {
        Ok(v) => v,
        Err(e) => {
            return Err(BuildError::Startup(e));
        },
    };
    match validate_abs32_relocation_targets(elf, elf_bytes) {
        Ok(()) => {},
        Err(e) => {
            return Err(BuildError::Payload(e));
        },
    }
    match validate_no_exec_relocations_to_runtime_writable_sections(elf, elf_bytes) {
        Ok(()) => {},
        Err(e) => {
            return Err(BuildError::Payload(e));
        },
    }
    let entry = options.runtime_entry_point.as_str();
    let rt0_mismatch = match validate_rt0_payload_compatibility(
        startup_elf,
        elf,
        entry,
        options.allow_rt0_mismatch,
    ) {
        Ok(m) => m,
        Err(e) => {
            return Err(BuildError::Compatibility(e));
        },
    };
    let raw = match export_symbols_to_struct(elf, entry) {
        Ok(s) => s,
        Err(e) => {
            return Err(BuildError::Payload(e));
        },
    };
    Ok((startup_code, rt0_mismatch, raw))
}

/// The relocation table of `.rel.rom.ram` and its raw target offsets.
fn relocation_table(elf: &ElfFile, elf_bytes: &[u8], raw: ExportedSymbols, symbols: ExportedSymbols) -> (r: Result<
    (Vec<u8>, Vec<u32>),
    BuildError,
>)
    ensures
        relocation_outcome(*elf, elf_bytes@, raw, symbols, r),
{
    proof {
        reveal(relocation_outcome);
    }
    if !relocation_table_fits(elf, constants::EXPORTED_RELOCATION_TABLE, raw) {
        return Err(BuildError::TooLarge);
    }
    match export_relocation_table(elf, elf_bytes, constants::EXPORTED_RELOCATION_TABLE, raw, symbols) {
        Ok(t) => Ok(t),
        Err(e) => Err(BuildError::Payload(e)),
    }
}

/// The output format the options and the startup code call for.
fn chosen_format(elf: &ElfFile, startup: &ResolvedStartup, options: &BuildOptions) -> (r: Result<
    FormatChoice,
    BuildError,
>)
    ensures
        chosen_format_outcome(*elf, *startup, *options, r),
{
    proof {
        reveal(chosen_format_outcome);
    }
    match output_format(
        startup,
        elf,
        options.runtime_entry_point.as_str(),
        options.facade12,
        options.isa,
        options.abi,
        options.stack_size,
    ) {
        Ok(f) => Ok(f),
        Err(e) => Err(BuildError::Payload(e)),
    }
}

/// Builds the image of an application from its ELF (`elf` parsed from
/// `elf_bytes`) and the chosen startup code (parsed from
/// `startup_elf_bytes`): the payload must pass the relocation checks and
/// suit the startup code, and its sections are laid out after the startup
/// code and relocation table in the chosen format.
pub fn build_application_image(
    elf: &ElfFile,
    elf_bytes: &[u8],
    startup: &ResolvedStartup,
    startup_elf: &ElfFile,
    startup_elf_bytes: &[u8],
    options: &BuildOptions,
) -> (r: Result<ApplicationImage, BuildError>)
    ensures
        r matches Ok(img) ==> {
            &&& parts_outcome(
                *elf,
                elf_bytes@,
                *startup_elf,
                startup_elf_bytes@,
                options.runtime_entry_point@,
                options.allow_rt0_mismatch,
                Ok((img.startup_code, img.rt0_mismatch, img.raw_symbols)),
            )
            &&& usize::MAX >= 0xFFFF_FFFF + 3
            &&& img.symbols == spec_image_symbols(img.raw_symbols)
            &&& relocation_outcome(
                *elf,
                elf_bytes@,
                img.raw_symbols,
                img.symbols,
                Ok((img.relocations, img.relocation_offsets)),
            )
            &&& chosen_format_outcome(*elf, *startup, *options, Ok(img.format))
            &&& img.raw_symbols.rom_size + img.raw_symbols.got_size + img.raw_symbols.rom_ram_size <= 0xFFFF_FFFF
            &&& image_fits(
                img.startup_code@,
                img.symbols,
                img.relocations@,
                options.align_payload,
                options.align_size,
                img.partition@,
                img.format.format,
            )
            &&& img.metadata_size == spec_aligned_header_size_for_format(
                spec_header_size(img.startup_code@.len() as int, img.relocations@.len() as int),
                options.align_payload,
                img.format.format,
            )
            &&& spec_partition(
                spec_section_bytes_of(*elf, elf_bytes@, constants::ROM_SECTION_NAME@, img.raw_symbols.rom_size),
                spec_section_bytes_of(*elf, elf_bytes@, constants::GOT_SECTION_NAME@, img.raw_symbols.got_size),
                spec_section_bytes_of(
                    *elf,
                    elf_bytes@,
                    constants::ROM_RAM_SECTION_NAME@,
                    img.raw_symbols.rom_ram_size,
                ),
                img.raw_symbols,
                img.symbols,
                img.relocation_offsets@,
            ) == Ok::<Seq<u8>, PartitionError>(img.partition@)
            &&& spec_image(
                img.startup_code@,
                img.symbols,
                img.relocations@,
                options.align_payload,
                options.align_size,
                img.partition@,
                img.format.format,
            ) == Ok::<Seq<u8>, fae1::Error>(img.bytes@)
            &&& (img.rt0_mismatch is Some ==> options.allow_rt0_mismatch)
        },
        r matches Err(e) ==> application_failure(
            *elf,
            elf_bytes@,
            *startup,
            *startup_elf,
            startup_elf_bytes@,
            *options,
            e,
        ),
{
    let ghost entry = options.runtime_entry_point@;
    let ghost allow = options.allow_rt0_mismatch;
    let parts = match checked_parts(elf, elf_bytes, startup_elf, startup_elf_bytes, options) {
        Ok(parts) => parts,
        Err(e) => {
            proof {
                reveal(application_failure);
            }
            return Err(e);
        },
    };
    let ghost gp = parts;
    let (startup_code, rt0_mismatch, raw) = parts;
    proof {
        assert(parts_outcome(*elf, elf_bytes@, *startup_elf, startup_elf_bytes@, entry, allow, Ok(gp)));
    }
    if (usize::MAX as u64) < 0xFFFF_FFFFu64 + 3 {
        proof {
            reveal(application_failure);
            reveal(failure_after_parts);
        }
        return Err(BuildError::TooLarge);
    }
    let padded = padded_exported_symbols(raw);
    let base = raw.start & 0xFFFF_FFFEu32;
    let mapped = match remap_offset_to_padded_layout(base, raw, padded) {
        Some(m) => m,
        None => base,
    };
    let symbols = ExportedSymbols { start: mapped | (raw.start & 1u32), ..padded };
    let table = match relocation_table(elf, elf_bytes, raw, symbols) {
        Ok(t) => t,
        Err(e) => {
            proof {
                reveal(application_failure);
                reveal(failure_after_parts);
            }
            return Err(e);
        },
    };
    let ghost gt = table;
    let (relocations, relocation_offsets) = table;
    let format = match chosen_format(elf, startup, options) {
        Ok(f) => f,
        Err(e) => {
            proof {
                reveal(application_failure);
                reveal(failure_after_parts);
                reveal(failure_after_relocations);
                assert(relocation_outcome(*elf, elf_bytes@, raw, symbols, Ok(gt)));
            }
            return Err(e);
        },
    };
    if (raw.rom_size as u64) + (raw.got_size as u64) + (raw.rom_ram_size as u64) > 0xFFFF_FFFFu64 {
        proof {
            reveal(application_failure);
            reveal(failure_after_parts);
            reveal(failure_after_relocations);
            reveal(failure_after_format);
            assert(relocation_outcome(*elf, elf_bytes@, raw, symbols, Ok(gt)));
            assert(chosen_format_outcome(*elf, *startup, *options, Ok(format)));
        }
        return Err(BuildError::TooLarge);
    }
    let partition = match export_partition(elf, elf_bytes, raw, symbols, relocation_offsets.as_slice()) {
        Ok(p) => p,
        Err(e) => {
            proof {
                reveal(application_failure);
                reveal(failure_after_parts);
                reveal(failure_after_relocations);
                reveal(failure_after_format);
                assert(relocation_outcome(*elf, elf_bytes@, raw, symbols, Ok(gt)));
                assert(chosen_format_outcome(*elf, *startup, *options, Ok(format)));
                assert(partition_outcome(*elf, elf_bytes@, raw, symbols, relocation_offsets@, Err(e)));
            }
            return Err(BuildError::Partition(e));
        },
    };
    proof {
        assert(partition_outcome(*elf, elf_bytes@, raw, symbols, relocation_offsets@, Ok(partition)));
    }
    if !fits_image(
        startup_code.as_slice(),
        symbols,
        relocations.as_slice(),
        options.align_payload,
        options.align_size,
        partition.as_slice(),
        format.format,
    ) {
        proof {
            reveal(application_failure);
            reveal(failure_after_parts);
            reveal(failure_after_relocations);
            reveal(failure_after_format);
            reveal(failure_after_partition);
            assert(relocation_outcome(*elf, elf_bytes@, raw, symbols, Ok(gt)));
            assert(chosen_format_outcome(*elf, *startup, *options, Ok(format)));
        }
        return Err(BuildError::TooLarge);
    }
    let bytes = match concatenate_and_pad_bytearray_for_format(
        startup_code.as_slice(),
        symbols,
        relocations.as_slice(),
        options.align_payload,
        options.align_size,
        partition.as_slice(),
        format.format,
    ) {
        Ok(b) => b,
        Err(e) => {
            proof {
                reveal(application_failure);
                reveal(failure_after_parts);
                reveal(failure_after_relocations);
                reveal(failure_after_format);
                reveal(failure_after_partition);
                assert(relocation_outcome(*elf, elf_bytes@, raw, symbols, Ok(gt)));
                assert(chosen_format_outcome(*elf, *startup, *options, Ok(format)));
            }
            return Err(BuildError::Image(e));
        },
    };
    proof {
        lemma_built_image_header_fits(
            startup_code@,
            symbols,
            relocations@,
            options.align_payload,
            options.align_size,
            partition@,
            format.format,
        );
    }
    let metadata_size = compute_aligned_header_size_for_format(
        startup_code.as_slice(),
        relocations.as_slice(),
        options.align_payload,
        format.format,
    );
    Ok(
        ApplicationImage {
            startup_code,
            raw_symbols: raw,
            symbols,
            relocations,
            relocation_offsets,
            format,
            metadata_size,
            partition,
            rt0_mismatch,
            bytes,
        },
    )
}

/// The startup code of the startup ELF, or why it could not be taken.
#[verifier::opaque]
pub open spec fn startup_code_result(
    startup_elf: ElfFile,
    startup_bytes: Seq<u8>,
    r: Result<Vec<u8>, BuildError>,
) -> bool {
    match r {
        Ok(v) => startup_code_outcome(startup_elf, startup_bytes, Ok(v)),
        Err(BuildError::Startup(e)) => startup_code_outcome(startup_elf, startup_bytes, Err(e)),
        Err(_) => false,
    }
}

/// The output format of an image of startup code alone (the default entry
/// point, no ISA descriptor, the XiPFS ABI), or why it could not be chosen.
#[verifier::opaque]
pub open spec fn startup_format_result(
    startup: ResolvedStartup,
    startup_elf: ElfFile,
    facade12: bool,
    r: Result<FormatChoice, BuildError>,
) -> bool {
    let entry = constants::DEFAULT_RUNTIME_ENTRY_POINT@;
    let stack = crate::build_args::DEFAULT_RUSTLET_STACK_SIZE;
    match r {
        Ok(f) => format_outcome(startup, startup_elf, entry, facade12, None, BuildAbi::Xipfs, stack, Ok(f)),
        Err(BuildError::Startup(e)) => format_outcome(
            startup,
            startup_elf,
            entry,
            facade12,
            None,
            BuildAbi::Xipfs,
            stack,
            Err(e),
        ),
        Err(_) => false,
    }
}

/// The symbols an image of startup code alone records: every size zero and
/// the RAM size given.
pub open spec fn startup_alone_symbols(ram_size: u32) -> ExportedSymbols {
    ExportedSymbols { start: 0, rom_ram_size: 0, rom_size: 0, got_size: 0, ram_size }
}

/// Why building an image of startup code alone fails: the startup code
/// cannot be taken, the format cannot be chosen, the image would overflow in
/// the chosen format, or it cannot be written in it.
#[verifier::opaque]
pub open spec fn startup_alone_failure(
    startup: ResolvedStartup,
    startup_elf: ElfFile,
    startup_bytes: Seq<u8>,
    ram_size: u32,
    align_payload: usize,
    align_size: usize,
    facade12: bool,
    e: BuildError,
) -> bool {
    ||| startup_code_result(startup_elf, startup_bytes, Err(e))
    ||| exists|v: Vec<u8>|
        #[trigger] startup_code_result(startup_elf, startup_bytes, Ok(v)) && {
            ||| startup_format_result(startup, startup_elf, facade12, Err(e))
            ||| exists|f: FormatChoice|
                #[trigger] startup_format_result(startup, startup_elf, facade12, Ok(f)) && if !image_fits(
                    v@,
                    startup_alone_symbols(ram_size),
                    crate::common::le_bytes(0),
                    align_payload,
                    align_size,
                    Seq::empty(),
                    f.format,
                ) {
                    e is TooLarge
                } else {
                    e matches BuildError::Image(x) && spec_image(
                        v@,
                        startup_alone_symbols(ram_size),
                        crate::common::le_bytes(0),
                        align_payload,
                        align_size,
                        Seq::empty(),
                        f.format,
                    ) == Err::<Seq<u8>, fae1::Error>(x)
                }
        }
}

/// The code of the startup ELF's `._start` section.
fn startup_code_of(startup_elf: &ElfFile, startup_elf_bytes: &[u8]) -> (r: Result<Vec<u8>, BuildError>)
    ensures
        startup_code_result(*startup_elf, startup_elf_bytes@, r),
{
    proof {
        reveal(startup_code_result);
    }
    match export_startup_code(startup_elf, startup_elf_bytes) {
        Ok(v) => Ok(v),
        Err(e) => Err(BuildError::Startup(e)),
    }
}

/// The output format of an image of the startup code alone: the default
/// entry point and the XiPFS ABI.
fn startup_format(startup: &ResolvedStartup, startup_elf: &ElfFile, facade12: bool) -> (r: Result<
    FormatChoice,
    BuildError,
>)
    ensures
        startup_format_result(*startup, *startup_elf, facade12, r),
{
    proof {
        reveal(startup_format_result);
    }
    match output_format(
        startup,
        startup_elf,
        constants::DEFAULT_RUNTIME_ENTRY_POINT,
        facade12,
        None,
        crate::build_cli::BuildAbi::Xipfs,
        crate::build_args::DEFAULT_RUSTLET_STACK_SIZE,
    ) {
        Ok(f) => Ok(f),
        Err(e) => Err(BuildError::Startup(e)),
    }
}

/// An image of startup code alone and the parts it is made of.
#[derive(Debug)]
pub struct StartupImage {
    pub startup_code: Vec<u8>,
    pub symbols: ExportedSymbols,
    pub format: FormatChoice,
    pub metadata_size: usize,
    pub bytes: Vec<u8>,
}

/// Builds an image that holds the startup code alone: an empty relocation
/// table and partition, every section size zero, and the RAM size given.
pub fn build_startup_alone_image(
    startup: &ResolvedStartup,
    startup_elf: &ElfFile,
    startup_elf_bytes: &[u8],
    ram_size: u32,
    align_payload: usize,
    align_size: usize,
    facade12: bool,
) -> (r: Result<StartupImage, BuildError>)
    ensures
        r matches Ok(img) ==> {
            &&& startup_code_result(*startup_elf, startup_elf_bytes@, Ok(img.startup_code))
            &&& startup_format_result(*startup, *startup_elf, facade12, Ok(img.format))
            &&& image_fits(
                img.startup_code@,
                img.symbols,
                crate::common::le_bytes(0),
                align_payload,
                align_size,
                Seq::empty(),
                img.format.format,
            )
            &&& img.symbols == startup_alone_symbols(ram_size)
            &&& img.metadata_size == spec_aligned_header_size_for_format(
                spec_header_size(img.startup_code@.len() as int, 4),
                align_payload,
                img.format.format,
            )
            &&& spec_image(
                img.startup_code@,
                img.symbols,
                crate::common::le_bytes(0),
                align_payload,
                align_size,
                Seq::empty(),
                img.format.format,
            ) == Ok::<Seq<u8>, fae1::Error>(img.bytes@)
        },
        r matches Err(e) ==> startup_alone_failure(
            *startup,
            *startup_elf,
            startup_elf_bytes@,
            ram_size,
            align_payload,
            align_size,
            facade12,
            e,
        ),
{
    let startup_code = match startup_code_of(startup_elf, startup_elf_bytes) {
        Ok(v) => v,
        Err(e) => {
            proof {
                reveal(startup_alone_failure);
            }
            return Err(e);
        },
    };
    proof {
        assert(startup_code_result(*startup_elf, startup_elf_bytes@, Ok(startup_code)));
    }
    let mut relocations: Vec<u8> = Vec::new();
    crate::common::push_word(&mut relocations, 0);
    let symbols = ExportedSymbols { start: 0, rom_ram_size: 0, rom_size: 0, got_size: 0, ram_size };
    let format = match startup_format(startup, startup_elf, facade12) {
        Ok(f) => f,
        Err(e) => {
            proof {
                reveal(startup_alone_failure);
            }
            return Err(e);
        },
    };
    proof {
        assert(startup_format_result(*startup, *startup_elf, facade12, Ok(format)));
    }
    let partition: Vec<u8> = Vec::new();
    if !fits_image(
        startup_code.as_slice(),
        symbols,
        relocations.as_slice(),
        align_payload,
        align_size,
        partition.as_slice(),
        format.format,
    ) {
        proof {
            reveal(startup_alone_failure);
            assert(partition@ =~= Seq::<u8>::empty());
            assert(relocations@ =~= crate::common::le_bytes(0));
        }
        return Err(BuildError::TooLarge);
    }
    let bytes = match concatenate_and_pad_bytearray_for_format(
        startup_code.as_slice(),
        symbols,
        relocations.as_slice(),
        align_payload,
        align_size,
        partition.as_slice(),
        format.format,
    ) {
        Ok(b) => b,
        Err(e) => {
            proof {
                reveal(startup_alone_failure);
                assert(partition@ =~= Seq::<u8>::empty());
                assert(relocations@ =~= crate::common::le_bytes(0));
            }
            return Err(BuildError::Image(e));
        },
    };
    proof {
        assert(partition@ =~= Seq::<u8>::empty());
        lemma_built_image_header_fits(
            startup_code@,
            symbols,
            relocations@,
            align_payload,
            align_size,
            partition@,
            format.format,
        );
    }
    let metadata_size = compute_aligned_header_size_for_format(
        startup_code.as_slice(),
        relocations.as_slice(),
        align_payload,
        format.format,
    );
    Ok(StartupImage { startup_code, symbols, format, metadata_size, bytes })
}

} // verus!

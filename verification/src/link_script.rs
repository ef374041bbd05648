//! The FAE linker script of a Rust application: where each input section
//! goes (ROM, GOT, initialised data, RAM or discarded) and its rendering.

use vstd::prelude::*;

use crate::constants;
use crate::elf::{parse_elf, ElfFile, ElfSection, SHF_ALLOC, SHF_EXECINSTR, SHT_NOBITS, SHT_REL, SHT_RELA};
use crate::section_plan::{
    bucket, contains_name, eq_chars, has_prefix, names, push_unique_name, starts_with,
    with_bucket, PlanBucket, PlanView, RustInputSectionPlan, SHF_WRITE,
};

verus! {

broadcast use vstd::string::group_string_axioms;

/// A section of the discovery ELF as the link plan sees it.
#[derive(Debug, Clone)]
pub struct SectionDescriptor {
    pub name: String,
    pub is_alloc: bool,
    pub is_writable: bool,
    pub is_executable: bool,
    pub is_nobits: bool,
    pub has_abs32: bool,
}

impl SectionDescriptor {
    /// A section of relocated read-only data.
    pub fn is_relro_candidate(&self) -> (r: bool)
        ensures
            r == starts_with(self.name@, ".data.rel.ro"@),
    {
        has_prefix(&self.name, ".data.rel.ro")
    }
}

/// The sections of each region of the link script, in order.
#[derive(Debug, Clone, PartialEq, Eq)]
pub struct LinkPlan {
    pub rom_sections: Vec<String>,
    pub got_sections: Vec<String>,
    pub rom_ram_sections: Vec<String>,
    pub ram_sections: Vec<String>,
    pub discard_sections: Vec<String>,
    pub alloc_abs32_sections: Vec<String>,
    pub non_alloc_abs32_sections: Vec<String>,
}

impl View for LinkPlan {
    type V = PlanView;

    open spec fn view(&self) -> PlanView {
        PlanView {
            rom: names(self.rom_sections@),
            got: names(self.got_sections@),
            rom_ram: names(self.rom_ram_sections@),
            ram: names(self.ram_sections@),
            discard: names(self.discard_sections@),
            alloc_abs32: names(self.alloc_abs32_sections@),
            nonalloc_abs32: names(self.non_alloc_abs32_sections@),
        }
    }
}

impl LinkPlan {
    /// The link plan of a section plan: the same sections in the same regions.
    pub fn from_section_plan(plan: RustInputSectionPlan) -> (r: Self)
        ensures
            r@ == plan@,
    {
        LinkPlan {
            rom_sections: plan.rom_sections,
            got_sections: plan.got_sections,
            rom_ram_sections: plan.rom_ram_sections,
            ram_sections: plan.ram_sections,
            discard_sections: plan.discard_sections,
            alloc_abs32_sections: plan.alloc_abs32_sections,
            non_alloc_abs32_sections: plan.nonalloc_abs32_sections,
        }
    }

    fn empty() -> (r: Self)
        ensures
            r@ == crate::section_plan::empty_plan(),
    {
        let r = LinkPlan {
            rom_sections: Vec::new(),
            got_sections: Vec::new(),
            rom_ram_sections: Vec::new(),
            ram_sections: Vec::new(),
            discard_sections: Vec::new(),
            alloc_abs32_sections: Vec::new(),
            non_alloc_abs32_sections: Vec::new(),
        };
        assert(r@.rom =~= Seq::empty());
        assert(r@.got =~= Seq::empty());
        assert(r@.rom_ram =~= Seq::empty());
        assert(r@.ram =~= Seq::empty());
        assert(r@.discard =~= Seq::empty());
        assert(r@.alloc_abs32 =~= Seq::empty());
        assert(r@.nonalloc_abs32 =~= Seq::empty());
        r
    }

    /// Adds `value` to a region unless it holds it already.
    fn add(&mut self, b: PlanBucket, value: &str)
        ensures
            final(self)@ == add_unique(old(self)@, b, value@),
    {
        match b {
            PlanBucket::Rom => push_unique_name(&mut self.rom_sections, value),
            PlanBucket::Got => push_unique_name(&mut self.got_sections, value),
            PlanBucket::RomRam => push_unique_name(&mut self.rom_ram_sections, value),
            PlanBucket::Ram => push_unique_name(&mut self.ram_sections, value),
            PlanBucket::Discard => push_unique_name(&mut self.discard_sections, value),
            PlanBucket::AllocAbs32 => push_unique_name(&mut self.alloc_abs32_sections, value),
            PlanBucket::NonAllocAbs32 => push_unique_name(&mut self.non_alloc_abs32_sections, value),
        }
    }
}

/// The plan with `v` added to region `b` unless it holds it already.
pub open spec fn add_unique(p: PlanView, b: PlanBucket, v: Seq<char>) -> PlanView {
    if bucket(p, b).contains(v) {
        p
    } else {
        with_bucket(p, b, bucket(p, b).push(v))
    }
}

/// The regions a section goes to.
pub open spec fn classify_descriptor(d: SectionDescriptor) -> Seq<PlanBucket> {
    let name = d.name@;
    if name == ".ARM.exidx"@ || name == ".ARM.extab"@ {
        seq![PlanBucket::Discard]
    } else if !d.is_alloc {
        if d.has_abs32 {
            seq![PlanBucket::NonAllocAbs32]
        } else {
            Seq::empty()
        }
    } else if starts_with(name, ".got"@) {
        seq![PlanBucket::Got]
    } else if starts_with(name, ".data.rel.ro"@) {
        if d.has_abs32 {
            seq![PlanBucket::AllocAbs32, PlanBucket::RomRam]
        } else {
            seq![PlanBucket::Rom]
        }
    } else if d.is_writable {
        if d.is_nobits {
            seq![PlanBucket::Ram]
        } else {
            seq![PlanBucket::RomRam]
        }
    } else if d.has_abs32 && !d.is_executable {
        seq![PlanBucket::AllocAbs32, PlanBucket::RomRam]
    } else if d.is_nobits {
        seq![PlanBucket::Ram]
    } else {
        seq![PlanBucket::Rom]
    }
}

/// The plan with `v` added to each of `regions`, in order.
pub open spec fn add_to_all(p: PlanView, regions: Seq<PlanBucket>, v: Seq<char>) -> PlanView
    decreases regions.len(),
{
    if regions.len() == 0 {
        p
    } else {
        add_unique(add_to_all(p, regions.drop_last(), v), regions.last(), v)
    }
}

/// The link plan of the first `n` section descriptors.
pub open spec fn spec_classify(ds: Seq<SectionDescriptor>, n: int) -> PlanView
    decreases n,
{
    if n <= 0 {
        crate::section_plan::empty_plan()
    } else {
        add_to_all(spec_classify(ds, n - 1), classify_descriptor(ds[n - 1]), ds[n - 1].name@)
    }
}

proof fn lemma_add_unique_keeps(p: PlanView, b: PlanBucket, v: Seq<char>, c: PlanBucket, x: Seq<char>)
    requires
        bucket(p, c).contains(x),
    ensures
        bucket(add_unique(p, b, v), c).contains(x),
{
    if !bucket(p, b).contains(v) && b == c {
        let k = choose|k: int| 0 <= k < bucket(p, c).len() && bucket(p, c)[k] == x;
        assert(bucket(add_unique(p, b, v), c)[k] == x);
    }
}

proof fn lemma_add_unique_adds(p: PlanView, b: PlanBucket, v: Seq<char>)
    ensures
        bucket(add_unique(p, b, v), b).contains(v),
{
    if !bucket(p, b).contains(v) {
        assert(bucket(add_unique(p, b, v), b)[bucket(p, b).len() as int] == v);
    }
}

proof fn lemma_add_to_all_keeps(p: PlanView, regions: Seq<PlanBucket>, v: Seq<char>, c: PlanBucket, x: Seq<char>)
    requires
        bucket(p, c).contains(x),
    ensures
        bucket(add_to_all(p, regions, v), c).contains(x),
    decreases regions.len(),
{
    if regions.len() > 0 {
        lemma_add_to_all_keeps(p, regions.drop_last(), v, c, x);
        lemma_add_unique_keeps(add_to_all(p, regions.drop_last(), v), regions.last(), v, c, x);
    }
}

proof fn lemma_add_to_all_adds(p: PlanView, regions: Seq<PlanBucket>, v: Seq<char>, k: int)
    requires
        0 <= k < regions.len(),
    ensures
        bucket(add_to_all(p, regions, v), regions[k]).contains(v),
    decreases regions.len(),
{
    let front = regions.drop_last();
    if k == regions.len() - 1 {
        lemma_add_unique_adds(add_to_all(p, front, v), regions.last(), v);
    } else {
        assert(front[k] == regions[k]);
        lemma_add_to_all_adds(p, front, v, k);
        lemma_add_unique_keeps(add_to_all(p, front, v), regions.last(), v, regions[k], v);
    }
}

/// Every section ends up in each region its kind calls for: an allocatable
/// read-only section with ABS32 relocations in `.rom.ram` and in the ABS32
/// list, writable data in `.rom.ram` or `.ram`, and so on; sections that come
/// later never take it out.
pub proof fn lemma_classify_places_every_section(ds: Seq<SectionDescriptor>, n: int, i: int, b: PlanBucket)
    requires
        0 <= i < n <= ds.len(),
        classify_descriptor(ds[i]).contains(b),
    ensures
        bucket(spec_classify(ds, n), b).contains(ds[i].name@),
    decreases n,
{
    let regions = classify_descriptor(ds[i]);
    if i == n - 1 {
        let k = choose|k: int| 0 <= k < regions.len() && regions[k] == b;
        lemma_add_to_all_adds(spec_classify(ds, n - 1), regions, ds[i].name@, k);
    } else {
        lemma_classify_places_every_section(ds, n - 1, i, b);
        lemma_add_to_all_keeps(
            spec_classify(ds, n - 1),
            classify_descriptor(ds[n - 1]),
            ds[n - 1].name@,
            b,
            ds[i].name@,
        );
    }
}

/// Sorts the sections into the regions of the link script.
pub fn classify_sections(sections: &[SectionDescriptor]) -> (r: LinkPlan)
    ensures
        r@ == spec_classify(sections@, sections@.len() as int),
{
    let mut plan = LinkPlan::empty();
    let mut i: usize = 0;
    while i < sections.len()
        invariant
            i <= sections@.len(),
            plan@ == spec_classify(sections@, i as int),
        decreases sections@.len() - i,
    {
        let section = &sections[i];
        let name = section.name.as_str();
        let ghost p0 = plan@;
        let ghost regions = classify_descriptor(*section);
        proof {
            assert(regions.len() <= 2);
            if regions.len() == 2 {
                assert(regions.drop_last().drop_last() =~= Seq::empty());
                assert(regions.drop_last().last() == regions[0]);
                assert(add_to_all(p0, regions.drop_last().drop_last(), name@) == p0);
                assert(add_to_all(p0, regions.drop_last(), name@) == add_unique(
                    p0,
                    regions[0],
                    name@,
                ));
            } else if regions.len() == 1 {
                assert(regions.drop_last() =~= Seq::empty());
                assert(add_to_all(p0, regions.drop_last(), name@) == p0);
            } else {
                assert(add_to_all(p0, regions, name@) == p0);
            }
        }
        if eq_chars(&section.name, ".ARM.exidx") || eq_chars(&section.name, ".ARM.extab") {
            plan.add(PlanBucket::Discard, name);
        } else if !section.is_alloc {
            if section.has_abs32 {
                plan.add(PlanBucket::NonAllocAbs32, name);
            }
        } else if has_prefix(&section.name, ".got") {
            plan.add(PlanBucket::Got, name);
        } else if section.is_relro_candidate() {
            if section.has_abs32 {
                plan.add(PlanBucket::AllocAbs32, name);
                plan.add(PlanBucket::RomRam, name);
            } else {
                plan.add(PlanBucket::Rom, name);
            }
        } else if section.is_writable {
            if section.is_nobits {
                plan.add(PlanBucket::Ram, name);
            } else {
                plan.add(PlanBucket::RomRam, name);
            }
        } else if section.has_abs32 && !section.is_executable {
            plan.add(PlanBucket::AllocAbs32, name);
            plan.add(PlanBucket::RomRam, name);
        } else if section.is_nobits {
            plan.add(PlanBucket::Ram, name);
        } else {
            plan.add(PlanBucket::Rom, name);
        }
        i = i + 1;
    }
    plan
}

// ---------------------------------------------------------------------------
// Discovery of ABS32 targets
// ---------------------------------------------------------------------------
/// Why a discovery ELF cannot be read.
#[derive(Debug, Clone, PartialEq, Eq)]
pub enum LinkScriptError {
    Parse(String),
    RelocationEndOverflow,
    RelocationOutOfBounds,
    TruncatedRelocationEntry,
}

/// Walks the entries from `off` to `end`, stepping by `entsize`, up to the
/// first `R_ARM_ABS32`: whether there is one, or a truncated entry before it.
pub open spec fn abs32_walk(bytes: Seq<u8>, off: int, end: int, entsize: int) -> Result<bool, LinkScriptError>
    decreases (if off >= end {
        0
    } else {
        end - off
    }),
{
    if off >= end || entsize <= 0 {
        Ok(false)
    } else if off + 8 > bytes.len() {
        Err(LinkScriptError::TruncatedRelocationEntry)
    } else if crate::common::le_word(bytes, off + 4) & 0xff == constants::R_ARM_ABS32 {
        Ok(true)
    } else {
        abs32_walk(bytes, off + entsize, end, entsize)
    }
}

/// The target of relocation section `i` when it holds an ABS32 entry.
pub open spec fn abs32_target_of(elf: ElfFile, bytes: Seq<u8>, i: int) -> Result<Option<Seq<char>>, LinkScriptError> {
    let section = elf.sections@[i];
    let ti = section.info as int;
    let entsize = section.entsize as usize;
    let start = section.offset as usize;
    let size = section.size as usize;
    if !(section.sh_type == SHT_REL || section.sh_type == SHT_RELA) || ti >= elf.sections@.len()
        || elf.sections@[ti].name is None || entsize == 0 {
        Ok(None)
    } else if start + size > usize::MAX {
        Err(LinkScriptError::RelocationEndOverflow)
    } else if start + size > bytes.len() {
        Err(LinkScriptError::RelocationOutOfBounds)
    } else {
        match abs32_walk(bytes, start as int, start + size, entsize as int) {
            Err(e) => Err(e),
            Ok(true) => Ok(Some(elf.sections@[ti].name->Some_0@)),
            Ok(false) => Ok(None),
        }
    }
}

/// The names of the sections that ABS32 relocations of the first `n`
/// sections apply to, without repetition.
pub open spec fn abs32_target_names(elf: ElfFile, bytes: Seq<u8>, n: int) -> Result<Seq<Seq<char>>, LinkScriptError>
    decreases n,
{
    if n <= 0 {
        Ok(Seq::empty())
    } else {
        match abs32_target_names(elf, bytes, n - 1) {
            Err(e) => Err(e),
            Ok(names) => match abs32_target_of(elf, bytes, n - 1) {
                Err(e) => Err(e),
                Ok(Some(name)) => Ok(if names.contains(name) {
                    names
                } else {
                    names.push(name)
                }),
                Ok(None) => Ok(names),
            },
        }
    }
}

proof fn lemma_target_names_err_persists(elf: ElfFile, bytes: Seq<u8>, k: int, n: int)
    requires
        0 <= k <= n,
        abs32_target_names(elf, bytes, k) is Err,
    ensures
        abs32_target_names(elf, bytes, n) == abs32_target_names(elf, bytes, k),
    decreases n - k,
{
    if k < n {
        lemma_target_names_err_persists(elf, bytes, k, n - 1);
    }
}

fn has_abs32_entry(elf_bytes: &[u8], start: usize, end: usize, entsize: usize) -> (r: Result<
    bool,
    LinkScriptError,
>)
    requires
        start <= end <= elf_bytes@.len(),
        entsize > 0,
    ensures
        r == abs32_walk(elf_bytes@, start as int, end as int, entsize as int),
{
    let len = elf_bytes.len();
    let mut off = start;
    while off < end
        invariant
            start <= off <= end <= elf_bytes@.len(),
            len == elf_bytes@.len(),
            entsize > 0,
            abs32_walk(elf_bytes@, start as int, end as int, entsize as int) == abs32_walk(
                elf_bytes@,
                off as int,
                end as int,
                entsize as int,
            ),
        decreases end - off,
    {
        if len - off < 8 {
            return Err(LinkScriptError::TruncatedRelocationEntry);
        }
        let r_info = crate::common::read_le_word(elf_bytes, off + 4);
        if r_info & 0xff == constants::R_ARM_ABS32 {
            return Ok(true);
        }
        if end - off <= entsize {
            assert(abs32_walk(elf_bytes@, off + entsize, end as int, entsize as int) == Ok::<
                bool,
                LinkScriptError,
            >(false));
            return Ok(false);
        }
        off = off + entsize;
    }
    Ok(false)
}

/// The names of the sections that `R_ARM_ABS32` relocations apply to.
pub fn collect_abs32_target_names(elf: &ElfFile, elf_bytes: &[u8]) -> (r: Result<
    Vec<String>,
    LinkScriptError,
>)
    ensures
        match abs32_target_names(*elf, elf_bytes@, elf.sections@.len() as int) {
            Err(e) => r == Err::<Vec<String>, LinkScriptError>(e),
            Ok(ts) => r matches Ok(v) && names(v@) == ts,
        },
{
    let mut targets: Vec<String> = Vec::new();
    assert(names(targets@) =~= Seq::empty());
    let len = elf_bytes.len();
    let mut i: usize = 0;
    while i < elf.sections.len()
        invariant
            i <= elf.sections@.len(),
            len == elf_bytes@.len(),
            abs32_target_names(*elf, elf_bytes@, i as int) == Ok::<
                Seq<Seq<char>>,
                LinkScriptError,
            >(names(targets@)),
        decreases elf.sections@.len() - i,
    {
        let section = &elf.sections[i];
        let ti = section.info as usize;
        let entsize = section.entsize as usize;
        if (section.sh_type == SHT_REL || section.sh_type == SHT_RELA) && ti < elf.sections.len()
            && elf.sections[ti].name.is_some() && entsize != 0 {
            let start = section.offset as usize;
            let size = section.size as usize;
            let end = match start.checked_add(size) {
                Some(v) => v,
                None => {
                    proof {
                        lemma_target_names_err_persists(*elf, elf_bytes@, i + 1, elf.sections@.len() as int);
                    }
                    return Err(LinkScriptError::RelocationEndOverflow);
                },
            };
            if end > len {
                proof {
                    lemma_target_names_err_persists(*elf, elf_bytes@, i + 1, elf.sections@.len() as int);
                }
                return Err(LinkScriptError::RelocationOutOfBounds);
            }
            match has_abs32_entry(elf_bytes, start, end, entsize) {
                Err(e) => {
                    proof {
                        lemma_target_names_err_persists(*elf, elf_bytes@, i + 1, elf.sections@.len() as int);
                    }
                    return Err(e);
                },
                Ok(true) => {
                    let name = match &elf.sections[ti].name {
                        Some(n) => n.clone(),
                        None => String::new(),
                    };
                    push_unique_name(&mut targets, name.as_str());
                },
                Ok(false) => {},
            }
        }
        i = i + 1;
    }
    Ok(targets)
}

/// The descriptors of the first `n` sections: all but the null one that
/// have a nonempty name, in order.
pub open spec fn spec_descriptors(elf: ElfFile, targets: Seq<Seq<char>>, n: int) -> Seq<
    SectionDescriptor,
>
    decreases n,
{
    if n <= 0 {
        Seq::empty()
    } else {
        let rest = spec_descriptors(elf, targets, n - 1);
        let section = elf.sections@[n - 1];
        if n - 1 >= 1 && (section.name matches Some(nm) && nm@.len() > 0) {
            let name = section.name->Some_0;
            rest.push(
                SectionDescriptor {
                    name,
                    is_alloc: section.flags & SHF_ALLOC != 0,
                    is_writable: section.flags & SHF_WRITE != 0,
                    is_executable: section.flags & SHF_EXECINSTR != 0,
                    is_nobits: section.sh_type == SHT_NOBITS,
                    has_abs32: targets.contains(name@),
                },
            )
        } else {
            rest
        }
    }
}

/// The link plan of a discovery ELF.
pub open spec fn spec_link_plan(bytes: Seq<u8>) -> Result<PlanView, LinkScriptErrorKind> {
    match crate::elf::goblin_elf_model(bytes) {
        None => Err(LinkScriptErrorKind::Parse),
        Some(elf) => match abs32_target_names(elf, bytes, elf.sections@.len() as int) {
            Err(LinkScriptError::Parse(_)) => Err(LinkScriptErrorKind::Parse),
            Err(LinkScriptError::RelocationEndOverflow) => Err(
                LinkScriptErrorKind::RelocationEndOverflow,
            ),
            Err(LinkScriptError::RelocationOutOfBounds) => Err(
                LinkScriptErrorKind::RelocationOutOfBounds,
            ),
            Err(LinkScriptError::TruncatedRelocationEntry) => Err(
                LinkScriptErrorKind::TruncatedRelocationEntry,
            ),
            Ok(targets) => {
                let ds = spec_descriptors(elf, targets, elf.sections@.len() as int);
                Ok(spec_classify(ds, ds.len() as int))
            },
        },
    }
}

/// The kinds of `LinkScriptError`.
#[derive(Debug, Clone, Copy, PartialEq, Eq)]
pub enum LinkScriptErrorKind {
    Parse,
    RelocationEndOverflow,
    RelocationOutOfBounds,
    TruncatedRelocationEntry,
}

pub open spec fn link_error_kind(e: LinkScriptError) -> LinkScriptErrorKind {
    match e {
        LinkScriptError::Parse(_) => LinkScriptErrorKind::Parse,
        LinkScriptError::RelocationEndOverflow => LinkScriptErrorKind::RelocationEndOverflow,
        LinkScriptError::RelocationOutOfBounds => LinkScriptErrorKind::RelocationOutOfBounds,
        LinkScriptError::TruncatedRelocationEntry => LinkScriptErrorKind::TruncatedRelocationEntry,
    }
}

/// The link plan of a discovery ELF: its sections, classified.
pub fn build_link_plan(elf_bytes: &[u8]) -> (r: Result<LinkPlan, LinkScriptError>)
    ensures
        match spec_link_plan(elf_bytes@) {
            Ok(p) => r matches Ok(plan) && plan@ == p,
            Err(k) => r matches Err(e) && link_error_kind(e) == k,
        },
{
    let elf = match parse_elf(elf_bytes) {
        Ok(e) => e,
        Err(crate::elf::ElfError::Parse(m)) => {
            return Err(LinkScriptError::Parse(m));
        },
        Err(_) => {
            return Err(LinkScriptError::Parse(String::new()));
        },
    };
    let targets = collect_abs32_target_names(&elf, elf_bytes)?;
    let ghost tv = names(targets@);
    let mut sections: Vec<SectionDescriptor> = Vec::new();
    let mut i: usize = 0;
    while i < elf.sections.len()
        invariant
            i <= elf.sections@.len(),
            tv == names(targets@),
            sections@ == spec_descriptors(elf, tv, i as int),
        decreases elf.sections@.len() - i,
    {
        let section = &elf.sections[i];
        if i >= 1 {
            match &section.name {
                Some(name) => {
                    if !name.as_str().is_empty() {
                        let has_abs32 = contains_name(&targets, name.as_str());
                        sections.push(
                            SectionDescriptor {
                                name: name.clone(),
                                is_alloc: (section.flags & SHF_ALLOC) != 0,
                                is_writable: (section.flags & SHF_WRITE) != 0,
                                is_executable: (section.flags & SHF_EXECINSTR) != 0,
                                is_nobits: section.sh_type == SHT_NOBITS,
                                has_abs32,
                            },
                        );
                    }
                },
                None => {},
            }
        }
        i = i + 1;
    }
    Ok(classify_sections(sections.as_slice()))
}

// ---------------------------------------------------------------------------
// Rendering
// ---------------------------------------------------------------------------
pub const SCRIPT_HEADER: &'static str = "OUTPUT_FORMAT(\n    \"elf32-littlearm\",\n    \"elf32-littlearm\",\n    \"elf32-littlearm\"\n)\nOUTPUT_ARCH(arm)\nENTRY(start)\n\n/* Auto-generated by generate_fae_rust_ld. */\n";

pub const NO_ALLOC_ABS32: &'static str = "/* No allocatable R_ARM_ABS32 target sections were discovered. */\n";

pub const ALLOC_ABS32_HEADER: &'static str = "/* Allocatable sections receiving R_ARM_ABS32 relocations: */\n";

pub const NON_ALLOC_ABS32_HEADER: &'static str = "/* Non-allocatable sections also receiving R_ARM_ABS32 relocations: */\n";

/// The program headers: the code segment and the runtime-writable segment
/// (one static base for all writable data), then the start of the sections.
pub const PHDRS_AND_SECTIONS: &'static str = "\nPHDRS\n{\n    rx PT_LOAD FLAGS(5);\n    rw PT_LOAD FLAGS(6);\n}\n\nSECTIONS\n{\n";

pub const ROM_OPEN: &'static str = "    .rom :\n    {\n        . = ALIGN(4);\n        __rom_start = .;\n";

pub const ROM_CLOSE: &'static str = "        . = ALIGN(4);\n        __rom_end = .;\n    } :rx\n    __rom_size = __rom_end - __rom_start;\n\n";

pub const GOT_OPEN: &'static str = "    .got :\n    {\n        . = ALIGN(4);\n        __got_start = .;\n";

pub const GOT_CLOSE: &'static str = "        . = ALIGN(4);\n        __got_end = .;\n    } :rw\n    __got_size = __got_end - __got_start;\n\n";

pub const ROM_RAM_OPEN: &'static str = "    .rom.ram :\n    {\n        . = ALIGN(4);\n        __rom_ram_start = .;\n";

pub const ROM_RAM_CLOSE: &'static str = "        . = ALIGN(4);\n        __rom_ram_end = .;\n    } :rw\n    __rom_ram_size = __rom_ram_end - __rom_ram_start;\n\n";

pub const RAM_OPEN: &'static str = "    .ram (NOLOAD) :\n    {\n        . = ALIGN(4);\n        __ram_start = .;\n";

pub const RAM_CLOSE: &'static str = "        *(COMMON)\n        . = ALIGN(4);\n        __ram_end = .;\n    } :rw\n    __ram_size = __ram_end - __ram_start;\n\n";

pub const DISCARD_OPEN: &'static str = "    /DISCARD/ :\n    {\n";

pub const DISCARD_CLOSE: &'static str = "    }\n";

pub const SCRIPT_END: &'static str = "}\n";

/// The input-section pattern that selects a section: its exact name.
pub fn input_section_pattern(section: &str) -> (r: String)
    ensures
        r@ == section@,
{
    section.to_owned()
}

/// `        *(name)` lines, one per section.
pub open spec fn section_lines(sections: Seq<Seq<char>>) -> Seq<char>
    decreases sections.len(),
{
    if sections.len() == 0 {
        Seq::empty()
    } else {
        section_lines(sections.drop_last()) + "        *("@ + sections.last() + ")\n"@
    }
}

/// `/*   name */` lines, one per section.
pub open spec fn comment_lines(sections: Seq<Seq<char>>) -> Seq<char>
    decreases sections.len(),
{
    if sections.len() == 0 {
        Seq::empty()
    } else {
        comment_lines(sections.drop_last()) + "/*   "@ + sections.last() + " */\n"@
    }
}

/// The linker script of a plan.
pub open spec fn link_script_text(p: PlanView) -> Seq<char> {
    SCRIPT_HEADER@ + (if p.alloc_abs32.len() == 0 {
        NO_ALLOC_ABS32@
    } else {
        ALLOC_ABS32_HEADER@ + comment_lines(p.alloc_abs32)
    }) + (if p.nonalloc_abs32.len() == 0 {
        Seq::empty()
    } else {
        NON_ALLOC_ABS32_HEADER@ + comment_lines(p.nonalloc_abs32)
    }) + PHDRS_AND_SECTIONS@ + ROM_OPEN@ + section_lines(p.rom) + ROM_CLOSE@ + GOT_OPEN@
        + section_lines(p.got) + GOT_CLOSE@ + ROM_RAM_OPEN@ + section_lines(p.rom_ram)
        + ROM_RAM_CLOSE@ + RAM_OPEN@ + section_lines(p.ram) + RAM_CLOSE@ + (if p.discard.len()
        == 0 {
        Seq::empty()
    } else {
        DISCARD_OPEN@ + section_lines(p.discard) + DISCARD_CLOSE@
    }) + SCRIPT_END@
}

/// Appends one `*(name)` line per section.
pub fn render_section_list(out: &mut String, sections: &Vec<String>)
    ensures
        final(out)@ == old(out)@ + section_lines(names(sections@)),
{
    let ghost start = out@;
    let mut i: usize = 0;
    while i < sections.len()
        invariant
            i <= sections@.len(),
            out@ == start + section_lines(names(sections@).take(i as int)),
        decreases sections@.len() - i,
    {
        let pattern = input_section_pattern(sections[i].as_str());
        out.append("        *(");
        out.append(pattern.as_str());
        out.append(")\n");
        proof {
            let t = names(sections@).take(i + 1);
            assert(t.drop_last() =~= names(sections@).take(i as int));
            assert(t.last() == sections@[i as int]@);
            assert(out@ =~= start + section_lines(t));
        }
        i = i + 1;
    }
    assert(names(sections@).take(sections@.len() as int) =~= names(sections@));
}

fn render_comment_list(out: &mut String, sections: &Vec<String>)
    ensures
        final(out)@ == old(out)@ + comment_lines(names(sections@)),
{
    let ghost start = out@;
    let mut i: usize = 0;
    while i < sections.len()
        invariant
            i <= sections@.len(),
            out@ == start + comment_lines(names(sections@).take(i as int)),
        decreases sections@.len() - i,
    {
        out.append("/*   ");
        out.append(sections[i].as_str());
        out.append(" */\n");
        proof {
            let t = names(sections@).take(i + 1);
            assert(t.drop_last() =~= names(sections@).take(i as int));
            assert(t.last() == sections@[i as int]@);
            assert(out@ =~= start + comment_lines(t));
        }
        i = i + 1;
    }
    assert(names(sections@).take(sections@.len() as int) =~= names(sections@));
}

/// The FAE linker script of a link plan: the code in `.rom` (the `rx`
/// segment), then `.got`, `.rom.ram` and `.ram` in the `rw` segment, and the
/// discarded sections.
pub fn render_link_script(plan: &LinkPlan) -> (r: String)
    ensures
        r@ == link_script_text(plan@),
{
    let mut out = String::new();
    out.append(SCRIPT_HEADER);
    if plan.alloc_abs32_sections.len() == 0 {
        out.append(NO_ALLOC_ABS32);
    } else {
        out.append(ALLOC_ABS32_HEADER);
        render_comment_list(&mut out, &plan.alloc_abs32_sections);
    }
    if plan.non_alloc_abs32_sections.len() != 0 {
        out.append(NON_ALLOC_ABS32_HEADER);
        render_comment_list(&mut out, &plan.non_alloc_abs32_sections);
    }
    out.append(PHDRS_AND_SECTIONS);
    out.append(ROM_OPEN);
    render_section_list(&mut out, &plan.rom_sections);
    out.append(ROM_CLOSE);
    out.append(GOT_OPEN);
    render_section_list(&mut out, &plan.got_sections);
    out.append(GOT_CLOSE);
    out.append(ROM_RAM_OPEN);
    render_section_list(&mut out, &plan.rom_ram_sections);
    out.append(ROM_RAM_CLOSE);
    out.append(RAM_OPEN);
    render_section_list(&mut out, &plan.ram_sections);
    out.append(RAM_CLOSE);
    if plan.discard_sections.len() != 0 {
        out.append(DISCARD_OPEN);
        render_section_list(&mut out, &plan.discard_sections);
        out.append(DISCARD_CLOSE);
    }
    out.append(SCRIPT_END);
    assert(out@ =~= link_script_text(plan@));
    out
}

/// The linker script of a section plan.
pub fn render_link_script_from_section_plan(plan: RustInputSectionPlan) -> (r: String)
    ensures
        r@ == link_script_text(plan@),
{
    render_link_script(&LinkPlan::from_section_plan(plan))
}

/// The linker script of a discovery ELF.
pub fn render_link_script_from_elf_bytes(elf_bytes: &[u8]) -> (r: Result<String, LinkScriptError>)
    ensures
        match spec_link_plan(elf_bytes@) {
            Ok(p) => r matches Ok(text) && text@ == link_script_text(p),
            Err(k) => r matches Err(e) && link_error_kind(e) == k,
        },
{
    let plan = build_link_plan(elf_bytes)?;
    Ok(render_link_script(&plan))
}

proof fn lemma_add_unique_only(p: PlanView, b: PlanBucket, v: Seq<char>, c: PlanBucket, x: Seq<char>)
    requires
        bucket(add_unique(p, b, v), c).contains(x),
    ensures
        bucket(p, c).contains(x) || (b == c && x == v),
{
    if !bucket(p, b).contains(v) && b == c {
        let k = choose|k: int| 0 <= k < bucket(add_unique(p, b, v), c).len() && bucket(add_unique(p, b, v), c)[k] == x;
        if k < bucket(p, c).len() {
            assert(bucket(p, c)[k] == x);
        }
    }
}

proof fn lemma_add_to_all_only(p: PlanView, regions: Seq<PlanBucket>, v: Seq<char>, c: PlanBucket, x: Seq<char>)
    requires
        bucket(add_to_all(p, regions, v), c).contains(x),
    ensures
        bucket(p, c).contains(x) || (regions.contains(c) && x == v),
    decreases regions.len(),
{
    if regions.len() > 0 {
        let front = regions.drop_last();
        lemma_add_unique_only(add_to_all(p, front, v), regions.last(), v, c, x);
        if bucket(add_to_all(p, front, v), c).contains(x) {
            lemma_add_to_all_only(p, front, v, c, x);
            if front.contains(c) && x == v {
                let k = choose|k: int| 0 <= k < front.len() && front[k] == c;
                assert(regions[k] == c);
            }
        } else {
            assert(regions[regions.len() - 1] == c);
        }
    }
}

/// A region of the classified plan holds a name only where a section of
/// that name calls for the region.
pub proof fn lemma_classify_only_where_called_for(ds: Seq<SectionDescriptor>, n: int, b: PlanBucket, x: Seq<char>)
    requires
        0 <= n <= ds.len(),
        bucket(spec_classify(ds, n), b).contains(x),
    ensures
        exists|j: int| 0 <= j < n && ds[j].name@ == x && #[trigger] classify_descriptor(ds[j]).contains(b),
    decreases n,
{
    if n <= 0 {
        assert(bucket(crate::section_plan::empty_plan(), b) =~= Seq::empty());
    } else {
        let d = ds[n - 1];
        lemma_add_to_all_only(spec_classify(ds, n - 1), classify_descriptor(d), d.name@, b, x);
        if bucket(spec_classify(ds, n - 1), b).contains(x) {
            lemma_classify_only_where_called_for(ds, n - 1, b, x);
            let j = choose|j: int| 0 <= j < n - 1 && ds[j].name@ == x && #[trigger] classify_descriptor(ds[j]).contains(b);
            assert(classify_descriptor(ds[j]).contains(b));
        } else {
            assert(classify_descriptor(ds[n - 1]).contains(b));
        }
    }
}

proof fn lemma_got_name_not_arm(name: Seq<char>)
    requires
        starts_with(name, ".got"@),
    ensures
        name != ".ARM.exidx"@,
        name != ".ARM.extab"@,
        !starts_with(name, ".data.rel.ro"@),
{
    reveal_strlit(".got");
    reveal_strlit(".ARM.exidx");
    reveal_strlit(".ARM.extab");
    reveal_strlit(".data.rel.ro");
    assert(name.subrange(0, 4)[1] == name[1]);
    if starts_with(name, ".data.rel.ro"@) {
        assert(name.subrange(0, 12)[1] == name[1]);
    }
}

/// Where the classification puts a section, by its kind. `.ARM.exidx` and
/// `.ARM.extab` are discarded; a section that is not loaded is listed for
/// its ABS32 relocations where it has them; a loaded `.got*` section goes to
/// `.got`; loaded `.data.rel.ro*` goes to `.rom.ram` (and the ABS32 list)
/// where it has ABS32 relocations, else to `.rom`; other loaded writable
/// data goes to `.ram` when it has no file bytes (`.bss`) and to `.rom.ram`
/// otherwise; other loaded read-only sections with ABS32 relocations that
/// are not code go to `.rom.ram` and the ABS32 list; the rest go to `.ram`
/// when they have no file bytes, else to `.rom`.
pub proof fn lemma_classify_regions(ds: Seq<SectionDescriptor>, n: int, i: int)
    requires
        0 <= i < n <= ds.len(),
    ensures
        ({
            let d = ds[i];
            let name = d.name@;
            let p = spec_classify(ds, n);
            let arm = name == ".ARM.exidx"@ || name == ".ARM.extab"@;
            let got = starts_with(name, ".got"@);
            let relro = starts_with(name, ".data.rel.ro"@);
            &&& arm ==> p.discard.contains(name)
            &&& !arm && !d.is_alloc && d.has_abs32 ==> p.nonalloc_abs32.contains(name)
            &&& d.is_alloc && got ==> p.got.contains(name)
            &&& !arm && d.is_alloc && relro && d.has_abs32 ==> p.rom_ram.contains(name) && p.alloc_abs32.contains(name)
            &&& !arm && d.is_alloc && relro && !d.has_abs32 ==> p.rom.contains(name)
            &&& !arm && d.is_alloc && !got && !relro && d.is_writable && d.is_nobits ==> p.ram.contains(name)
            &&& !arm && d.is_alloc && !got && !relro && d.is_writable && !d.is_nobits ==> p.rom_ram.contains(name)
            &&& !arm && d.is_alloc && !got && !relro && !d.is_writable && d.has_abs32 && !d.is_executable
                ==> p.rom_ram.contains(name) && p.alloc_abs32.contains(name)
            &&& !arm && d.is_alloc && !got && !relro && !d.is_writable && !(d.has_abs32 && !d.is_executable)
                && d.is_nobits ==> p.ram.contains(name)
            &&& !arm && d.is_alloc && !got && !relro && !d.is_writable && !(d.has_abs32 && !d.is_executable)
                && !d.is_nobits ==> p.rom.contains(name)
        }),
{
    let d = ds[i];
    let name = d.name@;
    let regions = classify_descriptor(d);
    if starts_with(name, ".got"@) {
        lemma_got_name_not_arm(name);
    }
    let p = spec_classify(ds, n);
    if regions.len() > 0 {
        assert(regions.contains(regions[0]));
        lemma_classify_places_every_section(ds, n, i, regions[0]);
        assert(bucket(p, regions[0]).contains(name));
    }
    if regions.len() > 1 {
        assert(regions.contains(regions[1]));
        lemma_classify_places_every_section(ds, n, i, regions[1]);
        assert(bucket(p, regions[1]).contains(name));
    }
}

/// A `.got*` name is never placed in `.rom`, `.rom.ram`, `.ram`, the
/// discarded sections or the loaded ABS32 list: a loaded section of that
/// name goes to `.got` alone.
pub proof fn lemma_classify_got_only(ds: Seq<SectionDescriptor>, n: int, x: Seq<char>)
    requires
        0 <= n <= ds.len(),
        starts_with(x, ".got"@),
    ensures
        !spec_classify(ds, n).rom.contains(x),
        !spec_classify(ds, n).rom_ram.contains(x),
        !spec_classify(ds, n).ram.contains(x),
        !spec_classify(ds, n).discard.contains(x),
        !spec_classify(ds, n).alloc_abs32.contains(x),
{
    lemma_got_name_not_arm(x);
    let bs = seq![PlanBucket::Rom, PlanBucket::RomRam, PlanBucket::Ram, PlanBucket::Discard, PlanBucket::AllocAbs32];
    assert forall|k: int| 0 <= k < 5 implies !bucket(spec_classify(ds, n), #[trigger] bs[k]).contains(x) by {
        if bucket(spec_classify(ds, n), bs[k]).contains(x) {
            lemma_classify_only_where_called_for(ds, n, bs[k], x);
            let j = choose|j: int| 0 <= j < n && ds[j].name@ == x && #[trigger] classify_descriptor(ds[j]).contains(bs[k]);
            let r = classify_descriptor(ds[j]);
            let m = choose|m: int| 0 <= m < r.len() && r[m] == bs[k];
        }
    }
    assert(bs[0] == PlanBucket::Rom);
    assert(bs[1] == PlanBucket::RomRam);
    assert(bs[2] == PlanBucket::Ram);
    assert(bs[3] == PlanBucket::Discard);
    assert(bs[4] == PlanBucket::AllocAbs32);
}

/// Each section of a list has its own `*(name)` line in the list's lines.
pub proof fn lemma_section_line_for_each(sections: Seq<Seq<char>>, i: int)
    requires
        0 <= i < sections.len(),
    ensures
        crate::gdbinit::holds_text(section_lines(sections), "        *("@ + sections[i] + ")\n"@),
    decreases sections.len(),
{
    let front = sections.drop_last();
    let line = "        *("@ + sections[i] + ")\n"@;
    assert(section_lines(sections) =~= section_lines(front) + ("        *("@ + sections.last() + ")\n"@));
    if i == sections.len() - 1 {
        crate::gdbinit::lemma_holds_self(line);
        crate::gdbinit::lemma_holds_right(section_lines(front), line, line);
    } else {
        assert(front[i] == sections[i]);
        lemma_section_line_for_each(front, i);
        crate::gdbinit::lemma_holds_left(section_lines(front), "        *("@ + sections.last() + ")\n"@, line);
        assert(section_lines(sections) =~= section_lines(front) + ("        *("@ + sections.last() + ")\n"@));
    }
}

/// The linker script puts each region's sections, and only those, between
/// that region's opening and closing lines: `.rom`, `.got`, `.rom.ram` and
/// `.ram` each list their own plan bucket.
pub proof fn lemma_link_script_regions(p: PlanView)
    ensures
        ({
            let t = link_script_text(p);
            &&& crate::gdbinit::holds_text(t, ROM_OPEN@ + section_lines(p.rom) + ROM_CLOSE@)
            &&& crate::gdbinit::holds_text(t, GOT_OPEN@ + section_lines(p.got) + GOT_CLOSE@)
            &&& crate::gdbinit::holds_text(t, ROM_RAM_OPEN@ + section_lines(p.rom_ram) + ROM_RAM_CLOSE@)
            &&& crate::gdbinit::holds_text(t, RAM_OPEN@ + section_lines(p.ram) + RAM_CLOSE@)
        }),
{
    let h = SCRIPT_HEADER@ + (if p.alloc_abs32.len() == 0 {
        NO_ALLOC_ABS32@
    } else {
        ALLOC_ABS32_HEADER@ + comment_lines(p.alloc_abs32)
    }) + (if p.nonalloc_abs32.len() == 0 {
        Seq::empty()
    } else {
        NON_ALLOC_ABS32_HEADER@ + comment_lines(p.nonalloc_abs32)
    }) + PHDRS_AND_SECTIONS@;
    let b1 = ROM_OPEN@ + section_lines(p.rom) + ROM_CLOSE@;
    let b2 = GOT_OPEN@ + section_lines(p.got) + GOT_CLOSE@;
    let b3 = ROM_RAM_OPEN@ + section_lines(p.rom_ram) + ROM_RAM_CLOSE@;
    let b4 = RAM_OPEN@ + section_lines(p.ram) + RAM_CLOSE@;
    let tail = (if p.discard.len() == 0 {
        Seq::empty()
    } else {
        DISCARD_OPEN@ + section_lines(p.discard) + DISCARD_CLOSE@
    }) + SCRIPT_END@;
    let t = link_script_text(p);
    assert(t =~= h + b1 + b2 + b3 + b4 + tail);
    crate::gdbinit::lemma_holds_self(b1);
    crate::gdbinit::lemma_holds_self(b2);
    crate::gdbinit::lemma_holds_self(b3);
    crate::gdbinit::lemma_holds_self(b4);
    crate::gdbinit::lemma_holds_right(h, b1, b1);
    crate::gdbinit::lemma_holds_left(h + b1, b2 + b3 + b4 + tail, b1);
    crate::gdbinit::lemma_holds_right(h + b1, b2, b2);
    crate::gdbinit::lemma_holds_left(h + b1 + b2, b3 + b4 + tail, b2);
    crate::gdbinit::lemma_holds_right(h + b1 + b2, b3, b3);
    crate::gdbinit::lemma_holds_left(h + b1 + b2 + b3, b4 + tail, b3);
    crate::gdbinit::lemma_holds_right(h + b1 + b2 + b3, b4, b4);
    crate::gdbinit::lemma_holds_left(h + b1 + b2 + b3 + b4, tail, b4);
    assert(h + b1 + (b2 + b3 + b4 + tail) =~= t);
    assert(h + b1 + b2 + (b3 + b4 + tail) =~= t);
    assert(h + b1 + b2 + b3 + (b4 + tail) =~= t);
}

} // verus!

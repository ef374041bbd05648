//! The plan that sorts the input sections of a Rust application into the
//! regions of its FAE link script, and its one-line-per-section text form.

use vstd::prelude::*;

use crate::constants;
use crate::elf::{
    parse_elf, section_name_at, ElfFile, ElfSection, SHF_ALLOC, SHF_EXECINSTR, SHT_NOBITS, SHT_REL,
    SHT_RELA, SHT_SYMTAB,
};
use crate::text::{chars_of, find_char, find_char_in, line_scan, lines, string_of, trim_bounds, trimmed};

verus! {

broadcast use vstd::string::group_string_axioms;

/// The region a section goes to, or a list it is recorded in.
#[derive(Debug, Clone, Copy, PartialEq, Eq)]
pub enum PlanBucket {
    Rom,
    Got,
    RomRam,
    Ram,
    Discard,
    AllocAbs32,
    NonAllocAbs32,
}

/// The name of a bucket in the text form.
pub open spec fn bucket_name(b: PlanBucket) -> Seq<char> {
    match b {
        PlanBucket::Rom => "rom"@,
        PlanBucket::Got => "got"@,
        PlanBucket::RomRam => "rom_ram"@,
        PlanBucket::Ram => "ram"@,
        PlanBucket::Discard => "discard"@,
        PlanBucket::AllocAbs32 => "alloc_abs32"@,
        PlanBucket::NonAllocAbs32 => "nonalloc_abs32"@,
    }
}

/// The bucket a name in the text form stands for.
pub open spec fn bucket_named(name: Seq<char>) -> Option<PlanBucket> {
    if name == "rom"@ {
        Some(PlanBucket::Rom)
    } else if name == "got"@ {
        Some(PlanBucket::Got)
    } else if name == "rom_ram"@ {
        Some(PlanBucket::RomRam)
    } else if name == "ram"@ {
        Some(PlanBucket::Ram)
    } else if name == "discard"@ {
        Some(PlanBucket::Discard)
    } else if name == "alloc_abs32"@ {
        Some(PlanBucket::AllocAbs32)
    } else if name == "nonalloc_abs32"@ {
        Some(PlanBucket::NonAllocAbs32)
    } else {
        None
    }
}

pub fn eq_chars(a: &String, b: &str) -> (r: bool)
    ensures
        r == (a@ == b@),
{
    *a == b.to_owned()
}

impl PlanBucket {
    pub fn as_str(self) -> (r: &'static str)
        ensures
            r@ == bucket_name(self),
    {
        match self {
            PlanBucket::Rom => "rom",
            PlanBucket::Got => "got",
            PlanBucket::RomRam => "rom_ram",
            PlanBucket::Ram => "ram",
            PlanBucket::Discard => "discard",
            PlanBucket::AllocAbs32 => "alloc_abs32",
            PlanBucket::NonAllocAbs32 => "nonalloc_abs32",
        }
    }

    pub fn parse(value: &str) -> (r: Option<Self>)
        ensures
            r == bucket_named(value@),
    {
        let v = value.to_owned();
        if eq_chars(&v, "rom") {
            Some(PlanBucket::Rom)
        } else if eq_chars(&v, "got") {
            Some(PlanBucket::Got)
        } else if eq_chars(&v, "rom_ram") {
            Some(PlanBucket::RomRam)
        } else if eq_chars(&v, "ram") {
            Some(PlanBucket::Ram)
        } else if eq_chars(&v, "discard") {
            Some(PlanBucket::Discard)
        } else if eq_chars(&v, "alloc_abs32") {
            Some(PlanBucket::AllocAbs32)
        } else if eq_chars(&v, "nonalloc_abs32") {
            Some(PlanBucket::NonAllocAbs32)
        } else {
            None
        }
    }
}

/// Each bucket name stands for its bucket.
pub proof fn lemma_bucket_name_round_trip(b: PlanBucket)
    ensures
        bucket_named(bucket_name(b)) == Some(b),
{
    reveal_strlit("rom");
    reveal_strlit("got");
    reveal_strlit("rom_ram");
    reveal_strlit("ram");
    reveal_strlit("discard");
    reveal_strlit("alloc_abs32");
    reveal_strlit("nonalloc_abs32");
    let names = seq!["rom"@, "got"@, "rom_ram"@, "ram"@, "discard"@, "alloc_abs32"@, "nonalloc_abs32"@];
    assert(names[0] != names[1]) by { assert(names[0][0] != names[1][0]); }
    assert(names[0] != names[2]) by { assert(names[0].len() != names[2].len()); }
    assert(names[0] != names[3]) by { assert(names[0][1] != names[3][1]); }
    assert(names[0] != names[4]) by { assert(names[0].len() != names[4].len()); }
    assert(names[0] != names[5]) by { assert(names[0].len() != names[5].len()); }
    assert(names[0] != names[6]) by { assert(names[0].len() != names[6].len()); }
    assert(names[1] != names[2]) by { assert(names[1].len() != names[2].len()); }
    assert(names[1] != names[3]) by { assert(names[1][0] != names[3][0]); }
    assert(names[1] != names[4]) by { assert(names[1].len() != names[4].len()); }
    assert(names[1] != names[5]) by { assert(names[1].len() != names[5].len()); }
    assert(names[1] != names[6]) by { assert(names[1].len() != names[6].len()); }
    assert(names[2] != names[3]) by { assert(names[2].len() != names[3].len()); }
    assert(names[2] != names[4]) by { assert(names[2][0] != names[4][0]); }
    assert(names[2] != names[5]) by { assert(names[2].len() != names[5].len()); }
    assert(names[2] != names[6]) by { assert(names[2].len() != names[6].len()); }
    assert(names[3] != names[4]) by { assert(names[3].len() != names[4].len()); }
    assert(names[3] != names[5]) by { assert(names[3].len() != names[5].len()); }
    assert(names[3] != names[6]) by { assert(names[3].len() != names[6].len()); }
    assert(names[4] != names[5]) by { assert(names[4].len() != names[5].len()); }
    assert(names[4] != names[6]) by { assert(names[4].len() != names[6].len()); }
    assert(names[5] != names[6]) by { assert(names[5].len() != names[6].len()); }
}

#[derive(Debug, Clone, PartialEq, Eq)]
pub struct RustInputSectionPlan {
    pub rom_sections: Vec<String>,
    pub got_sections: Vec<String>,
    pub rom_ram_sections: Vec<String>,
    pub ram_sections: Vec<String>,
    pub discard_sections: Vec<String>,
    pub alloc_abs32_sections: Vec<String>,
    pub nonalloc_abs32_sections: Vec<String>,
}

/// The section names of each bucket, in order.
pub struct PlanView {
    pub rom: Seq<Seq<char>>,
    pub got: Seq<Seq<char>>,
    pub rom_ram: Seq<Seq<char>>,
    pub ram: Seq<Seq<char>>,
    pub discard: Seq<Seq<char>>,
    pub alloc_abs32: Seq<Seq<char>>,
    pub nonalloc_abs32: Seq<Seq<char>>,
}

pub open spec fn names(v: Seq<String>) -> Seq<Seq<char>> {
    v.map_values(|s: String| s@)
}

impl View for RustInputSectionPlan {
    type V = PlanView;

    open spec fn view(&self) -> PlanView {
        PlanView {
            rom: names(self.rom_sections@),
            got: names(self.got_sections@),
            rom_ram: names(self.rom_ram_sections@),
            ram: names(self.ram_sections@),
            discard: names(self.discard_sections@),
            alloc_abs32: names(self.alloc_abs32_sections@),
            nonalloc_abs32: names(self.nonalloc_abs32_sections@),
        }
    }
}

/// The plan with no sections.
pub open spec fn empty_plan() -> PlanView {
    PlanView {
        rom: Seq::empty(),
        got: Seq::empty(),
        rom_ram: Seq::empty(),
        ram: Seq::empty(),
        discard: Seq::empty(),
        alloc_abs32: Seq::empty(),
        nonalloc_abs32: Seq::empty(),
    }
}

impl Default for RustInputSectionPlan {
    fn default() -> (r: Self)
        ensures
            r@ == empty_plan(),
    {
        let r = RustInputSectionPlan {
            rom_sections: Vec::new(),
            got_sections: Vec::new(),
            rom_ram_sections: Vec::new(),
            ram_sections: Vec::new(),
            discard_sections: Vec::new(),
            alloc_abs32_sections: Vec::new(),
            nonalloc_abs32_sections: Vec::new(),
        };
        assert(r@.rom =~= Seq::empty());
        assert(r@.got =~= Seq::empty());
        assert(r@.rom_ram =~= Seq::empty());
        assert(r@.ram =~= Seq::empty());
        assert(r@.discard =~= Seq::empty());
        assert(r@.alloc_abs32 =~= Seq::empty());
        assert(r@.nonalloc_abs32 =~= Seq::empty());
        r
    }
}

/// The names of a bucket.
pub open spec fn bucket(p: PlanView, b: PlanBucket) -> Seq<Seq<char>> {
    match b {
        PlanBucket::Rom => p.rom,
        PlanBucket::Got => p.got,
        PlanBucket::RomRam => p.rom_ram,
        PlanBucket::Ram => p.ram,
        PlanBucket::Discard => p.discard,
        PlanBucket::AllocAbs32 => p.alloc_abs32,
        PlanBucket::NonAllocAbs32 => p.nonalloc_abs32,
    }
}

/// The plan with the names of one bucket replaced.
pub open spec fn with_bucket(p: PlanView, b: PlanBucket, s: Seq<Seq<char>>) -> PlanView {
    match b {
        PlanBucket::Rom => PlanView { rom: s, ..p },
        PlanBucket::Got => PlanView { got: s, ..p },
        PlanBucket::RomRam => PlanView { rom_ram: s, ..p },
        PlanBucket::Ram => PlanView { ram: s, ..p },
        PlanBucket::Discard => PlanView { discard: s, ..p },
        PlanBucket::AllocAbs32 => PlanView { alloc_abs32: s, ..p },
        PlanBucket::NonAllocAbs32 => PlanView { nonalloc_abs32: s, ..p },
    }
}

/// Names other than `v`.
pub open spec fn other_than(v: Seq<char>) -> spec_fn(Seq<char>) -> bool {
    |x: Seq<char>| x != v
}

/// `s` without the name `v`.
pub open spec fn without(s: Seq<Seq<char>>, v: Seq<char>) -> Seq<Seq<char>> {
    s.filter(other_than(v))
}

/// A bucket that takes a section out of ROM.
pub open spec fn is_runtime_bucket(b: PlanBucket) -> bool {
    b is Got || b is RomRam || b is Ram || b is Discard
}

/// The plan after recording `v` in bucket `b`: a runtime bucket takes the
/// section out of ROM, ROM refuses a section that a runtime bucket already
/// holds, and no bucket holds a name twice.
pub open spec fn spec_push(p: PlanView, b: PlanBucket, v: Seq<char>) -> PlanView {
    if b is Rom && (p.got.contains(v) || p.rom_ram.contains(v) || p.ram.contains(v)
        || p.discard.contains(v)) {
        p
    } else {
        let p1 = if is_runtime_bucket(b) {
            PlanView { rom: without(p.rom, v), ..p }
        } else {
            p
        };
        if bucket(p1, b).contains(v) {
            p1
        } else {
            with_bucket(p1, b, bucket(p1, b).push(v))
        }
    }
}

pub fn contains_name(list: &Vec<String>, value: &str) -> (r: bool)
    ensures
        r == names(list@).contains(value@),
{
    let mut i: usize = 0;
    while i < list.len()
        invariant
            i <= list@.len(),
            forall|j: int| 0 <= j < i ==> names(list@)[j] != value@,
        decreases list@.len() - i,
    {
        if eq_chars(&list[i], value) {
            assert(names(list@)[i as int] == value@);
            return true;
        }
        i = i + 1;
    }
    false
}

fn remove_section(list: &mut Vec<String>, value: &str)
    ensures
        names(final(list)@) == without(names(old(list)@), value@),
{
    let ghost original = names(list@);
    let mut kept: Vec<String> = Vec::new();
    let mut i: usize = 0;
    while i < list.len()
        invariant
            i <= list@.len(),
            original == names(list@),
            names(kept@) == without(original.take(i as int), value@),
        decreases list@.len() - i,
    {
        proof {
            assert(original.take(i + 1) =~= original.take(i as int).push(original[i as int]));
            original.take(i as int).lemma_filter_push(original[i as int], other_than(value@));
        }
        if !eq_chars(&list[i], value) {
            let ghost before = kept@;
            kept.push(list[i].clone());
            assert(names(kept@) =~= names(before).push(names(list@)[i as int]));
        }
        i = i + 1;
    }
    assert(original.take(list@.len() as int) =~= original);
    *list = kept;
}

pub fn push_unique_name(list: &mut Vec<String>, value: &str)
    ensures
        names(final(list)@) == if names(old(list)@).contains(value@) {
            names(old(list)@)
        } else {
            names(old(list)@).push(value@)
        },
{
    if !contains_name(list, value) {
        let ghost before = names(list@);
        list.push(value.to_owned());
        assert(names(list@) =~= before.push(value@));
    }
}

impl RustInputSectionPlan {
    /// Records the section `value` in `bucket`.
    pub fn push(&mut self, bucket: PlanBucket, value: &str)
        ensures
            final(self)@ == spec_push(old(self)@, bucket, value@),
    {
        match bucket {
            PlanBucket::Got | PlanBucket::RomRam | PlanBucket::Ram | PlanBucket::Discard => {
                remove_section(&mut self.rom_sections, value);
            },
            PlanBucket::Rom => {
                if contains_name(&self.got_sections, value) || contains_name(
                    &self.rom_ram_sections,
                    value,
                ) || contains_name(&self.ram_sections, value) || contains_name(
                    &self.discard_sections,
                    value,
                ) {
                    return;
                }
            },
            PlanBucket::AllocAbs32 | PlanBucket::NonAllocAbs32 => {},
        }
        match bucket {
            PlanBucket::Rom => push_unique_name(&mut self.rom_sections, value),
            PlanBucket::Got => push_unique_name(&mut self.got_sections, value),
            PlanBucket::RomRam => push_unique_name(&mut self.rom_ram_sections, value),
            PlanBucket::Ram => push_unique_name(&mut self.ram_sections, value),
            PlanBucket::Discard => push_unique_name(&mut self.discard_sections, value),
            PlanBucket::AllocAbs32 => push_unique_name(&mut self.alloc_abs32_sections, value),
            PlanBucket::NonAllocAbs32 => push_unique_name(&mut self.nonalloc_abs32_sections, value),
        }
    }
}

/// The plan after recording each of `values` in bucket `b`, in order.
pub open spec fn spec_push_all(p: PlanView, b: PlanBucket, values: Seq<Seq<char>>) -> PlanView
    decreases values.len(),
{
    if values.len() == 0 {
        p
    } else {
        spec_push(spec_push_all(p, b, values.drop_last()), b, values.last())
    }
}

/// The plan after recording every section of `q`, bucket by bucket in the
/// order of the text form.
pub open spec fn spec_merge(p: PlanView, q: PlanView) -> PlanView {
    let p = spec_push_all(p, PlanBucket::Rom, q.rom);
    let p = spec_push_all(p, PlanBucket::Got, q.got);
    let p = spec_push_all(p, PlanBucket::RomRam, q.rom_ram);
    let p = spec_push_all(p, PlanBucket::Ram, q.ram);
    let p = spec_push_all(p, PlanBucket::Discard, q.discard);
    let p = spec_push_all(p, PlanBucket::AllocAbs32, q.alloc_abs32);
    spec_push_all(p, PlanBucket::NonAllocAbs32, q.nonalloc_abs32)
}

/// One line of the text form: the bucket name, a tab, the section name and a newline.
pub open spec fn plan_line(b: PlanBucket, name: Seq<char>) -> Seq<char> {
    bucket_name(b) + seq!['\t'] + name + seq!['\n']
}

/// The lines of a bucket, in order.
pub open spec fn bucket_text(b: PlanBucket, values: Seq<Seq<char>>) -> Seq<char>
    decreases values.len(),
{
    if values.len() == 0 {
        Seq::empty()
    } else {
        bucket_text(b, values.drop_last()) + plan_line(b, values.last())
    }
}

/// The text form of a plan: the buckets in a fixed order, one line per section.
pub open spec fn plan_text(p: PlanView) -> Seq<char> {
    bucket_text(PlanBucket::Rom, p.rom) + bucket_text(PlanBucket::Got, p.got) + bucket_text(
        PlanBucket::RomRam,
        p.rom_ram,
    ) + bucket_text(PlanBucket::Ram, p.ram) + bucket_text(PlanBucket::Discard, p.discard)
        + bucket_text(PlanBucket::AllocAbs32, p.alloc_abs32) + bucket_text(
        PlanBucket::NonAllocAbs32,
        p.nonalloc_abs32,
    )
}

fn push_line(out: &mut String, bucket: PlanBucket, name: &str)
    ensures
        final(out)@ == old(out)@ + plan_line(bucket, name@),
{
    out.append(bucket.as_str());
    out.push('\t');
    out.append(name);
    out.push('\n');
    assert(out@ =~= old(out)@ + plan_line(bucket, name@));
}

fn push_bucket_lines(out: &mut String, bucket: PlanBucket, list: &Vec<String>)
    ensures
        final(out)@ == old(out)@ + bucket_text(bucket, names(list@)),
{
    let ghost start = out@;
    let mut i: usize = 0;
    while i < list.len()
        invariant
            i <= list@.len(),
            out@ == start + bucket_text(bucket, names(list@).take(i as int)),
        decreases list@.len() - i,
    {
        push_line(out, bucket, list[i].as_str());
        proof {
            let t = names(list@).take(i + 1);
            assert(t.drop_last() =~= names(list@).take(i as int));
            assert(t.last() == list@[i as int]@);
        }
        i = i + 1;
    }
    assert(names(list@).take(list@.len() as int) =~= names(list@));
}

fn push_all(plan: &mut RustInputSectionPlan, bucket: PlanBucket, list: &Vec<String>)
    ensures
        final(plan)@ == spec_push_all(old(plan)@, bucket, names(list@)),
{
    let ghost start = plan@;
    let mut i: usize = 0;
    while i < list.len()
        invariant
            i <= list@.len(),
            plan@ == spec_push_all(start, bucket, names(list@).take(i as int)),
        decreases list@.len() - i,
    {
        plan.push(bucket, list[i].as_str());
        proof {
            let t = names(list@).take(i + 1);
            assert(t.drop_last() =~= names(list@).take(i as int));
            assert(t.last() == list@[i as int]@);
        }
        i = i + 1;
    }
    assert(names(list@).take(list@.len() as int) =~= names(list@));
}

/// Why a line of the text form is refused.
#[derive(Debug, Clone, Copy, PartialEq, Eq)]
pub enum LineFault {
    MissingTab,
    UnknownBucket,
}

#[derive(Debug, Clone, PartialEq, Eq)]
pub enum SectionPlanError {
    InvalidLine { line: usize, text: String },
    InvalidBucket { line: usize, bucket: String },
}

/// The plan that the first `n` lines describe, or the first refused line:
/// lines are trimmed, blank and `#` lines are skipped, and each other line
/// is a bucket name, a tab and a section name.
pub open spec fn parse_lines(ls: Seq<Seq<char>>, n: int) -> Result<PlanView, (int, LineFault)>
    decreases n,
{
    if n <= 0 {
        Ok(empty_plan())
    } else {
        match parse_lines(ls, n - 1) {
            Err(x) => Err(x),
            Ok(p) => {
                let line = trimmed(ls[n - 1]);
                if line.len() == 0 || line[0] == '#' {
                    Ok(p)
                } else {
                    match find_char(line, '\t') {
                        None => Err((n - 1, LineFault::MissingTab)),
                        Some(t) => match bucket_named(line.subrange(0, t)) {
                            None => Err((n - 1, LineFault::UnknownBucket)),
                            Some(b) => Ok(spec_push(p, b, line.subrange(t + 1, line.len() as int))),
                        },
                    }
                }
            },
        }
    }
}

/// The error that reports the refused line `k` of `ls`.
pub open spec fn line_error(ls: Seq<Seq<char>>, k: int, f: LineFault, e: SectionPlanError) -> bool {
    let line = trimmed(ls[k]);
    match f {
        LineFault::MissingTab => e matches SectionPlanError::InvalidLine { line: n, text } && n
            == k + 1 && text@ == ls[k],
        LineFault::UnknownBucket => e matches SectionPlanError::InvalidBucket { line: n, bucket }
            && n == k + 1 && bucket@ == line.subrange(0, find_char(line, '\t')->Some_0),
    }
}

proof fn lemma_scan_prefix(s: Seq<char>, j: int, k: int)
    requires
        0 <= j <= k <= s.len(),
    ensures
        line_scan(s, j).0.len() <= line_scan(s, k).0.len(),
        line_scan(s, k).0.subrange(0, line_scan(s, j).0.len() as int) == line_scan(s, j).0,
    decreases k - j,
{
    if j < k {
        lemma_scan_prefix(s, j, k - 1);
        let a = line_scan(s, j).0;
        let b = line_scan(s, k - 1).0;
        let c = line_scan(s, k).0;
        if s[k - 1] == '\n' {
            assert(c.subrange(0, a.len() as int) =~= b.subrange(0, a.len() as int));
        }
    }
}

proof fn lemma_parse_prefix(ls: Seq<Seq<char>>, ms: Seq<Seq<char>>, n: int)
    requires
        0 <= n <= ls.len(),
        n <= ms.len(),
        ls.subrange(0, n) == ms.subrange(0, n),
    ensures
        parse_lines(ls, n) == parse_lines(ms, n),
    decreases n,
{
    if n > 0 {
        assert(ls.subrange(0, n - 1) =~= ms.subrange(0, n - 1)) by {
            assert forall|i: int| 0 <= i < n - 1 implies ls[i] == ms[i] by {
                assert(ls.subrange(0, n)[i] == ms.subrange(0, n)[i]);
            }
        }
        assert(ls[n - 1] == ms[n - 1]) by {
            assert(ls.subrange(0, n)[n - 1] == ms.subrange(0, n)[n - 1]);
        }
        lemma_parse_prefix(ls, ms, n - 1);
    }
}

proof fn lemma_parse_err_persists(ls: Seq<Seq<char>>, k: int, n: int)
    requires
        0 <= k <= n,
        parse_lines(ls, k) is Err,
    ensures
        parse_lines(ls, n) == parse_lines(ls, k),
    decreases n - k,
{
    if k < n {
        lemma_parse_err_persists(ls, k, n - 1);
    }
}

/// `done` lines are the first lines of `s`.
proof fn lemma_done_prefix_of_lines(s: Seq<char>, i: int)
    requires
        0 <= i <= s.len(),
    ensures
        line_scan(s, i).0.len() <= lines(s).len(),
        lines(s).subrange(0, line_scan(s, i).0.len() as int) == line_scan(s, i).0,
{
    lemma_scan_prefix(s, i, s.len() as int);
    let d = line_scan(s, s.len() as int).0;
    let a = line_scan(s, i).0;
    if line_scan(s, s.len() as int).1.len() > 0 {
        assert(lines(s).subrange(0, a.len() as int) =~= d.subrange(0, a.len() as int));
    }
}

impl RustInputSectionPlan {
    /// Records every section of `other`, bucket by bucket.
    pub fn merge(&mut self, other: &Self)
        ensures
            final(self)@ == spec_merge(old(self)@, other@),
    {
        push_all(self, PlanBucket::Rom, &other.rom_sections);
        push_all(self, PlanBucket::Got, &other.got_sections);
        push_all(self, PlanBucket::RomRam, &other.rom_ram_sections);
        push_all(self, PlanBucket::Ram, &other.ram_sections);
        push_all(self, PlanBucket::Discard, &other.discard_sections);
        push_all(self, PlanBucket::AllocAbs32, &other.alloc_abs32_sections);
        push_all(self, PlanBucket::NonAllocAbs32, &other.nonalloc_abs32_sections);
    }

    /// The text form: one `bucket<TAB>section` line per section.
    pub fn to_text(&self) -> (r: String)
        ensures
            r@ == plan_text(self@),
    {
        let mut out = String::new();
        push_bucket_lines(&mut out, PlanBucket::Rom, &self.rom_sections);
        push_bucket_lines(&mut out, PlanBucket::Got, &self.got_sections);
        push_bucket_lines(&mut out, PlanBucket::RomRam, &self.rom_ram_sections);
        push_bucket_lines(&mut out, PlanBucket::Ram, &self.ram_sections);
        push_bucket_lines(&mut out, PlanBucket::Discard, &self.discard_sections);
        push_bucket_lines(&mut out, PlanBucket::AllocAbs32, &self.alloc_abs32_sections);
        push_bucket_lines(&mut out, PlanBucket::NonAllocAbs32, &self.nonalloc_abs32_sections);
        assert(out@ =~= plan_text(self@));
        out
    }

    /// Applies line `raw` (the characters `chars[start..end]`), line number
    /// `k` counting from zero.
    #[verifier::rlimit(40)]
    fn apply_line(
        &mut self,
        chars: &Vec<char>,
        start: usize,
        end: usize,
        k: usize,
    ) -> (r: Result<(), SectionPlanError>)
        requires
            start <= end <= chars@.len(),
            k < usize::MAX,
        ensures
            ({
                let line = trimmed(chars@.subrange(start as int, end as int));
                if line.len() == 0 || line[0] == '#' {
                    r is Ok && final(self)@ == old(self)@
                } else {
                    match find_char(line, '\t') {
                        None => r matches Err(SectionPlanError::InvalidLine { line: n, text })
                            && n == k + 1 && text@ == chars@.subrange(start as int, end as int),
                        Some(t) => match bucket_named(line.subrange(0, t)) {
                            None => r matches Err(SectionPlanError::InvalidBucket { line: n, bucket })
                                && n == k + 1 && bucket@ == line.subrange(0, t),
                            Some(b) => r is Ok && final(self)@ == spec_push(
                                old(self)@,
                                b,
                                line.subrange(t + 1, line.len() as int),
                            ),
                        },
                    }
                }
            }),
    {
        let (a, b) = trim_bounds(chars, start, end);
        let ghost line = trimmed(chars@.subrange(start as int, end as int));
        assert(line =~= chars@.subrange(a as int, b as int));
        if a == b || chars[a] == '#' {
            return Ok(());
        }
        let tab = match find_char_in(chars, a, b, '\t') {
            None => {
                return Err(
                    SectionPlanError::InvalidLine { line: k + 1, text: string_of(chars, start, end) },
                );
            },
            Some(t) => t,
        };
        assert(find_char(line, '\t') == Some(tab - a));
        assert(chars@.subrange(a as int, tab as int) =~= line.subrange(0, tab - a));
        assert(chars@.subrange(tab + 1, b as int) =~= line.subrange(tab - a + 1, line.len() as int));
        let bucket_text = string_of(chars, a, tab);
        let bucket = match PlanBucket::parse(bucket_text.as_str()) {
            None => {
                return Err(SectionPlanError::InvalidBucket { line: k + 1, bucket: bucket_text });
            },
            Some(bk) => bk,
        };
        let name = string_of(chars, tab + 1, b);
        self.push(bucket, name.as_str());
        Ok(())
    }

    /// Reads the text form back.
    pub fn parse(text: &str) -> (r: Result<Self, SectionPlanError>)
        ensures
            match parse_lines(lines(text@), lines(text@).len() as int) {
                Ok(p) => r matches Ok(plan) && plan@ == p,
                Err((k, f)) => r matches Err(e) && line_error(lines(text@), k, f, e),
            },
    {
        let chars = chars_of(text);
        let ghost s = chars@;
        let mut plan = RustInputSectionPlan::default();
        let mut line_start: usize = 0;
        let mut k: usize = 0;
        let mut i: usize = 0;
        while i < chars.len()
            invariant
                s == chars@,
                s == text@,
                line_start <= i <= s.len(),
                line_scan(s, i as int).1 == s.subrange(line_start as int, i as int),
                k == line_scan(s, i as int).0.len(),
                k <= line_start,
                parse_lines(line_scan(s, i as int).0, k as int) == Ok::<
                    PlanView,
                    (int, LineFault),
                >(plan@),
            decreases s.len() - i,
        {
            if chars[i] == '\n' {
                let ghost done = line_scan(s, i as int).0;
                let ghost next = line_scan(s, i + 1).0;
                assert(next == done.push(s.subrange(line_start as int, i as int)));
                proof {
                    assert(next.subrange(0, k as int) =~= done.subrange(0, k as int));
                    lemma_parse_prefix(next, done, k as int);
                }
                let applied = plan.apply_line(&chars, line_start, i, k);
                match applied {
                    Err(e) => {
                        proof {
                            lemma_done_prefix_of_lines(s, i + 1);
                            let ls = lines(s);
                            assert(next.subrange(0, k + 1) =~= next);
                            lemma_parse_prefix(ls, next, k + 1);
                            lemma_parse_err_persists(ls, k + 1, ls.len() as int);
                            assert(ls[k as int] == next[k as int]) by {
                                assert(ls.subrange(0, k + 1)[k as int] == next[k as int]);
                            }
                        }
                        return Err(e);
                    },
                    Ok(()) => {},
                }
                line_start = i + 1;
                k = k + 1;
                assert(line_scan(s, i + 1).1 =~= s.subrange(line_start as int, i + 1));
            } else {
                assert(line_scan(s, i + 1).1 =~= s.subrange(line_start as int, i + 1));
            }
            i = i + 1;
        }
        if line_start < chars.len() {
            let ghost done = line_scan(s, s.len() as int).0;
            let ghost ls = lines(s);
            assert(ls == done.push(s.subrange(line_start as int, s.len() as int)));
            proof {
                assert(ls.subrange(0, k as int) =~= done.subrange(0, k as int));
                lemma_parse_prefix(ls, done, k as int);
            }
            let applied = plan.apply_line(&chars, line_start, chars.len(), k);
            match applied {
                Err(e) => {
                    return Err(e);
                },
                Ok(()) => {},
            }
        } else {
            assert(lines(s) == line_scan(s, s.len() as int).0);
        }
        Ok(plan)
    }
}

// ---------------------------------------------------------------------------
// Scanning object files
// ---------------------------------------------------------------------------
/// ELF section flag: writable at run time.
pub const SHF_WRITE: u64 = 1;

/// The kinds of `ScanError`.
#[derive(Debug, Clone, Copy, PartialEq, Eq)]
pub enum ScanErrorKind {
    Parse,
    RelocationEndOverflow,
    RelocationOutOfBounds,
    TruncatedRelocationEntry,
    Archive,
    ArchiveMember,
    ArchiveMemberData,
}

pub open spec fn error_kind(e: ScanError) -> ScanErrorKind {
    match e {
        ScanError::Parse(_) => ScanErrorKind::Parse,
        ScanError::RelocationEndOverflow => ScanErrorKind::RelocationEndOverflow,
        ScanError::RelocationOutOfBounds => ScanErrorKind::RelocationOutOfBounds,
        ScanError::TruncatedRelocationEntry => ScanErrorKind::TruncatedRelocationEntry,
        ScanError::Archive(_) => ScanErrorKind::Archive,
        ScanError::ArchiveMember => ScanErrorKind::ArchiveMember,
        ScanError::ArchiveMemberData(_) => ScanErrorKind::ArchiveMemberData,
    }
}

/// A scan's result as the plan it leaves and the kind of error it stopped on.
pub open spec fn scan_outcome(before: PlanView, plan: RustInputSectionPlan, r: Result<(), ScanError>) -> (
    PlanView,
    Option<ScanErrorKind>,
) {
    (
        plan@,
        match r {
            Ok(()) => None,
            Err(e) => Some(error_kind(e)),
        },
    )
}

/// Why an object file cannot be scanned.
#[derive(Debug, Clone, PartialEq, Eq)]
pub enum ScanError {
    Parse(String),
    RelocationEndOverflow,
    RelocationOutOfBounds,
    TruncatedRelocationEntry,
    Archive(String),
    ArchiveMember,
    ArchiveMemberData(String),
}

/// The file starts with the ELF magic number.
pub open spec fn spec_is_elf(bytes: Seq<u8>) -> bool {
    bytes.len() >= 4 && bytes[0] == 0x7f && bytes[1] == 0x45 && bytes[2] == 0x4c && bytes[3]
        == 0x46
}

pub fn is_elf(bytes: &[u8]) -> (r: bool)
    ensures
        r == spec_is_elf(bytes@),
{
    bytes.len() >= 4 && bytes[0] == 0x7f && bytes[1] == 0x45 && bytes[2] == 0x4c && bytes[3]
        == 0x46
}

/// `s` begins with `prefix`.
pub open spec fn starts_with(s: Seq<char>, prefix: Seq<char>) -> bool {
    prefix.len() <= s.len() && s.subrange(0, prefix.len() as int) == prefix
}

pub fn has_prefix(s: &String, prefix: &str) -> (r: bool)
    ensures
        r == starts_with(s@, prefix@),
{
    let a = chars_of(s.as_str());
    let b = chars_of(prefix);
    if b.len() > a.len() {
        return false;
    }
    let mut i: usize = 0;
    while i < b.len()
        invariant
            b@.len() <= a@.len(),
            a@ == s@,
            b@ == prefix@,
            i <= b@.len(),
            forall|j: int| 0 <= j < i ==> a@[j] == b@[j],
        decreases b@.len() - i,
    {
        if a[i] != b[i] {
            assert(a@.subrange(0, b@.len() as int)[i as int] != b@[i as int]);
            return false;
        }
        i = i + 1;
    }
    assert(a@.subrange(0, b@.len() as int) =~= b@);
    true
}

/// The sections of an object that the plan sorts: all but the null one,
/// with a nonempty name.
pub open spec fn is_described(elf: ElfFile, i: int) -> bool {
    &&& i >= 1
    &&& elf.sections@[i].name matches Some(n)
    &&& n@.len() > 0
}

/// Where the plan sorts a section, from its name, its flags and whether an
/// `R_ARM_ABS32` relocation applies to it.
pub open spec fn classify(section: ElfSection, name: Seq<char>, has_abs32: bool) -> Seq<
    (PlanBucket, Seq<char>),
> {
    let alloc = section.flags & SHF_ALLOC != 0;
    let writable = section.flags & SHF_WRITE != 0;
    let exec = section.flags & SHF_EXECINSTR != 0;
    let nobits = section.sh_type == SHT_NOBITS;
    if starts_with(name, ".ARM.exidx"@) || starts_with(name, ".ARM.extab"@) {
        seq![(PlanBucket::Discard, name)]
    } else if !alloc {
        if has_abs32 {
            seq![(PlanBucket::NonAllocAbs32, name)]
        } else {
            Seq::empty()
        }
    } else if starts_with(name, ".got"@) {
        seq![(PlanBucket::Got, name)]
    } else if starts_with(name, ".data.rel.ro"@) {
        if has_abs32 {
            seq![(PlanBucket::AllocAbs32, name), (PlanBucket::RomRam, name)]
        } else {
            seq![(PlanBucket::Rom, name)]
        }
    } else if writable {
        if nobits {
            seq![(PlanBucket::Ram, name)]
        } else {
            seq![(PlanBucket::RomRam, name)]
        }
    } else if has_abs32 && !exec {
        seq![(PlanBucket::AllocAbs32, name), (PlanBucket::RomRam, name)]
    } else if nobits {
        seq![(PlanBucket::Ram, name)]
    } else {
        seq![(PlanBucket::Rom, name)]
    }
}

/// The plan after each (bucket, section) record, in order.
pub open spec fn spec_push_seq(p: PlanView, records: Seq<(PlanBucket, Seq<char>)>) -> PlanView
    decreases records.len(),
{
    if records.len() == 0 {
        p
    } else {
        let last = records.last();
        spec_push(spec_push_seq(p, records.drop_last()), last.0, last.1)
    }
}

proof fn lemma_push_seq_append(p: PlanView, a: Seq<(PlanBucket, Seq<char>)>, b: Seq<(PlanBucket, Seq<char>)>)
    ensures
        spec_push_seq(p, a + b) == spec_push_seq(spec_push_seq(p, a), b),
    decreases b.len(),
{
    if b.len() > 0 {
        assert((a + b).drop_last() =~= a + b.drop_last());
        lemma_push_seq_append(p, a, b.drop_last());
    }
}

/// The records of the first `n` sections of an object.
pub open spec fn scan_records(elf: ElfFile, targets: Seq<Seq<char>>, n: int) -> Seq<
    (PlanBucket, Seq<char>),
>
    decreases n,
{
    if n <= 0 {
        Seq::empty()
    } else {
        let rest = scan_records(elf, targets, n - 1);
        if is_described(elf, n - 1) {
            let name = elf.sections@[n - 1].name->Some_0@;
            rest + classify(elf.sections@[n - 1], name, targets.contains(name))
        } else {
            rest
        }
    }
}

/// Why scanning the relocations of an object fails.
#[derive(Debug, Clone, Copy, PartialEq, Eq)]
pub enum ScanFault {
    EndOverflow,
    OutOfBounds,
    TruncatedEntry,
}

/// An `R_ARM_ABS32` entry whose symbol lies in a named section.
pub open spec fn abs32_entry_counts(elf: ElfFile, info: u32) -> bool {
    let si = (info >> 8u32) as int;
    &&& info & 0xff == constants::R_ARM_ABS32
    &&& si < elf.symbols@.len()
    &&& elf.symbols@[si].shndx != 0
    &&& section_name_at(elf, elf.symbols@[si].shndx as int) is Some
}

/// Walks the entries from `off` to `end`, stepping by `entsize`: whether one
/// counts, or a truncated entry.
pub open spec fn abs32_entry_walk(elf: ElfFile, bytes: Seq<u8>, off: int, end: int, entsize: int) -> Result<
    bool,
    ScanFault,
>
    decreases (if off >= end {
        0
    } else {
        end - off
    }),
{
    if off >= end || entsize <= 0 {
        Ok(false)
    } else if off + 8 > bytes.len() {
        Err(ScanFault::TruncatedEntry)
    } else {
        match abs32_entry_walk(elf, bytes, off + entsize, end, entsize) {
            Err(f) => Err(f),
            Ok(found) => Ok(
                found || abs32_entry_counts(elf, crate::common::le_word(bytes, off + 4)),
            ),
        }
    }
}

/// The relocation section `i` names its target among those with ABS32
/// relocations (`Ok(Some(name))`), or does not, or cannot be read.
pub open spec fn abs32_section_target(elf: ElfFile, bytes: Seq<u8>, i: int) -> Result<
    Option<Seq<char>>,
    ScanFault,
> {
    let section = elf.sections@[i];
    let ti = section.info as int;
    let li = section.link as int;
    let entsize = section.entsize as usize;
    let start = section.offset as usize;
    let size = section.size as usize;
    if !(section.sh_type == SHT_REL || section.sh_type == SHT_RELA) || ti >= elf.sections@.len()
        || elf.sections@[ti].name is None || li >= elf.sections@.len()
        || elf.sections@[li].sh_type != SHT_SYMTAB || entsize == 0 {
        Ok(None)
    } else if start + size > usize::MAX {
        Err(ScanFault::EndOverflow)
    } else if start + size > bytes.len() {
        Err(ScanFault::OutOfBounds)
    } else {
        match abs32_entry_walk(elf, bytes, start as int, start + size, entsize as int) {
            Err(f) => Err(f),
            Ok(true) => Ok(Some(elf.sections@[ti].name->Some_0@)),
            Ok(false) => Ok(None),
        }
    }
}

/// The names of the sections of the first `n` that ABS32 relocations apply
/// to, or why the relocations cannot be read.
pub open spec fn abs32_targets(elf: ElfFile, bytes: Seq<u8>, n: int) -> Result<Seq<Seq<char>>, ScanFault>
    decreases n,
{
    if n <= 0 {
        Ok(Seq::empty())
    } else {
        match abs32_targets(elf, bytes, n - 1) {
            Err(f) => Err(f),
            Ok(names) => match abs32_section_target(elf, bytes, n - 1) {
                Err(f) => Err(f),
                Ok(Some(name)) => Ok(names.push(name)),
                Ok(None) => Ok(names),
            },
        }
    }
}

proof fn lemma_abs32_targets_err_persists(elf: ElfFile, bytes: Seq<u8>, k: int, n: int)
    requires
        0 <= k <= n,
        abs32_targets(elf, bytes, k) is Err,
    ensures
        abs32_targets(elf, bytes, n) == abs32_targets(elf, bytes, k),
    decreases n - k,
{
    if k < n {
        lemma_abs32_targets_err_persists(elf, bytes, k, n - 1);
    }
}

fn abs32_section_has_entry(
    elf: &ElfFile,
    elf_bytes: &[u8],
    start: usize,
    end: usize,
    entsize: usize,
) -> (r: Result<bool, ScanFault>)
    requires
        start <= end <= elf_bytes@.len(),
        entsize > 0,
    ensures
        r == abs32_entry_walk(*elf, elf_bytes@, start as int, end as int, entsize as int),
{
    let len = elf_bytes.len();
    let mut off = start;
    let mut found = false;
    let ghost mut seen: Seq<int> = Seq::empty();
    while off < end
        invariant
            start <= off <= end <= elf_bytes@.len(),
            len == elf_bytes@.len(),
            entsize > 0,
            abs32_entry_walk(*elf, elf_bytes@, start as int, end as int, entsize as int) == (if found {
                match abs32_entry_walk(*elf, elf_bytes@, off as int, end as int, entsize as int) {
                    Err(f) => Err(f),
                    Ok(_) => Ok(true),
                }
            } else {
                abs32_entry_walk(*elf, elf_bytes@, off as int, end as int, entsize as int)
            }),
        decreases end - off,
    {
        if len - off < 8 {
            return Err(ScanFault::TruncatedEntry);
        }
        let r_info = crate::common::read_le_word(elf_bytes, off + 4);
        let symbol_index = (r_info >> 8u32) as usize;
        let counts = if r_info & 0xff == constants::R_ARM_ABS32 && symbol_index < elf.symbols.len() {
            let shndx = elf.symbols[symbol_index].shndx;
            shndx != 0 && shndx < elf.sections.len() && elf.sections[shndx].name.is_some()
        } else {
            false
        };
        assert(counts == abs32_entry_counts(*elf, r_info));
        found = found || counts;
        if end - off <= entsize {
            assert(abs32_entry_walk(*elf, elf_bytes@, off + entsize, end as int, entsize as int)
                == Ok::<bool, ScanFault>(false));
            return Ok(found);
        }
        off = off + entsize;
    }
    Ok(found)
}

fn contains_chars(list: &Vec<String>, value: &String) -> (r: bool)
    ensures
        r == names(list@).contains(value@),
{
    contains_name(list, value.as_str())
}

/// The names of the sections that `R_ARM_ABS32` relocations apply to (with
/// their symbol table, and a symbol in a named section).
fn collect_abs32_targets(elf: &ElfFile, elf_bytes: &[u8]) -> (r: Result<Vec<String>, ScanFault>)
    ensures
        match abs32_targets(*elf, elf_bytes@, elf.sections@.len() as int) {
            Err(f) => r == Err::<Vec<String>, ScanFault>(f),
            Ok(ts) => r matches Ok(v) && names(v@) == ts,
        },
{
    let mut targets: Vec<String> = Vec::new();
    assert(names(targets@) =~= Seq::empty());
    let len = elf_bytes.len();
    let mut i: usize = 0;
    while i < elf.sections.len()
        invariant
            i <= elf.sections@.len(),
            len == elf_bytes@.len(),
            abs32_targets(*elf, elf_bytes@, i as int) == Ok::<Seq<Seq<char>>, ScanFault>(
                names(targets@),
            ),
        decreases elf.sections@.len() - i,
    {
        let section = &elf.sections[i];
        let ti = section.info as usize;
        let li = section.link as usize;
        let entsize = section.entsize as usize;
        if (section.sh_type == SHT_REL || section.sh_type == SHT_RELA) && ti < elf.sections.len()
            && elf.sections[ti].name.is_some() && li < elf.sections.len()
            && elf.sections[li].sh_type == SHT_SYMTAB && entsize != 0 {
            let start = section.offset as usize;
            let size = section.size as usize;
            let end = match start.checked_add(size) {
                Some(v) => v,
                None => {
                    proof {
                        lemma_abs32_targets_err_persists(*elf, elf_bytes@, i + 1, elf.sections@.len() as int);
                    }
                    return Err(ScanFault::EndOverflow);
                },
            };
            if end > len {
                proof {
                    lemma_abs32_targets_err_persists(*elf, elf_bytes@, i + 1, elf.sections@.len() as int);
                }
                return Err(ScanFault::OutOfBounds);
            }
            match abs32_section_has_entry(elf, elf_bytes, start, end, entsize) {
                Err(f) => {
                    proof {
                        lemma_abs32_targets_err_persists(*elf, elf_bytes@, i + 1, elf.sections@.len() as int);
                    }
                    return Err(f);
                },
                Ok(true) => {
                    let name = match &elf.sections[ti].name {
                        Some(n) => n.clone(),
                        None => String::new(),
                    };
                    let ghost before = names(targets@);
                    targets.push(name);
                    assert(names(targets@) =~= before.push(elf.sections@[ti as int].name->Some_0@));
                },
                Ok(false) => {},
            }
        }
        i = i + 1;
    }
    Ok(targets)
}

/// Records the sections of one ELF object in the plan.
pub fn scan_elf_object(elf_bytes: &[u8], plan: &mut RustInputSectionPlan) -> (r: Result<(), ScanError>)
    ensures
        scan_outcome(old(plan)@, *final(plan), r) == spec_scan_elf(elf_bytes@, old(plan)@),
{
    let elf = match parse_elf(elf_bytes) {
        Ok(e) => e,
        Err(crate::elf::ElfError::Parse(m)) => {
            return Err(ScanError::Parse(m));
        },
        Err(_) => {
            return Err(ScanError::Parse(String::new()));
        },
    };
    let targets = match collect_abs32_targets(&elf, elf_bytes) {
        Ok(t) => t,
        Err(ScanFault::EndOverflow) => {
            return Err(ScanError::RelocationEndOverflow);
        },
        Err(ScanFault::OutOfBounds) => {
            return Err(ScanError::RelocationOutOfBounds);
        },
        Err(ScanFault::TruncatedEntry) => {
            return Err(ScanError::TruncatedRelocationEntry);
        },
    };
    let ghost start = plan@;
    let mut i: usize = 1;
    assert(scan_records(elf, names(targets@), 0) =~= Seq::empty());
    if elf.sections.len() == 0 {
        return Ok(());
    }
    assert(scan_records(elf, names(targets@), 1) =~= Seq::empty());
    while i < elf.sections.len()
        invariant
            1 <= i <= elf.sections@.len(),
            plan@ == spec_push_seq(start, scan_records(elf, names(targets@), i as int)),
        decreases elf.sections@.len() - i,
    {
        let section = &elf.sections[i];
        let ghost before = scan_records(elf, names(targets@), i as int);
        match &section.name {
            Some(name) => {
                if !name.as_str().is_empty() {
                    let has_abs32 = contains_chars(&targets, name);
                    proof {
                        lemma_push_seq_append(start, before, classify(*section, name@, has_abs32));
                    }
                    push_classified(plan, section, name, has_abs32);
                }
            },
            None => {},
        }
        i = i + 1;
    }
    Ok(())
}

/// Records one section where `classify` sorts it.
fn push_classified(plan: &mut RustInputSectionPlan, section: &ElfSection, name: &String, has_abs32: bool)
    ensures
        final(plan)@ == spec_push_seq(old(plan)@, classify(*section, name@, has_abs32)),
{
    let ghost recs = classify(*section, name@, has_abs32);
    let ghost p0 = plan@;
    let n = name.as_str();
    let alloc = (section.flags & SHF_ALLOC) != 0;
    let writable = (section.flags & SHF_WRITE) != 0;
    let exec = (section.flags & SHF_EXECINSTR) != 0;
    let nobits = section.sh_type == SHT_NOBITS;
    proof {
        assert(recs.len() <= 2);
        if recs.len() == 2 {
            assert(recs.drop_last().drop_last() =~= Seq::empty());
            assert(recs.drop_last().last() == recs[0]);
            assert(spec_push_seq(p0, recs.drop_last().drop_last()) == p0);
            assert(spec_push_seq(p0, recs.drop_last()) == spec_push(p0, recs[0].0, recs[0].1));
            assert(spec_push_seq(p0, recs) == spec_push(
                spec_push(p0, recs[0].0, recs[0].1),
                recs[1].0,
                recs[1].1,
            ));
        } else if recs.len() == 1 {
            assert(recs.drop_last() =~= Seq::empty());
            assert(spec_push_seq(p0, recs.drop_last()) == p0);
            assert(spec_push_seq(p0, recs) == spec_push(p0, recs[0].0, recs[0].1));
        } else {
            assert(spec_push_seq(p0, recs) == p0);
        }
    }
    if has_prefix(name, ".ARM.exidx") || has_prefix(name, ".ARM.extab") {
        plan.push(PlanBucket::Discard, n);
    } else if !alloc {
        if has_abs32 {
            plan.push(PlanBucket::NonAllocAbs32, n);
        }
    } else if has_prefix(name, ".got") {
        plan.push(PlanBucket::Got, n);
    } else if has_prefix(name, ".data.rel.ro") {
        if has_abs32 {
            plan.push(PlanBucket::AllocAbs32, n);
            plan.push(PlanBucket::RomRam, n);
        } else {
            plan.push(PlanBucket::Rom, n);
        }
    } else if writable {
        if nobits {
            plan.push(PlanBucket::Ram, n);
        } else {
            plan.push(PlanBucket::RomRam, n);
        }
    } else if has_abs32 && !exec {
        plan.push(PlanBucket::AllocAbs32, n);
        plan.push(PlanBucket::RomRam, n);
    } else if nobits {
        plan.push(PlanBucket::Ram, n);
    } else {
        plan.push(PlanBucket::Rom, n);
    }
}

/// The plan after scanning one ELF object, and the kind of error if it fails.
pub open spec fn spec_scan_elf(bytes: Seq<u8>, p: PlanView) -> (PlanView, Option<ScanErrorKind>) {
    match crate::elf::goblin_elf_model(bytes) {
        None => (p, Some(ScanErrorKind::Parse)),
        Some(elf) => match abs32_targets(elf, bytes, elf.sections@.len() as int) {
            Err(ScanFault::EndOverflow) => (p, Some(ScanErrorKind::RelocationEndOverflow)),
            Err(ScanFault::OutOfBounds) => (p, Some(ScanErrorKind::RelocationOutOfBounds)),
            Err(ScanFault::TruncatedEntry) => (p, Some(ScanErrorKind::TruncatedRelocationEntry)),
            Ok(targets) => (
                spec_push_seq(p, scan_records(elf, targets, elf.sections@.len() as int)),
                None,
            ),
        },
    }
}

/// A member of an archive: its name, and its data where it can be read.
#[derive(Debug, Clone)]
pub struct ArchiveMember {
    pub name: String,
    pub data: Option<Vec<u8>>,
}

/// The members that `object` lists in an archive, in order, and whether the
/// listing stopped on a member it could not read; `None` where it refuses
/// the archive.
pub uninterp spec fn object_archive_listing(bytes: Seq<u8>) -> Option<(Seq<ArchiveMember>, bool)>;

/// Parses `bytes` with `object::read::archive::ArchiveFile::parse` and walks
/// its `members()`: each member's name (as lossy UTF-8) and its `data`, `None`
/// where `data` fails; a member that the iterator cannot read ends the walk.
/// What `object` reads is named, not stated: `object_archive_listing`. A
/// refused archive comes back as `object`'s error message, of which nothing
/// is stated.
#[verifier::external_body]
fn object_archive_members(bytes: &[u8]) -> (r: Result<(Vec<ArchiveMember>, bool), String>)
    ensures
        r is Ok <==> object_archive_listing(bytes@) is Some,
        r matches Ok((members, broken)) ==> object_archive_listing(bytes@) == Some(
            (members@, broken),
        ),
{
    let archive = object::read::archive::ArchiveFile::parse(bytes).map_err(|e| e.to_string())?;
    let mut members = Vec::new();
    for member in archive.members() {
        let Ok(member) = member else {
            return Ok((members, true));
        };
        let data = member.data(bytes).ok().map(|d| d.to_vec());
        members.push(ArchiveMember { name: String::from_utf8_lossy(member.name()).into_owned(), data });
    }
    Ok((members, false))
}

/// `s` ends with `suffix`.
pub open spec fn ends_with(s: Seq<char>, suffix: Seq<char>) -> bool {
    suffix.len() <= s.len() && s.subrange(s.len() - suffix.len(), s.len() as int) == suffix
}

fn has_suffix(s: &String, suffix: &str) -> (r: bool)
    ensures
        r == ends_with(s@, suffix@),
{
    let a = chars_of(s.as_str());
    let b = chars_of(suffix);
    if b.len() > a.len() {
        return false;
    }
    let alen = a.len();
    let off = alen - b.len();
    let mut i: usize = 0;
    while i < b.len()
        invariant
            alen == a@.len(),
            b@.len() <= a@.len(),
            off == a@.len() - b@.len(),
            a@ == s@,
            b@ == suffix@,
            i <= b@.len(),
            forall|j: int| 0 <= j < i ==> a@[off + j] == b@[j],
        decreases b@.len() - i,
    {
        if a[off + i] != b[i] {
            assert(a@.subrange(off as int, a@.len() as int)[i as int] != b@[i as int]);
            return false;
        }
        i = i + 1;
    }
    assert(a@.subrange(off as int, a@.len() as int) =~= b@);
    true
}

/// The plan after the first `n` archive members, and the kind of error if
/// one stops the scan: only `.o` members are read, and only ELF ones scanned.
pub open spec fn scan_members(members: Seq<ArchiveMember>, p: PlanView, n: int) -> (
    PlanView,
    Option<ScanErrorKind>,
)
    decreases n,
{
    if n <= 0 {
        (p, None)
    } else {
        let (q, e) = scan_members(members, p, n - 1);
        if e is Some {
            (q, e)
        } else {
            let m = members[n - 1];
            if !ends_with(m.name@, ".o"@) {
                (q, None)
            } else {
                match m.data {
                    None => (q, Some(ScanErrorKind::ArchiveMemberData)),
                    Some(d) => if spec_is_elf(d@) {
                        spec_scan_elf(d@, q)
                    } else {
                        (q, None)
                    },
                }
            }
        }
    }
}

proof fn lemma_scan_members_err_persists(members: Seq<ArchiveMember>, p: PlanView, k: int, n: int)
    requires
        0 <= k <= n,
        scan_members(members, p, k).1 is Some,
    ensures
        scan_members(members, p, n) == scan_members(members, p, k),
    decreases n - k,
{
    if k < n {
        lemma_scan_members_err_persists(members, p, k, n - 1);
    }
}

/// The plan after scanning the ELF members of an archive.
pub open spec fn spec_scan_archive(bytes: Seq<u8>, p: PlanView) -> (PlanView, Option<ScanErrorKind>) {
    match object_archive_listing(bytes) {
        None => (p, Some(ScanErrorKind::Archive)),
        Some((members, broken)) => {
            let (q, e) = scan_members(members, p, members.len() as int);
            if e is Some {
                (q, e)
            } else if broken {
                (q, Some(ScanErrorKind::ArchiveMember))
            } else {
                (q, None)
            }
        },
    }
}

/// Records the sections of the ELF objects (`.o` members) of an archive.
pub fn scan_archive(bytes: &[u8], plan: &mut RustInputSectionPlan) -> (r: Result<(), ScanError>)
    ensures
        scan_outcome(old(plan)@, *final(plan), r) == spec_scan_archive(bytes@, old(plan)@),
{
    let (members, broken) = match object_archive_members(bytes) {
        Ok(v) => v,
        Err(m) => {
            return Err(ScanError::Archive(m));
        },
    };
    let ghost start = plan@;
    let mut i: usize = 0;
    while i < members.len()
        invariant
            i <= members@.len(),
            start == old(plan)@,
            object_archive_listing(bytes@) == Some((members@, broken)),
            scan_members(members@, start, i as int) == (plan@, None::<ScanErrorKind>),
        decreases members@.len() - i,
    {
        let m = &members[i];
        if has_suffix(&m.name, ".o") {
            match &m.data {
                None => {
                    proof {
                        lemma_scan_members_err_persists(members@, start, i + 1, members@.len() as int);
                    }
                    return Err(ScanError::ArchiveMemberData(m.name.clone()));
                },
                Some(d) => {
                    if is_elf(d.as_slice()) {
                        let scanned = scan_elf_object(d.as_slice(), plan);
                        if scanned.is_err() {
                            proof {
                                lemma_scan_members_err_persists(
                                    members@,
                                    start,
                                    i + 1,
                                    members@.len() as int,
                                );
                            }
                            return scanned;
                        }
                    }
                },
            }
        }
        i = i + 1;
    }
    if broken {
        return Err(ScanError::ArchiveMember);
    }
    Ok(())
}

/// An input of the link: the file's bytes and the extension of its name.
#[derive(Debug, Clone)]
pub struct InputFile {
    pub bytes: Vec<u8>,
    pub extension: Option<String>,
}

/// The plan after scanning one input: an ELF object directly, an `.rlib` or
/// `.a` archive member by member, anything else not at all.
pub open spec fn spec_scan_input(input: InputFile, p: PlanView) -> (PlanView, Option<ScanErrorKind>) {
    if spec_is_elf(input.bytes@) {
        spec_scan_elf(input.bytes@, p)
    } else if input.extension matches Some(e) && (e@ == "rlib"@ || e@ == "a"@) {
        spec_scan_archive(input.bytes@, p)
    } else {
        (p, None)
    }
}

fn scan_input(input: &InputFile, plan: &mut RustInputSectionPlan) -> (r: Result<(), ScanError>)
    ensures
        scan_outcome(old(plan)@, *final(plan), r) == spec_scan_input(*input, old(plan)@),
{
    if is_elf(input.bytes.as_slice()) {
        return scan_elf_object(input.bytes.as_slice(), plan);
    }
    let archive = match &input.extension {
        Some(e) => eq_chars(e, "rlib") || eq_chars(e, "a"),
        None => false,
    };
    if archive {
        return scan_archive(input.bytes.as_slice(), plan);
    }
    Ok(())
}

/// The plan after the first `n` inputs, from the empty plan.
pub open spec fn scan_inputs(inputs: Seq<InputFile>, n: int) -> (PlanView, Option<ScanErrorKind>)
    decreases n,
{
    if n <= 0 {
        (empty_plan(), None)
    } else {
        let (q, e) = scan_inputs(inputs, n - 1);
        if e is Some {
            (q, e)
        } else {
            spec_scan_input(inputs[n - 1], q)
        }
    }
}

proof fn lemma_scan_inputs_err_persists(inputs: Seq<InputFile>, k: int, n: int)
    requires
        0 <= k <= n,
        scan_inputs(inputs, k).1 is Some,
    ensures
        scan_inputs(inputs, n) == scan_inputs(inputs, k),
    decreases n - k,
{
    if k < n {
        lemma_scan_inputs_err_persists(inputs, k, n - 1);
    }
}

/// The section plan of all the inputs of a link, in order.
pub fn collect_rust_input_section_plan(inputs: &[InputFile]) -> (r: Result<
    RustInputSectionPlan,
    ScanError,
>)
    ensures
        match scan_inputs(inputs@, inputs@.len() as int) {
            (p, None) => r matches Ok(plan) && plan@ == p,
            (_, Some(k)) => r matches Err(e) && error_kind(e) == k,
        },
{
    let mut plan = RustInputSectionPlan::default();
    let mut i: usize = 0;
    while i < inputs.len()
        invariant
            i <= inputs@.len(),
            scan_inputs(inputs@, i as int) == (plan@, None::<ScanErrorKind>),
        decreases inputs@.len() - i,
    {
        let scanned = scan_input(&inputs[i], &mut plan);
        if let Err(e) = scanned {
            proof {
                lemma_scan_inputs_err_persists(inputs@, i + 1, inputs@.len() as int);
            }
            return Err(e);
        }
        i = i + 1;
    }
    Ok(plan)
}

/// What recording `v` in bucket `b` does: a runtime bucket or an ABS32
/// list then holds it, a runtime bucket takes it out of ROM, ROM holds it
/// unless a runtime bucket does, and every other bucket is left as it was.
pub proof fn lemma_push_effect(p: PlanView, b: PlanBucket, v: Seq<char>)
    ensures
        ({
            let q = spec_push(p, b, v);
            &&& !(b is Rom) ==> bucket(q, b).contains(v)
            &&& is_runtime_bucket(b) ==> !q.rom.contains(v)
            &&& b is Rom ==> q.rom.contains(v) || q.got.contains(v) || q.rom_ram.contains(v) || q.ram.contains(v)
                || q.discard.contains(v)
            &&& forall|c: PlanBucket| c != b && !(c is Rom) ==> #[trigger] bucket(q, c) == bucket(p, c)
            &&& !is_runtime_bucket(b) && !(b is Rom) ==> q.rom == p.rom
        }),
{
    crate::plan_round_trip::lemma_without_contains(p.rom, v);
    let refused = b is Rom && (p.got.contains(v) || p.rom_ram.contains(v) || p.ram.contains(v)
        || p.discard.contains(v));
    if !refused {
        let p1 = if is_runtime_bucket(b) {
            PlanView { rom: without(p.rom, v), ..p }
        } else {
            p
        };
        let t = bucket(p1, b);
        crate::plan_round_trip::lemma_push_contains(t, v);
        let q = spec_push(p, b, v);
        assert(q == (if t.contains(v) { p1 } else { with_bucket(p1, b, t.push(v)) }));
    }
}

proof fn lemma_section_prefixes(name: Seq<char>)
    ensures
        starts_with(name, ".got"@) ==> !starts_with(name, ".ARM.exidx"@) && !starts_with(name, ".ARM.extab"@),
        starts_with(name, ".data.rel.ro"@) ==> !starts_with(name, ".ARM.exidx"@) && !starts_with(name, ".ARM.extab"@)
            && !starts_with(name, ".got"@),
{
    reveal_strlit(".got");
    reveal_strlit(".ARM.exidx");
    reveal_strlit(".ARM.extab");
    reveal_strlit(".data.rel.ro");
    if starts_with(name, ".got"@) {
        assert(name.subrange(0, 4)[1] == name[1]);
    }
    if starts_with(name, ".data.rel.ro"@) {
        assert(name.subrange(0, 12)[1] == name[1]);
    }
    if starts_with(name, ".ARM.exidx"@) {
        assert(name.subrange(0, 10)[1] == name[1]);
    }
    if starts_with(name, ".ARM.extab"@) {
        assert(name.subrange(0, 10)[1] == name[1]);
    }
}

/// Where scanning records a section of an object, by its kind: `.ARM.exidx*`
/// and `.ARM.extab*` are discarded; a section that is not loaded is listed
/// for its ABS32 relocations where it has them, and otherwise changes
/// nothing; a loaded `.got*` section goes to `.got`; loaded `.data.rel.ro*`
/// goes to `.rom.ram` and the ABS32 list where it has ABS32 relocations, and
/// otherwise to `.rom`; other loaded writable sections go to `.ram` when
/// they have no file bytes (`.bss`) and to `.rom.ram` otherwise; other
/// loaded read-only sections with ABS32 relocations that are not code go to
/// `.rom.ram` and the ABS32 list; the rest go to `.ram` when they have no
/// file bytes, else to `.rom` (unless a runtime bucket already holds them).
/// A section sent to a runtime bucket leaves ROM.
pub proof fn lemma_classified_section_placement(p: PlanView, section: ElfSection, name: Seq<char>, has_abs32: bool)
    ensures
        ({
            let q = spec_push_seq(p, classify(section, name, has_abs32));
            let alloc = section.flags & SHF_ALLOC != 0;
            let writable = section.flags & SHF_WRITE != 0;
            let exec = section.flags & SHF_EXECINSTR != 0;
            let nobits = section.sh_type == SHT_NOBITS;
            let arm = starts_with(name, ".ARM.exidx"@) || starts_with(name, ".ARM.extab"@);
            let got = starts_with(name, ".got"@);
            let relro = starts_with(name, ".data.rel.ro"@);
            let kept = alloc && !got && !relro;
            &&& arm ==> q.discard.contains(name) && !q.rom.contains(name)
            &&& !arm && !alloc && has_abs32 ==> q.nonalloc_abs32.contains(name) && q.rom == p.rom
            &&& !arm && !alloc && !has_abs32 ==> q == p
            &&& alloc && got ==> q.got.contains(name) && !q.rom.contains(name) && q.rom_ram == p.rom_ram
                && q.ram == p.ram
            &&& alloc && relro && has_abs32 ==> q.alloc_abs32.contains(name) && q.rom_ram.contains(name)
                && !q.rom.contains(name)
            &&& alloc && relro && !has_abs32 ==> q.rom.contains(name) || q.got.contains(name)
                || q.rom_ram.contains(name) || q.ram.contains(name) || q.discard.contains(name)
            &&& !arm && kept && writable && nobits ==> q.ram.contains(name) && !q.rom.contains(name)
                && q.rom_ram == p.rom_ram && q.got == p.got
            &&& !arm && kept && writable && !nobits ==> q.rom_ram.contains(name) && !q.rom.contains(name)
                && q.ram == p.ram && q.got == p.got
            &&& !arm && kept && !writable && has_abs32 && !exec ==> q.alloc_abs32.contains(name)
                && q.rom_ram.contains(name) && !q.rom.contains(name) && q.ram == p.ram
            &&& !arm && kept && !writable && !(has_abs32 && !exec) && nobits ==> q.ram.contains(name)
                && !q.rom.contains(name) && q.rom_ram == p.rom_ram
            &&& !arm && kept && !writable && !(has_abs32 && !exec) && !nobits ==> (q.rom.contains(name)
                || q.got.contains(name) || q.rom_ram.contains(name) || q.ram.contains(name)
                || q.discard.contains(name)) && q.rom_ram == p.rom_ram && q.ram == p.ram
        }),
{
    lemma_section_prefixes(name);
    let recs = classify(section, name, has_abs32);
    let q = spec_push_seq(p, recs);
    if recs.len() == 0 {
        assert(q == p);
    } else if recs.len() == 1 {
        assert(recs.drop_last() =~= Seq::<(PlanBucket, Seq<char>)>::empty());
        assert(spec_push_seq(p, recs.drop_last()) == p);
        assert(q == spec_push(p, recs[0].0, recs[0].1));
        lemma_push_effect(p, recs[0].0, recs[0].1);
        assert(bucket(q, PlanBucket::RomRam) == bucket(p, PlanBucket::RomRam) || recs[0].0 == PlanBucket::RomRam);
        assert(bucket(q, PlanBucket::Ram) == bucket(p, PlanBucket::Ram) || recs[0].0 == PlanBucket::Ram);
        assert(bucket(q, PlanBucket::Got) == bucket(p, PlanBucket::Got) || recs[0].0 == PlanBucket::Got);
        assert(bucket(q, PlanBucket::NonAllocAbs32) == bucket(p, PlanBucket::NonAllocAbs32) || recs[0].0
            == PlanBucket::NonAllocAbs32);
    } else {
        assert(recs.len() == 2);
        assert(recs.drop_last().drop_last() =~= Seq::<(PlanBucket, Seq<char>)>::empty());
        let q1 = spec_push(p, recs[0].0, recs[0].1);
        assert(recs.drop_last().last() == recs[0]);
        assert(spec_push_seq(p, recs.drop_last().drop_last()) == p);
        assert(spec_push_seq(p, recs.drop_last()) == q1);
        assert(q == spec_push(q1, recs[1].0, recs[1].1));
        lemma_push_effect(p, recs[0].0, recs[0].1);
        lemma_push_effect(q1, recs[1].0, recs[1].1);
        assert(bucket(q1, PlanBucket::Ram) == bucket(p, PlanBucket::Ram));
        assert(bucket(q, PlanBucket::Ram) == bucket(q1, PlanBucket::Ram));
        assert(bucket(q, PlanBucket::AllocAbs32) == bucket(q1, PlanBucket::AllocAbs32));
    }
}

} // verus!

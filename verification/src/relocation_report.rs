//! Which sections of an ELF file take relocations: for each relocation
//! section, its kind, the section it applies to, and how many of its entries
//! match a filter.

use vstd::prelude::*;

use crate::common::{le_word, push_decimal, read_le_word};
use crate::constants;
use crate::elf::{ElfFile, ElfSection, SHT_REL, SHT_RELA};

verus! {

broadcast use vstd::string::group_string_axioms;

/// Which relocation entries are counted.
#[derive(Debug, Clone, Copy, PartialEq, Eq)]
pub enum RelocationFilter {
    Any,
    ArmAbs32Only,
}

/// Why a relocation section could not be read.
#[derive(Debug, Clone, Copy, PartialEq, Eq)]
pub enum CountError {
    EndOverflow,
    BeyondFile,
    TruncatedEntry,
}

/// The entry at `off` is counted: every entry, or only `R_ARM_ABS32` ones
/// (by the low byte of the info word).
pub open spec fn entry_counted(bytes: Seq<u8>, off: int, filter: RelocationFilter) -> bool {
    match filter {
        RelocationFilter::Any => true,
        RelocationFilter::ArmAbs32Only => le_word(bytes, off + 4) & 0xff == constants::R_ARM_ABS32,
    }
}

/// The counted entries from `off` to `end`, stepping by `entsize`, or the
/// first entry that does not fit in the file.
pub open spec fn count_from(bytes: Seq<u8>, off: int, end: int, entsize: int, filter: RelocationFilter) -> Result<
    nat,
    CountError,
>
    decreases if off < end {
        end - off
    } else {
        0
    },
{
    if off < end && entsize > 0 {
        if off + 8 > bytes.len() {
            Err(CountError::TruncatedEntry)
        } else {
            match count_from(bytes, off + entsize, end, entsize, filter) {
                Err(e) => Err(e),
                Ok(n) => Ok(n + if entry_counted(bytes, off, filter) {
                    1nat
                } else {
                    0nat
                }),
            }
        }
    } else {
        Ok(0)
    }
}

/// The counted entries of a relocation section with the given offset, size
/// and entry size; a section with entries of size zero has none.
pub open spec fn spec_count_matching(bytes: Seq<u8>, offset: u64, size: u64, entsize: u64, filter: RelocationFilter) -> Result<
    nat,
    CountError,
> {
    let es = entsize as usize;
    let start = offset as usize;
    let sz = size as usize;
    if es == 0 {
        Ok(0)
    } else if start + sz > usize::MAX {
        Err(CountError::EndOverflow)
    } else if start + sz > bytes.len() {
        Err(CountError::BeyondFile)
    } else {
        count_from(bytes, start as int, start + sz, es as int, filter)
    }
}

/// Counts the entries of a relocation section that the filter keeps.
pub fn count_matching_relocations(
    elf_bytes: &[u8],
    section_offset: u64,
    section_size: u64,
    entry_size: u64,
    filter: RelocationFilter,
) -> (r: Result<usize, CountError>)
    ensures
        match spec_count_matching(elf_bytes@, section_offset, section_size, entry_size, filter) {
            Ok(n) => r matches Ok(c) && c as nat == n,
            Err(e) => r == Err::<usize, CountError>(e),
        },
{
    let entsize = entry_size as usize;
    if entsize == 0 {
        return Ok(0);
    }
    let start = section_offset as usize;
    let size = section_size as usize;
    let end = match start.checked_add(size) {
        Some(v) => v,
        None => {
            return Err(CountError::EndOverflow);
        },
    };
    let len = elf_bytes.len();
    if end > len {
        return Err(CountError::BeyondFile);
    }
    let ghost total = count_from(elf_bytes@, start as int, end as int, entsize as int, filter);
    let mut matches: usize = 0;
    let mut off: usize = start;
    while off < end
        invariant
            start <= off,
            end <= len == elf_bytes@.len(),
            entsize > 0,
            total == spec_count_matching(elf_bytes@, section_offset, section_size, entry_size, filter),
            matches <= off - start,
            total == match count_from(elf_bytes@, off as int, end as int, entsize as int, filter) {
                Ok(n) => Ok::<nat, CountError>(n + matches as nat),
                Err(e) => Err::<nat, CountError>(e),
            },
        decreases usize::MAX - off,
    {
        let ghost here = count_from(elf_bytes@, off as int, end as int, entsize as int, filter);
        let ghost rest = count_from(elf_bytes@, off + entsize, end as int, entsize as int, filter);
        if len < 8 || off > len - 8 {
            assert(here == Err::<nat, CountError>(CountError::TruncatedEntry));
            return Err(CountError::TruncatedEntry);
        }
        assert(here == match rest {
            Err(e) => Err::<nat, CountError>(e),
            Ok(n) => Ok::<nat, CountError>(n + if entry_counted(elf_bytes@, off as int, filter) {
                1nat
            } else {
                0nat
            }),
        });
        let info = read_le_word(elf_bytes, off + 4);
        let keep = match filter {
            RelocationFilter::Any => true,
            RelocationFilter::ArmAbs32Only => info & 0xff == constants::R_ARM_ABS32,
        };
        assert(keep == entry_counted(elf_bytes@, off as int, filter));
        if keep {
            matches = matches + 1;
        }
        match off.checked_add(entsize) {
            Some(next) => {
                off = next;
            },
            None => {
                assert(rest == Ok::<nat, CountError>(0));
                return Ok(matches);
            },
        }
    }
    Ok(matches)
}

/// A relocation section and how many of its entries the filter keeps.
#[derive(Debug, Clone)]
pub struct RelocationRequest {
    pub target_name: String,
    pub relocation_section_name: String,
    pub relocation_kind: &'static str,
    pub entry_count: usize,
}

/// The name of the section a relocation section applies to, or a placeholder
/// with its index.
pub open spec fn target_name_of(elf: ElfFile, index: nat) -> Seq<char> {
    if index < elf.sections@.len() && elf.sections@[index as int].name is Some {
        elf.sections@[index as int].name->Some_0@
    } else {
        "<invalid target section "@ + crate::common::decimal(index) + ">"@
    }
}

/// A section is a relocation section.
pub open spec fn is_relocation_section(s: ElfSection) -> bool {
    s.sh_type == SHT_REL || s.sh_type == SHT_RELA
}

/// The requests of the first `n` sections: the relocation sections whose
/// kept entries are not none, in order; or the first section that cannot be
/// read.
pub open spec fn requests_upto(elf: ElfFile, bytes: Seq<u8>, filter: RelocationFilter, n: int) -> Result<
    Seq<(nat, nat)>,
    CountError,
>
    decreases n,
{
    if n <= 0 {
        Ok(Seq::empty())
    } else {
        match requests_upto(elf, bytes, filter, n - 1) {
            Err(e) => Err(e),
            Ok(found) => {
                let s = elf.sections@[n - 1];
                if !is_relocation_section(s) {
                    Ok(found)
                } else {
                    match spec_count_matching(bytes, s.offset, s.size, s.entsize, filter) {
                        Err(e) => Err(e),
                        Ok(c) => if c == 0 {
                            Ok(found)
                        } else {
                            Ok(found.push(((n - 1) as nat, c)))
                        },
                    }
                }
            },
        }
    }
}

/// What a request says of section `index` with `count` kept entries.
pub open spec fn request_matches(elf: ElfFile, r: RelocationRequest, index: nat, count: nat) -> bool {
    let s = elf.sections@[index as int];
    &&& r.entry_count == count
    &&& r.relocation_section_name@ == match s.name {
        Some(n) => n@,
        None => "<unnamed relocation section>"@,
    }
    &&& r.relocation_kind@ == if s.sh_type == SHT_REL {
        "REL"@
    } else {
        "RELA"@
    }
    &&& r.target_name@ == target_name_of(elf, s.info as nat)
}

fn target_name(elf: &ElfFile, index: usize) -> (r: String)
    ensures
        r@ == target_name_of(*elf, index as nat),
{
    if index < elf.sections.len() {
        match &elf.sections[index].name {
            Some(n) => {
                return n.clone();
            },
            None => {},
        }
    }
    let mut out = "<invalid target section ".to_owned();
    push_decimal(&mut out, index as u64);
    let ghost before = out@;
    let tail = ">";
    let mut i: usize = 0;
    let cs = crate::text::chars_of(tail);
    while i < cs.len()
        invariant
            i <= cs@.len(),
            cs@ == tail@,
            out@ == before + cs@.take(i as int),
        decreases cs@.len() - i,
    {
        out.push(cs[i]);
        assert(cs@.take(i + 1) =~= cs@.take(i as int).push(cs@[i as int]));
        i = i + 1;
    }
    assert(cs@.take(cs@.len() as int) =~= cs@);
    out
}

/// The relocation sections of `elf` with entries the filter keeps, in
/// section order: each with its name (or a placeholder), its kind, the name
/// of the section it applies to (or a placeholder with the index), and the
/// count.
pub fn relocation_requests(elf: &ElfFile, elf_bytes: &[u8], filter: RelocationFilter) -> (r: Result<
    Vec<RelocationRequest>,
    CountError,
>)
    ensures
        match requests_upto(*elf, elf_bytes@, filter, elf.sections@.len() as int) {
            Err(e) => r == Err::<Vec<RelocationRequest>, CountError>(e),
            Ok(found) => r matches Ok(v) && v@.len() == found.len() && forall|k: int|
                0 <= k < found.len() ==> request_matches(*elf, #[trigger] v@[k], found[k].0, found[k].1),
        },
{
    let mut out: Vec<RelocationRequest> = Vec::new();
    let mut i: usize = 0;
    while i < elf.sections.len()
        invariant
            i <= elf.sections@.len(),
            requests_upto(*elf, elf_bytes@, filter, i as int) matches Ok(found) && out@.len() == found.len()
                && forall|k: int| 0 <= k < found.len() ==> request_matches(*elf, #[trigger] out@[k], found[k].0, found[k].1),
        decreases elf.sections@.len() - i,
    {
        let section = &elf.sections[i];
        let ghost found = requests_upto(*elf, elf_bytes@, filter, i as int)->Ok_0;
        assert(elf.sections@[i as int] == *section);
        if section.sh_type == SHT_REL || section.sh_type == SHT_RELA {
            let count = match count_matching_relocations(
                elf_bytes,
                section.offset,
                section.size,
                section.entsize,
                filter,
            ) {
                Ok(c) => c,
                Err(e) => {
                    proof {
                        assert(requests_upto(*elf, elf_bytes@, filter, i + 1) == Err::<Seq<(nat, nat)>, CountError>(e));
                        lemma_requests_err_persists(*elf, elf_bytes@, filter, i + 1, elf.sections@.len() as int);
                    }
                    return Err(e);
                },
            };
            if count > 0 {
                let name = match &section.name {
                    Some(n) => n.clone(),
                    None => "<unnamed relocation section>".to_owned(),
                };
                let kind: &'static str = if section.sh_type == SHT_REL {
                    "REL"
                } else {
                    "RELA"
                };
                let target = target_name(elf, section.info as usize);
                let ghost before = out@;
                out.push(
                    RelocationRequest {
                        target_name: target,
                        relocation_section_name: name,
                        relocation_kind: kind,
                        entry_count: count,
                    },
                );
                proof {
                    let next = found.push((i as nat, count as nat));
                    assert(requests_upto(*elf, elf_bytes@, filter, i + 1) == Ok::<Seq<(nat, nat)>, CountError>(next));
                    assert forall|k: int| 0 <= k < next.len() implies request_matches(
                        *elf,
                        #[trigger] out@[k],
                        next[k].0,
                        next[k].1,
                    ) by {
                        if k < found.len() {
                            assert(out@[k] == before[k]);
                        }
                    }
                }
            } else {
                assert(requests_upto(*elf, elf_bytes@, filter, i + 1) == Ok::<Seq<(nat, nat)>, CountError>(found));
            }
        } else {
            assert(requests_upto(*elf, elf_bytes@, filter, i + 1) == Ok::<Seq<(nat, nat)>, CountError>(found));
        }
        i = i + 1;
    }
    Ok(out)
}

proof fn lemma_requests_err_persists(elf: ElfFile, bytes: Seq<u8>, filter: RelocationFilter, k: int, n: int)
    requires
        0 <= k <= n,
        requests_upto(elf, bytes, filter, k) is Err,
    ensures
        requests_upto(elf, bytes, filter, n) == requests_upto(elf, bytes, filter, k),
    decreases n - k,
{
    if k < n {
        lemma_requests_err_persists(elf, bytes, filter, k, n - 1);
    }
}


// ---------------------------------------------------------------------------
// Requests grouped by target section
// ---------------------------------------------------------------------------
/// What a request says: the target's name, the relocation section's name,
/// its kind and its count.
pub open spec fn request_view(r: RelocationRequest) -> (Seq<char>, Seq<char>, Seq<char>, usize) {
    (r.target_name@, r.relocation_section_name@, r.relocation_kind@, r.entry_count)
}

pub open spec fn request_views(rs: Seq<RelocationRequest>) -> Seq<(Seq<char>, Seq<char>, Seq<char>, usize)> {
    rs.map_values(|r: RelocationRequest| request_view(r))
}

impl RelocationRequest {
    /// A copy of the request.
    pub fn duplicate(&self) -> (r: Self)
        ensures
            request_view(r) == request_view(*self),
    {
        RelocationRequest {
            target_name: self.target_name.clone(),
            relocation_section_name: self.relocation_section_name.clone(),
            relocation_kind: self.relocation_kind,
            entry_count: self.entry_count,
        }
    }
}

/// `a` sorts before `b` by character codes: at the first place they differ,
/// or as a proper prefix. For strings this is the order of their UTF-8 bytes.
pub open spec fn name_less(a: Seq<char>, b: Seq<char>) -> bool
    decreases a.len(),
{
    if b.len() == 0 {
        false
    } else if a.len() == 0 {
        true
    } else if a[0] != b[0] {
        (a[0] as u32) < (b[0] as u32)
    } else {
        name_less(a.drop_first(), b.drop_first())
    }
}

proof fn lemma_name_less_irreflexive(a: Seq<char>)
    ensures
        !name_less(a, a),
    decreases a.len(),
{
    if a.len() > 0 {
        lemma_name_less_irreflexive(a.drop_first());
    }
}

proof fn lemma_name_less_total(a: Seq<char>, b: Seq<char>)
    requires
        a != b,
    ensures
        name_less(a, b) || name_less(b, a),
    decreases a.len(),
{
    if a.len() == 0 {
        if b.len() == 0 {
            assert(a =~= b);
        }
    } else if b.len() == 0 {
    } else if a[0] != b[0] {
        vstd::utf8::char_u32_cast(a[0], a[0] as u32);
        vstd::utf8::char_u32_cast(b[0], b[0] as u32);
    } else {
        if a.drop_first() == b.drop_first() {
            assert(a =~= seq![a[0]] + a.drop_first());
            assert(b =~= seq![b[0]] + b.drop_first());
        }
        lemma_name_less_total(a.drop_first(), b.drop_first());
    }
}

proof fn lemma_name_less_transitive(a: Seq<char>, b: Seq<char>, c: Seq<char>)
    requires
        name_less(a, b),
        name_less(b, c),
    ensures
        name_less(a, c),
    decreases a.len(),
{
    if a.len() > 0 && b.len() > 0 && c.len() > 0 && a[0] == b[0] && b[0] == c[0] {
        lemma_name_less_transitive(a.drop_first(), b.drop_first(), c.drop_first());
    }
}

/// Compares two names by `name_less`.
pub fn name_before(a: &String, b: &String) -> (r: bool)
    ensures
        r == name_less(a@, b@),
{
    let x = crate::text::chars_of(a.as_str());
    let y = crate::text::chars_of(b.as_str());
    let mut i: usize = 0;
    assert(x@.skip(0) =~= x@ && y@.skip(0) =~= y@);
    while i < x.len() && i < y.len()
        invariant
            i <= x@.len(),
            i <= y@.len(),
            x@ == a@,
            y@ == b@,
            name_less(a@, b@) == name_less(x@.skip(i as int), y@.skip(i as int)),
        decreases x@.len() - i,
    {
        let ghost xs = x@.skip(i as int);
        let ghost ys = y@.skip(i as int);
        assert(xs[0] == x@[i as int] && ys[0] == y@[i as int]);
        if x[i] != y[i] {
            return (x[i] as u32) < (y[i] as u32);
        }
        assert(xs.drop_first() =~= x@.skip(i + 1));
        assert(ys.drop_first() =~= y@.skip(i + 1));
        i = i + 1;
    }
    i < y.len()
}

/// The names sort strictly upward, so none occurs twice.
pub open spec fn strictly_sorted(names: Seq<Seq<char>>) -> bool {
    forall|i: int, j: int| 0 <= i < j < names.len() ==> name_less(#[trigger] names[i], #[trigger] names[j])
}

/// The target names of the first `n` requests, each once, in order.
pub open spec fn target_names(rs: Seq<RelocationRequest>) -> Seq<Seq<char>> {
    rs.map_values(|r: RelocationRequest| r.target_name@)
}

/// The requests among the first `n` whose target is `name`, in order.
pub open spec fn requests_for(rs: Seq<RelocationRequest>, name: Seq<char>, n: int) -> Seq<
    (Seq<char>, Seq<char>, Seq<char>, usize),
>
    decreases n,
{
    if n <= 0 {
        Seq::empty()
    } else if rs[n - 1].target_name@ == name {
        requests_for(rs, name, n - 1).push(request_view(rs[n - 1]))
    } else {
        requests_for(rs, name, n - 1)
    }
}

proof fn lemma_requests_for_nonempty(rs: Seq<RelocationRequest>, name: Seq<char>, w: int, n: int)
    requires
        0 <= w < n <= rs.len(),
        rs[w].target_name@ == name,
    ensures
        requests_for(rs, name, n).len() > 0,
    decreases n,
{
    if n - 1 > w {
        lemma_requests_for_nonempty(rs, name, w, n - 1);
    }
}

/// The requests of one target section.
#[derive(Debug, Clone)]
pub struct TargetGroup {
    pub target_name: String,
    pub requests: Vec<RelocationRequest>,
}

fn sorted_target_names(requests: &Vec<RelocationRequest>) -> (r: Vec<String>)
    ensures
        strictly_sorted(target_names_of_strings(r@)),
        forall|k: int| 0 <= k < requests@.len() ==> target_names_of_strings(r@).contains(
            #[trigger] requests@[k].target_name@,
        ),
        forall|i: int| 0 <= i < r@.len() ==> target_names(requests@).contains(#[trigger] r@[i]@),
{
    let mut out: Vec<String> = Vec::new();
    let mut k: usize = 0;
    while k < requests.len()
        invariant
            k <= requests@.len(),
            strictly_sorted(target_names_of_strings(out@)),
            forall|q: int| 0 <= q < k ==> target_names_of_strings(out@).contains(
                #[trigger] requests@[q].target_name@,
            ),
            forall|i: int| 0 <= i < out@.len() ==> target_names(requests@).contains(#[trigger] out@[i]@),
        decreases requests@.len() - k,
    {
        let name = &requests[k].target_name;
        let ghost x = name@;
        let ghost before = out@;
        assert(target_names(requests@)[k as int] == x);
        let mut p: usize = 0;
        loop
            invariant
                p <= out@.len(),
                out@ == before,
                x == name@,
                forall|i: int| 0 <= i < p ==> name_less(#[trigger] target_names_of_strings(out@)[i], x),
            ensures
                p <= out@.len(),
                out@ == before,
                forall|i: int| 0 <= i < p ==> name_less(#[trigger] target_names_of_strings(out@)[i], x),
                p < out@.len() ==> !name_less(out@[p as int]@, x),
            decreases out@.len() - p,
        {
            if p >= out.len() {
                break;
            }
            if !name_before(&out[p], name) {
                break;
            }
            assert(target_names_of_strings(out@)[p as int] == out@[p as int]@);
            p = p + 1;
        }
        let present = p < out.len() && crate::section_plan::eq_chars(&out[p], name.as_str());
        if !present {
            let ghost old_names = target_names_of_strings(before);
            out.insert(p, name.clone());
            proof {
                let nn = target_names_of_strings(out@);
                assert(nn =~= old_names.insert(p as int, x));
                if p < before.len() {
                    assert(old_names[p as int] == before[p as int]@);
                    assert(!name_less(old_names[p as int], x));
                    assert(old_names[p as int] != x);
                    lemma_name_less_total(old_names[p as int], x);
                }
                assert forall|i: int, j: int| 0 <= i < j < nn.len() implies name_less(
                    #[trigger] nn[i],
                    #[trigger] nn[j],
                ) by {
                    if j < p {
                        assert(nn[i] == old_names[i] && nn[j] == old_names[j]);
                    } else if j == p {
                        assert(nn[i] == old_names[i]);
                    } else if i == p {
                        assert(nn[j] == old_names[j - 1]);
                        if j - 1 > p {
                            lemma_name_less_transitive(x, old_names[p as int], old_names[j - 1]);
                        }
                    } else if i < p {
                        assert(nn[i] == old_names[i] && nn[j] == old_names[j - 1]);
                    } else {
                        assert(nn[i] == old_names[i - 1] && nn[j] == old_names[j - 1]);
                    }
                }
                assert forall|q: int| 0 <= q < k + 1 implies nn.contains(
                    #[trigger] requests@[q].target_name@,
                ) by {
                    if q == k {
                        assert(nn[p as int] == x);
                    } else {
                        let w = choose|w: int| 0 <= w < old_names.len() && old_names[w] == requests@[q].target_name@;
                        if w < p {
                            assert(nn[w] == old_names[w]);
                        } else {
                            assert(nn[w + 1] == old_names[w]);
                        }
                    }
                }
                assert forall|i: int| 0 <= i < out@.len() implies target_names(requests@).contains(
                    #[trigger] out@[i]@,
                ) by {
                    if i < p {
                        assert(out@[i] == before[i]);
                    } else if i > p {
                        assert(out@[i] == before[i - 1]);
                    }
                }
            }
        } else {
            proof {
                let nn = target_names_of_strings(out@);
                assert(nn[p as int] == x);
                assert forall|q: int| 0 <= q < k + 1 implies nn.contains(
                    #[trigger] requests@[q].target_name@,
                ) by {
                    if q == k {
                        assert(nn[p as int] == requests@[q].target_name@);
                    }
                }
            }
        }
        k = k + 1;
    }
    out
}

pub open spec fn target_names_of_strings(s: Seq<String>) -> Seq<Seq<char>> {
    s.map_values(|n: String| n@)
}

fn requests_with_target(requests: &Vec<RelocationRequest>, name: &String) -> (r: Vec<RelocationRequest>)
    ensures
        request_views(r@) == requests_for(requests@, name@, requests@.len() as int),
{
    let mut out: Vec<RelocationRequest> = Vec::new();
    let mut k: usize = 0;
    while k < requests.len()
        invariant
            k <= requests@.len(),
            request_views(out@) == requests_for(requests@, name@, k as int),
        decreases requests@.len() - k,
    {
        if crate::section_plan::eq_chars(&requests[k].target_name, name.as_str()) {
            let d = requests[k].duplicate();
            let ghost before = out@;
            out.push(d);
            assert(request_views(out@) =~= request_views(before).push(request_view(requests@[k as int])));
        }
        k = k + 1;
    }
    out
}

/// The target names of groups, in order.
pub open spec fn group_names(g: Seq<TargetGroup>) -> Seq<Seq<char>> {
    g.map_values(|t: TargetGroup| t.target_name@)
}

/// The requests grouped by target section, the groups in the order of their
/// names (`name_less`), each group's requests in their own order: every
/// target occurs in one group, and no group is empty.
pub fn group_by_target(requests: &Vec<RelocationRequest>) -> (r: Vec<TargetGroup>)
    ensures
        strictly_sorted(group_names(r@)),
        forall|k: int| 0 <= k < requests@.len() ==> group_names(r@).contains(
            #[trigger] requests@[k].target_name@,
        ),
        forall|i: int| 0 <= i < r@.len() ==> target_names(requests@).contains(#[trigger] r@[i].target_name@),
        forall|i: int| 0 <= i < r@.len() ==> request_views(#[trigger] r@[i].requests@) == requests_for(
            requests@,
            r@[i].target_name@,
            requests@.len() as int,
        ),
        forall|i: int| 0 <= i < r@.len() ==> (#[trigger] r@[i].requests@).len() > 0,
{
    let names = sorted_target_names(requests);
    let mut out: Vec<TargetGroup> = Vec::new();
    let mut i: usize = 0;
    while i < names.len()
        invariant
            i <= names@.len(),
            out@.len() == i,
            forall|j: int| 0 <= j < i ==> (#[trigger] out@[j]).target_name@ == names@[j]@,
            forall|j: int| 0 <= j < i ==> request_views(#[trigger] out@[j].requests@) == requests_for(
                requests@,
                out@[j].target_name@,
                requests@.len() as int,
            ),
        decreases names@.len() - i,
    {
        let group = TargetGroup {
            target_name: names[i].clone(),
            requests: requests_with_target(requests, &names[i]),
        };
        out.push(group);
        i = i + 1;
    }
    proof {
        assert(group_names(out@) =~= target_names_of_strings(names@));
        assert forall|i: int| 0 <= i < out@.len() implies target_names(requests@).contains(
            #[trigger] out@[i].target_name@,
        ) by {
            assert(out@[i].target_name@ == names@[i]@);
        }
        assert forall|i: int| 0 <= i < out@.len() implies (#[trigger] out@[i].requests@).len() > 0 by {
            assert(out@[i].target_name@ == names@[i]@);
            assert(target_names(requests@).contains(out@[i].target_name@));
            let w = choose|w: int| 0 <= w < target_names(requests@).len() && target_names(requests@)[w]
                == out@[i].target_name@;
            lemma_requests_for_nonempty(requests@, out@[i].target_name@, w, requests@.len() as int);
            assert(request_views(out@[i].requests@).len() == out@[i].requests@.len());
        }
    }
    out
}


// ---------------------------------------------------------------------------
// Entry listing
// ---------------------------------------------------------------------------
/// One relocation entry as a listing shows it: the offset word, the type
/// (low byte of the info word), the symbol's name and the name of the
/// section the symbol lies in.
#[derive(Debug, Clone)]
pub struct DumpEntry {
    pub offset: u32,
    pub r_type: u32,
    pub symbol_name: String,
    pub symbol_section: String,
}

pub open spec fn dump_entry_view(e: DumpEntry) -> (u32, u32, Seq<char>, Seq<char>) {
    (e.offset, e.r_type, e.symbol_name@, e.symbol_section@)
}

/// The symbol an info word refers to has a name.
pub open spec fn symbol_named(elf: ElfFile, si: int) -> bool {
    0 <= si < elf.symbols@.len() && elf.symbols@[si].name is Some
}

/// The symbol an info word refers to lies in a section with a name.
pub open spec fn symbol_section_named(elf: ElfFile, si: int) -> bool {
    &&& 0 <= si < elf.symbols@.len()
    &&& elf.symbols@[si].shndx < elf.sections@.len()
    &&& elf.sections@[elf.symbols@[si].shndx as int].name is Some
}

/// The entry at `off`: its offset word, type, symbol name (or
/// `<no-symbol>`) and symbol section name (or `<no-section>`).
pub open spec fn entry_at(elf: ElfFile, bytes: Seq<u8>, off: int) -> (u32, u32, Seq<char>, Seq<char>) {
    let info = le_word(bytes, off + 4);
    let si = (info >> 8u32) as int;
    (
        le_word(bytes, off),
        info & 0xff,
        if symbol_named(elf, si) {
            elf.symbols@[si].name->Some_0@
        } else {
            "<no-symbol>"@
        },
        if symbol_section_named(elf, si) {
            elf.sections@[elf.symbols@[si].shndx as int].name->Some_0@
        } else {
            "<no-section>"@
        },
    )
}

/// The listed entries from `off` to `end`, stepping by `entsize`, or the
/// first entry that does not fit in the file.
pub open spec fn dump_from(elf: ElfFile, bytes: Seq<u8>, off: int, end: int, entsize: int, filter: RelocationFilter) -> Result<
    Seq<(u32, u32, Seq<char>, Seq<char>)>,
    CountError,
>
    decreases if off < end {
        end - off
    } else {
        0
    },
{
    if off < end && entsize > 0 {
        if off + 8 > bytes.len() {
            Err(CountError::TruncatedEntry)
        } else {
            match dump_from(elf, bytes, off + entsize, end, entsize, filter) {
                Err(e) => Err(e),
                Ok(rest) => Ok(if entry_counted(bytes, off, filter) {
                    seq![entry_at(elf, bytes, off)] + rest
                } else {
                    rest
                }),
            }
        }
    } else {
        Ok(Seq::empty())
    }
}

/// The listed entries of a relocation section, under the same bounds as
/// `spec_count_matching`.
pub open spec fn spec_dump_section(elf: ElfFile, bytes: Seq<u8>, s: ElfSection, filter: RelocationFilter) -> Result<
    Seq<(u32, u32, Seq<char>, Seq<char>)>,
    CountError,
> {
    let start = s.offset as usize;
    let sz = s.size as usize;
    if start + sz > usize::MAX {
        Err(CountError::EndOverflow)
    } else if start + sz > bytes.len() {
        Err(CountError::BeyondFile)
    } else {
        dump_from(elf, bytes, start as int, start + sz, s.entsize as usize as int, filter)
    }
}

/// The listings of the first `n` sections: each relocation section with
/// entries of nonzero size, with its index and entries, in order.
pub open spec fn dumps_upto(elf: ElfFile, bytes: Seq<u8>, filter: RelocationFilter, n: int) -> Result<
    Seq<(nat, Seq<(u32, u32, Seq<char>, Seq<char>)>)>,
    CountError,
>
    decreases n,
{
    if n <= 0 {
        Ok(Seq::empty())
    } else {
        match dumps_upto(elf, bytes, filter, n - 1) {
            Err(e) => Err(e),
            Ok(found) => {
                let s = elf.sections@[n - 1];
                if !is_relocation_section(s) || s.entsize as usize == 0 {
                    Ok(found)
                } else {
                    match spec_dump_section(elf, bytes, s, filter) {
                        Err(e) => Err(e),
                        Ok(es) => Ok(found.push(((n - 1) as nat, es))),
                    }
                }
            },
        }
    }
}

/// The listing of one relocation section.
#[derive(Debug, Clone)]
pub struct DumpSection {
    pub relocation_section_name: String,
    pub target_name: String,
    pub relocation_kind: &'static str,
    pub entries: Vec<DumpEntry>,
}

/// What a listing says of section `index` with entries `es`.
pub open spec fn dump_matches(elf: ElfFile, d: DumpSection, index: nat, es: Seq<(u32, u32, Seq<char>, Seq<char>)>) -> bool {
    let s = elf.sections@[index as int];
    &&& d.relocation_section_name@ == match s.name {
        Some(n) => n@,
        None => "<unnamed relocation section>"@,
    }
    &&& d.relocation_kind@ == if s.sh_type == SHT_REL {
        "REL"@
    } else {
        "RELA"@
    }
    &&& d.target_name@ == if s.info < elf.sections@.len() && elf.sections@[s.info as int].name is Some {
        elf.sections@[s.info as int].name->Some_0@
    } else {
        "<invalid target>"@
    }
    &&& d.entries@.map_values(|e: DumpEntry| dump_entry_view(e)) == es
}

fn name_or(name: &Option<String>, fallback: &str) -> (r: String)
    ensures
        r@ == match name {
            Some(n) => n@,
            None => fallback@,
        },
{
    match name {
        Some(n) => n.clone(),
        None => fallback.to_owned(),
    }
}

fn entry_at_exec(elf: &ElfFile, bytes: &[u8], off: usize) -> (r: DumpEntry)
    requires
        off + 8 <= bytes@.len(),
    ensures
        dump_entry_view(r) == entry_at(*elf, bytes@, off as int),
{
    let len = bytes.len();
    assert(off + 4 <= len);
    let offset = read_le_word(bytes, off);
    let info = read_le_word(bytes, off + 4);
    let si = (info >> 8u32) as usize;
    let symbol_name = if si < elf.symbols.len() {
        name_or(&elf.symbols[si].name, "<no-symbol>")
    } else {
        "<no-symbol>".to_owned()
    };
    let mut symbol_section = "<no-section>".to_owned();
    if si < elf.symbols.len() {
        let shndx = elf.symbols[si].shndx;
        if shndx < elf.sections.len() {
            symbol_section = name_or(&elf.sections[shndx].name, "<no-section>");
        }
    }
    DumpEntry { offset, r_type: info & 0xff, symbol_name, symbol_section }
}

fn dump_section(elf: &ElfFile, bytes: &[u8], s: &ElfSection, filter: RelocationFilter) -> (r: Result<
    Vec<DumpEntry>,
    CountError,
>)
    requires
        s.entsize as usize > 0,
    ensures
        match spec_dump_section(*elf, bytes@, *s, filter) {
            Ok(es) => r matches Ok(v) && v@.map_values(|e: DumpEntry| dump_entry_view(e)) == es,
            Err(e) => r == Err::<Vec<DumpEntry>, CountError>(e),
        },
{
    let entsize = s.entsize as usize;
    let start = s.offset as usize;
    let size = s.size as usize;
    let end = match start.checked_add(size) {
        Some(v) => v,
        None => {
            return Err(CountError::EndOverflow);
        },
    };
    let len = bytes.len();
    if end > len {
        return Err(CountError::BeyondFile);
    }
    let ghost total = dump_from(*elf, bytes@, start as int, end as int, entsize as int, filter);
    let mut out: Vec<DumpEntry> = Vec::new();
    let mut off: usize = start;
    while off < end
        invariant
            start <= off,
            end <= len == bytes@.len(),
            entsize > 0,
            total == spec_dump_section(*elf, bytes@, *s, filter),
            total == match dump_from(*elf, bytes@, off as int, end as int, entsize as int, filter) {
                Ok(rest) => Ok::<Seq<(u32, u32, Seq<char>, Seq<char>)>, CountError>(
                    out@.map_values(|e: DumpEntry| dump_entry_view(e)) + rest,
                ),
                Err(e) => Err::<Seq<(u32, u32, Seq<char>, Seq<char>)>, CountError>(e),
            },
        decreases usize::MAX - off,
    {
        let ghost here = dump_from(*elf, bytes@, off as int, end as int, entsize as int, filter);
        let ghost rest = dump_from(*elf, bytes@, off + entsize, end as int, entsize as int, filter);
        let ghost seen = out@.map_values(|e: DumpEntry| dump_entry_view(e));
        if len < 8 || off > len - 8 {
            assert(here == Err::<Seq<(u32, u32, Seq<char>, Seq<char>)>, CountError>(CountError::TruncatedEntry));
            return Err(CountError::TruncatedEntry);
        }
        let info = read_le_word(bytes, off + 4);
        let keep = match filter {
            RelocationFilter::Any => true,
            RelocationFilter::ArmAbs32Only => info & 0xff == constants::R_ARM_ABS32,
        };
        assert(keep == entry_counted(bytes@, off as int, filter));
        if keep {
            let e = entry_at_exec(elf, bytes, off);
            out.push(e);
            proof {
                assert(out@.map_values(|e: DumpEntry| dump_entry_view(e)) =~= seen.push(entry_at(*elf, bytes@, off as int)));
                if let Ok(rs) = rest {
                    assert(seen + (seq![entry_at(*elf, bytes@, off as int)] + rs) =~= seen.push(entry_at(*elf, bytes@, off as int)) + rs);
                }
            }
        }
        match off.checked_add(entsize) {
            Some(next) => {
                off = next;
            },
            None => {
                assert(rest == Ok::<Seq<(u32, u32, Seq<char>, Seq<char>)>, CountError>(Seq::empty()));
                assert(out@.map_values(|e: DumpEntry| dump_entry_view(e)) + Seq::empty() =~= out@.map_values(|e: DumpEntry| dump_entry_view(e)));
                return Ok(out);
            },
        }
    }
    assert(out@.map_values(|e: DumpEntry| dump_entry_view(e)) + Seq::empty() =~= out@.map_values(|e: DumpEntry| dump_entry_view(e)));
    Ok(out)
}

/// The listing of every relocation section with entries of nonzero size, in
/// section order: its name (or a placeholder), the name of the section it
/// applies to (or a placeholder), its kind, and the entries the filter keeps.
pub fn relocation_dump(elf: &ElfFile, elf_bytes: &[u8], filter: RelocationFilter) -> (r: Result<
    Vec<DumpSection>,
    CountError,
>)
    ensures
        match dumps_upto(*elf, elf_bytes@, filter, elf.sections@.len() as int) {
            Err(e) => r == Err::<Vec<DumpSection>, CountError>(e),
            Ok(found) => r matches Ok(v) && v@.len() == found.len() && forall|k: int|
                0 <= k < found.len() ==> dump_matches(*elf, #[trigger] v@[k], found[k].0, found[k].1),
        },
{
    let mut out: Vec<DumpSection> = Vec::new();
    let mut i: usize = 0;
    while i < elf.sections.len()
        invariant
            i <= elf.sections@.len(),
            dumps_upto(*elf, elf_bytes@, filter, i as int) matches Ok(found) && out@.len() == found.len()
                && forall|k: int| 0 <= k < found.len() ==> dump_matches(*elf, #[trigger] out@[k], found[k].0, found[k].1),
        decreases elf.sections@.len() - i,
    {
        let section = &elf.sections[i];
        let ghost found = dumps_upto(*elf, elf_bytes@, filter, i as int)->Ok_0;
        assert(elf.sections@[i as int] == *section);
        if (section.sh_type == SHT_REL || section.sh_type == SHT_RELA) && section.entsize as usize != 0 {
            let entries = match dump_section(elf, elf_bytes, section, filter) {
                Ok(v) => v,
                Err(e) => {
                    proof {
                        assert(dumps_upto(*elf, elf_bytes@, filter, i + 1) == Err::<Seq<(nat, Seq<(u32, u32, Seq<char>, Seq<char>)>)>, CountError>(e));
                        lemma_dumps_err_persists(*elf, elf_bytes@, filter, i + 1, elf.sections@.len() as int);
                    }
                    return Err(e);
                },
            };
            let kind: &'static str = if section.sh_type == SHT_REL {
                "REL"
            } else {
                "RELA"
            };
            let ti = section.info as usize;
            let target = if ti < elf.sections.len() {
                name_or(&elf.sections[ti].name, "<invalid target>")
            } else {
                "<invalid target>".to_owned()
            };
            let ghost es = entries@.map_values(|e: DumpEntry| dump_entry_view(e));
            let ghost before = out@;
            out.push(
                DumpSection {
                    relocation_section_name: name_or(&section.name, "<unnamed relocation section>"),
                    target_name: target,
                    relocation_kind: kind,
                    entries,
                },
            );
            proof {
                let next = found.push((i as nat, es));
                assert(dumps_upto(*elf, elf_bytes@, filter, i + 1) == Ok::<Seq<(nat, Seq<(u32, u32, Seq<char>, Seq<char>)>)>, CountError>(next));
                assert forall|k: int| 0 <= k < next.len() implies dump_matches(
                    *elf,
                    #[trigger] out@[k],
                    next[k].0,
                    next[k].1,
                ) by {
                    if k < found.len() {
                        assert(out@[k] == before[k]);
                    }
                }
            }
        } else {
            assert(dumps_upto(*elf, elf_bytes@, filter, i + 1) == Ok::<Seq<(nat, Seq<(u32, u32, Seq<char>, Seq<char>)>)>, CountError>(found));
        }
        i = i + 1;
    }
    Ok(out)
}

proof fn lemma_dumps_err_persists(elf: ElfFile, bytes: Seq<u8>, filter: RelocationFilter, k: int, n: int)
    requires
        0 <= k <= n,
        dumps_upto(elf, bytes, filter, k) is Err,
    ensures
        dumps_upto(elf, bytes, filter, n) == dumps_upto(elf, bytes, filter, k),
    decreases n - k,
{
    if k < n {
        lemma_dumps_err_persists(elf, bytes, filter, k, n - 1);
    }
}

} // verus!

//! What the text form of a section plan keeps: a well-formed plan reads back
//! as itself, and recording a section keeps a plan well formed.

use vstd::prelude::*;

use crate::section_plan::{
    bucket, bucket_name, bucket_named, bucket_text, empty_plan, is_runtime_bucket,
    lemma_bucket_name_round_trip, parse_lines, plan_text, spec_push, with_bucket, without,
    PlanBucket, PlanView,
};
use crate::text::{
    find_char, is_white_space, leading_white_space, lemma_find_char, line_scan, lines,
    trailing_white_space, trimmed,
};

verus! {

/// A section name the text form carries: not empty, on one line, and not
/// ending in white space.
pub open spec fn clean_section_name(v: Seq<char>) -> bool {
    &&& v.len() > 0
    &&& !v.contains('\n')
    &&& !is_white_space(v.last())
}

/// A bucket that names each section once, each by a clean name.
pub open spec fn clean_bucket(s: Seq<Seq<char>>) -> bool {
    &&& s.no_duplicates()
    &&& forall|i: int| 0 <= i < s.len() ==> clean_section_name(#[trigger] s[i])
}

/// No name is in both `a` and `b`.
pub open spec fn apart(a: Seq<Seq<char>>, b: Seq<Seq<char>>) -> bool {
    forall|x: Seq<char>| #[trigger] a.contains(x) ==> !b.contains(x)
}

/// A plan as recording sections keeps it: clean buckets, and no section in
/// ROM that a runtime bucket holds.
pub open spec fn plan_well_formed(p: PlanView) -> bool {
    &&& clean_bucket(p.rom)
    &&& clean_bucket(p.got)
    &&& clean_bucket(p.rom_ram)
    &&& clean_bucket(p.ram)
    &&& clean_bucket(p.discard)
    &&& clean_bucket(p.alloc_abs32)
    &&& clean_bucket(p.nonalloc_abs32)
    &&& apart(p.rom, p.got)
    &&& apart(p.rom, p.rom_ram)
    &&& apart(p.rom, p.ram)
    &&& apart(p.rom, p.discard)
}

// ---------------------------------------------------------------------------
// Recording a section keeps a plan well formed
// ---------------------------------------------------------------------------
/// What `without` keeps of a sequence of names.
pub proof fn lemma_without_contains(s: Seq<Seq<char>>, v: Seq<char>)
    ensures
        forall|x: Seq<char>| #[trigger] without(s, v).contains(x) <==> (s.contains(x) && x != v),
        s.no_duplicates() ==> without(s, v).no_duplicates(),
        !s.contains(v) ==> without(s, v) == s,
    decreases s.len(),
{
    broadcast use Seq::lemma_filter_push;

    if s.len() > 0 {
        let t = s.drop_last();
        let e = s.last();
        lemma_without_contains(t, v);
        assert(t.push(e) =~= s);
        assert forall|x: Seq<char>| #[trigger] without(s, v).contains(x) <==> (s.contains(x) && x != v) by {
            if s.contains(x) && x != v {
                let k = choose|k: int| 0 <= k < s.len() && s[k] == x;
                if k < t.len() {
                    assert(t[k] == x);
                    assert(t.contains(x));
                }
            }
            if t.contains(x) {
                let k = choose|k: int| 0 <= k < t.len() && t[k] == x;
                assert(s[k] == x);
            }
            if without(s, v).contains(x) && !without(t, v).contains(x) {
                assert(without(s, v) == without(t, v).push(e));
                let k = choose|k: int| 0 <= k < without(s, v).len() && without(s, v)[k] == x;
                assert(k == without(t, v).len());
            }
            if without(t, v).contains(x) {
                let k = choose|k: int| 0 <= k < without(t, v).len() && without(t, v)[k] == x;
                if e != v {
                    assert(without(s, v)[k] == x);
                }
            }
            if x == e && e != v {
                assert(without(s, v) == without(t, v).push(e));
                assert(without(s, v)[without(t, v).len() as int] == x);
            }
        }
        if s.no_duplicates() && e != v {
            assert(!t.contains(e)) by {
                if t.contains(e) {
                    let k = choose|k: int| 0 <= k < t.len() && t[k] == e;
                    assert(s[k] == s[s.len() - 1]);
                }
            }
            lemma_push_no_duplicates(without(t, v), e);
        }
        if !s.contains(v) {
            assert(!t.contains(v)) by {
                if t.contains(v) {
                    let k = choose|k: int| 0 <= k < t.len() && t[k] == v;
                    assert(s[k] == v);
                }
            }
            assert(s[s.len() - 1] != v);
        }
    } else {
        assert(without(s, v) =~= s);
    }
}

/// Appending a name not yet held keeps a sequence free of duplicates.
pub proof fn lemma_push_no_duplicates(s: Seq<Seq<char>>, v: Seq<char>)
    requires
        s.no_duplicates(),
        !s.contains(v),
    ensures
        s.push(v).no_duplicates(),
{
    assert forall|i: int, j: int|
        0 <= i < s.push(v).len() && 0 <= j < s.push(v).len() && i != j implies s.push(v)[i] != s.push(
            v,
        )[j] by {
        if i < s.len() && j < s.len() {
            assert(s[i] != s[j]);
        } else if i == s.len() {
            assert(s[j] == s.push(v)[j]);
        } else {
            assert(s[i] == s.push(v)[i]);
        }
    }
}

/// The names of a sequence with one name appended.
pub proof fn lemma_push_contains(s: Seq<Seq<char>>, v: Seq<char>)
    ensures
        forall|x: Seq<char>| #[trigger] s.push(v).contains(x) <==> (s.contains(x) || x == v),
{
    assert forall|x: Seq<char>| #[trigger] s.push(v).contains(x) <==> (s.contains(x) || x == v) by {
        if s.contains(x) {
            let k = choose|k: int| 0 <= k < s.len() && s[k] == x;
            assert(s.push(v)[k] == x);
        }
        if x == v {
            assert(s.push(v)[s.len() as int] == x);
        }
        if s.push(v).contains(x) {
            let k = choose|k: int| 0 <= k < s.push(v).len() && s.push(v)[k] == x;
            if k < s.len() {
                assert(s[k] == x);
            }
        }
    }
}

proof fn lemma_clean_push(s: Seq<Seq<char>>, v: Seq<char>)
    requires
        clean_bucket(s),
        clean_section_name(v),
    ensures
        clean_bucket(if s.contains(v) { s } else { s.push(v) }),
{
    if !s.contains(v) {
        lemma_push_no_duplicates(s, v);
        assert forall|i: int| 0 <= i < s.push(v).len() implies clean_section_name(#[trigger] s.push(v)[i]) by {
            if i < s.len() {
                assert(s.push(v)[i] == s[i]);
            }
        }
    }
}

proof fn lemma_clean_without(s: Seq<Seq<char>>, v: Seq<char>)
    requires
        clean_bucket(s),
    ensures
        clean_bucket(without(s, v)),
{
    lemma_without_contains(s, v);
    assert forall|i: int| 0 <= i < without(s, v).len() implies clean_section_name(#[trigger] without(s, v)[i]) by {
        assert(without(s, v).contains(without(s, v)[i]));
        let x = without(s, v)[i];
        assert(s.contains(x));
        let k = choose|k: int| 0 <= k < s.len() && s[k] == x;
        assert(clean_section_name(s[k]));
    }
}

/// Recording a clean section name keeps a plan well formed: no bucket names
/// a section twice, and ROM never holds a section a runtime bucket holds.
pub proof fn lemma_push_keeps_plan_well_formed(p: PlanView, b: PlanBucket, v: Seq<char>)
    requires
        plan_well_formed(p),
        clean_section_name(v),
    ensures
        plan_well_formed(spec_push(p, b, v)),
{
    lemma_without_contains(p.rom, v);
    lemma_clean_without(p.rom, v);
    let refused = b is Rom && (p.got.contains(v) || p.rom_ram.contains(v) || p.ram.contains(v)
        || p.discard.contains(v));
    if !refused {
        let p1 = if is_runtime_bucket(b) {
            PlanView { rom: without(p.rom, v), ..p }
        } else {
            p
        };
        assert(plan_well_formed(p1));
        let s = bucket(p1, b);
        lemma_clean_push(s, v);
        lemma_push_contains(s, v);
        let q = spec_push(p, b, v);
        assert(q == (if s.contains(v) { p1 } else { with_bucket(p1, b, s.push(v)) }));
    }
}

// ---------------------------------------------------------------------------
// The text form reads back
// ---------------------------------------------------------------------------
/// The sections of a bucket, each with the bucket.
pub open spec fn bucket_entries(b: PlanBucket, vs: Seq<Seq<char>>) -> Seq<(PlanBucket, Seq<char>)> {
    vs.map_values(|v: Seq<char>| (b, v))
}

/// The sections of a plan in the order of the text form.
pub open spec fn plan_entries(p: PlanView) -> Seq<(PlanBucket, Seq<char>)> {
    bucket_entries(PlanBucket::Rom, p.rom) + bucket_entries(PlanBucket::Got, p.got) + bucket_entries(
        PlanBucket::RomRam,
        p.rom_ram,
    ) + bucket_entries(PlanBucket::Ram, p.ram) + bucket_entries(PlanBucket::Discard, p.discard)
        + bucket_entries(PlanBucket::AllocAbs32, p.alloc_abs32) + bucket_entries(
        PlanBucket::NonAllocAbs32,
        p.nonalloc_abs32,
    )
}

/// The line of an entry, without its newline.
pub open spec fn entry_line(e: (PlanBucket, Seq<char>)) -> Seq<char> {
    bucket_name(e.0) + seq!['\t'] + e.1
}

/// Lines, each followed by a newline.
pub open spec fn joined(ls: Seq<Seq<char>>) -> Seq<char>
    decreases ls.len(),
{
    if ls.len() == 0 {
        Seq::empty()
    } else {
        joined(ls.drop_last()) + ls.last() + seq!['\n']
    }
}

/// The plan after recording the entries in order.
pub open spec fn push_entries(p: PlanView, es: Seq<(PlanBucket, Seq<char>)>) -> PlanView
    decreases es.len(),
{
    if es.len() == 0 {
        p
    } else {
        spec_push(push_entries(p, es.drop_last()), es.last().0, es.last().1)
    }
}

proof fn lemma_joined_concat(a: Seq<Seq<char>>, b: Seq<Seq<char>>)
    ensures
        joined(a + b) == joined(a) + joined(b),
    decreases b.len(),
{
    if b.len() == 0 {
        assert(a + b =~= a);
        assert(joined(a) + joined(b) =~= joined(a));
    } else {
        lemma_joined_concat(a, b.drop_last());
        assert((a + b).drop_last() =~= a + b.drop_last());
        assert(joined(a + b) =~= joined(a) + joined(b));
    }
}

proof fn lemma_bucket_text_joined(b: PlanBucket, vs: Seq<Seq<char>>)
    ensures
        bucket_text(b, vs) == joined(bucket_entries(b, vs).map_values(|e: (PlanBucket, Seq<char>)| entry_line(e))),
    decreases vs.len(),
{
    let f = |e: (PlanBucket, Seq<char>)| entry_line(e);
    if vs.len() > 0 {
        lemma_bucket_text_joined(b, vs.drop_last());
        let ls = bucket_entries(b, vs).map_values(f);
        assert(ls.drop_last() =~= bucket_entries(b, vs.drop_last()).map_values(f));
        assert(ls.last() == entry_line((b, vs.last())));
        assert(bucket_text(b, vs) =~= joined(ls));
    } else {
        assert(bucket_entries(b, vs).map_values(f) =~= Seq::<Seq<char>>::empty());
    }
}

proof fn lemma_plan_text_joined(p: PlanView)
    ensures
        plan_text(p) == joined(plan_entries(p).map_values(|e: (PlanBucket, Seq<char>)| entry_line(e))),
{
    let f = |e: (PlanBucket, Seq<char>)| entry_line(e);
    let e0 = bucket_entries(PlanBucket::Rom, p.rom);
    let e1 = bucket_entries(PlanBucket::Got, p.got);
    let e2 = bucket_entries(PlanBucket::RomRam, p.rom_ram);
    let e3 = bucket_entries(PlanBucket::Ram, p.ram);
    let e4 = bucket_entries(PlanBucket::Discard, p.discard);
    let e5 = bucket_entries(PlanBucket::AllocAbs32, p.alloc_abs32);
    let e6 = bucket_entries(PlanBucket::NonAllocAbs32, p.nonalloc_abs32);
    lemma_bucket_text_joined(PlanBucket::Rom, p.rom);
    lemma_bucket_text_joined(PlanBucket::Got, p.got);
    lemma_bucket_text_joined(PlanBucket::RomRam, p.rom_ram);
    lemma_bucket_text_joined(PlanBucket::Ram, p.ram);
    lemma_bucket_text_joined(PlanBucket::Discard, p.discard);
    lemma_bucket_text_joined(PlanBucket::AllocAbs32, p.alloc_abs32);
    lemma_bucket_text_joined(PlanBucket::NonAllocAbs32, p.nonalloc_abs32);
    let m0 = e0.map_values(f);
    let m1 = e1.map_values(f);
    let m2 = e2.map_values(f);
    let m3 = e3.map_values(f);
    let m4 = e4.map_values(f);
    let m5 = e5.map_values(f);
    let m6 = e6.map_values(f);
    assert(plan_entries(p).map_values(f) =~= m0 + m1 + m2 + m3 + m4 + m5 + m6);
    lemma_joined_concat(m0, m1);
    lemma_joined_concat(m0 + m1, m2);
    lemma_joined_concat(m0 + m1 + m2, m3);
    lemma_joined_concat(m0 + m1 + m2 + m3, m4);
    lemma_joined_concat(m0 + m1 + m2 + m3 + m4, m5);
    lemma_joined_concat(m0 + m1 + m2 + m3 + m4 + m5, m6);
}

proof fn lemma_line_scan_same_prefix(s: Seq<char>, t: Seq<char>, n: int)
    requires
        0 <= n <= s.len(),
        n <= t.len(),
        s.take(n) == t.take(n),
    ensures
        line_scan(s, n) == line_scan(t, n),
    decreases n,
{
    if n > 0 {
        assert(s.take(n - 1) =~= s.take(n).take(n - 1));
        assert(t.take(n - 1) =~= t.take(n).take(n - 1));
        lemma_line_scan_same_prefix(s, t, n - 1);
        assert(s[n - 1] == s.take(n)[n - 1]);
        assert(t[n - 1] == t.take(n)[n - 1]);
    }
}

proof fn lemma_line_scan_open(j: Seq<char>, ls: Seq<Seq<char>>, x: Seq<char>, k: int)
    requires
        line_scan(j, j.len() as int) == (ls, Seq::<char>::empty()),
        !x.contains('\n'),
        0 <= k <= x.len(),
    ensures
        line_scan(j + x + seq!['\n'], j.len() + k) == (ls, x.take(k)),
    decreases k,
{
    let s = j + x + seq!['\n'];
    if k == 0 {
        assert(s.take(j.len() as int) =~= j.take(j.len() as int));
        lemma_line_scan_same_prefix(s, j, j.len() as int);
        assert(x.take(0) =~= Seq::<char>::empty());
    } else {
        lemma_line_scan_open(j, ls, x, k - 1);
        assert(s[j.len() + k - 1] == x[k - 1]);
        if x[k - 1] == '\n' {
            assert(x.contains('\n'));
        }
        assert(x.take(k - 1).push(x[k - 1]) =~= x.take(k));
    }
}

proof fn lemma_line_scan_joined(ls: Seq<Seq<char>>)
    requires
        forall|i: int| 0 <= i < ls.len() ==> !(#[trigger] ls[i]).contains('\n'),
    ensures
        line_scan(joined(ls), joined(ls).len() as int) == (ls, Seq::<char>::empty()),
    decreases ls.len(),
{
    if ls.len() > 0 {
        let front = ls.drop_last();
        let x = ls.last();
        assert forall|i: int| 0 <= i < front.len() implies !(#[trigger] front[i]).contains('\n') by {
            assert(front[i] == ls[i]);
        }
        lemma_line_scan_joined(front);
        let j = joined(front);
        assert(!x.contains('\n')) by {
            assert(x == ls[ls.len() - 1]);
        }
        lemma_line_scan_open(j, front, x, x.len() as int);
        let s = j + x + seq!['\n'];
        assert(joined(ls) == s);
        assert(s[(j.len() + x.len()) as int] == '\n');
        assert(x.take(x.len() as int) =~= x);
        assert(front.push(x) =~= ls);
    }
}

proof fn lemma_bucket_name_facts(b: PlanBucket)
    ensures
        bucket_name(b).len() > 0,
        !is_white_space(bucket_name(b)[0]),
        bucket_name(b)[0] != '#',
        forall|i: int| 0 <= i < bucket_name(b).len() ==> #[trigger] bucket_name(b)[i] != '\t',
        !bucket_name(b).contains('\n'),
{
    reveal_strlit("rom");
    reveal_strlit("got");
    reveal_strlit("rom_ram");
    reveal_strlit("ram");
    reveal_strlit("discard");
    reveal_strlit("alloc_abs32");
    reveal_strlit("nonalloc_abs32");
}

proof fn lemma_entry_line_parses(e: (PlanBucket, Seq<char>))
    requires
        clean_section_name(e.1),
    ensures
        ({
            let line = trimmed(entry_line(e));
            &&& line == entry_line(e)
            &&& line.len() > 0
            &&& line[0] != '#'
            &&& find_char(line, '\t') == Some(bucket_name(e.0).len() as int)
            &&& bucket_named(line.subrange(0, bucket_name(e.0).len() as int)) == Some(e.0)
            &&& line.subrange(bucket_name(e.0).len() as int + 1, line.len() as int) == e.1
        }),
        !entry_line(e).contains('\n'),
{
    let (b, v) = e;
    let name = bucket_name(b);
    let line = entry_line(e);
    lemma_bucket_name_facts(b);
    lemma_bucket_name_round_trip(b);
    assert(line[0] == name[0]);
    assert(line.last() == v.last());
    assert(leading_white_space(line) == 0);
    assert(trailing_white_space(line) == 0);
    assert(line.subrange(0, line.len() as int) =~= line);
    assert(trimmed(line) == line);
    assert(line[name.len() as int] == '\t');
    assert forall|j: int| 0 <= j < name.len() implies line[j] != '\t' by {
        assert(line[j] == name[j]);
    }
    lemma_find_char(line, '\t', name.len() as int);
    assert(line.subrange(0, name.len() as int) =~= name);
    assert(line.subrange(name.len() as int + 1, line.len() as int) =~= v);
    assert(!line.contains('\n')) by {
        if line.contains('\n') {
            let k = choose|k: int| 0 <= k < line.len() && line[k] == '\n';
            if k < name.len() {
                assert(name[k] == '\n');
                assert(name.contains('\n'));
            } else if k == name.len() {
            } else {
                assert(v[k - name.len() - 1] == '\n');
                assert(v.contains('\n'));
            }
        }
    }
}

proof fn lemma_parse_entries(es: Seq<(PlanBucket, Seq<char>)>, n: int)
    requires
        0 <= n <= es.len(),
        forall|i: int| 0 <= i < es.len() ==> clean_section_name(#[trigger] es[i].1),
    ensures
        parse_lines(es.map_values(|e: (PlanBucket, Seq<char>)| entry_line(e)), n) == Ok::<
            PlanView,
            (int, crate::section_plan::LineFault),
        >(push_entries(empty_plan(), es.take(n))),
    decreases n,
{
    let f = |e: (PlanBucket, Seq<char>)| entry_line(e);
    if n == 0 {
        assert(es.take(0) =~= Seq::<(PlanBucket, Seq<char>)>::empty());
    } else {
        lemma_parse_entries(es, n - 1);
        let e = es[n - 1];
        assert(clean_section_name(e.1));
        lemma_entry_line_parses(e);
        assert(es.map_values(f)[n - 1] == entry_line(e));
        assert(es.take(n).drop_last() =~= es.take(n - 1));
        assert(es.take(n).last() == e);
    }
}

proof fn lemma_push_entries_concat(p: PlanView, a: Seq<(PlanBucket, Seq<char>)>, b: Seq<(PlanBucket, Seq<char>)>)
    ensures
        push_entries(p, a + b) == push_entries(push_entries(p, a), b),
    decreases b.len(),
{
    if b.len() == 0 {
        assert(a + b =~= a);
    } else {
        lemma_push_entries_concat(p, a, b.drop_last());
        assert((a + b).drop_last() =~= a + b.drop_last());
        assert((a + b).last() == b.last());
    }
}

/// Recording new sections in a bucket appends them, where nothing holds
/// them yet that would refuse or move them.
proof fn lemma_push_bucket(p: PlanView, b: PlanBucket, vs: Seq<Seq<char>>)
    requires
        vs.no_duplicates(),
        apart(vs, bucket(p, b)),
        is_runtime_bucket(b) ==> apart(vs, p.rom),
        b is Rom ==> apart(vs, p.got) && apart(vs, p.rom_ram) && apart(vs, p.ram) && apart(vs, p.discard),
    ensures
        push_entries(p, bucket_entries(b, vs)) == with_bucket(p, b, bucket(p, b) + vs),
    decreases vs.len(),
{
    if vs.len() == 0 {
        assert(bucket_entries(b, vs) =~= Seq::<(PlanBucket, Seq<char>)>::empty());
        assert(bucket(p, b) + vs =~= bucket(p, b));
        assert(with_bucket(p, b, bucket(p, b)) == p);
    } else {
        let front = vs.drop_last();
        let v = vs.last();
        assert(front.no_duplicates()) by {
            assert forall|i: int, j: int| 0 <= i < front.len() && 0 <= j < front.len() && i != j implies front[i] != front[j] by {
                assert(front[i] == vs[i] && front[j] == vs[j]);
            }
        }
        assert forall|x: Seq<char>| #[trigger] front.contains(x) implies vs.contains(x) by {
            let k = choose|k: int| 0 <= k < front.len() && front[k] == x;
            assert(vs[k] == x);
        }
        assert(vs.contains(v)) by {
            assert(vs[vs.len() - 1] == v);
        }
        lemma_push_bucket(p, b, front);
        assert(bucket_entries(b, vs).drop_last() =~= bucket_entries(b, front));
        assert(bucket_entries(b, vs).last() == (b, v));
        let q = with_bucket(p, b, bucket(p, b) + front);
        assert(push_entries(p, bucket_entries(b, vs)) == spec_push(q, b, v));
        assert(!front.contains(v)) by {
            if front.contains(v) {
                let k = choose|k: int| 0 <= k < front.len() && front[k] == v;
                assert(vs[k] == vs[vs.len() - 1]);
            }
        }
        assert(!bucket(p, b).contains(v));
        lemma_push_contains(bucket(p, b) + front, v);
        assert(!(bucket(p, b) + front).contains(v)) by {
            if (bucket(p, b) + front).contains(v) {
                let k = choose|k: int| 0 <= k < (bucket(p, b) + front).len() && (bucket(p, b) + front)[k] == v;
                if k < bucket(p, b).len() {
                    assert(bucket(p, b)[k] == v);
                } else {
                    assert(front[k - bucket(p, b).len()] == v);
                }
            }
        }
        assert((bucket(p, b) + front).push(v) =~= bucket(p, b) + vs);
        if is_runtime_bucket(b) {
            assert(!p.rom.contains(v));
            lemma_without_contains(p.rom, v);
            assert(q.rom == p.rom);
            assert(PlanView { rom: without(q.rom, v), ..q } == q);
        }
        if b is Rom {
            assert(!p.got.contains(v));
            assert(!p.rom_ram.contains(v));
            assert(!p.ram.contains(v));
            assert(!p.discard.contains(v));
        }
        assert(bucket(q, b) == bucket(p, b) + front);
        assert(spec_push(q, b, v) == with_bucket(p, b, bucket(p, b) + vs));
    }
}

/// The text form of a well-formed plan reads back as the plan itself: every
/// line parses, and recording its sections in order rebuilds each bucket.
pub proof fn lemma_section_plan_round_trip(p: PlanView)
    requires
        plan_well_formed(p),
    ensures
        parse_lines(lines(plan_text(p)), lines(plan_text(p)).len() as int) == Ok::<
            PlanView,
            (int, crate::section_plan::LineFault),
        >(p),
{
    let f = |e: (PlanBucket, Seq<char>)| entry_line(e);
    let es = plan_entries(p);
    let ls = es.map_values(f);
    let e0 = bucket_entries(PlanBucket::Rom, p.rom);
    let e1 = bucket_entries(PlanBucket::Got, p.got);
    let e2 = bucket_entries(PlanBucket::RomRam, p.rom_ram);
    let e3 = bucket_entries(PlanBucket::Ram, p.ram);
    let e4 = bucket_entries(PlanBucket::Discard, p.discard);
    let e5 = bucket_entries(PlanBucket::AllocAbs32, p.alloc_abs32);
    let e6 = bucket_entries(PlanBucket::NonAllocAbs32, p.nonalloc_abs32);
    assert forall|i: int| 0 <= i < es.len() implies clean_section_name(#[trigger] es[i].1) by {
        let k0 = e0.len() as int;
        let k1 = k0 + e1.len();
        let k2 = k1 + e2.len();
        let k3 = k2 + e3.len();
        let k4 = k3 + e4.len();
        let k5 = k4 + e5.len();
        if i < k0 {
            assert(es[i] == e0[i]);
            assert(clean_section_name(p.rom[i]));
        } else if i < k1 {
            assert(es[i] == e1[i - k0]);
            assert(clean_section_name(p.got[i - k0]));
        } else if i < k2 {
            assert(es[i] == e2[i - k1]);
            assert(clean_section_name(p.rom_ram[i - k1]));
        } else if i < k3 {
            assert(es[i] == e3[i - k2]);
            assert(clean_section_name(p.ram[i - k2]));
        } else if i < k4 {
            assert(es[i] == e4[i - k3]);
            assert(clean_section_name(p.discard[i - k3]));
        } else if i < k5 {
            assert(es[i] == e5[i - k4]);
            assert(clean_section_name(p.alloc_abs32[i - k4]));
        } else {
            assert(es[i] == e6[i - k5]);
            assert(clean_section_name(p.nonalloc_abs32[i - k5]));
        }
    }
    assert forall|i: int| 0 <= i < ls.len() implies !(#[trigger] ls[i]).contains('\n') by {
        lemma_entry_line_parses(es[i]);
    }
    lemma_plan_text_joined(p);
    lemma_line_scan_joined(ls);
    assert(lines(plan_text(p)) == ls);
    lemma_parse_entries(es, es.len() as int);
    assert(es.take(es.len() as int) =~= es);
    // Recording the buckets one after the other rebuilds the plan.
    let q0 = empty_plan();
    lemma_push_bucket(q0, PlanBucket::Rom, p.rom);
    let q1 = with_bucket(q0, PlanBucket::Rom, bucket(q0, PlanBucket::Rom) + p.rom);
    assert(q1 == PlanView { rom: p.rom, ..q0 });
    lemma_push_bucket(q1, PlanBucket::Got, p.got);
    let q2 = PlanView { got: p.got, ..q1 };
    assert(with_bucket(q1, PlanBucket::Got, bucket(q1, PlanBucket::Got) + p.got) == q2);
    lemma_push_bucket(q2, PlanBucket::RomRam, p.rom_ram);
    let q3 = PlanView { rom_ram: p.rom_ram, ..q2 };
    assert(with_bucket(q2, PlanBucket::RomRam, bucket(q2, PlanBucket::RomRam) + p.rom_ram) == q3);
    lemma_push_bucket(q3, PlanBucket::Ram, p.ram);
    let q4 = PlanView { ram: p.ram, ..q3 };
    assert(with_bucket(q3, PlanBucket::Ram, bucket(q3, PlanBucket::Ram) + p.ram) == q4);
    lemma_push_bucket(q4, PlanBucket::Discard, p.discard);
    let q5 = PlanView { discard: p.discard, ..q4 };
    assert(with_bucket(q4, PlanBucket::Discard, bucket(q4, PlanBucket::Discard) + p.discard) == q5);
    lemma_push_bucket(q5, PlanBucket::AllocAbs32, p.alloc_abs32);
    let q6 = PlanView { alloc_abs32: p.alloc_abs32, ..q5 };
    assert(with_bucket(q5, PlanBucket::AllocAbs32, bucket(q5, PlanBucket::AllocAbs32) + p.alloc_abs32) == q6);
    lemma_push_bucket(q6, PlanBucket::NonAllocAbs32, p.nonalloc_abs32);
    let q7 = PlanView { nonalloc_abs32: p.nonalloc_abs32, ..q6 };
    assert(with_bucket(q6, PlanBucket::NonAllocAbs32, bucket(q6, PlanBucket::NonAllocAbs32) + p.nonalloc_abs32) == q7);
    assert(q7 == p);
    lemma_push_entries_concat(q0, e0, e1);
    lemma_push_entries_concat(q0, e0 + e1, e2);
    lemma_push_entries_concat(q0, e0 + e1 + e2, e3);
    lemma_push_entries_concat(q0, e0 + e1 + e2 + e3, e4);
    lemma_push_entries_concat(q0, e0 + e1 + e2 + e3 + e4, e5);
    lemma_push_entries_concat(q0, e0 + e1 + e2 + e3 + e4 + e5, e6);
}

} // verus!

//! What merging section plans keeps: a consistent plan stays consistent,
//! each bucket gains the new sections in order, and merging the same plan
//! again changes nothing.

use vstd::prelude::*;

use crate::plan_round_trip::{
    apart, lemma_push_contains, lemma_push_no_duplicates, lemma_without_contains,
};
use crate::section_plan::{
    bucket, is_runtime_bucket, other_than, spec_merge, spec_push, spec_push_all, with_bucket, without,
    PlanBucket, PlanView,
};

verus! {

/// A plan whose buckets name each section once, and whose ROM holds no
/// section that a runtime bucket holds.
pub open spec fn plan_consistent(p: PlanView) -> bool {
    &&& p.rom.no_duplicates()
    &&& p.got.no_duplicates()
    &&& p.rom_ram.no_duplicates()
    &&& p.ram.no_duplicates()
    &&& p.discard.no_duplicates()
    &&& p.alloc_abs32.no_duplicates()
    &&& p.nonalloc_abs32.no_duplicates()
    &&& apart(p.rom, p.got)
    &&& apart(p.rom, p.rom_ram)
    &&& apart(p.rom, p.ram)
    &&& apart(p.rom, p.discard)
}

/// Some runtime bucket of `p` holds `v`.
pub open spec fn in_runtime(p: PlanView, v: Seq<char>) -> bool {
    p.got.contains(v) || p.rom_ram.contains(v) || p.ram.contains(v) || p.discard.contains(v)
}

/// `p` has recorded `v` in bucket `b`: a runtime or ABS32 bucket holds it,
/// or, for ROM, ROM holds it or a runtime bucket took it.
pub open spec fn recorded(p: PlanView, b: PlanBucket, v: Seq<char>) -> bool {
    if b is Rom {
        p.rom.contains(v) || in_runtime(p, v)
    } else {
        bucket(p, b).contains(v)
    }
}

proof fn lemma_push_consistent(p: PlanView, b: PlanBucket, v: Seq<char>)
    requires
        plan_consistent(p),
    ensures
        plan_consistent(spec_push(p, b, v)),
{
    lemma_without_contains(p.rom, v);
    let refused = b is Rom && in_runtime(p, v);
    if !refused {
        let p1 = if is_runtime_bucket(b) {
            PlanView { rom: without(p.rom, v), ..p }
        } else {
            p
        };
        assert(plan_consistent(p1));
        let s = bucket(p1, b);
        lemma_push_contains(s, v);
        if !s.contains(v) {
            lemma_push_no_duplicates(s, v);
        }
        let q = spec_push(p, b, v);
        assert(q == (if s.contains(v) { p1 } else { with_bucket(p1, b, s.push(v)) }));
    }
}

proof fn lemma_push_keeps_recorded(p: PlanView, c: PlanBucket, w: Seq<char>, b: PlanBucket, v: Seq<char>)
    requires
        recorded(p, b, v),
    ensures
        recorded(spec_push(p, c, w), b, v),
{
    lemma_without_contains(p.rom, w);
    let refused = c is Rom && in_runtime(p, w);
    if !refused {
        let p1 = if is_runtime_bucket(c) {
            PlanView { rom: without(p.rom, w), ..p }
        } else {
            p
        };
        let s = bucket(p1, c);
        lemma_push_contains(s, w);
        let q = spec_push(p, c, w);
        assert(q == (if s.contains(w) { p1 } else { with_bucket(p1, c, s.push(w)) }));
    }
}

proof fn lemma_push_records(p: PlanView, c: PlanBucket, w: Seq<char>)
    ensures
        recorded(spec_push(p, c, w), c, w),
{
    lemma_without_contains(p.rom, w);
    let refused = c is Rom && in_runtime(p, w);
    if !refused {
        let p1 = if is_runtime_bucket(c) {
            PlanView { rom: without(p.rom, w), ..p }
        } else {
            p
        };
        let s = bucket(p1, c);
        lemma_push_contains(s, w);
        let q = spec_push(p, c, w);
        assert(q == (if s.contains(w) { p1 } else { with_bucket(p1, c, s.push(w)) }));
    }
}

proof fn lemma_push_all_consistent(p: PlanView, b: PlanBucket, vs: Seq<Seq<char>>)
    requires
        plan_consistent(p),
    ensures
        plan_consistent(spec_push_all(p, b, vs)),
    decreases vs.len(),
{
    if vs.len() > 0 {
        lemma_push_all_consistent(p, b, vs.drop_last());
        lemma_push_consistent(spec_push_all(p, b, vs.drop_last()), b, vs.last());
    }
}

/// After recording `vs` in `c`, what was recorded stays recorded, and each
/// of `vs` is recorded in `c`.
proof fn lemma_push_all_records(p: PlanView, c: PlanBucket, vs: Seq<Seq<char>>)
    ensures
        forall|b: PlanBucket, v: Seq<char>| recorded(p, b, v) ==> #[trigger] recorded(spec_push_all(p, c, vs), b, v),
        forall|i: int| 0 <= i < vs.len() ==> recorded(spec_push_all(p, c, vs), c, #[trigger] vs[i]),
    decreases vs.len(),
{
    if vs.len() > 0 {
        let t = vs.drop_last();
        let q = spec_push_all(p, c, t);
        lemma_push_all_records(p, c, t);
        lemma_push_records(q, c, vs.last());
        assert forall|b: PlanBucket, v: Seq<char>| recorded(q, b, v) implies #[trigger] recorded(
            spec_push(q, c, vs.last()),
            b,
            v,
        ) by {
            lemma_push_keeps_recorded(q, c, vs.last(), b, v);
        }
        assert forall|i: int| 0 <= i < vs.len() implies recorded(spec_push_all(p, c, vs), c, #[trigger] vs[i]) by {
            if i < t.len() {
                assert(t[i] == vs[i]);
                assert(recorded(q, c, t[i]));
            }
        }
    }
}

/// Recording what a consistent plan has recorded changes nothing.
proof fn lemma_push_recorded_unchanged(p: PlanView, b: PlanBucket, v: Seq<char>)
    requires
        plan_consistent(p),
        recorded(p, b, v),
    ensures
        spec_push(p, b, v) == p,
{
    lemma_without_contains(p.rom, v);
    if is_runtime_bucket(b) {
        assert(!p.rom.contains(v));
        assert(PlanView { rom: without(p.rom, v), ..p } == p);
    }
}

proof fn lemma_push_all_recorded_unchanged(p: PlanView, b: PlanBucket, vs: Seq<Seq<char>>)
    requires
        plan_consistent(p),
        forall|i: int| 0 <= i < vs.len() ==> recorded(p, b, #[trigger] vs[i]),
    ensures
        spec_push_all(p, b, vs) == p,
    decreases vs.len(),
{
    if vs.len() > 0 {
        let t = vs.drop_last();
        assert forall|i: int| 0 <= i < t.len() implies recorded(p, b, #[trigger] t[i]) by {
            assert(t[i] == vs[i]);
        }
        lemma_push_all_recorded_unchanged(p, b, t);
        assert(recorded(p, b, vs[vs.len() - 1]));
        lemma_push_recorded_unchanged(p, b, vs.last());
    }
}

/// Merging keeps a plan consistent: no bucket names a section twice, and
/// ROM never holds a section a runtime bucket holds.
pub proof fn lemma_merge_keeps_plan_consistent(p: PlanView, q: PlanView)
    requires
        plan_consistent(p),
    ensures
        plan_consistent(spec_merge(p, q)),
{
    let p1 = spec_push_all(p, PlanBucket::Rom, q.rom);
    let p2 = spec_push_all(p1, PlanBucket::Got, q.got);
    let p3 = spec_push_all(p2, PlanBucket::RomRam, q.rom_ram);
    let p4 = spec_push_all(p3, PlanBucket::Ram, q.ram);
    let p5 = spec_push_all(p4, PlanBucket::Discard, q.discard);
    let p6 = spec_push_all(p5, PlanBucket::AllocAbs32, q.alloc_abs32);
    lemma_push_all_consistent(p, PlanBucket::Rom, q.rom);
    lemma_push_all_consistent(p1, PlanBucket::Got, q.got);
    lemma_push_all_consistent(p2, PlanBucket::RomRam, q.rom_ram);
    lemma_push_all_consistent(p3, PlanBucket::Ram, q.ram);
    lemma_push_all_consistent(p4, PlanBucket::Discard, q.discard);
    lemma_push_all_consistent(p5, PlanBucket::AllocAbs32, q.alloc_abs32);
    lemma_push_all_consistent(p6, PlanBucket::NonAllocAbs32, q.nonalloc_abs32);
}

/// After a merge of `q`, every section of `q` is recorded in its bucket.
proof fn lemma_merge_records(p: PlanView, q: PlanView)
    ensures
        forall|b: PlanBucket, i: int| 0 <= i < bucket(q, b).len() ==> recorded(spec_merge(p, q), b, #[trigger] bucket(q, b)[i]),
{
    let p1 = spec_push_all(p, PlanBucket::Rom, q.rom);
    let p2 = spec_push_all(p1, PlanBucket::Got, q.got);
    let p3 = spec_push_all(p2, PlanBucket::RomRam, q.rom_ram);
    let p4 = spec_push_all(p3, PlanBucket::Ram, q.ram);
    let p5 = spec_push_all(p4, PlanBucket::Discard, q.discard);
    let p6 = spec_push_all(p5, PlanBucket::AllocAbs32, q.alloc_abs32);
    let p7 = spec_push_all(p6, PlanBucket::NonAllocAbs32, q.nonalloc_abs32);
    lemma_push_all_records(p, PlanBucket::Rom, q.rom);
    lemma_push_all_records(p1, PlanBucket::Got, q.got);
    lemma_push_all_records(p2, PlanBucket::RomRam, q.rom_ram);
    lemma_push_all_records(p3, PlanBucket::Ram, q.ram);
    lemma_push_all_records(p4, PlanBucket::Discard, q.discard);
    lemma_push_all_records(p5, PlanBucket::AllocAbs32, q.alloc_abs32);
    lemma_push_all_records(p6, PlanBucket::NonAllocAbs32, q.nonalloc_abs32);
    assert forall|b: PlanBucket, i: int| 0 <= i < bucket(q, b).len() implies recorded(
        p7,
        b,
        #[trigger] bucket(q, b)[i],
    ) by {
        let v = bucket(q, b)[i];
        match b {
            PlanBucket::Rom => { assert(recorded(p1, b, q.rom[i])); },
            PlanBucket::Got => { assert(recorded(p2, b, q.got[i])); },
            PlanBucket::RomRam => { assert(recorded(p3, b, q.rom_ram[i])); },
            PlanBucket::Ram => { assert(recorded(p4, b, q.ram[i])); },
            PlanBucket::Discard => { assert(recorded(p5, b, q.discard[i])); },
            PlanBucket::AllocAbs32 => { assert(recorded(p6, b, q.alloc_abs32[i])); },
            PlanBucket::NonAllocAbs32 => { assert(recorded(p7, b, q.nonalloc_abs32[i])); },
        }
        assert(recorded(p1, b, v) ==> recorded(p2, b, v));
        assert(recorded(p2, b, v) ==> recorded(p3, b, v));
        assert(recorded(p3, b, v) ==> recorded(p4, b, v));
        assert(recorded(p4, b, v) ==> recorded(p5, b, v));
        assert(recorded(p5, b, v) ==> recorded(p6, b, v));
        assert(recorded(p6, b, v) ==> recorded(p7, b, v));
    }
}

/// Merging the same plan again changes nothing: once `q` is merged into a
/// consistent plan, merging `q` once more leaves it as it is.
pub proof fn lemma_merge_twice_unchanged(p: PlanView, q: PlanView)
    requires
        plan_consistent(p),
    ensures
        spec_merge(spec_merge(p, q), q) == spec_merge(p, q),
{
    let m = spec_merge(p, q);
    lemma_merge_keeps_plan_consistent(p, q);
    lemma_merge_records(p, q);
    assert forall|i: int| 0 <= i < q.rom.len() implies recorded(m, PlanBucket::Rom, #[trigger] q.rom[i]) by {
        assert(bucket(q, PlanBucket::Rom)[i] == q.rom[i]);
    }
    assert forall|i: int| 0 <= i < q.got.len() implies recorded(m, PlanBucket::Got, #[trigger] q.got[i]) by {
        assert(bucket(q, PlanBucket::Got)[i] == q.got[i]);
    }
    assert forall|i: int| 0 <= i < q.rom_ram.len() implies recorded(m, PlanBucket::RomRam, #[trigger] q.rom_ram[i]) by {
        assert(bucket(q, PlanBucket::RomRam)[i] == q.rom_ram[i]);
    }
    assert forall|i: int| 0 <= i < q.ram.len() implies recorded(m, PlanBucket::Ram, #[trigger] q.ram[i]) by {
        assert(bucket(q, PlanBucket::Ram)[i] == q.ram[i]);
    }
    assert forall|i: int| 0 <= i < q.discard.len() implies recorded(m, PlanBucket::Discard, #[trigger] q.discard[i]) by {
        assert(bucket(q, PlanBucket::Discard)[i] == q.discard[i]);
    }
    assert forall|i: int| 0 <= i < q.alloc_abs32.len() implies recorded(m, PlanBucket::AllocAbs32, #[trigger] q.alloc_abs32[i]) by {
        assert(bucket(q, PlanBucket::AllocAbs32)[i] == q.alloc_abs32[i]);
    }
    assert forall|i: int| 0 <= i < q.nonalloc_abs32.len() implies recorded(
        m,
        PlanBucket::NonAllocAbs32,
        #[trigger] q.nonalloc_abs32[i],
    ) by {
        assert(bucket(q, PlanBucket::NonAllocAbs32)[i] == q.nonalloc_abs32[i]);
    }
    lemma_push_all_recorded_unchanged(m, PlanBucket::Rom, q.rom);
    lemma_push_all_recorded_unchanged(m, PlanBucket::Got, q.got);
    lemma_push_all_recorded_unchanged(m, PlanBucket::RomRam, q.rom_ram);
    lemma_push_all_recorded_unchanged(m, PlanBucket::Ram, q.ram);
    lemma_push_all_recorded_unchanged(m, PlanBucket::Discard, q.discard);
    lemma_push_all_recorded_unchanged(m, PlanBucket::AllocAbs32, q.alloc_abs32);
    lemma_push_all_recorded_unchanged(m, PlanBucket::NonAllocAbs32, q.nonalloc_abs32);
}

/// `s` with each of `vs` appended in order, unless already there.
pub open spec fn appended(s: Seq<Seq<char>>, vs: Seq<Seq<char>>) -> Seq<Seq<char>>
    decreases vs.len(),
{
    if vs.len() == 0 {
        s
    } else {
        let t = appended(s, vs.drop_last());
        if t.contains(vs.last()) {
            t
        } else {
            t.push(vs.last())
        }
    }
}

proof fn lemma_push_other_bucket(p: PlanView, c: PlanBucket, w: Seq<char>, b: PlanBucket)
    requires
        !(b is Rom),
    ensures
        bucket(spec_push(p, c, w), b) == (if c == b {
            if bucket(p, b).contains(w) {
                bucket(p, b)
            } else {
                bucket(p, b).push(w)
            }
        } else {
            bucket(p, b)
        }),
{
}

proof fn lemma_push_all_other_bucket(p: PlanView, c: PlanBucket, vs: Seq<Seq<char>>, b: PlanBucket)
    requires
        !(b is Rom),
    ensures
        bucket(spec_push_all(p, c, vs), b) == (if c == b {
            appended(bucket(p, b), vs)
        } else {
            bucket(p, b)
        }),
    decreases vs.len(),
{
    if vs.len() > 0 {
        lemma_push_all_other_bucket(p, c, vs.drop_last(), b);
        lemma_push_other_bucket(spec_push_all(p, c, vs.drop_last()), c, vs.last(), b);
    }
}

/// Merging appends to each bucket but ROM the sections of the same bucket
/// of `q` that it does not yet hold, in order, each once.
pub proof fn lemma_merge_buckets(p: PlanView, q: PlanView)
    ensures
        spec_merge(p, q).got == appended(p.got, q.got),
        spec_merge(p, q).rom_ram == appended(p.rom_ram, q.rom_ram),
        spec_merge(p, q).ram == appended(p.ram, q.ram),
        spec_merge(p, q).discard == appended(p.discard, q.discard),
        spec_merge(p, q).alloc_abs32 == appended(p.alloc_abs32, q.alloc_abs32),
        spec_merge(p, q).nonalloc_abs32 == appended(p.nonalloc_abs32, q.nonalloc_abs32),
{
    let p1 = spec_push_all(p, PlanBucket::Rom, q.rom);
    let p2 = spec_push_all(p1, PlanBucket::Got, q.got);
    let p3 = spec_push_all(p2, PlanBucket::RomRam, q.rom_ram);
    let p4 = spec_push_all(p3, PlanBucket::Ram, q.ram);
    let p5 = spec_push_all(p4, PlanBucket::Discard, q.discard);
    let p6 = spec_push_all(p5, PlanBucket::AllocAbs32, q.alloc_abs32);
    let bs = seq![
        PlanBucket::Got,
        PlanBucket::RomRam,
        PlanBucket::Ram,
        PlanBucket::Discard,
        PlanBucket::AllocAbs32,
        PlanBucket::NonAllocAbs32,
    ];
    assert forall|k: int| 0 <= k < 6 implies bucket(spec_merge(p, q), #[trigger] bs[k]) == appended(
        bucket(p, bs[k]),
        bucket(q, bs[k]),
    ) by {
        let b = bs[k];
        lemma_push_all_other_bucket(p, PlanBucket::Rom, q.rom, b);
        lemma_push_all_other_bucket(p1, PlanBucket::Got, q.got, b);
        lemma_push_all_other_bucket(p2, PlanBucket::RomRam, q.rom_ram, b);
        lemma_push_all_other_bucket(p3, PlanBucket::Ram, q.ram, b);
        lemma_push_all_other_bucket(p4, PlanBucket::Discard, q.discard, b);
        lemma_push_all_other_bucket(p5, PlanBucket::AllocAbs32, q.alloc_abs32, b);
        lemma_push_all_other_bucket(p6, PlanBucket::NonAllocAbs32, q.nonalloc_abs32, b);
    }
    assert(bs[0] == PlanBucket::Got);
    assert(bs[1] == PlanBucket::RomRam);
    assert(bs[2] == PlanBucket::Ram);
    assert(bs[3] == PlanBucket::Discard);
    assert(bs[4] == PlanBucket::AllocAbs32);
    assert(bs[5] == PlanBucket::NonAllocAbs32);
}

// ---------------------------------------------------------------------------
// What merging leaves in ROM
// ---------------------------------------------------------------------------
proof fn lemma_filter_contains_iff(s: Seq<Seq<char>>, f: spec_fn(Seq<char>) -> bool, x: Seq<char>)
    ensures
        s.filter(f).contains(x) <==> s.contains(x) && f(x),
{
    broadcast use Seq::lemma_filter_contains_rev;

    if s.filter(f).contains(x) {
        let k = choose|k: int| 0 <= k < s.filter(f).len() && s.filter(f)[k] == x;
        s.lemma_filter_pred(f, k);
    }
    if s.contains(x) && f(x) {
        let k = choose|k: int| 0 <= k < s.len() && s[k] == x;
        s.lemma_filter_contains(f, k);
    }
}

proof fn lemma_filter_filter(s: Seq<Seq<char>>, f: spec_fn(Seq<char>) -> bool, g: spec_fn(Seq<char>) -> bool)
    ensures
        s.filter(f).filter(g) == s.filter(|x: Seq<char>| f(x) && g(x)),
    decreases s.len(),
{
    broadcast use Seq::lemma_filter_push;

    let h = |x: Seq<char>| f(x) && g(x);
    if s.len() == 0 {
        reveal(Seq::filter);
        assert(s.filter(f) == s);
        assert(s.filter(f).filter(g) == s);
        assert(s.filter(h) == s);
    } else {
        let t = s.drop_last();
        let e = s.last();
        lemma_filter_filter(t, f, g);
        assert(t.push(e) =~= s);
        assert(s.filter(f) == (if f(e) { t.filter(f).push(e) } else { t.filter(f) }));
        assert(s.filter(h) == (if h(e) { t.filter(h).push(e) } else { t.filter(h) }));
    }
}

proof fn lemma_filter_same(s: Seq<Seq<char>>, f: spec_fn(Seq<char>) -> bool, g: spec_fn(Seq<char>) -> bool)
    requires
        forall|x: Seq<char>| #[trigger] f(x) == g(x),
    ensures
        s.filter(f) == s.filter(g),
{
    assert(f =~= g);
}

proof fn lemma_filter_keeps_all(s: Seq<Seq<char>>, f: spec_fn(Seq<char>) -> bool)
    requires
        forall|x: Seq<char>| #[trigger] s.contains(x) ==> f(x),
    ensures
        s.filter(f) == s,
    decreases s.len(),
{
    broadcast use Seq::lemma_filter_push;

    if s.len() == 0 {
        reveal(Seq::filter);
    } else {
        let t = s.drop_last();
        assert(t.push(s.last()) =~= s);
        assert forall|x: Seq<char>| #[trigger] t.contains(x) implies f(x) by {
            let k = choose|k: int| 0 <= k < t.len() && t[k] == x;
            assert(s[k] == x);
            assert(s.contains(x));
        }
        lemma_filter_keeps_all(t, f);
        assert(s.contains(s[s.len() - 1]));
    }
}

proof fn lemma_appended_contains(s: Seq<Seq<char>>, vs: Seq<Seq<char>>, x: Seq<char>)
    ensures
        appended(s, vs).contains(x) <==> s.contains(x) || vs.contains(x),
    decreases vs.len(),
{
    if vs.len() > 0 {
        let t = vs.drop_last();
        lemma_appended_contains(s, t, x);
        lemma_push_contains(appended(s, t), vs.last());
        lemma_push_contains(t, vs.last());
        assert(t.push(vs.last()) =~= vs);
    } else {
        assert(!vs.contains(x));
    }
}

/// Recording `vs` in ROM appends those not yet there and not held by a
/// runtime bucket, and leaves every other bucket as it was.
proof fn lemma_rom_phase(p: PlanView, vs: Seq<Seq<char>>)
    requires
        forall|x: Seq<char>| #[trigger] p.rom.contains(x) ==> !in_runtime(p, x),
    ensures
        spec_push_all(p, PlanBucket::Rom, vs).rom == appended(p.rom, vs).filter(|x: Seq<char>| !in_runtime(p, x)),
        forall|x: Seq<char>| #[trigger] in_runtime(spec_push_all(p, PlanBucket::Rom, vs), x) == in_runtime(p, x),
    decreases vs.len(),
{
    let f = |x: Seq<char>| !in_runtime(p, x);
    lemma_push_all_other_bucket(p, PlanBucket::Rom, vs, PlanBucket::Got);
    lemma_push_all_other_bucket(p, PlanBucket::Rom, vs, PlanBucket::RomRam);
    lemma_push_all_other_bucket(p, PlanBucket::Rom, vs, PlanBucket::Ram);
    lemma_push_all_other_bucket(p, PlanBucket::Rom, vs, PlanBucket::Discard);
    if vs.len() == 0 {
        lemma_filter_keeps_all(p.rom, f);
    } else {
        broadcast use Seq::lemma_filter_push;

        let dl = vs.drop_last();
        let v = vs.last();
        lemma_rom_phase(p, dl);
        let t = spec_push_all(p, PlanBucket::Rom, dl);
        let a = appended(p.rom, dl);
        lemma_filter_contains_iff(a, f, v);
        lemma_push_contains(t.rom, v);
        assert(in_runtime(t, v) == in_runtime(p, v));
    }
}

proof fn lemma_push_all_rom_unchanged(p: PlanView, c: PlanBucket, vs: Seq<Seq<char>>)
    requires
        c is AllocAbs32 || c is NonAllocAbs32,
    ensures
        spec_push_all(p, c, vs).rom == p.rom,
    decreases vs.len(),
{
    if vs.len() > 0 {
        lemma_push_all_rom_unchanged(p, c, vs.drop_last());
    }
}

/// Recording `vs` in a runtime bucket takes each of them out of ROM.
proof fn lemma_runtime_phase(p: PlanView, c: PlanBucket, vs: Seq<Seq<char>>)
    requires
        is_runtime_bucket(c),
    ensures
        spec_push_all(p, c, vs).rom == p.rom.filter(|x: Seq<char>| !vs.contains(x)),
    decreases vs.len(),
{
    if vs.len() == 0 {
        lemma_filter_keeps_all(p.rom, |x: Seq<char>| !vs.contains(x));
    } else {
        let dl = vs.drop_last();
        let w = vs.last();
        lemma_runtime_phase(p, c, dl);
        let t = spec_push_all(p, c, dl);
        let f = |x: Seq<char>| !dl.contains(x);
        assert(spec_push_all(p, c, vs).rom == without(t.rom, w));
        lemma_filter_filter(p.rom, f, other_than(w));
        let h1 = |y: Seq<char>| f(y) && other_than(w)(y);
        let h2 = |y: Seq<char>| !vs.contains(y);
        assert forall|x: Seq<char>| #[trigger] h1(x) == h2(x) by {
            lemma_push_contains(dl, w);
            assert(dl.push(w) =~= vs);
        }
        lemma_filter_same(p.rom, h1, h2);
    }
}

/// Merging leaves in ROM the sections ROM held with those of `q`'s ROM it
/// did not hold appended in order, each once, less every section a runtime
/// bucket of the merged plan holds.
pub proof fn lemma_merge_rom(p: PlanView, q: PlanView)
    requires
        plan_consistent(p),
    ensures
        spec_merge(p, q).rom == appended(p.rom, q.rom).filter(|x: Seq<char>| !in_runtime(spec_merge(p, q), x)),
{
    let m = spec_merge(p, q);
    let p1 = spec_push_all(p, PlanBucket::Rom, q.rom);
    let p2 = spec_push_all(p1, PlanBucket::Got, q.got);
    let p3 = spec_push_all(p2, PlanBucket::RomRam, q.rom_ram);
    let p4 = spec_push_all(p3, PlanBucket::Ram, q.ram);
    let p5 = spec_push_all(p4, PlanBucket::Discard, q.discard);
    let p6 = spec_push_all(p5, PlanBucket::AllocAbs32, q.alloc_abs32);
    assert forall|x: Seq<char>| #[trigger] p.rom.contains(x) implies !in_runtime(p, x) by {
        assert(apart(p.rom, p.got));
    }
    lemma_rom_phase(p, q.rom);
    lemma_runtime_phase(p1, PlanBucket::Got, q.got);
    lemma_runtime_phase(p2, PlanBucket::RomRam, q.rom_ram);
    lemma_runtime_phase(p3, PlanBucket::Ram, q.ram);
    lemma_runtime_phase(p4, PlanBucket::Discard, q.discard);
    lemma_push_all_rom_unchanged(p5, PlanBucket::AllocAbs32, q.alloc_abs32);
    lemma_push_all_rom_unchanged(p6, PlanBucket::NonAllocAbs32, q.nonalloc_abs32);
    let a = appended(p.rom, q.rom);
    let f0 = |x: Seq<char>| !in_runtime(p, x);
    let f1 = |x: Seq<char>| !q.got.contains(x);
    let f2 = |x: Seq<char>| !q.rom_ram.contains(x);
    let f3 = |x: Seq<char>| !q.ram.contains(x);
    let f4 = |x: Seq<char>| !q.discard.contains(x);
    let g1 = |x: Seq<char>| f0(x) && f1(x);
    let g2 = |x: Seq<char>| g1(x) && f2(x);
    let g3 = |x: Seq<char>| g2(x) && f3(x);
    let g4 = |x: Seq<char>| g3(x) && f4(x);
    lemma_filter_filter(a, f0, f1);
    lemma_filter_filter(a, g1, f2);
    lemma_filter_filter(a, g2, f3);
    lemma_filter_filter(a, g3, f4);
    assert(m.rom == a.filter(g4));
    lemma_merge_buckets(p, q);
    let h = |y: Seq<char>| !in_runtime(m, y);
    assert forall|x: Seq<char>| #[trigger] g4(x) == h(x) by {
        lemma_appended_contains(p.got, q.got, x);
        lemma_appended_contains(p.rom_ram, q.rom_ram, x);
        lemma_appended_contains(p.ram, q.ram, x);
        lemma_appended_contains(p.discard, q.discard, x);
    }
    lemma_filter_same(a, g4, h);
}

} // verus!

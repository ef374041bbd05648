//! Character-level helpers for the text formats the tools read and write.

use vstd::prelude::*;

verus! {

broadcast use vstd::string::group_string_axioms;

/// The characters of `s`, in order.
pub fn chars_of(s: &str) -> (r: Vec<char>)
    ensures
        r@ == s@,
{
    let mut v: Vec<char> = Vec::new();
    for c in it: s.chars()
        invariant
            v@ == it.seq().take(it.index() as int),
            it.seq() == s@,
    {
        v.push(c);
    }
    v
}

/// The characters that Unicode gives the White_Space property.
pub open spec fn is_white_space(c: char) -> bool {
    ||| ('\t' <= c && c <= '\r')
    ||| c == ' '
    ||| c == '\u{85}'
    ||| c == '\u{a0}'
    ||| c == '\u{1680}'
    ||| ('\u{2000}' <= c && c <= '\u{200a}')
    ||| c == '\u{2028}'
    ||| c == '\u{2029}'
    ||| c == '\u{202f}'
    ||| c == '\u{205f}'
    ||| c == '\u{3000}'
}

pub fn white_space(c: char) -> (r: bool)
    ensures
        r == is_white_space(c),
{
    ('\t' <= c && c <= '\r') || c == ' ' || c == '\u{85}' || c == '\u{a0}' || c == '\u{1680}' || (
    '\u{2000}' <= c && c <= '\u{200a}') || c == '\u{2028}' || c == '\u{2029}' || c == '\u{202f}'
        || c == '\u{205f}' || c == '\u{3000}'
}

/// The number of white-space characters that `s` starts with.
pub open spec fn leading_white_space(s: Seq<char>) -> nat
    decreases s.len(),
{
    if s.len() > 0 && is_white_space(s[0]) {
        1 + leading_white_space(s.drop_first())
    } else {
        0
    }
}

/// The number of white-space characters that `s` ends with.
pub open spec fn trailing_white_space(s: Seq<char>) -> nat
    decreases s.len(),
{
    if s.len() > 0 && is_white_space(s.last()) {
        1 + trailing_white_space(s.drop_last())
    } else {
        0
    }
}

/// `s` without its leading and trailing white space.
pub open spec fn trimmed(s: Seq<char>) -> Seq<char> {
    let t = s.subrange(leading_white_space(s) as int, s.len() as int);
    t.subrange(0, t.len() - trailing_white_space(t))
}

proof fn lemma_leading_bound(s: Seq<char>)
    ensures
        leading_white_space(s) <= s.len(),
        forall|i: int| 0 <= i < leading_white_space(s) ==> is_white_space(#[trigger] s[i]),
        leading_white_space(s) < s.len() ==> !is_white_space(s[leading_white_space(s) as int]),
    decreases s.len(),
{
    if s.len() > 0 && is_white_space(s[0]) {
        lemma_leading_bound(s.drop_first());
        assert forall|i: int| 0 <= i < leading_white_space(s) implies is_white_space(
            #[trigger] s[i],
        ) by {
            if i > 0 {
                assert(s[i] == s.drop_first()[i - 1]);
            }
        }
    }
}

proof fn lemma_trailing_bound(s: Seq<char>)
    ensures
        trailing_white_space(s) <= s.len(),
        forall|i: int|
            s.len() - trailing_white_space(s) <= i < s.len() ==> is_white_space(#[trigger] s[i]),
        trailing_white_space(s) < s.len() ==> !is_white_space(
            s[s.len() - 1 - trailing_white_space(s)],
        ),
    decreases s.len(),
{
    if s.len() > 0 && is_white_space(s.last()) {
        lemma_trailing_bound(s.drop_last());
        assert forall|i: int|
            s.len() - trailing_white_space(s) <= i < s.len() implies is_white_space(
            #[trigger] s[i],
        ) by {
            if i < s.len() - 1 {
                assert(s[i] == s.drop_last()[i]);
            }
        }
    }
}

pub proof fn lemma_leading_exact(s: Seq<char>, k: int)
    requires
        0 <= k <= s.len(),
        forall|i: int| 0 <= i < k ==> is_white_space(#[trigger] s[i]),
        k < s.len() ==> !is_white_space(s[k]),
    ensures
        leading_white_space(s) == k,
    decreases s.len(),
{
    if k > 0 {
        assert(is_white_space(s[0]));
        assert forall|i: int| 0 <= i < k - 1 implies is_white_space(#[trigger] s.drop_first()[i]) by {
            assert(s.drop_first()[i] == s[i + 1]);
        }
        if k - 1 < s.len() - 1 {
            assert(s.drop_first()[k - 1] == s[k]);
        }
        lemma_leading_exact(s.drop_first(), k - 1);
    }
}

proof fn lemma_trailing_exact(s: Seq<char>, k: int)
    requires
        0 <= k <= s.len(),
        forall|i: int| s.len() - k <= i < s.len() ==> is_white_space(#[trigger] s[i]),
        k < s.len() ==> !is_white_space(s[s.len() - 1 - k]),
    ensures
        trailing_white_space(s) == k,
    decreases s.len(),
{
    if k > 0 {
        assert(is_white_space(s.last()));
        let t = s.drop_last();
        assert forall|i: int| t.len() - (k - 1) <= i < t.len() implies is_white_space(
            #[trigger] t[i],
        ) by {
            assert(t[i] == s[i]);
        }
        if k - 1 < t.len() {
            assert(t[t.len() - 1 - (k - 1)] == s[s.len() - 1 - k]);
        }
        lemma_trailing_exact(t, k - 1);
    }
}

/// The characters of `s[start..end]` without leading and trailing white space:
/// the bounds of the trimmed run.
pub fn trim_bounds(s: &Vec<char>, start: usize, end: usize) -> (r: (usize, usize))
    requires
        start <= end <= s@.len(),
    ensures
        start <= r.0 <= r.1 <= end,
        s@.subrange(r.0 as int, r.1 as int) == trimmed(s@.subrange(start as int, end as int)),
{
    let ghost line = s@.subrange(start as int, end as int);
    let mut a: usize = start;
    while a < end && white_space(s[a])
        invariant
            start <= a <= end <= s@.len(),
            line == s@.subrange(start as int, end as int),
            forall|i: int| start <= i < a ==> is_white_space(#[trigger] s@[i]),
        decreases end - a,
    {
        a = a + 1;
    }
    proof {
        assert forall|i: int| 0 <= i < a - start implies is_white_space(#[trigger] line[i]) by {
            assert(line[i] == s@[start + i]);
        }
        if a < end {
            assert(line[a - start] == s@[a as int]);
        }
        lemma_leading_exact(line, a - start);
    }
    let ghost t = line.subrange(a - start, line.len() as int);
    assert(t =~= s@.subrange(a as int, end as int));
    let mut b: usize = end;
    while b > a && white_space(s[b - 1])
        invariant
            start <= a <= b <= end <= s@.len(),
            forall|i: int| b <= i < end ==> is_white_space(#[trigger] s@[i]),
        decreases b - a,
    {
        b = b - 1;
    }
    proof {
        assert forall|i: int| t.len() - (end - b) <= i < t.len() implies is_white_space(
            #[trigger] t[i],
        ) by {
            assert(t[i] == s@[a + i]);
        }
        if end - b < t.len() {
            assert(t[t.len() - 1 - (end - b)] == s@[b - 1]);
        }
        lemma_trailing_exact(t, end - b);
        assert(s@.subrange(a as int, b as int) =~= t.subrange(0, t.len() - (end - b)));
    }
    (a, b)
}

/// The lines of `s`: the runs between newlines, a final newline ending the
/// last line rather than starting an empty one. Computed by a left-to-right
/// scan of the first `n` characters: the finished lines and the open one.
pub open spec fn line_scan(s: Seq<char>, n: int) -> (Seq<Seq<char>>, Seq<char>)
    decreases n,
{
    if n <= 0 {
        (Seq::empty(), Seq::empty())
    } else {
        let (done, open) = line_scan(s, n - 1);
        if s[n - 1] == '\n' {
            (done.push(open), Seq::empty())
        } else {
            (done, open.push(s[n - 1]))
        }
    }
}

pub open spec fn lines(s: Seq<char>) -> Seq<Seq<char>> {
    let (done, open) = line_scan(s, s.len() as int);
    if open.len() > 0 {
        done.push(open)
    } else {
        done
    }
}

/// The index of the first `c` in `s` at or after `from`, if any.
pub open spec fn find_char(s: Seq<char>, c: char) -> Option<int> {
    if exists|i: int| 0 <= i < s.len() && s[i] == c {
        Some(choose|i: int| 0 <= i < s.len() && s[i] == c && forall|j: int| 0 <= j < i ==> s[j] != c)
    } else {
        None
    }
}

pub proof fn lemma_find_char(s: Seq<char>, c: char, i: int)
    requires
        0 <= i < s.len(),
        s[i] == c,
        forall|j: int| 0 <= j < i ==> s[j] != c,
    ensures
        find_char(s, c) == Some(i),
{
    let k = choose|k: int| 0 <= k < s.len() && s[k] == c && forall|j: int| 0 <= j < k ==> s[j] != c;
    assert(0 <= k < s.len() && s[k] == c && forall|j: int| 0 <= j < k ==> s[j] != c);
    if k < i {
        assert(s[k] != c);
    }
    if i < k {
        assert(s[i] != c);
    }
}

/// The first `c` in `s[start..end]`, as an index into `s`.
pub fn find_char_in(s: &Vec<char>, start: usize, end: usize, c: char) -> (r: Option<usize>)
    requires
        start <= end <= s@.len(),
    ensures
        match find_char(s@.subrange(start as int, end as int), c) {
            Some(i) => 0 <= i && start + i < end && r == Some((start + i) as usize),
            None => r is None,
        },
        r matches Some(t) ==> start <= t < end && s@[t as int] == c,
{
    let ghost t = s@.subrange(start as int, end as int);
    let mut i = start;
    while i < end
        invariant
            start <= i <= end <= s@.len(),
            t == s@.subrange(start as int, end as int),
            forall|j: int| 0 <= j < i - start ==> t[j] != c,
        decreases end - i,
    {
        if s[i] == c {
            proof {
                lemma_find_char(t, c, i - start);
            }
            return Some(i);
        }
        i = i + 1;
    }
    None
}

/// A `String` holding `s[start..end]`.
pub fn string_of(s: &Vec<char>, start: usize, end: usize) -> (r: String)
    requires
        start <= end <= s@.len(),
    ensures
        r@ == s@.subrange(start as int, end as int),
{
    let mut out = String::new();
    let mut i: usize = start;
    while i < end
        invariant
            start <= i <= end <= s@.len(),
            out@ == s@.subrange(start as int, i as int),
        decreases end - i,
    {
        out.push(s[i]);
        i = i + 1;
        assert(out@ =~= s@.subrange(start as int, i as int));
    }
    out
}

/// `s` without its leading and trailing white space.
pub fn trim_str(s: &str) -> (r: String)
    ensures
        r@ == trimmed(s@),
{
    let cs = chars_of(s);
    let (a, b) = trim_bounds(&cs, 0, cs.len());
    assert(cs@.subrange(0, cs@.len() as int) =~= cs@);
    string_of(&cs, a, b)
}


/// Appends the characters of `s`.
pub fn push_text(out: &mut String, s: &str)
    ensures
        final(out)@ == old(out)@ + s@,
{
    let cs = chars_of(s);
    let ghost start = out@;
    let mut i: usize = 0;
    while i < cs.len()
        invariant
            i <= cs@.len(),
            cs@ == s@,
            out@ == start + cs@.take(i as int),
        decreases cs@.len() - i,
    {
        out.push(cs[i]);
        assert(cs@.take(i + 1) =~= cs@.take(i as int).push(cs@[i as int]));
        assert(out@ =~= start + cs@.take(i + 1));
        i = i + 1;
    }
    assert(cs@.take(cs@.len() as int) =~= cs@);
}


/// The lines of `text`, as `lines` describes them.
pub fn split_lines(text: &str) -> (r: Vec<String>)
    ensures
        r@.map_values(|l: String| l@) == lines(text@),
{
    let chars = chars_of(text);
    let ghost s = chars@;
    let mut out: Vec<String> = Vec::new();
    let mut line_start: usize = 0;
    let mut i: usize = 0;
    while i < chars.len()
        invariant
            s == chars@,
            s == text@,
            line_start <= i <= s.len(),
            line_scan(s, i as int).1 == s.subrange(line_start as int, i as int),
            out@.map_values(|l: String| l@) == line_scan(s, i as int).0,
        decreases s.len() - i,
    {
        if chars[i] == '\n' {
            let ghost before = out@.map_values(|l: String| l@);
            out.push(string_of(&chars, line_start, i));
            assert(out@.map_values(|l: String| l@) =~= before.push(s.subrange(line_start as int, i as int)));
            line_start = i + 1;
            assert(line_scan(s, i + 1).1 =~= s.subrange(line_start as int, i + 1));
        } else {
            assert(line_scan(s, i + 1).1 =~= s.subrange(line_start as int, i + 1));
        }
        i = i + 1;
    }
    if line_start < chars.len() {
        let ghost before = out@.map_values(|l: String| l@);
        out.push(string_of(&chars, line_start, chars.len()));
        assert(out@.map_values(|l: String| l@) =~= before.push(s.subrange(line_start as int, s.len() as int)));
    }
    out
}

} // verus!

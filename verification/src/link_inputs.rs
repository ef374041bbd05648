//! The object files and archives on a linker command line: those a link
//! wrapper scans for the section plan.

use vstd::prelude::*;

use crate::read_cli::{looks_like_option, starts_with_dash};
use crate::section_plan::{contains_name, eq_chars, names, push_unique_name};
use crate::text::{chars_of, string_of};

verus! {

broadcast use vstd::string::group_string_axioms;

/// The linker options whose value is the next argument.
pub open spec fn takes_value(arg: Seq<char>) -> bool {
    ||| arg == "-o"@
    ||| arg == "-L"@
    ||| arg == "-T"@
    ||| arg == "-e"@
    ||| arg == "-m"@
    ||| arg == "--entry"@
    ||| arg == "--library-path"@
    ||| arg == "--script"@
    ||| arg == "--sysroot"@
    ||| arg == "--Map"@
}

fn option_takes_value(arg: &String) -> (r: bool)
    ensures
        r == takes_value(arg@),
{
    eq_chars(arg, "-o") || eq_chars(arg, "-L") || eq_chars(arg, "-T") || eq_chars(arg, "-e")
        || eq_chars(arg, "-m") || eq_chars(arg, "--entry") || eq_chars(arg, "--library-path")
        || eq_chars(arg, "--script") || eq_chars(arg, "--sysroot") || eq_chars(arg, "--Map")
}

/// The index of the last `c` in `s`, if any.
pub open spec fn last_index_of(s: Seq<char>, c: char) -> Option<int>
    decreases s.len(),
{
    if s.len() == 0 {
        None
    } else if s.last() == c {
        Some(s.len() - 1)
    } else {
        last_index_of(s.drop_last(), c)
    }
}

/// The last component of a path: what follows its last '/'.
pub open spec fn file_name(path: Seq<char>) -> Seq<char> {
    match last_index_of(path, '/') {
        Some(i) => path.skip(i + 1),
        None => path,
    }
}

/// The extension of a path: what follows the last '.' of its file name,
/// where that '.' does not begin the name.
pub open spec fn file_extension(path: Seq<char>) -> Option<Seq<char>> {
    let name = file_name(path);
    match last_index_of(name, '.') {
        Some(i) => if i > 0 {
            Some(name.skip(i + 1))
        } else {
            None
        },
        None => None,
    }
}

/// A file the section plan reads: an object, an `.rlib` or an `.a` archive.
pub open spec fn is_link_input_extension(path: Seq<char>) -> bool {
    match file_extension(path) {
        Some(e) => e == "o"@ || e == "rlib"@ || e == "a"@,
        None => false,
    }
}

/// The inputs found in the first `n` arguments, and whether the next
/// argument is an option's value.
pub open spec fn scan_link_args(args: Seq<Seq<char>>, files: Seq<Seq<char>>, n: int) -> (Seq<Seq<char>>, bool)
    decreases n,
{
    if n <= 0 {
        (Seq::empty(), false)
    } else {
        let (inputs, skip) = scan_link_args(args, files, n - 1);
        let a = args[n - 1];
        if skip {
            (inputs, false)
        } else if takes_value(a) {
            (inputs, true)
        } else if looks_like_option(a) || !files.contains(a) || !is_link_input_extension(a)
            || inputs.contains(a) {
            (inputs, false)
        } else {
            (inputs.push(a), false)
        }
    }
}

proof fn lemma_last_index_bounds(s: Seq<char>, c: char)
    ensures
        last_index_of(s, c) matches Some(i) ==> 0 <= i < s.len() && s[i] == c,
    decreases s.len(),
{
    if s.len() > 0 && s.last() != c {
        lemma_last_index_bounds(s.drop_last(), c);
    }
}

fn last_index(s: &Vec<char>, end: usize, c: char) -> (r: Option<usize>)
    requires
        end <= s@.len(),
    ensures
        r matches Some(i) ==> i < end,
        match last_index_of(s@.take(end as int), c) {
            Some(i) => r == Some(i as usize),
            None => r is None,
        },
{
    let mut k: usize = end;
    while k > 0
        invariant
            k <= end <= s@.len(),
            last_index_of(s@.take(end as int), c) == last_index_of(s@.take(k as int), c),
        decreases k,
    {
        assert(s@.take(k as int).drop_last() =~= s@.take(k - 1));
        if s[k - 1] == c {
            proof {
                lemma_last_index_bounds(s@.take(k as int), c);
            }
            return Some(k - 1);
        }
        k = k - 1;
    }
    None
}

fn link_input_extension(path: &String) -> (r: bool)
    ensures
        r == is_link_input_extension(path@),
{
    let cs = chars_of(path.as_str());
    assert(cs@.take(cs@.len() as int) =~= cs@);
    let slash = last_index(&cs, cs.len(), '/');
    assert(cs@.take(cs@.len() as int) == path@);
    let start: usize = match slash {
        Some(i) => i + 1,
        None => 0,
    };
    let name = string_of(&cs, start, cs.len());
    proof {
        lemma_last_index_bounds(path@, '/');
        lemma_last_index_bounds(file_name(path@), '.');
        match last_index_of(path@, '/') {
            Some(i) => {
                assert(start == i + 1);
                assert(name@ =~= path@.skip(i + 1));
            },
            None => {
                assert(start == 0);
                assert(name@ =~= path@);
            },
        }
    }
    assert(name@ == file_name(path@));
    let ns = chars_of(name.as_str());
    assert(ns@.take(ns@.len() as int) =~= ns@);
    let dot = last_index(&ns, ns.len(), '.');
    assert(ns@.take(ns@.len() as int) == file_name(path@));
    proof {
        lemma_last_index_bounds(file_name(path@), '.');
    }
    match dot {
        Some(i) => {
            if i == 0 {
                return false;
            }
            let ext = string_of(&ns, i + 1, ns.len());
            assert(ext@ =~= file_name(path@).skip(i + 1));
            eq_chars(&ext, "o") || eq_chars(&ext, "rlib") || eq_chars(&ext, "a")
        },
        None => false,
    }
}

fn listed(files: &[String], value: &String) -> (r: bool)
    ensures
        r == names(files@).contains(value@),
{
    let mut i: usize = 0;
    while i < files.len()
        invariant
            i <= files@.len(),
            forall|j: int| 0 <= j < i ==> names(files@)[j] != value@,
        decreases files@.len() - i,
    {
        if eq_chars(&files[i], value.as_str()) {
            assert(names(files@)[i as int] == value@);
            return true;
        }
        i = i + 1;
    }
    false
}

/// The objects and archives on a linker command line, in order and each
/// once: arguments that are no option, no option's value, name an existing
/// file (one of `existing_files`) and end in `.o`, `.rlib` or `.a`.
pub fn collect_linker_input_files(args: &[String], existing_files: &[String]) -> (r: Vec<String>)
    ensures
        names(r@) == scan_link_args(names(args@), names(existing_files@), args@.len() as int).0,
{
    let ghost a = names(args@);
    let ghost f = names(existing_files@);
    let mut inputs: Vec<String> = Vec::new();
    let mut skip_next = false;
    let mut i: usize = 0;
    while i < args.len()
        invariant
            i <= args@.len(),
            a == names(args@),
            f == names(existing_files@),
            scan_link_args(a, f, i as int) == (names(inputs@), skip_next),
        decreases args@.len() - i,
    {
        let arg = &args[i];
        assert(a[i as int] == arg@);
        if skip_next {
            skip_next = false;
        } else if option_takes_value(arg) {
            skip_next = true;
        } else if starts_with_dash(arg) || !listed(existing_files, arg)
            || !link_input_extension(arg) || contains_name(&inputs, arg.as_str()) {
        } else {
            let ghost before = names(inputs@);
            push_unique_name(&mut inputs, arg.as_str());
            assert(names(inputs@) =~= before.push(arg@));
        }
        i = i + 1;
    }
    inputs
}

} // verus!

//! The command line of the image reader: which dumps were asked for, and the
//! text of its hexdump lines.

use vstd::prelude::*;

use crate::common::{hex8, hex_digit_char, push_hex8};
use crate::elf::copy_range;
use crate::section_plan::{contains_name, eq_chars, names, push_unique_name};
use crate::text::chars_of;

verus! {

broadcast use vstd::string::group_string_axioms;

pub const CLI_OPTION_DISASSEMBLE_CRT0: &'static str = "-Dcrt0";
pub const CLI_OPTION_DISASSEMBLE_CRT0_LONG: &'static str = "--Dcrt0";
pub const CLI_OPTION_HEXDUMP_CRT0: &'static str = "-Hcrt0";
pub const CLI_OPTION_HEXDUMP_CRT0_LONG: &'static str = "--Hcrt0";
pub const CLI_OPTION_HEXDUMP_RELOCATIONS: &'static str = "-Hreloc";
pub const CLI_OPTION_HEXDUMP_RELOCATIONS_LONG: &'static str = "--Hreloc";
pub const CLI_OPTION_HEXDUMP_ROM_RAM: &'static str = "-Hromram";
pub const CLI_OPTION_HEXDUMP_ROM_RAM_LONG: &'static str = "--Hromram";
pub const CLI_OPTION_DISASSEMBLE_TEXT: &'static str = "-Drom";
pub const CLI_OPTION_DISASSEMBLE_TEXT_LONG: &'static str = "--Drom";
pub const CLI_OPTION_HEXDUMP_TEXT: &'static str = "-Hrom";
pub const CLI_OPTION_HEXDUMP_TEXT_LONG: &'static str = "--Hrom";
pub const CLI_OPTION_HEXDUMP_GOT: &'static str = "-Hgot";
pub const CLI_OPTION_HEXDUMP_GOT_LONG: &'static str = "--Hgot";
pub const CLI_OPTION_VERBOSE: &'static str = "-v";
pub const CLI_OPTION_HELP: &'static str = "-h";
pub const CLI_OPTION_HELP_LONG: &'static str = "--help";

/// The number of options the reader accepts before the file name.
pub const CLI_OPTION_COUNT: usize = 15;

/// The options the reader accepts before the file name, the verbose one last.
pub open spec fn option_names() -> Seq<Seq<char>> {
    seq![
        CLI_OPTION_DISASSEMBLE_CRT0@,
        CLI_OPTION_DISASSEMBLE_CRT0_LONG@,
        CLI_OPTION_HEXDUMP_CRT0@,
        CLI_OPTION_HEXDUMP_CRT0_LONG@,
        CLI_OPTION_HEXDUMP_RELOCATIONS@,
        CLI_OPTION_HEXDUMP_RELOCATIONS_LONG@,
        CLI_OPTION_HEXDUMP_ROM_RAM@,
        CLI_OPTION_HEXDUMP_ROM_RAM_LONG@,
        CLI_OPTION_DISASSEMBLE_TEXT@,
        CLI_OPTION_DISASSEMBLE_TEXT_LONG@,
        CLI_OPTION_HEXDUMP_TEXT@,
        CLI_OPTION_HEXDUMP_TEXT_LONG@,
        CLI_OPTION_HEXDUMP_GOT@,
        CLI_OPTION_HEXDUMP_GOT_LONG@,
        CLI_OPTION_VERBOSE@,
    ]
}

/// The `i`-th accepted option.
pub fn option_name(i: usize) -> (r: &'static str)
    requires
        i < CLI_OPTION_COUNT,
    ensures
        r@ == option_names()[i as int],
{
    if i == 0 {
        CLI_OPTION_DISASSEMBLE_CRT0
    } else if i == 1 {
        CLI_OPTION_DISASSEMBLE_CRT0_LONG
    } else if i == 2 {
        CLI_OPTION_HEXDUMP_CRT0
    } else if i == 3 {
        CLI_OPTION_HEXDUMP_CRT0_LONG
    } else if i == 4 {
        CLI_OPTION_HEXDUMP_RELOCATIONS
    } else if i == 5 {
        CLI_OPTION_HEXDUMP_RELOCATIONS_LONG
    } else if i == 6 {
        CLI_OPTION_HEXDUMP_ROM_RAM
    } else if i == 7 {
        CLI_OPTION_HEXDUMP_ROM_RAM_LONG
    } else if i == 8 {
        CLI_OPTION_DISASSEMBLE_TEXT
    } else if i == 9 {
        CLI_OPTION_DISASSEMBLE_TEXT_LONG
    } else if i == 10 {
        CLI_OPTION_HEXDUMP_TEXT
    } else if i == 11 {
        CLI_OPTION_HEXDUMP_TEXT_LONG
    } else if i == 12 {
        CLI_OPTION_HEXDUMP_GOT
    } else if i == 13 {
        CLI_OPTION_HEXDUMP_GOT_LONG
    } else {
        CLI_OPTION_VERBOSE
    }
}

/// Why the reader's command line was refused.
#[derive(Debug, Clone, PartialEq, Eq)]
pub enum OptionsError {
    /// No file name was given (none at all, or the last argument is an option).
    MissingInput,
    /// Help alone was asked for.
    HelpRequested,
    /// An argument before the file name is not an accepted option.
    UnrecognizedOption(String),
}

impl OptionsError {
    /// The exit status the reader ends with.
    pub fn exit_code(&self) -> (r: i32)
        ensures
            r == (if *self is HelpRequested { 0i32 } else { 1i32 }),
    {
        match self {
            OptionsError::HelpRequested => 0,
            _ => 1,
        }
    }

    /// The message printed before the usage text, where there is one.
    pub fn message(&self) -> (r: Option<String>)
        ensures
            match *self {
                OptionsError::MissingInput => r matches Some(m) && m@ == "missing input file"@,
                OptionsError::HelpRequested => r is None,
                OptionsError::UnrecognizedOption(arg) => r matches Some(m) && m@
                    == "unrecognized option: "@ + arg@,
            },
    {
        match self {
            OptionsError::MissingInput => Some("missing input file".to_owned()),
            OptionsError::HelpRequested => None,
            OptionsError::UnrecognizedOption(arg) => {
                let mut m = "unrecognized option: ".to_owned();
                let cs = chars_of(arg.as_str());
                let ghost start = m@;
                let mut i: usize = 0;
                while i < cs.len()
                    invariant
                        i <= cs@.len(),
                        cs@ == arg@,
                        m@ == start + cs@.take(i as int),
                    decreases cs@.len() - i,
                {
                    m.push(cs[i]);
                    assert(cs@.take(i + 1) =~= cs@.take(i as int).push(cs@[i as int]));
                    i = i + 1;
                }
                assert(cs@.take(cs@.len() as int) =~= cs@);
                Some(m)
            },
        }
    }
}

/// `s` is one of the accepted options.
pub open spec fn is_cli_option(s: Seq<char>) -> bool {
    option_names().contains(s)
}

/// The arguments between the program name and the file name.
pub open spec fn middle_args(args: Seq<Seq<char>>) -> Seq<Seq<char>> {
    args.subrange(1, args.len() - 1)
}

/// The option `x` is on after the accepted options `middle`: named itself, or
/// implied by the verbose option (which is never on itself).
pub open spec fn option_selected(middle: Seq<Seq<char>>, x: Seq<char>) -> bool {
    ||| (middle.contains(x) && x != CLI_OPTION_VERBOSE@)
    ||| (middle.contains(CLI_OPTION_VERBOSE@) && option_names().take(14).contains(x))
}

/// The first argument of `middle` that is not an accepted option.
pub open spec fn first_unrecognized(middle: Seq<Seq<char>>, k: int) -> bool {
    &&& 0 <= k < middle.len()
    &&& !is_cli_option(middle[k])
    &&& forall|j: int| 0 <= j < k ==> is_cli_option(#[trigger] middle[j])
}

/// The argument is an option: it begins with '-'.
pub open spec fn looks_like_option(s: Seq<char>) -> bool {
    s.len() > 0 && s[0] == '-'
}

/// Help alone was asked for.
pub open spec fn asks_help(args: Seq<Seq<char>>) -> bool {
    args.len() == 2 && (args[1] == CLI_OPTION_HELP@ || args[1] == CLI_OPTION_HELP_LONG@)
}

fn option_index(arg: &String) -> (r: Option<usize>)
    ensures
        match r {
            Some(i) => i < CLI_OPTION_COUNT && option_names()[i as int] == arg@,
            None => !is_cli_option(arg@),
        },
{
    let mut i: usize = 0;
    while i < CLI_OPTION_COUNT
        invariant
            i <= CLI_OPTION_COUNT,
            forall|j: int| 0 <= j < i ==> option_names()[j] != arg@,
        decreases CLI_OPTION_COUNT - i,
    {
        if eq_chars(arg, option_name(i)) {
            return Some(i);
        }
        i = i + 1;
    }
    proof {
        if is_cli_option(arg@) {
            let j = choose|j: int| 0 <= j < option_names().len() && option_names()[j] == arg@;
            assert(option_names()[j] != arg@);
        }
    }
    None
}

pub fn starts_with_dash(s: &String) -> (r: bool)
    ensures
        r == looks_like_option(s@),
{
    let mut chars = s.as_str().chars();
    let first = chars.next();
    proof {
        if s@.len() > 0 {
            assert(first == Some(s@[0]));
        } else {
            assert(first is None);
        }
    }
    match first {
        Some(c) => c == '-',
        None => false,
    }
}

/// Reads the options of the reader's command line `args` (the program name
/// first, the file name last). The options that are on come back, each once.
pub fn parse_options(args: &[String]) -> (r: Result<Vec<String>, OptionsError>)
    requires
        args.len() >= 1,
    ensures
        ({
            let a = names(args@);
            match r {
                Err(OptionsError::MissingInput) => a.len() < 2 || (!asks_help(a) && looks_like_option(
                    a.last(),
                )),
                Err(OptionsError::HelpRequested) => asks_help(a),
                Err(OptionsError::UnrecognizedOption(s)) => {
                    &&& a.len() >= 2
                    &&& !asks_help(a)
                    &&& !looks_like_option(a.last())
                    &&& exists|k: int| first_unrecognized(middle_args(a), k) && middle_args(a)[k] == s@
                },
                Ok(options) => {
                    &&& a.len() >= 2
                    &&& !asks_help(a)
                    &&& !looks_like_option(a.last())
                    &&& forall|j: int|
                        0 <= j < middle_args(a).len() ==> is_cli_option(#[trigger] middle_args(a)[j])
                    &&& names(options@).no_duplicates()
                    &&& forall|x: Seq<char>|
                        names(options@).contains(x) <==> option_selected(middle_args(a), x)
                },
            }
        }),
{
    let ghost a = names(args@);
    if args.len() < 2 {
        return Err(OptionsError::MissingInput);
    }
    if args.len() == 2 && (eq_chars(&args[1], CLI_OPTION_HELP) || eq_chars(&args[1], CLI_OPTION_HELP_LONG)) {
        return Err(OptionsError::HelpRequested);
    }
    if starts_with_dash(&args[args.len() - 1]) {
        return Err(OptionsError::MissingInput);
    }
    let ghost middle = middle_args(a);
    let last: usize = args.len() - 1;
    let mut options: Vec<String> = Vec::new();
    let mut i: usize = 1;
    while i < last
        invariant
            a == names(args@),
            a.len() >= 2,
            !asks_help(a),
            !looks_like_option(a.last()),
            last == args.len() - 1,
            middle == middle_args(a),
            1 <= i <= last,
            forall|j: int| 0 <= j < i - 1 ==> is_cli_option(#[trigger] middle[j]),
            names(options@).no_duplicates(),
            forall|x: Seq<char>|
                names(options@).contains(x) <==> option_selected(middle.take(i - 1), x),
        decreases last - i,
    {
        let ghost before = names(options@);
        let ghost done = middle.take(i - 1);
        let ghost next = middle.take(i as int);
        let ghost v = middle[i - 1];
        proof {
            assert(next =~= done.push(v));
            lemma_push_contains(done, v);
            assert(v == a[i as int]);
        }
        match option_index(&args[i]) {
            None => {
                proof {
                    assert(first_unrecognized(middle, i - 1));
                }
                return Err(OptionsError::UnrecognizedOption(args[i].clone()));
            },
            Some(k) => {
                if k == 14 {
                    let mut m: usize = 0;
                    while m < 14
                        invariant
                            0 <= m <= 14,
                            names(options@).no_duplicates(),
                            forall|x: Seq<char>|
                                names(options@).contains(x) <==> (before.contains(x)
                                    || option_names().take(m as int).contains(x)),
                        decreases 14 - m,
                    {
                        let ghost prev = names(options@);
                        push_unique_name(&mut options, option_name(m));
                        proof {
                            lemma_push_unique(prev, option_names()[m as int], names(options@));
                            assert(option_names().take(m + 1) =~= option_names().take(m as int).push(
                                option_names()[m as int],
                            ));
                            lemma_push_contains(option_names().take(m as int), option_names()[m as int]);
                            assert forall|x: Seq<char>|
                                #[trigger] names(options@).contains(x) <==> (before.contains(x)
                                    || option_names().take(m + 1).contains(x)) by {
                                assert(prev.contains(x) <==> (before.contains(x) || option_names().take(
                                    m as int,
                                ).contains(x)));
                                assert(option_names().take(m as int).push(option_names()[m as int]).contains(x)
                                    <==> (option_names().take(m as int).contains(x) || x == option_names()[m as int]));
                            }
                        }
                        m = m + 1;
                    }
                    proof {
                        assert(option_names().take(14) =~= option_names().take(14));
                        assert(next.contains(CLI_OPTION_VERBOSE@)) by {
                            assert(next[i - 1] == v);
                        }
                    }
                } else {
                    let ghost prev = names(options@);
                    push_unique_name(&mut options, &args[i]);
                    proof {
                        lemma_push_unique(prev, v, names(options@));
                        assert(option_names()[k as int] != CLI_OPTION_VERBOSE@) by {
                            reveal_strlit("-Dcrt0");
                            reveal_strlit("--Dcrt0");
                            reveal_strlit("-Hcrt0");
                            reveal_strlit("--Hcrt0");
                            reveal_strlit("-Hreloc");
                            reveal_strlit("--Hreloc");
                            reveal_strlit("-Hromram");
                            reveal_strlit("--Hromram");
                            reveal_strlit("-Drom");
                            reveal_strlit("--Drom");
                            reveal_strlit("-Hrom");
                            reveal_strlit("--Hrom");
                            reveal_strlit("-Hgot");
                            reveal_strlit("--Hgot");
                            reveal_strlit("-v");
                            assert(option_names()[k as int].len() != 2);
                        }
                        assert(option_names().take(14).contains(v)) by {
                            assert(option_names().take(14)[k as int] == v);
                        }
                    }
                }
                proof {
                    assert forall|x: Seq<char>|
                        names(options@).contains(x) <==> option_selected(next, x) by {
                        assert(before.contains(x) <==> option_selected(done, x));
                        assert(next.contains(x) <==> (done.contains(x) || x == v));
                        assert(next.contains(CLI_OPTION_VERBOSE@) <==> (done.contains(CLI_OPTION_VERBOSE@)
                            || CLI_OPTION_VERBOSE@ == v));
                    }
                    assert forall|j: int| 0 <= j < i ==> is_cli_option(#[trigger] middle[j]) by {
                        if j == i - 1 {
                            assert(option_names()[k as int] == middle[j]);
                        }
                    }
                }
            },
        }
        i = i + 1;
    }
    proof {
        assert(middle.take(last - 1) =~= middle);
    }
    Ok(options)
}

proof fn lemma_push_contains<A>(s: Seq<A>, v: A)
    ensures
        forall|x: A| s.push(v).contains(x) <==> (s.contains(x) || x == v),
{
    assert forall|x: A| s.push(v).contains(x) <==> (s.contains(x) || x == v) by {
        if s.contains(x) {
            let t = choose|t: int| 0 <= t < s.len() && s[t] == x;
            assert(s.push(v)[t] == x);
        }
        if x == v {
            assert(s.push(v)[s.len() as int] == x);
        }
        if s.push(v).contains(x) {
            let t = choose|t: int| 0 <= t < s.push(v).len() && s.push(v)[t] == x;
            if t < s.len() {
                assert(s[t] == x);
            }
        }
    }
}

proof fn lemma_push_unique<A>(prev: Seq<A>, v: A, after: Seq<A>)
    requires
        prev.no_duplicates(),
        after == (if prev.contains(v) { prev } else { prev.push(v) }),
    ensures
        after.no_duplicates(),
        forall|x: A| after.contains(x) <==> (prev.contains(x) || x == v),
{
    lemma_push_contains(prev, v);
    if !prev.contains(v) {
        assert forall|p: int, q: int|
            0 <= p < after.len() && 0 <= q < after.len() && p != q implies after[p] != after[q] by {
            if p < prev.len() && q < prev.len() {
                assert(after[p] == prev[p] && after[q] == prev[q]);
            } else if p == prev.len() {
                assert(prev[q] == after[q]);
            } else {
                assert(prev[p] == after[p]);
            }
        }
    }
}

/// Whether the option given by its short or long name is on.
pub fn has_option(options: &Vec<String>, short: &str, long: &str) -> (r: bool)
    ensures
        r == (names(options@).contains(short@) || names(options@).contains(long@)),
{
    contains_name(options, short) || contains_name(options, long)
}

/// The lower-case hexadecimal text of `n`, without leading zeros.
pub open spec fn hex_text(n: nat) -> Seq<char>
    decreases n,
{
    if n < 16 {
        seq![hex_digit_char(n)]
    } else {
        hex_text(n / 16).push(hex_digit_char(n % 16))
    }
}

/// The lower-case hexadecimal text of `n` with at least eight digits
/// (zeros in front where it has fewer).
pub open spec fn hex_min8(n: nat) -> Seq<char> {
    if n < 0x1_0000_0000 {
        hex8(n as u32)
    } else {
        hex_text(n)
    }
}

/// The two lower-case hexadecimal digits of a byte.
pub open spec fn hex2(b: u8) -> Seq<char> {
    seq![hex_digit_char((b / 16) as nat), hex_digit_char((b % 16) as nat)]
}

/// The bytes as two-digit hexadecimal numbers, one space between each.
pub open spec fn hex_space(bytes: Seq<u8>) -> Seq<char>
    decreases bytes.len(),
{
    if bytes.len() == 0 {
        seq![]
    } else if bytes.len() == 1 {
        hex2(bytes[0])
    } else {
        hex_space(bytes.drop_last()) + seq![' '] + hex2(bytes.last())
    }
}

/// `n` spaces.
pub open spec fn spaces(n: nat) -> Seq<char> {
    Seq::new(n, |_i: int| ' ')
}

/// `s` with spaces after it up to `width` characters.
pub open spec fn pad_right(s: Seq<char>, width: nat) -> Seq<char> {
    if s.len() < width {
        s + spaces((width - s.len()) as nat)
    } else {
        s
    }
}

/// How a byte shows in the text column: itself where it is printable ASCII,
/// else a dot.
pub open spec fn shown_char(b: u8) -> char {
    if 32 <= b && b < 127 {
        b as char
    } else {
        '.'
    }
}

/// One hexdump line: the offset, the first eight bytes, the next eight
/// (or blanks), and the bytes as text between bars.
pub open spec fn hexdump_line_text(offset: nat, bytes: Seq<u8>) -> Seq<char> {
    let a = if bytes.len() > 8 {
        hex_space(bytes.take(8))
    } else {
        hex_space(bytes)
    };
    let b = if bytes.len() > 8 {
        pad_right(hex_space(bytes.skip(8)), 23)
    } else {
        spaces(35)
    };
    let c = seq!['|'] + pad_right(bytes.map_values(|x: u8| shown_char(x)), 16) + seq!['|'];
    hex_min8(offset) + seq![' ', ' '] + a + seq![' ', ' '] + b + seq![' ', ' '] + c
}

fn push_hex_digit(out: &mut String, d: u64)
    requires
        d < 16,
    ensures
        final(out)@ == old(out)@.push(hex_digit_char(d as nat)),
{
    let c = if d == 0 {
        '0'
    } else if d == 1 {
        '1'
    } else if d == 2 {
        '2'
    } else if d == 3 {
        '3'
    } else if d == 4 {
        '4'
    } else if d == 5 {
        '5'
    } else if d == 6 {
        '6'
    } else if d == 7 {
        '7'
    } else if d == 8 {
        '8'
    } else if d == 9 {
        '9'
    } else if d == 10 {
        'a'
    } else if d == 11 {
        'b'
    } else if d == 12 {
        'c'
    } else if d == 13 {
        'd'
    } else if d == 14 {
        'e'
    } else {
        'f'
    };
    out.push(c);
}

fn push_hex_text(out: &mut String, value: u64)
    ensures
        final(out)@ == old(out)@ + hex_text(value as nat),
    decreases value,
{
    if value >= 16 {
        push_hex_text(out, value / 16);
    }
    push_hex_digit(out, value % 16);
    assert(out@ =~= old(out)@ + hex_text(value as nat));
}

fn push_hex_min8(out: &mut String, value: usize)
    ensures
        final(out)@ == old(out)@ + hex_min8(value as nat),
{
    let wide: u64 = value as u64;
    if wide < 0x1_0000_0000u64 {
        push_hex8(out, wide as u32);
    } else {
        push_hex_text(out, wide);
    }
}

fn push_hex2(out: &mut String, b: u8)
    ensures
        final(out)@ == old(out)@ + hex2(b),
{
    push_hex_digit(out, (b / 16) as u64);
    push_hex_digit(out, (b % 16) as u64);
    assert(out@ =~= old(out)@ + hex2(b));
}

fn push_hex_space(out: &mut String, bytes: &[u8], start: usize, end: usize)
    requires
        start <= end <= bytes.len(),
    ensures
        final(out)@ == old(out)@ + hex_space(bytes@.subrange(start as int, end as int)),
{
    let ghost begin = out@;
    let mut i: usize = start;
    while i < end
        invariant
            start <= i <= end <= bytes.len(),
            out@ == begin + hex_space(bytes@.subrange(start as int, i as int)),
        decreases end - i,
    {
        let ghost prefix = bytes@.subrange(start as int, i as int);
        if i > start {
            out.push(' ');
        }
        push_hex2(out, bytes[i]);
        proof {
            let next = bytes@.subrange(start as int, i + 1);
            assert(next.drop_last() =~= prefix);
            assert(next.last() == bytes@[i as int]);
            if i == start {
                assert(prefix.len() == 0);
                assert(out@ =~= begin + hex_space(next));
            } else {
                assert(out@ =~= begin + hex_space(next));
            }
        }
        i = i + 1;
    }
}

fn push_spaces(out: &mut String, n: usize)
    ensures
        final(out)@ == old(out)@ + spaces(n as nat),
{
    let ghost begin = out@;
    let mut i: usize = 0;
    while i < n
        invariant
            i <= n,
            out@ == begin + spaces(i as nat),
        decreases n - i,
    {
        out.push(' ');
        assert(spaces((i + 1) as nat) =~= spaces(i as nat).push(' '));
        i = i + 1;
    }
}

proof fn lemma_hex_space_len(bytes: Seq<u8>)
    requires
        bytes.len() >= 1,
    ensures
        hex_space(bytes).len() == 3 * bytes.len() - 1,
    decreases bytes.len(),
{
    if bytes.len() > 1 {
        lemma_hex_space_len(bytes.drop_last());
    }
}

/// The hexdump line of `bytes` (at most sixteen) found at `offset`.
#[verifier::rlimit(40)]
#[verifier::spinoff_prover]
pub fn hexdump_line(offset: usize, bytes: &[u8]) -> (r: String)
    requires
        bytes.len() <= 16,
    ensures
        r@ == hexdump_line_text(offset as nat, bytes@),
{
    let n = bytes.len();
    let mut out = String::new();
    push_hex_min8(&mut out, offset);
    out.push(' ');
    out.push(' ');
    let ghost head = out@;
    if n > 8 {
        push_hex_space(&mut out, bytes, 0, 8);
        assert(bytes@.subrange(0, 8) =~= bytes@.take(8));
    } else {
        push_hex_space(&mut out, bytes, 0, n);
        assert(bytes@.subrange(0, n as int) =~= bytes@);
    }
    out.push(' ');
    out.push(' ');
    if n > 8 {
        let ghost before = out@;
        push_hex_space(&mut out, bytes, 8, n);
        proof {
            assert(bytes@.subrange(8, n as int) =~= bytes@.skip(8));
            lemma_hex_space_len(bytes@.skip(8));
        }
        let used: usize = 3 * (n - 8) - 1;
        push_spaces(&mut out, 23 - used);
    } else {
        push_spaces(&mut out, 35);
    }
    out.push(' ');
    out.push(' ');
    out.push('|');
    let ghost text_start = out@;
    let mut i: usize = 0;
    while i < n
        invariant
            i <= n == bytes@.len(),
            out@ == text_start + bytes@.take(i as int).map_values(|x: u8| shown_char(x)),
        decreases n - i,
    {
        let b = bytes[i];
        let c = if 32 <= b && b < 127 {
            b as char
        } else {
            '.'
        };
        out.push(c);
        assert(bytes@.take(i + 1).map_values(|x: u8| shown_char(x)) =~= bytes@.take(
            i as int,
        ).map_values(|x: u8| shown_char(x)).push(shown_char(b)));
        i = i + 1;
    }
    assert(bytes@.take(n as int) =~= bytes@);
    push_spaces(&mut out, 16 - n);
    out.push('|');
    assert(out@ =~= hexdump_line_text(offset as nat, bytes@));
    out
}

/// The number of hexdump lines for `len` bytes.
pub open spec fn hexdump_line_count(len: nat) -> nat {
    (len + 15) as nat / 16
}

/// The hexdump of `data`: one line for each sixteen bytes, the last with
/// what is left.
pub fn hexdump(data: &[u8]) -> (r: Vec<String>)
    ensures
        r@.len() == hexdump_line_count(data@.len()),
        forall|i: int|
            0 <= i < r@.len() ==> #[trigger] r@[i]@ == hexdump_line_text(
                (16 * i) as nat,
                data@.subrange(16 * i, if 16 * i + 16 <= data@.len() { 16 * i + 16 } else { data@.len() as int }),
            ),
{
    let mut lines: Vec<String> = Vec::new();
    let mut offset: usize = 0;
    while offset < data.len()
        invariant
            offset <= data@.len(),
            offset < data@.len() ==> offset == 16 * lines@.len(),
            lines@.len() == hexdump_line_count(offset as nat),
            forall|i: int|
                0 <= i < lines@.len() ==> #[trigger] lines@[i]@ == hexdump_line_text(
                    (16 * i) as nat,
                    data@.subrange(16 * i, if 16 * i + 16 <= data@.len() { 16 * i + 16 } else { data@.len() as int }),
                ),
        decreases data@.len() - offset,
    {
        let remaining = data.len() - offset;
        let count: usize = if remaining < 16 { remaining } else { 16 };
        let chunk = copy_range(data, offset, offset + count);
        let line = hexdump_line(offset, chunk.as_slice());
        lines.push(line);
        offset = offset + count;
    }
    lines
}


/// The last byte of a chunk of `size` bytes at `start`: none for an empty
/// chunk or where it lies past the end of the address space.
pub fn checked_end(start: usize, size: usize) -> (r: Option<usize>)
    ensures
        size == 0 ==> r is None,
        size > 0 && start + size - 1 > usize::MAX ==> r is None,
        size > 0 && start + size - 1 <= usize::MAX ==> r == Some((start + size - 1) as usize),
{
    if size == 0 {
        return None;
    }
    start.checked_add(size - 1)
}

} // verus!

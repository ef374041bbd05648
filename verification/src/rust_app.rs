//! The decisions of the Rust application builder: the compiler flags and
//! configuration it hands to cargo, the package name it reads from a
//! manifest, its command line, and the image-builder command it runs last.

use vstd::prelude::*;

use crate::build_cli::{
    parse_alignment, parse_u32_decimal, parse_u32_value, spec_parse_alignment, spec_parse_u32_decimal,
    spec_parse_u32_value, AlignmentError,
};
use crate::build_cli::{all_digits, digit_value, digits_value, without_underscores};
use crate::common::{
    decimal, digit_char, is_power_of_two, pow16, push_decimal, push_upper_hex8, upper_hex8,
    upper_hex_digit_char,
};
use crate::constants;
use crate::section_plan::{has_prefix, names, starts_with};
use crate::section_plan::eq_chars;
use crate::text::{
    chars_of, is_white_space, leading_white_space, trailing_white_space, lemma_leading_exact, lines, push_text, split_lines,
    string_of, trim_bounds, trim_str, trimmed, white_space,
};

verus! {

broadcast use vstd::string::group_string_axioms;

/// The target the application is built for unless `--target` says otherwise.
pub const DEFAULT_TARGET: &'static str = "thumbv7em-none-eabi";

/// The stack a Rustlet asks for unless `--stack-size` says otherwise.
pub const DEFAULT_STACK_SIZE: u32 = 2048;

// ---------------------------------------------------------------------------
// Compiler flags
// ---------------------------------------------------------------------------
/// The flags every build passes to rustc: one function per section, abort
/// on panic, read-only position independence with a static base, and the
/// link arguments that keep relocations and drop unused sections.
pub open spec fn base_rustflags() -> Seq<Seq<char>> {
    seq![
        "-Z"@,
        "function-sections=yes"@,
        "-C"@,
        "panic=abort"@,
        "-C"@,
        "relocation-model=ropi-rwpi"@,
        "-C"@,
        "link-arg=--emit-relocs"@,
        "-C"@,
        "link-arg=--gc-sections"@,
        "-C"@,
        "link-arg=--no-undefined"@,
    ]
}

/// The flags of a build: the base flags, then the link script as a
/// pre-link argument where there is one, then a `--cfg` where there is one.
pub open spec fn spec_rustflags(linker_script: Option<Seq<char>>, extra_cfg: Option<Seq<char>>) -> Seq<Seq<char>> {
    base_rustflags() + match linker_script {
        Some(p) => seq!["-Z"@, "pre-link-arg=-T"@ + p],
        None => Seq::empty(),
    } + match extra_cfg {
        Some(c) => seq!["--cfg"@, c],
        None => Seq::empty(),
    }
}

pub open spec fn opt_view(o: Option<&str>) -> Option<Seq<char>> {
    match o {
        Some(s) => Some(s@),
        None => None,
    }
}

/// The rustc flags of a build.
pub fn build_rustflags(linker_script: Option<&str>, extra_cfg: Option<&str>) -> (r: Vec<String>)
    ensures
        names(r@) == spec_rustflags(opt_view(linker_script), opt_view(extra_cfg)),
{
    let mut flags: Vec<String> = vec![
        "-Z".to_owned(),
        "function-sections=yes".to_owned(),
        "-C".to_owned(),
        "panic=abort".to_owned(),
        "-C".to_owned(),
        "relocation-model=ropi-rwpi".to_owned(),
        "-C".to_owned(),
        "link-arg=--emit-relocs".to_owned(),
        "-C".to_owned(),
        "link-arg=--gc-sections".to_owned(),
        "-C".to_owned(),
        "link-arg=--no-undefined".to_owned(),
    ];
    assert(names(flags@) =~= base_rustflags());
    if let Some(script) = linker_script {
        let ghost before = names(flags@);
        flags.push("-Z".to_owned());
        let mut arg = "pre-link-arg=-T".to_owned();
        push_text(&mut arg, script);
        flags.push(arg);
        assert(names(flags@) =~= before + seq!["-Z"@, "pre-link-arg=-T"@ + script@]);
    }
    let ghost middle = names(flags@);
    if let Some(cfg) = extra_cfg {
        flags.push("--cfg".to_owned());
        flags.push(cfg.to_owned());
        assert(names(flags@) =~= middle + seq!["--cfg"@, cfg@]);
    } else {
        assert(names(flags@) =~= middle + Seq::<Seq<char>>::empty());
    }
    proof {
        if linker_script is None {
            assert(base_rustflags() + Seq::<Seq<char>>::empty() =~= base_rustflags());
        }
    }
    flags
}

// ---------------------------------------------------------------------------
// TOML arrays of strings
// ---------------------------------------------------------------------------
/// A character inside a TOML basic string: backslash and double quote
/// escaped with a backslash, anything else as it is.
pub open spec fn toml_char(c: char) -> Seq<char> {
    if c == '\\' {
        seq!['\\', '\\']
    } else if c == '"' {
        seq!['\\', '"']
    } else {
        seq![c]
    }
}

/// The characters of `s` inside a TOML basic string.
pub open spec fn toml_escaped(s: Seq<char>) -> Seq<char>
    decreases s.len(),
{
    if s.len() == 0 {
        Seq::empty()
    } else {
        toml_escaped(s.drop_last()) + toml_char(s.last())
    }
}

/// The items as quoted TOML strings, separated by commas.
pub open spec fn toml_items(items: Seq<Seq<char>>) -> Seq<char>
    decreases items.len(),
{
    if items.len() == 0 {
        Seq::empty()
    } else {
        toml_items(items.drop_last()) + (if items.len() > 1 {
            seq![',']
        } else {
            Seq::empty()
        }) + seq!['"'] + toml_escaped(items.last()) + seq!['"']
    }
}

/// A TOML array of the items as strings.
pub open spec fn spec_toml_array(items: Seq<Seq<char>>) -> Seq<char> {
    seq!['['] + toml_items(items) + seq![']']
}

fn push_toml_string(out: &mut String, item: &String)
    ensures
        final(out)@ == old(out)@ + seq!['"'] + toml_escaped(item@) + seq!['"'],
{
    out.push('"');
    let cs = chars_of(item.as_str());
    let ghost start = out@;
    let mut i: usize = 0;
    while i < cs.len()
        invariant
            i <= cs@.len(),
            cs@ == item@,
            out@ == start + toml_escaped(cs@.take(i as int)),
        decreases cs@.len() - i,
    {
        let c = cs[i];
        if c == '\\' {
            out.push('\\');
            out.push('\\');
        } else if c == '"' {
            out.push('\\');
            out.push('"');
        } else {
            out.push(c);
        }
        proof {
            let t = cs@.take(i + 1);
            assert(t.drop_last() =~= cs@.take(i as int));
            assert(t.last() == c);
            assert(out@ =~= start + toml_escaped(t));
        }
        i = i + 1;
    }
    assert(cs@.take(cs@.len() as int) =~= cs@);
    out.push('"');
}

/// The items as a TOML array of strings, as cargo's `--config` reads it.
pub fn toml_array(items: &[String]) -> (r: String)
    ensures
        r@ == spec_toml_array(names(items@)),
{
    let mut out = String::new();
    out.push('[');
    let mut i: usize = 0;
    while i < items.len()
        invariant
            i <= items@.len(),
            out@ == seq!['['] + toml_items(names(items@).take(i as int)),
        decreases items@.len() - i,
    {
        let ghost before = out@;
        if i != 0 {
            out.push(',');
        }
        push_toml_string(&mut out, &items[i]);
        proof {
            let t = names(items@).take(i + 1);
            assert(t.drop_last() =~= names(items@).take(i as int));
            assert(t.last() == items@[i as int]@);
            assert(out@ =~= seq!['['] + toml_items(t));
        }
        i = i + 1;
    }
    assert(names(items@).take(items@.len() as int) =~= names(items@));
    out.push(']');
    out
}

// ---------------------------------------------------------------------------
// Startup, packaging and descriptors
// ---------------------------------------------------------------------------
/// The startup the image builder is told to use for a target: `thumbv6m`
/// for the ARMv6-M targets, the builder's own choice otherwise.
pub fn runtime_startup_for_target(target: &str) -> (r: Option<&'static str>)
    ensures
        starts_with(target@, "thumbv6m"@) ==> (r matches Some(s) && s@ == "thumbv6m"@),
        !starts_with(target@, "thumbv6m"@) ==> r is None,
{
    if has_prefix(&target.to_owned(), "thumbv6m") {
        Some("thumbv6m")
    } else {
        None
    }
}

/// Which descriptor a word count is about.
#[derive(Debug, Clone, Copy, PartialEq, Eq)]
pub enum DescriptorName {
    Isa,
    Abi,
}

/// A descriptor declares, in its low nibble, how many words follow it.
#[derive(Debug, Clone, Copy, PartialEq, Eq)]
pub struct WordCountMismatch {
    pub kind: DescriptorName,
    pub expected: usize,
    pub supplied: usize,
}

/// Where a descriptor is given, its low nibble counts the words given for it.
pub fn validate_descriptor_word_count(kind: DescriptorName, descriptor: Option<u32>, words: &[u32]) -> (r: Result<
    (),
    WordCountMismatch,
>)
    ensures
        match descriptor {
            None => r is Ok,
            Some(d) => if (d & 0x0F) as int == words@.len() {
                r is Ok
            } else {
                r == Err::<(), WordCountMismatch>(
                    WordCountMismatch { kind, expected: (d & 0x0F) as usize, supplied: words@.len() as usize },
                )
            },
        },
{
    if let Some(d) = descriptor {
        let expected = (d & 0x0F) as usize;
        if expected != words.len() {
            return Err(WordCountMismatch { kind, expected, supplied: words.len() });
        }
    }
    Ok(())
}

/// What the build makes of the linked application: the ELF alone, a FAE
/// image, or a bootable image for a board.
#[derive(Debug, Clone, PartialEq, Eq)]
pub enum PackagingMode {
    ElfOnly,
    Fae,
    Bootable { board: String },
}

/// A packaging option given a second time.
#[derive(Debug, Clone, PartialEq, Eq)]
pub struct DuplicatePackaging {
    pub option: String,
}

/// Records a packaging option; a second one is refused and changes nothing.
pub fn set_packaging_option(packaging: &mut Option<PackagingMode>, value: PackagingMode, option: &str) -> (r: Result<
    (),
    DuplicatePackaging,
>)
    ensures
        (*old(packaging)) is None ==> r is Ok && *final(packaging) == Some(value),
        (*old(packaging)) is Some ==> (r matches Err(e) && e.option@ == option@ && *final(packaging) == *old(packaging)),
{
    if packaging.is_some() {
        return Err(DuplicatePackaging { option: option.to_owned() });
    }
    *packaging = Some(value);
    Ok(())
}


// ---------------------------------------------------------------------------
// The package name of a manifest
// ---------------------------------------------------------------------------
/// The number of `c` that `s` starts with.
pub open spec fn leading_count(s: Seq<char>, c: char) -> nat
    decreases s.len(),
{
    if s.len() > 0 && s[0] == c {
        1 + leading_count(s.drop_first(), c)
    } else {
        0
    }
}

/// The number of `c` that `s` ends with.
pub open spec fn trailing_count(s: Seq<char>, c: char) -> nat
    decreases s.len(),
{
    if s.len() > 0 && s.last() == c {
        1 + trailing_count(s.drop_last(), c)
    } else {
        0
    }
}

/// `s` without the `c`s it starts and ends with.
pub open spec fn trim_char(s: Seq<char>, c: char) -> Seq<char> {
    let t = s.skip(leading_count(s, c) as int);
    t.take(t.len() - trailing_count(t, c))
}

proof fn lemma_leading_count_exact(s: Seq<char>, c: char, k: int)
    requires
        0 <= k <= s.len(),
        forall|i: int| 0 <= i < k ==> #[trigger] s[i] == c,
        k < s.len() ==> s[k] != c,
    ensures
        leading_count(s, c) == k,
    decreases s.len(),
{
    if k > 0 {
        assert(s[0] == c);
        assert forall|i: int| 0 <= i < k - 1 implies #[trigger] s.drop_first()[i] == c by {
            assert(s.drop_first()[i] == s[i + 1]);
        }
        if k - 1 < s.len() - 1 {
            assert(s.drop_first()[k - 1] == s[k]);
        }
        lemma_leading_count_exact(s.drop_first(), c, k - 1);
    }
}

proof fn lemma_trailing_count_exact(s: Seq<char>, c: char, k: int)
    requires
        0 <= k <= s.len(),
        forall|i: int| s.len() - k <= i < s.len() ==> #[trigger] s[i] == c,
        k < s.len() ==> s[s.len() - 1 - k] != c,
    ensures
        trailing_count(s, c) == k,
    decreases s.len(),
{
    if k > 0 {
        assert(s.last() == c);
        let t = s.drop_last();
        assert forall|i: int| t.len() - (k - 1) <= i < t.len() implies #[trigger] t[i] == c by {
            assert(t[i] == s[i]);
        }
        if k - 1 < t.len() {
            assert(t[t.len() - 1 - (k - 1)] == s[s.len() - 1 - k]);
        }
        lemma_trailing_count_exact(t, c, k - 1);
    }
}

/// The value of a `name = "..."` line: after `name`, white space, an `=`,
/// the rest trimmed and stripped of double quotes; none where that is empty.
pub open spec fn name_value(line: Seq<char>) -> Option<Seq<char>> {
    if starts_with(line, "name"@) {
        let rest = line.skip(4);
        let after = rest.skip(leading_white_space(rest) as int);
        if after.len() > 0 && after[0] == '=' {
            let v = trim_char(trimmed(after.drop_first()), '"');
            if v.len() > 0 {
                Some(v)
            } else {
                None
            }
        } else {
            None
        }
    } else {
        None
    }
}

/// The package name found from line `i` on, `in_package` telling whether
/// the lines before left the reader inside the `[package]` table: the first
/// `name` line with a value inside that table.
pub open spec fn package_name_from(ls: Seq<Seq<char>>, i: int, in_package: bool) -> Option<Seq<char>>
    decreases ls.len() - i,
{
    if i < 0 || i >= ls.len() {
        None
    } else {
        let line = trimmed(ls[i]);
        if line.len() > 0 && line[0] == '[' {
            package_name_from(ls, i + 1, line == "[package]"@)
        } else if in_package && name_value(line) is Some {
            name_value(line)
        } else {
            package_name_from(ls, i + 1, in_package)
        }
    }
}

/// The `[package]` name of a Cargo manifest.
pub open spec fn spec_package_name(manifest: Seq<char>) -> Option<Seq<char>> {
    package_name_from(lines(manifest), 0, false)
}

pub open spec fn opt_string_view(o: Option<String>) -> Option<Seq<char>> {
    match o {
        Some(s) => Some(s@),
        None => None,
    }
}

fn name_value_of(line: &String) -> (r: Option<String>)
    ensures
        opt_string_view(r) == name_value(line@),
{
    let t = chars_of(line.as_str());
    let n = t.len();
    if !has_prefix(line, "name") {
        return None;
    }
    proof {
        reveal_strlit("name");
    }
    let ghost rest = t@.skip(4);
    let mut j: usize = 4;
    while j < n && white_space(t[j])
        invariant
            4 <= j <= n == t@.len(),
            t@ == line@,
            rest == t@.skip(4),
            forall|i: int| 4 <= i < j ==> is_white_space(#[trigger] t@[i]),
        decreases n - j,
    {
        j = j + 1;
    }
    proof {
        assert forall|i: int| 0 <= i < j - 4 implies is_white_space(#[trigger] rest[i]) by {
            assert(rest[i] == t@[i + 4]);
        }
        if j < n {
            assert(rest[j - 4] == t@[j as int]);
        }
        lemma_leading_exact(rest, j - 4);
    }
    let ghost after = rest.skip(leading_white_space(rest) as int);
    assert(after =~= t@.subrange(j as int, n as int));
    if j >= n || t[j] != '=' {
        return None;
    }
    assert(after.drop_first() =~= t@.subrange(j + 1, n as int));
    let (a, b) = trim_bounds(&t, j + 1, n);
    let ghost tr = t@.subrange(a as int, b as int);
    let mut qa: usize = a;
    while qa < b && t[qa] == '"'
        invariant
            a <= qa <= b <= n == t@.len(),
            forall|i: int| a <= i < qa ==> #[trigger] t@[i] == '"',
        decreases b - qa,
    {
        qa = qa + 1;
    }
    proof {
        assert forall|i: int| 0 <= i < qa - a implies #[trigger] tr[i] == '"' by {
            assert(tr[i] == t@[a + i]);
        }
        if qa < b {
            assert(tr[qa - a] == t@[qa as int]);
        }
        lemma_leading_count_exact(tr, '"', qa - a);
    }
    let ghost t2 = tr.skip(qa - a);
    assert(t2 =~= t@.subrange(qa as int, b as int));
    let mut qb: usize = b;
    while qb > qa && t[qb - 1] == '"'
        invariant
            a <= qa <= qb <= b <= n == t@.len(),
            forall|i: int| qb <= i < b ==> #[trigger] t@[i] == '"',
        decreases qb - qa,
    {
        qb = qb - 1;
    }
    proof {
        assert forall|i: int| t2.len() - (b - qb) <= i < t2.len() implies #[trigger] t2[i] == '"' by {
            assert(t2[i] == t@[qa + i]);
        }
        if b - qb < t2.len() {
            assert(t2[t2.len() - 1 - (b - qb)] == t@[qb - 1]);
        }
        lemma_trailing_count_exact(t2, '"', b - qb);
        assert(t2.take(t2.len() - (b - qb)) =~= t@.subrange(qa as int, qb as int));
    }
    if qa == qb {
        return None;
    }
    Some(string_of(&t, qa, qb))
}

/// The `[package]` name of a Cargo manifest's text, if it has one.
pub fn parse_package_name(manifest: &str) -> (r: Option<String>)
    ensures
        opt_string_view(r) == spec_package_name(manifest@),
{
    let ls = split_lines(manifest);
    let ghost l = ls@.map_values(|x: String| x@);
    let mut in_package = false;
    let mut i: usize = 0;
    while i < ls.len()
        invariant
            i <= ls@.len(),
            l == ls@.map_values(|x: String| x@),
            l == lines(manifest@),
            package_name_from(l, 0, false) == package_name_from(l, i as int, in_package),
        decreases ls@.len() - i,
    {
        let line = trim_str(ls[i].as_str());
        assert(l[i as int] == ls@[i as int]@);
        let lc = chars_of(line.as_str());
        if lc.len() > 0 && lc[0] == '[' {
            in_package = eq_chars(&line, "[package]");
        } else if in_package {
            match name_value_of(&line) {
                Some(v) => {
                    return Some(v);
                },
                None => {},
            }
        }
        i = i + 1;
    }
    None
}


// ---------------------------------------------------------------------------
// The command line
// ---------------------------------------------------------------------------
/// The profile alias of a Rustlet build.
#[derive(Debug, Clone, Copy, PartialEq, Eq)]
pub enum RustletProfileKind {
    Application,
    SecurityDomain,
}

/// An option of the command line that an error names.
#[derive(Debug, Clone, Copy, PartialEq, Eq, Structural)]
pub enum AppOption {
    ManifestPath,
    Bin,
    Target,
    AlignPayload,
    AlignSize,
    Rustlet,
    SecurityDomain,
    Isa,
    IsaWord,
    Abi,
    AbiWord,
    Rt0,
    StackSize,
    Elf,
    Fae,
    Profile,
}

/// An option as it is written.
pub open spec fn app_option_name(o: AppOption) -> Seq<char> {
    match o {
        AppOption::ManifestPath => "--manifest-path"@,
        AppOption::Bin => "--bin"@,
        AppOption::Target => "--target"@,
        AppOption::AlignPayload => "--align_payload"@,
        AppOption::AlignSize => "--align_size"@,
        AppOption::Rustlet => "--rustlet"@,
        AppOption::SecurityDomain => "--securitydomain"@,
        AppOption::Isa => "--isa"@,
        AppOption::IsaWord => "--isa-word"@,
        AppOption::Abi => "--abi"@,
        AppOption::AbiWord => "--abi-word"@,
        AppOption::Rt0 => "--rt0"@,
        AppOption::StackSize => "--stack-size"@,
        AppOption::Elf => "--elf"@,
        AppOption::Fae => "--fae"@,
        AppOption::Profile => "--profile"@,
    }
}

impl AppOption {
    /// The option as it is written.
    pub fn name(self) -> (r: &'static str)
        ensures
            r@ == app_option_name(self),
    {
        match self {
            AppOption::ManifestPath => "--manifest-path",
            AppOption::Bin => "--bin",
            AppOption::Target => "--target",
            AppOption::AlignPayload => "--align_payload",
            AppOption::AlignSize => "--align_size",
            AppOption::Rustlet => "--rustlet",
            AppOption::SecurityDomain => "--securitydomain",
            AppOption::Isa => "--isa",
            AppOption::IsaWord => "--isa-word",
            AppOption::Abi => "--abi",
            AppOption::AbiWord => "--abi-word",
            AppOption::Rt0 => "--rt0",
            AppOption::StackSize => "--stack-size",
            AppOption::Elf => "--elf",
            AppOption::Fae => "--fae",
            AppOption::Profile => "--profile",
        }
    }
}

/// Why the builder did not start.
#[derive(Debug, Clone, Copy, PartialEq, Eq)]
pub enum AppArgsError {
    HelpRequested,
    /// The option needs a value and is the last argument.
    MissingValue(AppOption),
    NotAnInteger(AppOption),
    NotPowerOfTwo(AppOption),
    /// The value is no 32-bit decimal or 0x-prefixed number.
    NotAU32(AppOption),
    /// A profile alias after another alias or an ABI descriptor.
    ProfileConflict(AppOption),
    /// `--abi` after a profile alias.
    AbiWithProfile,
    /// The `--rt0` value is no startup kind and no existing file.
    InvalidRt0,
    StackSizeNotInteger,
    DuplicatePackaging(AppOption),
    /// Arguments left over that are not `bootable <board>`.
    UnexpectedTrailing,
    MissingPackaging,
    PackagingTwice,
    MissingManifest,
    /// Words given for a descriptor that was not.
    WordsWithoutDescriptor(DescriptorName),
    WordCount(WordCountMismatch),
    Facade12WithFae1,
}

/// A packaging mode, the board as text.
pub enum PackagingView {
    ElfOnly,
    Fae,
    Bootable(Seq<char>),
}

pub open spec fn packaging_view(p: PackagingMode) -> PackagingView {
    match p {
        PackagingMode::ElfOnly => PackagingView::ElfOnly,
        PackagingMode::Fae => PackagingView::Fae,
        PackagingMode::Bootable { board } => PackagingView::Bootable(board@),
    }
}

/// What has been read of the command line so far.
pub struct AppArgsView {
    pub app_manifest: Option<Seq<char>>,
    pub bin_name: Option<Seq<char>>,
    pub target: Seq<char>,
    pub align_payload: usize,
    pub align_size: usize,
    pub facade12: bool,
    pub profile_kind: Option<RustletProfileKind>,
    pub isa_descriptor: Option<u32>,
    pub isa_words: Seq<u32>,
    pub abi_descriptor: Option<u32>,
    pub abi_words: Seq<u32>,
    pub rt0: Option<Seq<char>>,
    pub allow_rt0_mismatch: bool,
    pub stack_size: u32,
    pub packaging: Option<PackagingView>,
    pub profile: Seq<char>,
    pub trailing: Seq<Seq<char>>,
}

/// Nothing read yet: every setting at its default.
pub open spec fn initial_app_args() -> AppArgsView {
    AppArgsView {
        app_manifest: None,
        bin_name: None,
        target: DEFAULT_TARGET@,
        align_payload: 0,
        align_size: constants::PADDING_MPU_ALIGNMENT,
        facade12: false,
        profile_kind: None,
        isa_descriptor: None,
        isa_words: Seq::empty(),
        abi_descriptor: None,
        abi_words: Seq::empty(),
        rt0: None,
        allow_rt0_mismatch: false,
        stack_size: DEFAULT_STACK_SIZE,
        packaging: None,
        profile: constants::DEFAULT_PROFILE@,
        trailing: Seq::empty(),
    }
}

/// The outcome of reading one argument.
pub enum AppStep {
    Next(AppArgsView, int),
    Fail(AppArgsError),
}

/// An `--rt0` value: a startup kind by name, or an existing file.
pub open spec fn valid_rt0(value: Seq<char>, files: Seq<Seq<char>>) -> bool {
    value == "thumb"@ || value == "thumbv6m"@ || value == "arm"@ || files.contains(value)
}

/// An alignment given for `option`, stored by `payload`.
pub open spec fn app_alignment_step(st: AppArgsView, value: Seq<char>, option: AppOption, payload: bool, next: int) -> AppStep {
    match spec_parse_alignment(value) {
        Err(AlignmentError::NotAnInteger) => AppStep::Fail(AppArgsError::NotAnInteger(option)),
        Err(AlignmentError::NotPowerOfTwo) => AppStep::Fail(AppArgsError::NotPowerOfTwo(option)),
        Ok(v) => AppStep::Next(
            if payload {
                AppArgsView { align_payload: v, ..st }
            } else {
                AppArgsView { align_size: v, ..st }
            },
            next,
        ),
    }
}

/// A 32-bit number given for one of the descriptor options.
pub open spec fn app_descriptor_step(st: AppArgsView, value: Seq<char>, option: AppOption, next: int) -> AppStep {
    match spec_parse_u32_value(value) {
        None => AppStep::Fail(AppArgsError::NotAU32(option)),
        Some(v) => AppStep::Next(
            match option {
                AppOption::Isa => AppArgsView { isa_descriptor: Some(v), ..st },
                AppOption::IsaWord => AppArgsView { isa_words: st.isa_words.push(v), ..st },
                AppOption::Abi => AppArgsView { abi_descriptor: Some(v), ..st },
                _ => AppArgsView { abi_words: st.abi_words.push(v), ..st },
            },
            next,
        ),
    }
}

/// Reading an option that takes a value, the value being `args[i + 1]`.
pub open spec fn valued_step(args: Seq<Seq<char>>, files: Seq<Seq<char>>, i: int, st: AppArgsView) -> AppStep {
    let a = args[i];
    let v = args[i + 1];
    if a == "--manifest-path"@ {
        AppStep::Next(AppArgsView { app_manifest: Some(v), ..st }, i + 2)
    } else if a == "--bin"@ {
        AppStep::Next(AppArgsView { bin_name: Some(v), ..st }, i + 2)
    } else if a == "--target"@ {
        AppStep::Next(AppArgsView { target: v, ..st }, i + 2)
    } else if a == "--align_payload"@ {
        app_alignment_step(st, v, AppOption::AlignPayload, true, i + 2)
    } else if a == "--align_size"@ {
        app_alignment_step(st, v, AppOption::AlignSize, false, i + 2)
    } else if a == "--isa"@ {
        app_descriptor_step(st, v, AppOption::Isa, i + 2)
    } else if a == "--isa-word"@ {
        app_descriptor_step(st, v, AppOption::IsaWord, i + 2)
    } else if a == "--abi"@ {
        app_descriptor_step(st, v, AppOption::Abi, i + 2)
    } else if a == "--abi-word"@ {
        app_descriptor_step(st, v, AppOption::AbiWord, i + 2)
    } else if a == "-rt0"@ || a == "--rt0"@ {
        if valid_rt0(v, files) {
            AppStep::Next(AppArgsView { rt0: Some(v), ..st }, i + 2)
        } else {
            AppStep::Fail(AppArgsError::InvalidRt0)
        }
    } else if a == "--stack-size"@ {
        match spec_parse_u32_decimal(v) {
            None => AppStep::Fail(AppArgsError::StackSizeNotInteger),
            Some(n) => AppStep::Next(AppArgsView { stack_size: n, ..st }, i + 2),
        }
    } else {
        AppStep::Next(AppArgsView { profile: v, ..st }, i + 2)
    }
}

/// The option that takes a value that `a` names, if it names one.
pub open spec fn valued_option(a: Seq<char>) -> Option<AppOption> {
    if a == "--manifest-path"@ {
        Some(AppOption::ManifestPath)
    } else if a == "--bin"@ {
        Some(AppOption::Bin)
    } else if a == "--target"@ {
        Some(AppOption::Target)
    } else if a == "--align_payload"@ {
        Some(AppOption::AlignPayload)
    } else if a == "--align_size"@ {
        Some(AppOption::AlignSize)
    } else if a == "--isa"@ {
        Some(AppOption::Isa)
    } else if a == "--isa-word"@ {
        Some(AppOption::IsaWord)
    } else if a == "--abi"@ {
        Some(AppOption::Abi)
    } else if a == "--abi-word"@ {
        Some(AppOption::AbiWord)
    } else if a == "-rt0"@ || a == "--rt0"@ {
        Some(AppOption::Rt0)
    } else if a == "--stack-size"@ {
        Some(AppOption::StackSize)
    } else if a == "--profile"@ {
        Some(AppOption::Profile)
    } else {
        None
    }
}

/// Reading the argument at `i`.
pub open spec fn app_arg_step(args: Seq<Seq<char>>, files: Seq<Seq<char>>, i: int, st: AppArgsView) -> AppStep {
    let a = args[i];
    if a == "--facade12"@ {
        AppStep::Next(AppArgsView { facade12: true, ..st }, i + 1)
    } else if a == "-rs"@ || a == "--rustlet"@ {
        if st.profile_kind is Some || st.abi_descriptor is Some {
            AppStep::Fail(AppArgsError::ProfileConflict(AppOption::Rustlet))
        } else {
            AppStep::Next(AppArgsView { profile_kind: Some(RustletProfileKind::Application), ..st }, i + 1)
        }
    } else if a == "-sd"@ || a == "--securitydomain"@ {
        if st.profile_kind is Some || st.abi_descriptor is Some {
            AppStep::Fail(AppArgsError::ProfileConflict(AppOption::SecurityDomain))
        } else {
            AppStep::Next(AppArgsView { profile_kind: Some(RustletProfileKind::SecurityDomain), ..st }, i + 1)
        }
    } else if a == "--allow-rt0-mismatch"@ {
        AppStep::Next(AppArgsView { allow_rt0_mismatch: true, ..st }, i + 1)
    } else if a == "--elf"@ {
        if st.packaging is Some {
            AppStep::Fail(AppArgsError::DuplicatePackaging(AppOption::Elf))
        } else {
            AppStep::Next(AppArgsView { packaging: Some(PackagingView::ElfOnly), ..st }, i + 1)
        }
    } else if a == "--fae"@ {
        if st.packaging is Some {
            AppStep::Fail(AppArgsError::DuplicatePackaging(AppOption::Fae))
        } else {
            AppStep::Next(AppArgsView { packaging: Some(PackagingView::Fae), ..st }, i + 1)
        }
    } else if a == "-h"@ || a == "--help"@ {
        AppStep::Fail(AppArgsError::HelpRequested)
    } else if valued_option(a) is Some {
        let o = valued_option(a)->Some_0;
        if o == AppOption::Abi && st.profile_kind is Some {
            AppStep::Fail(AppArgsError::AbiWithProfile)
        } else if i + 1 >= args.len() {
            AppStep::Fail(AppArgsError::MissingValue(o))
        } else {
            valued_step(args, files, i, st)
        }
    } else {
        AppStep::Next(AppArgsView { trailing: st.trailing.push(a), ..st }, i + 1)
    }
}

/// Reading the arguments from `i` on.
pub open spec fn app_args_from(args: Seq<Seq<char>>, files: Seq<Seq<char>>, i: int, st: AppArgsView) -> Result<
    AppArgsView,
    AppArgsError,
>
    decreases args.len() - i,
{
    if i < 0 || i >= args.len() {
        Ok(st)
    } else {
        match app_arg_step(args, files, i, st) {
            AppStep::Fail(e) => Err(e),
            AppStep::Next(next, j) => if i < j {
                app_args_from(args, files, j, next)
            } else {
                Ok(next)
            },
        }
    }
}

/// Everything the command line decides, as text and numbers.
pub struct AppOptionsView {
    pub app_manifest: Seq<char>,
    pub bin_name: Option<Seq<char>>,
    pub target: Seq<char>,
    pub align_payload: usize,
    pub align_size: usize,
    pub facade12: bool,
    pub profile_kind: Option<RustletProfileKind>,
    pub isa_descriptor: Option<u32>,
    pub isa_words: Seq<u32>,
    pub abi_descriptor: Option<u32>,
    pub abi_words: Seq<u32>,
    pub rt0: Option<Seq<char>>,
    pub allow_rt0_mismatch: bool,
    pub stack_size: u32,
    pub packaging: PackagingView,
    pub profile: Seq<char>,
}

/// The descriptor's low nibble counts the words.
pub open spec fn word_count_ok(descriptor: Option<u32>, words: Seq<u32>) -> bool {
    match descriptor {
        None => true,
        Some(d) => (d & 0x0F) as int == words.len(),
    }
}

pub open spec fn word_count_error(kind: DescriptorName, descriptor: Option<u32>, words: Seq<u32>) -> AppArgsError {
    AppArgsError::WordCount(
        WordCountMismatch { kind, expected: (descriptor->Some_0 & 0x0F) as usize, supplied: words.len() as usize },
    )
}

/// The checks after the last argument: the packaging (an option, or
/// trailing `bootable <board>`, not both and not neither), the manifest,
/// the descriptor words, and no legacy footer with FAE 1.0 options.
pub open spec fn finish_app_args(st: AppArgsView) -> Result<AppOptionsView, AppArgsError> {
    let t = st.trailing;
    let trailing_ok = t.len() == 0 || (t.len() == 2 && t[0] == "bootable"@);
    if !trailing_ok {
        Err(AppArgsError::UnexpectedTrailing)
    } else if st.packaging is None && t.len() == 0 {
        Err(AppArgsError::MissingPackaging)
    } else if st.packaging is Some && t.len() == 2 {
        Err(AppArgsError::PackagingTwice)
    } else if st.app_manifest is None {
        Err(AppArgsError::MissingManifest)
    } else if st.isa_words.len() > 0 && st.isa_descriptor is None {
        Err(AppArgsError::WordsWithoutDescriptor(DescriptorName::Isa))
    } else if st.abi_words.len() > 0 && st.abi_descriptor is None {
        Err(AppArgsError::WordsWithoutDescriptor(DescriptorName::Abi))
    } else if !word_count_ok(st.isa_descriptor, st.isa_words) {
        Err(word_count_error(DescriptorName::Isa, st.isa_descriptor, st.isa_words))
    } else if !word_count_ok(st.abi_descriptor, st.abi_words) {
        Err(word_count_error(DescriptorName::Abi, st.abi_descriptor, st.abi_words))
    } else if st.facade12 && (st.profile_kind is Some || st.isa_descriptor is Some || st.abi_descriptor is Some) {
        Err(AppArgsError::Facade12WithFae1)
    } else {
        Ok(
            AppOptionsView {
                app_manifest: st.app_manifest->Some_0,
                bin_name: st.bin_name,
                target: st.target,
                align_payload: st.align_payload,
                align_size: st.align_size,
                facade12: st.facade12,
                profile_kind: st.profile_kind,
                isa_descriptor: st.isa_descriptor,
                isa_words: st.isa_words,
                abi_descriptor: st.abi_descriptor,
                abi_words: st.abi_words,
                rt0: st.rt0,
                allow_rt0_mismatch: st.allow_rt0_mismatch,
                stack_size: st.stack_size,
                packaging: match st.packaging {
                    Some(p) => p,
                    None => PackagingView::Bootable(t[1]),
                },
                profile: st.profile,
            },
        )
    }
}

/// The outcome of the whole command line (the arguments after the program's
/// name), `files` being the arguments that name existing files.
pub open spec fn spec_parse_app_args(args: Seq<Seq<char>>, files: Seq<Seq<char>>) -> Result<
    AppOptionsView,
    AppArgsError,
> {
    match app_args_from(args, files, 0, initial_app_args()) {
        Err(e) => Err(e),
        Ok(st) => finish_app_args(st),
    }
}

/// Everything the command line decides.
#[derive(Debug, Clone)]
pub struct Options {
    pub app_manifest: String,
    pub bin_name: Option<String>,
    pub target: String,
    pub align_payload: usize,
    pub align_size: usize,
    pub facade12: bool,
    pub profile_kind: Option<RustletProfileKind>,
    pub isa_descriptor: Option<u32>,
    pub isa_words: Vec<u32>,
    pub abi_descriptor: Option<u32>,
    pub abi_words: Vec<u32>,
    pub rt0: Option<String>,
    pub allow_rt0_mismatch: bool,
    pub stack_size: u32,
    pub packaging: PackagingMode,
    pub profile: String,
}

pub open spec fn app_options_view(o: Options) -> AppOptionsView {
    AppOptionsView {
        app_manifest: o.app_manifest@,
        bin_name: opt_string_view(o.bin_name),
        target: o.target@,
        align_payload: o.align_payload,
        align_size: o.align_size,
        facade12: o.facade12,
        profile_kind: o.profile_kind,
        isa_descriptor: o.isa_descriptor,
        isa_words: o.isa_words@,
        abi_descriptor: o.abi_descriptor,
        abi_words: o.abi_words@,
        rt0: opt_string_view(o.rt0),
        allow_rt0_mismatch: o.allow_rt0_mismatch,
        stack_size: o.stack_size,
        packaging: packaging_view(o.packaging),
        profile: o.profile@,
    }
}

struct AppArgsState {
    app_manifest: Option<String>,
    bin_name: Option<String>,
    target: String,
    align_payload: usize,
    align_size: usize,
    facade12: bool,
    profile_kind: Option<RustletProfileKind>,
    isa_descriptor: Option<u32>,
    isa_words: Vec<u32>,
    abi_descriptor: Option<u32>,
    abi_words: Vec<u32>,
    rt0: Option<String>,
    allow_rt0_mismatch: bool,
    stack_size: u32,
    packaging: Option<PackagingMode>,
    profile: String,
    trailing: Vec<String>,
}

impl View for AppArgsState {
    type V = AppArgsView;

    closed spec fn view(&self) -> AppArgsView {
        AppArgsView {
            app_manifest: opt_string_view(self.app_manifest),
            bin_name: opt_string_view(self.bin_name),
            target: self.target@,
            align_payload: self.align_payload,
            align_size: self.align_size,
            facade12: self.facade12,
            profile_kind: self.profile_kind,
            isa_descriptor: self.isa_descriptor,
            isa_words: self.isa_words@,
            abi_descriptor: self.abi_descriptor,
            abi_words: self.abi_words@,
            rt0: opt_string_view(self.rt0),
            allow_rt0_mismatch: self.allow_rt0_mismatch,
            stack_size: self.stack_size,
            packaging: match self.packaging {
                Some(p) => Some(packaging_view(p)),
                None => None,
            },
            profile: self.profile@,
            trailing: names(self.trailing@),
        }
    }
}

pub open spec fn step_result(step: AppStep, after: AppArgsView, r: Result<usize, AppArgsError>) -> bool {
    match step {
        AppStep::Next(v, j) => r == Ok::<usize, AppArgsError>(j as usize) && after == v,
        AppStep::Fail(e) => r == Err::<usize, AppArgsError>(e),
    }
}

fn listed(files: &[String], value: &String) -> (r: bool)
    ensures
        r == names(files@).contains(value@),
{
    let mut i: usize = 0;
    while i < files.len()
        invariant
            i <= files@.len(),
            forall|j: int| 0 <= j < i ==> names(files@)[j] != value@,
        decreases files@.len() - i,
    {
        if eq_chars(&files[i], value.as_str()) {
            assert(names(files@)[i as int] == value@);
            return true;
        }
        i = i + 1;
    }
    false
}

fn option_named(a: &String) -> (r: Option<AppOption>)
    ensures
        r == valued_option(a@),
{
    if eq_chars(a, "--manifest-path") {
        Some(AppOption::ManifestPath)
    } else if eq_chars(a, "--bin") {
        Some(AppOption::Bin)
    } else if eq_chars(a, "--target") {
        Some(AppOption::Target)
    } else if eq_chars(a, "--align_payload") {
        Some(AppOption::AlignPayload)
    } else if eq_chars(a, "--align_size") {
        Some(AppOption::AlignSize)
    } else if eq_chars(a, "--isa") {
        Some(AppOption::Isa)
    } else if eq_chars(a, "--isa-word") {
        Some(AppOption::IsaWord)
    } else if eq_chars(a, "--abi") {
        Some(AppOption::Abi)
    } else if eq_chars(a, "--abi-word") {
        Some(AppOption::AbiWord)
    } else if eq_chars(a, "-rt0") || eq_chars(a, "--rt0") {
        Some(AppOption::Rt0)
    } else if eq_chars(a, "--stack-size") {
        Some(AppOption::StackSize)
    } else if eq_chars(a, "--profile") {
        Some(AppOption::Profile)
    } else {
        None
    }
}

fn read_value(args: &[String], files: &[String], i: usize, st: &mut AppArgsState) -> (r: Result<usize, AppArgsError>)
    requires
        i + 1 < args@.len(),
        valued_option(args@[i as int]@) is Some,
    ensures
        step_result(valued_step(names(args@), names(files@), i as int, old(st)@), final(st)@, r),
{
    let a = &args[i];
    let v = &args[i + 1];
    assert(names(args@)[i as int] == a@ && names(args@)[i + 1] == v@);
    if eq_chars(a, "--manifest-path") {
        st.app_manifest = Some(v.clone());
    } else if eq_chars(a, "--bin") {
        st.bin_name = Some(v.clone());
    } else if eq_chars(a, "--target") {
        st.target = v.clone();
    } else if eq_chars(a, "--align_payload") || eq_chars(a, "--align_size") {
        let payload = eq_chars(a, "--align_payload");
        let option = if payload {
            AppOption::AlignPayload
        } else {
            AppOption::AlignSize
        };
        match parse_alignment(v.as_str()) {
            Err(AlignmentError::NotAnInteger) => {
                return Err(AppArgsError::NotAnInteger(option));
            },
            Err(AlignmentError::NotPowerOfTwo) => {
                return Err(AppArgsError::NotPowerOfTwo(option));
            },
            Ok(n) => {
                if payload {
                    st.align_payload = n;
                } else {
                    st.align_size = n;
                }
            },
        }
    } else if eq_chars(a, "--isa") || eq_chars(a, "--isa-word") || eq_chars(a, "--abi") || eq_chars(a, "--abi-word") {
        let option = if eq_chars(a, "--isa") {
            AppOption::Isa
        } else if eq_chars(a, "--isa-word") {
            AppOption::IsaWord
        } else if eq_chars(a, "--abi") {
            AppOption::Abi
        } else {
            AppOption::AbiWord
        };
        match parse_u32_value(v.as_str()) {
            None => {
                return Err(AppArgsError::NotAU32(option));
            },
            Some(n) => match option {
                AppOption::Isa => {
                    st.isa_descriptor = Some(n);
                },
                AppOption::IsaWord => {
                    st.isa_words.push(n);
                },
                AppOption::Abi => {
                    st.abi_descriptor = Some(n);
                },
                _ => {
                    st.abi_words.push(n);
                },
            },
        }
    } else if eq_chars(a, "-rt0") || eq_chars(a, "--rt0") {
        let known = eq_chars(v, "thumb") || eq_chars(v, "thumbv6m") || eq_chars(v, "arm");
        if !known && !listed(files, v) {
            return Err(AppArgsError::InvalidRt0);
        }
        st.rt0 = Some(v.clone());
    } else if eq_chars(a, "--stack-size") {
        match parse_u32_decimal(v.as_str()) {
            None => {
                return Err(AppArgsError::StackSizeNotInteger);
            },
            Some(n) => {
                st.stack_size = n;
            },
        }
    } else {
        st.profile = v.clone();
    }
    Ok(i + 2)
}

fn read_app_arg(args: &[String], files: &[String], i: usize, st: &mut AppArgsState) -> (r: Result<usize, AppArgsError>)
    requires
        i < args@.len(),
    ensures
        step_result(app_arg_step(names(args@), names(files@), i as int, old(st)@), final(st)@, r),
{
    let a = &args[i];
    assert(names(args@)[i as int] == a@);
    if eq_chars(a, "--facade12") {
        st.facade12 = true;
    } else if eq_chars(a, "-rs") || eq_chars(a, "--rustlet") || eq_chars(a, "-sd") || eq_chars(a, "--securitydomain") {
        let application = eq_chars(a, "-rs") || eq_chars(a, "--rustlet");
        if st.profile_kind.is_some() || st.abi_descriptor.is_some() {
            return Err(
                AppArgsError::ProfileConflict(
                    if application {
                        AppOption::Rustlet
                    } else {
                        AppOption::SecurityDomain
                    },
                ),
            );
        }
        st.profile_kind = Some(
            if application {
                RustletProfileKind::Application
            } else {
                RustletProfileKind::SecurityDomain
            },
        );
    } else if eq_chars(a, "--allow-rt0-mismatch") {
        st.allow_rt0_mismatch = true;
    } else if eq_chars(a, "--elf") || eq_chars(a, "--fae") {
        let elf = eq_chars(a, "--elf");
        let (mode, option) = if elf {
            (PackagingMode::ElfOnly, AppOption::Elf)
        } else {
            (PackagingMode::Fae, AppOption::Fae)
        };
        if set_packaging_option(&mut st.packaging, mode, option.name()).is_err() {
            return Err(AppArgsError::DuplicatePackaging(option));
        }
    } else if eq_chars(a, "-h") || eq_chars(a, "--help") {
        return Err(AppArgsError::HelpRequested);
    } else {
        match option_named(a) {
            Some(o) => {
                if o == AppOption::Abi && st.profile_kind.is_some() {
                    return Err(AppArgsError::AbiWithProfile);
                }
                if i + 1 >= args.len() {
                    return Err(AppArgsError::MissingValue(o));
                }
                return read_value(args, files, i, st);
            },
            None => {
                let ghost before = names(st.trailing@);
                st.trailing.push(a.clone());
                assert(names(st.trailing@) =~= before.push(a@));
            },
        }
    }
    Ok(i + 1)
}

fn finish_app(st: AppArgsState) -> (r: Result<Options, AppArgsError>)
    ensures
        match finish_app_args(st@) {
            Ok(v) => r matches Ok(o) && app_options_view(o) == v,
            Err(e) => r == Err::<Options, AppArgsError>(e),
        },
{
    let n = st.trailing.len();
    let bootable = n == 2 && eq_chars(&st.trailing[0], "bootable");
    assert(names(st.trailing@).len() == n);
    if n >= 1 {
        assert(names(st.trailing@)[0] == st.trailing@[0]@);
    }
    if n != 0 && !bootable {
        return Err(AppArgsError::UnexpectedTrailing);
    }
    if st.packaging.is_none() && n == 0 {
        return Err(AppArgsError::MissingPackaging);
    }
    if st.packaging.is_some() && n == 2 {
        return Err(AppArgsError::PackagingTwice);
    }
    let app_manifest = match st.app_manifest {
        Some(m) => m,
        None => {
            return Err(AppArgsError::MissingManifest);
        },
    };
    if st.isa_words.len() > 0 && st.isa_descriptor.is_none() {
        return Err(AppArgsError::WordsWithoutDescriptor(DescriptorName::Isa));
    }
    if st.abi_words.len() > 0 && st.abi_descriptor.is_none() {
        return Err(AppArgsError::WordsWithoutDescriptor(DescriptorName::Abi));
    }
    if let Err(e) = validate_descriptor_word_count(DescriptorName::Isa, st.isa_descriptor, st.isa_words.as_slice()) {
        return Err(AppArgsError::WordCount(e));
    }
    if let Err(e) = validate_descriptor_word_count(DescriptorName::Abi, st.abi_descriptor, st.abi_words.as_slice()) {
        return Err(AppArgsError::WordCount(e));
    }
    if st.facade12 && (st.profile_kind.is_some() || st.isa_descriptor.is_some() || st.abi_descriptor.is_some()) {
        return Err(AppArgsError::Facade12WithFae1);
    }
    let packaging = match st.packaging {
        Some(p) => p,
        None => {
            assert(names(st.trailing@)[1] == st.trailing@[1]@);
            PackagingMode::Bootable { board: st.trailing[1].clone() }
        },
    };
    Ok(
        Options {
            app_manifest,
            bin_name: st.bin_name,
            target: st.target,
            align_payload: st.align_payload,
            align_size: st.align_size,
            facade12: st.facade12,
            profile_kind: st.profile_kind,
            isa_descriptor: st.isa_descriptor,
            isa_words: st.isa_words,
            abi_descriptor: st.abi_descriptor,
            abi_words: st.abi_words,
            rt0: st.rt0,
            allow_rt0_mismatch: st.allow_rt0_mismatch,
            stack_size: st.stack_size,
            packaging,
            profile: st.profile,
        },
    )
}

/// Reads the command line: the arguments after the program's name, and the
/// arguments among them that name existing files (`--rt0` takes one of
/// those, or a startup kind).
pub fn parse_args(args: &[String], existing_files: &[String]) -> (r: Result<Options, AppArgsError>)
    ensures
        match spec_parse_app_args(names(args@), names(existing_files@)) {
            Ok(v) => r matches Ok(o) && app_options_view(o) == v,
            Err(e) => r == Err::<Options, AppArgsError>(e),
        },
{
    let mut st = AppArgsState {
        app_manifest: None,
        bin_name: None,
        target: DEFAULT_TARGET.to_owned(),
        align_payload: 0,
        align_size: constants::PADDING_MPU_ALIGNMENT,
        facade12: false,
        profile_kind: None,
        isa_descriptor: None,
        isa_words: Vec::new(),
        abi_descriptor: None,
        abi_words: Vec::new(),
        rt0: None,
        allow_rt0_mismatch: false,
        stack_size: DEFAULT_STACK_SIZE,
        packaging: None,
        profile: constants::DEFAULT_PROFILE.to_owned(),
        trailing: Vec::new(),
    };
    assert(st@ == initial_app_args()) by {
        assert(names(st.trailing@) =~= Seq::<Seq<char>>::empty());
    }
    let ghost a = names(args@);
    let ghost f = names(existing_files@);
    let mut i: usize = 0;
    while i < args.len()
        invariant
            i <= args@.len(),
            a == names(args@),
            f == names(existing_files@),
            app_args_from(a, f, 0, initial_app_args()) == app_args_from(a, f, i as int, st@),
        decreases args@.len() - i,
    {
        let ghost before = st@;
        match read_app_arg(args, existing_files, i, &mut st) {
            Err(e) => {
                return Err(e);
            },
            Ok(j) => {
                assert(app_arg_step(a, f, i as int, before) == AppStep::Next(st@, j as int));
                i = j;
            },
        }
    }
    finish_app(st)
}


// ---------------------------------------------------------------------------
// The image builder's command line
// ---------------------------------------------------------------------------
/// A 32-bit word as the image builder is given it: `0x` and eight
/// upper-case hexadecimal digits.
pub open spec fn hex_word_text(x: u32) -> Seq<char> {
    "0x"@ + upper_hex8(x)
}

/// Each word after `option`, in order.
pub open spec fn word_args(option: Seq<char>, words: Seq<u32>) -> Seq<Seq<char>>
    decreases words.len(),
{
    if words.len() == 0 {
        Seq::empty()
    } else {
        word_args(option, words.drop_last()) + seq![option, hex_word_text(words.last())]
    }
}

/// A descriptor after `option`, then its words, where it is given.
pub open spec fn descriptor_args(option: Seq<char>, word_option: Seq<char>, descriptor: Option<u32>, words: Seq<u32>) -> Seq<Seq<char>> {
    match descriptor {
        None => Seq::empty(),
        Some(d) => seq![option, hex_word_text(d)] + word_args(word_option, words),
    }
}

/// The image builder's arguments for a FAE image of `output_elf`: the
/// startup (the `--rt0` given, else the one for the target), the mismatch
/// allowance, the legacy footer, the profile alias, the descriptors with
/// their words, the stack size, the alignments, and the ELF.
pub open spec fn spec_build_fae_args(o: AppOptionsView, startup: Option<Seq<char>>, output_elf: Seq<char>) -> Seq<Seq<char>> {
    let rt0 = match o.rt0 {
        Some(r) => Some(r),
        None => startup,
    };
    (match rt0 {
        Some(r) => seq!["--rt0"@, r],
        None => Seq::empty(),
    }) + (if o.allow_rt0_mismatch {
        seq!["--allow-rt0-mismatch"@]
    } else {
        Seq::empty()
    }) + (if o.facade12 {
        seq!["--facade12"@]
    } else {
        Seq::empty()
    }) + (match o.profile_kind {
        Some(RustletProfileKind::Application) => seq!["--rustlet"@],
        Some(RustletProfileKind::SecurityDomain) => seq!["--securitydomain"@],
        None => Seq::empty(),
    }) + descriptor_args("--isa"@, "--isa-word"@, o.isa_descriptor, o.isa_words) + descriptor_args(
        "--abi"@,
        "--abi-word"@,
        o.abi_descriptor,
        o.abi_words,
    ) + seq![
        "--stack-size"@,
        decimal(o.stack_size as nat),
        "--align_payload"@,
        decimal(o.align_payload as nat),
        "--align_size"@,
        decimal(o.align_size as nat),
        output_elf,
    ]
}

fn hex_word(x: u32) -> (r: String)
    ensures
        r@ == hex_word_text(x),
{
    let mut out = "0x".to_owned();
    push_upper_hex8(&mut out, x);
    out
}

fn decimal_text(x: u64) -> (r: String)
    ensures
        r@ == decimal(x as nat),
{
    let mut out = String::new();
    push_decimal(&mut out, x);
    assert(out@ =~= decimal(x as nat));
    out
}

fn push_descriptor_args(out: &mut Vec<String>, option: &str, word_option: &str, descriptor: Option<u32>, words: &Vec<u32>)
    ensures
        names(final(out)@) == names(old(out)@) + descriptor_args(option@, word_option@, descriptor, words@),
{
    let ghost start = names(out@);
    if let Some(d) = descriptor {
        out.push(option.to_owned());
        out.push(hex_word(d));
        let ghost head = names(out@);
        assert(head =~= start + seq![option@, hex_word_text(d)]);
        let mut i: usize = 0;
        while i < words.len()
            invariant
                i <= words@.len(),
                names(out@) == head + word_args(word_option@, words@.take(i as int)),
            decreases words@.len() - i,
        {
            let ghost before = names(out@);
            out.push(word_option.to_owned());
            out.push(hex_word(words[i]));
            proof {
                let t = words@.take(i + 1);
                assert(t.drop_last() =~= words@.take(i as int));
                assert(t.last() == words@[i as int]);
                assert(names(out@) =~= before + seq![word_option@, hex_word_text(words@[i as int])]);
                assert(word_args(word_option@, t) == word_args(word_option@, words@.take(i as int)) + seq![
                    word_option@,
                    hex_word_text(words@[i as int]),
                ]);
                assert(names(out@) =~= head + word_args(word_option@, t));
            }
            i = i + 1;
        }
        assert(words@.take(words@.len() as int) =~= words@);
        assert(names(out@) =~= start + descriptor_args(option@, word_option@, descriptor, words@));
    } else {
        assert(names(out@) =~= start + descriptor_args(option@, word_option@, descriptor, words@));
    }
}

/// The arguments the image builder is run with to make a FAE image of
/// `output_elf`, `startup` being the startup for the target.
pub fn runtime_build_fae_command(options: &Options, startup: Option<&str>, output_elf: &str) -> (r: Vec<String>)
    ensures
        names(r@) == spec_build_fae_args(app_options_view(*options), opt_view(startup), output_elf@),
{
    let mut out: Vec<String> = Vec::new();
    let rt0: Option<String> = match &options.rt0 {
        Some(r) => Some(r.clone()),
        None => match startup {
            Some(s) => Some(s.to_owned()),
            None => None,
        },
    };
    if let Some(r) = rt0 {
        out.push("--rt0".to_owned());
        out.push(r);
    }
    let ghost p1 = names(out@);
    if options.allow_rt0_mismatch {
        out.push("--allow-rt0-mismatch".to_owned());
    }
    let ghost p2 = names(out@);
    if options.facade12 {
        out.push("--facade12".to_owned());
    }
    let ghost p3 = names(out@);
    match options.profile_kind {
        Some(RustletProfileKind::Application) => {
            out.push("--rustlet".to_owned());
        },
        Some(RustletProfileKind::SecurityDomain) => {
            out.push("--securitydomain".to_owned());
        },
        None => {},
    }
    let ghost p4 = names(out@);
    push_descriptor_args(&mut out, "--isa", "--isa-word", options.isa_descriptor, &options.isa_words);
    let ghost p5 = names(out@);
    push_descriptor_args(&mut out, "--abi", "--abi-word", options.abi_descriptor, &options.abi_words);
    let ghost p6 = names(out@);
    out.push("--stack-size".to_owned());
    out.push(decimal_text(options.stack_size as u64));
    out.push("--align_payload".to_owned());
    out.push(decimal_text(options.align_payload as u64));
    out.push("--align_size".to_owned());
    out.push(decimal_text(options.align_size as u64));
    out.push(output_elf.to_owned());
    proof {
        let o = app_options_view(*options);
        let rt0v = match o.rt0 {
            Some(r) => Some(r),
            None => opt_view(startup),
        };
        assert(p1 =~= match rt0v {
            Some(r) => seq!["--rt0"@, r],
            None => Seq::<Seq<char>>::empty(),
        });
        assert(p2 =~= p1 + if o.allow_rt0_mismatch {
            seq!["--allow-rt0-mismatch"@]
        } else {
            Seq::<Seq<char>>::empty()
        });
        assert(p3 =~= p2 + if o.facade12 {
            seq!["--facade12"@]
        } else {
            Seq::<Seq<char>>::empty()
        });
        assert(p4 =~= p3 + match o.profile_kind {
            Some(RustletProfileKind::Application) => seq!["--rustlet"@],
            Some(RustletProfileKind::SecurityDomain) => seq!["--securitydomain"@],
            None => Seq::<Seq<char>>::empty(),
        });
        assert(names(out@) =~= p6 + seq![
            "--stack-size"@,
            decimal(o.stack_size as nat),
            "--align_payload"@,
            decimal(o.align_payload as nat),
            "--align_size"@,
            decimal(o.align_size as nat),
            output_elf@,
        ]);
    }
    out
}

/// The image builder's arguments for a bootable image of `output_elf` for
/// `board`: the board, the alignments, the legacy footer, and the ELF.
pub open spec fn spec_firmware_args(o: AppOptionsView, board: Seq<char>, output_elf: Seq<char>) -> Seq<Seq<char>> {
    seq![
        "--firmware"@,
        board,
        "--align_payload"@,
        decimal(o.align_payload as nat),
        "--align_size"@,
        decimal(o.align_size as nat),
    ] + (if o.facade12 {
        seq!["--facade12"@]
    } else {
        Seq::empty()
    }) + seq![output_elf]
}

/// The arguments the image builder is run with to make a bootable image.
pub fn firmware_build_fae_command(options: &Options, board: &str, output_elf: &str) -> (r: Vec<String>)
    ensures
        names(r@) == spec_firmware_args(app_options_view(*options), board@, output_elf@),
{
    let mut out: Vec<String> = Vec::new();
    out.push("--firmware".to_owned());
    out.push(board.to_owned());
    out.push("--align_payload".to_owned());
    out.push(decimal_text(options.align_payload as u64));
    out.push("--align_size".to_owned());
    out.push(decimal_text(options.align_size as u64));
    let ghost head = names(out@);
    if options.facade12 {
        out.push("--facade12".to_owned());
    }
    let ghost mid = names(out@);
    out.push(output_elf.to_owned());
    proof {
        let o = app_options_view(*options);
        assert(mid =~= head + if o.facade12 {
            seq!["--facade12"@]
        } else {
            Seq::<Seq<char>>::empty()
        });
        assert(names(out@) =~= mid + seq![output_elf@]);
    }
    out
}


// ---------------------------------------------------------------------------
// Numbers handed from one tool to the other
// ---------------------------------------------------------------------------
proof fn lemma_trimmed_unchanged(s: Seq<char>)
    requires
        s.len() > 0,
        !is_white_space(s[0]),
        !is_white_space(s.last()),
    ensures
        trimmed(s) == s,
{
    assert(leading_white_space(s) == 0);
    let t = s.subrange(0, s.len() as int);
    assert(t =~= s);
    assert(trailing_white_space(t) == 0);
    assert(t.subrange(0, t.len() as int) =~= s);
}

proof fn lemma_no_underscores(s: Seq<char>)
    requires
        forall|i: int| 0 <= i < s.len() ==> #[trigger] s[i] != '_',
    ensures
        without_underscores(s) == s,
    decreases s.len(),
{
    if s.len() > 0 {
        let t = s.drop_last();
        assert forall|i: int| 0 <= i < t.len() implies #[trigger] t[i] != '_' by {
            assert(t[i] == s[i]);
        }
        lemma_no_underscores(t);
        assert(s.last() != '_');
        assert(t.push(s.last()) =~= s);
        t.lemma_filter_push(s.last(), |c: char| c != '_');
    } else {
        assert(without_underscores(s) == s);
    }
}

proof fn lemma_upper_hex_digit(d: nat)
    requires
        d < 16,
    ensures
        digit_value(upper_hex_digit_char(d), 16) == Some(d),
        upper_hex_digit_char(d) != '_',
        upper_hex_digit_char(d) != '+',
        !is_white_space(upper_hex_digit_char(d)),
{
}

proof fn lemma_decimal_digit(d: nat)
    requires
        d < 10,
    ensures
        digit_value(digit_char(d), 10) == Some(d),
        digit_char(d) != '_',
        digit_char(d) != '+',
        !is_white_space(digit_char(d)),
{
}

proof fn lemma_upper_hex8_value(x: u32, k: int)
    requires
        0 <= k <= 8,
    ensures
        all_digits(upper_hex8(x).take(k), 16),
        digits_value(upper_hex8(x).take(k), 16) == (x as nat) / pow16((8 - k) as nat),
    decreases k,
{
    let s = upper_hex8(x).take(k);
    if k == 0 {
        reveal_with_fuel(pow16, 9);
        let p8 = pow16(8);
        assert(p8 == 0x1_0000_0000);
        assert((x as nat) / p8 == 0) by (nonlinear_arith)
            requires
                p8 == 0x1_0000_0000,
                x < 0x1_0000_0000,
        ;
    } else {
        lemma_upper_hex8_value(x, k - 1);
        let p = pow16((8 - k) as nat);
        let q = (x as nat) / p;
        assert(p > 0) by {
            lemma_pow16_positive((8 - k) as nat);
        }
        assert(pow16((8 - (k - 1)) as nat) == 16 * p);
        assert(s.drop_last() =~= upper_hex8(x).take(k - 1));
        assert(s.last() == upper_hex_digit_char(q % 16));
        lemma_upper_hex_digit(q % 16);
        assert((x as nat) / (16 * p) == q / 16) by {
            vstd::arithmetic::div_mod::lemma_div_denominator(x as int, p as int, 16);
            assert(p * 16 == 16 * p) by (nonlinear_arith);
        }
        assert((q / 16) * 16 + q % 16 == q) by {
            vstd::arithmetic::div_mod::lemma_fundamental_div_mod(q as int, 16);
        }
        assert forall|i: int| 0 <= i < s.len() implies #[trigger] digit_value(s[i], 16) is Some by {
            if i < k - 1 {
                assert(s[i] == upper_hex8(x).take(k - 1)[i]);
            }
        }
    }
}

proof fn lemma_pow16_positive(n: nat)
    ensures
        pow16(n) > 0,
    decreases n,
{
    if n > 0 {
        lemma_pow16_positive((n - 1) as nat);
    }
}

proof fn lemma_decimal_value(n: nat)
    ensures
        decimal(n).len() > 0,
        all_digits(decimal(n), 10),
        digits_value(decimal(n), 10) == n,
        forall|i: int| 0 <= i < decimal(n).len() ==> #[trigger] decimal(n)[i] != '_' && decimal(n)[i] != '+'
            && !is_white_space(decimal(n)[i]),
    decreases n,
{
    if n < 10 {
        lemma_decimal_digit(n);
        assert(decimal(n).drop_last() =~= Seq::<char>::empty());
        assert(digits_value(Seq::<char>::empty(), 10) == 0);
        assert(decimal(n).last() == digit_char(n));
    } else {
        lemma_decimal_value(n / 10);
        lemma_decimal_digit(n % 10);
        let s = decimal(n);
        assert(s.drop_last() =~= decimal(n / 10));
        assert(s.last() == digit_char(n % 10));
        assert((n / 10) * 10 + n % 10 == n) by {
            vstd::arithmetic::div_mod::lemma_fundamental_div_mod(n as int, 10);
        }
        assert forall|i: int| 0 <= i < s.len() implies #[trigger] digit_value(s[i], 10) is Some by {
            if i < s.len() - 1 {
                assert(s[i] == decimal(n / 10)[i]);
            }
        }
        assert forall|i: int| 0 <= i < s.len() implies #[trigger] s[i] != '_' && s[i] != '+' && !is_white_space(s[i]) by {
            if i < s.len() - 1 {
                assert(s[i] == decimal(n / 10)[i]);
            }
        }
    }
}

/// A word the Rust builder hands the image builder (`0x` and eight
/// upper-case hexadecimal digits) is read back as the same word.
pub proof fn lemma_hex_word_read_back(x: u32)
    ensures
        spec_parse_u32_value(hex_word_text(x)) == Some(x),
{
    let s = hex_word_text(x);
    let h = upper_hex8(x);
    assert(s == seq!['0', 'x'] + h) by {
        reveal_strlit("0x");
    }
    lemma_upper_hex8_clean(x);
    assert(trimmed(s) == s) by {
        assert(s.last() == h[7]);
        lemma_trimmed_unchanged(s);
    }
    assert(without_underscores(s) == s) by {
        assert forall|i: int| 0 <= i < s.len() implies #[trigger] s[i] != '_' by {
            if i >= 2 {
                assert(s[i] == h[i - 2]);
            }
        }
        lemma_no_underscores(s);
    }
    lemma_parse_clean_hex(s, h, x);
}

proof fn lemma_upper_hex8_clean(x: u32)
    ensures
        all_digits(upper_hex8(x), 16),
        digits_value(upper_hex8(x), 16) == x,
        forall|i: int| 0 <= i < 8 ==> #[trigger] upper_hex8(x)[i] != '_' && upper_hex8(x)[i] != '+'
            && !is_white_space(upper_hex8(x)[i]),
{
    let h = upper_hex8(x);
    lemma_upper_hex8_value(x, 8);
    assert(h.take(8) =~= h);
    let p0 = pow16(0);
    assert(p0 == 1);
    assert((x as nat) / p0 == x as nat) by (nonlinear_arith)
        requires
            p0 == 1,
    ;
    assert forall|i: int| 0 <= i < 8 implies #[trigger] h[i] != '_' && h[i] != '+' && !is_white_space(h[i]) by {
        lemma_pow16_positive((7 - i) as nat);
        lemma_upper_hex_digit(((x as nat) / pow16((7 - i) as nat)) % 16);
    }
}

proof fn lemma_parse_clean_hex(s: Seq<char>, h: Seq<char>, x: u32)
    requires
        s == seq!['0', 'x'] + h,
        trimmed(s) == s,
        without_underscores(s) == s,
        h.len() > 0,
        h[0] != '+',
        all_digits(h, 16),
        digits_value(h, 16) == x,
    ensures
        spec_parse_u32_value(s) == Some(x),
{
    assert(s.skip(2) =~= h);
    assert(crate::build_cli::unsigned_digits(h) == h);
}

/// A decimal number the Rust builder hands the image builder is read back
/// as the same number.
pub proof fn lemma_decimal_read_back(x: u32)
    ensures
        spec_parse_u32_decimal(decimal(x as nat)) == Some(x),
{
    lemma_decimal_value(x as nat);
}

/// An alignment the Rust builder hands the image builder (0, 1 or a power
/// of two) is read back as the same alignment.
pub proof fn lemma_alignment_read_back(n: usize)
    requires
        n <= 1 || is_power_of_two(n),
    ensures
        spec_parse_alignment(decimal(n as nat)) == Ok::<usize, AlignmentError>(n),
{
    let s = decimal(n as nat);
    lemma_decimal_value(n as nat);
    lemma_trimmed_unchanged(s);
}


// ---------------------------------------------------------------------------
// What a parsed command line guarantees
// ---------------------------------------------------------------------------
/// An alignment the builders accept: 0, 1, or a power of two.
pub open spec fn alignment_ok(n: usize) -> bool {
    n <= 1 || is_power_of_two(n)
}

/// What every state of the reading keeps: accepted alignments, at most one
/// of a profile alias and an ABI descriptor, and an `--rt0` that names a
/// startup kind or an existing file.
pub open spec fn app_state_ok(st: AppArgsView, files: Seq<Seq<char>>) -> bool {
    &&& alignment_ok(st.align_payload)
    &&& alignment_ok(st.align_size)
    &&& !(st.profile_kind is Some && st.abi_descriptor is Some)
    &&& st.rt0 matches Some(r) ==> valid_rt0(r, files)
}

/// What the options of an accepted command line satisfy.
pub open spec fn app_options_ok(v: AppOptionsView, files: Seq<Seq<char>>) -> bool {
    &&& alignment_ok(v.align_payload)
    &&& alignment_ok(v.align_size)
    &&& !(v.profile_kind is Some && v.abi_descriptor is Some)
    &&& v.rt0 matches Some(r) ==> valid_rt0(r, files)
    &&& word_count_ok(v.isa_descriptor, v.isa_words)
    &&& word_count_ok(v.abi_descriptor, v.abi_words)
    &&& (v.isa_descriptor is None ==> v.isa_words.len() == 0)
    &&& (v.abi_descriptor is None ==> v.abi_words.len() == 0)
    &&& v.facade12 ==> v.profile_kind is None && v.isa_descriptor is None && v.abi_descriptor is None
}

proof fn lemma_app_step_ok(args: Seq<Seq<char>>, files: Seq<Seq<char>>, i: int, st: AppArgsView)
    requires
        0 <= i < args.len(),
        app_state_ok(st, files),
    ensures
        app_arg_step(args, files, i, st) matches AppStep::Next(next, j) ==> app_state_ok(next, files) && i < j,
{
}

proof fn lemma_app_args_ok(args: Seq<Seq<char>>, files: Seq<Seq<char>>, i: int, st: AppArgsView)
    requires
        app_state_ok(st, files),
    ensures
        app_args_from(args, files, i, st) matches Ok(last) ==> app_state_ok(last, files),
    decreases args.len() - i,
{
    if 0 <= i < args.len() {
        lemma_app_step_ok(args, files, i, st);
        if let AppStep::Next(next, j) = app_arg_step(args, files, i, st) {
            lemma_app_args_ok(args, files, j, next);
        }
    }
}

/// The options of an accepted command line satisfy `app_options_ok`.
pub proof fn lemma_parsed_options_ok(args: Seq<Seq<char>>, files: Seq<Seq<char>>)
    ensures
        spec_parse_app_args(args, files) matches Ok(v) ==> app_options_ok(v, files),
{
    assert(32usize & 31usize == 0) by (bit_vector);
    assert(app_state_ok(initial_app_args(), files));
    lemma_app_args_ok(args, files, 0, initial_app_args());
}

} // verus!

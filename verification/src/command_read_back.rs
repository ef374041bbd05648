//! What the image builder reads from the command the Rust application
//! builder hands it: the same startup, profile, descriptors, stack size,
//! alignments and ELF.

use vstd::prelude::*;

use crate::build_args::{
    alignment_step, arg_step, args_from, descriptor_step, finish_args, initial_args, rt0_step,
    spec_parse_build_args, usage_fail, AbiView, ArgStep, ArgsOutcome, ArgsView, CliOption,
    OptionsView, SourceView, UsageProblem,
};
use crate::build_cli::{
    spec_parse_alignment, spec_parse_u32_decimal, spec_parse_u32_value, startup_kind_named,
    StartupSelection,
};
use crate::common::decimal;
use crate::constants;
use crate::rust_app::{
    alignment_ok, app_options_ok, descriptor_args, hex_word_text, lemma_alignment_read_back,
    lemma_decimal_read_back, lemma_hex_word_read_back, lemma_parsed_options_ok, spec_build_fae_args,
    spec_parse_app_args, valid_rt0, word_args, AppOptionsView, RustletProfileKind,
};
use crate::text::trimmed;

verus! {

/// The startup the command names: the `--rt0` given, else the one chosen
/// for the target.
pub open spec fn named_startup(v: AppOptionsView, startup: Option<Seq<char>>) -> Option<Seq<char>> {
    match v.rt0 {
        Some(r) => Some(r),
        None => startup,
    }
}

/// The ABI the image builder settles on: the descriptor given, else the
/// profile alias, else XiPFS.
pub open spec fn read_back_abi(v: AppOptionsView) -> AbiView {
    match v.abi_descriptor {
        Some(d) => AbiView::Explicit(d, v.abi_words),
        None => match v.profile_kind {
            Some(RustletProfileKind::Application) => AbiView::Rustlet,
            Some(RustletProfileKind::SecurityDomain) => AbiView::RustletSecurityDomain,
            None => AbiView::Xipfs,
        },
    }
}

/// The image builder's options for the command built from `v`.
pub open spec fn read_back_options(v: AppOptionsView, startup: Option<Seq<char>>, elf: Seq<char>) -> OptionsView {
    let rt0 = named_startup(v, startup);
    OptionsView {
        startup_source: match rt0 {
            Some(r) => if startup_kind_named(r) is Some {
                SourceView::EmbeddedDefaultRuntime
            } else {
                SourceView::ExplicitElf(r)
            },
            None => SourceView::EmbeddedDefaultRuntime,
        },
        startup_selection: match rt0 {
            Some(r) => match startup_kind_named(r) {
                Some(k) => StartupSelection::Explicit(k),
                None => StartupSelection::Auto,
            },
            None => StartupSelection::Auto,
        },
        application_elf: Some(trimmed(elf)),
        runtime_entry_point: constants::DEFAULT_RUNTIME_ENTRY_POINT@,
        ram_size: constants::DEFAULT_STARTUP_ALONE_RAM_SIZE,
        align_payload: v.align_payload,
        align_size: v.align_size,
        facade12: v.facade12,
        isa: match v.isa_descriptor {
            Some(d) => Some((d, v.isa_words)),
            None => None,
        },
        abi: read_back_abi(v),
        stack_size: v.stack_size,
        allow_rt0_mismatch: v.allow_rt0_mismatch,
        verbose: false,
    }
}

/// How the image builder reads each option that the Rust builder writes.
#[verifier::rlimit(60)]
proof fn lemma_option_steps(args: Seq<Seq<char>>, files: Seq<Seq<char>>, i: int, st: ArgsView)
    requires
        0 <= i < args.len(),
    ensures
        args[i] == "--rt0"@ && i + 1 < args.len() && !st.has_explicit_startup_source ==> arg_step(args, files, i, st)
            == rt0_step(st, trimmed(args[i + 1]), files, i + 2),
        args[i] == "--allow-rt0-mismatch"@ ==> arg_step(args, files, i, st) == ArgStep::Next(
            ArgsView { allow_rt0_mismatch: true, ..st },
            i + 1,
        ),
        args[i] == "--facade12"@ ==> arg_step(args, files, i, st) == ArgStep::Next(ArgsView { facade12: true, ..st }, i + 1),
        args[i] == "--rustlet"@ && st.abi_descriptor is None && st.abi is Xipfs ==> arg_step(args, files, i, st)
            == ArgStep::Next(ArgsView { abi: AbiView::Rustlet, ..st }, i + 1),
        args[i] == "--securitydomain"@ && st.abi_descriptor is None && st.abi is Xipfs ==> arg_step(args, files, i, st)
            == ArgStep::Next(ArgsView { abi: AbiView::RustletSecurityDomain, ..st }, i + 1),
        args[i] == "--isa"@ && i + 1 < args.len() ==> arg_step(args, files, i, st)
            == descriptor_step(st, args[i + 1], CliOption::Isa, i + 2),
        args[i] == "--isa-word"@ && i + 1 < args.len() ==> arg_step(args, files, i, st)
            == descriptor_step(st, args[i + 1], CliOption::IsaWord, i + 2),
        args[i] == "--abi"@ && i + 1 < args.len() && st.abi is Xipfs ==> arg_step(args, files, i, st)
            == descriptor_step(st, args[i + 1], CliOption::Abi, i + 2),
        args[i] == "--abi-word"@ && i + 1 < args.len() ==> arg_step(args, files, i, st)
            == descriptor_step(st, args[i + 1], CliOption::AbiWord, i + 2),
        args[i] == "--stack-size"@ && i + 1 < args.len() ==> arg_step(args, files, i, st) == match spec_parse_u32_decimal(
            args[i + 1],
        ) {
            None => usage_fail(
                UsageProblem::NotAnInteger(CliOption::StackSize),
            ),
            Some(n) => ArgStep::Next(ArgsView { stack_size: n, ..st }, i + 2),
        },
        args[i] == "--align_payload"@ && i + 1 < args.len() ==> arg_step(args, files, i, st)
            == alignment_step(st, args[i + 1], CliOption::AlignPayload, true, i + 2),
        args[i] == "--align_size"@ && i + 1 < args.len() ==> arg_step(args, files, i, st)
            == alignment_step(st, args[i + 1], CliOption::AlignSize, false, i + 2),
        args[i].len() > 0 && args[i][0] != '-' ==> arg_step(args, files, i, st) == ArgStep::Next(
            ArgsView { positional: st.positional.push(args[i]), ..st },
            i + 1,
        ),
{
    reveal_strlit("--rt0");
    reveal_strlit("-rt0");
    reveal_strlit("--rt0=");
    reveal_strlit("-rt0=");
    reveal_strlit("--firmware");
    reveal_strlit("--firmware=");
    reveal_strlit("--runtime-entry-point");
    reveal_strlit("--startup-alone");
    reveal_strlit("--ram-size");
    reveal_strlit("--align_payload");
    reveal_strlit("--align_payload=");
    reveal_strlit("--align_size");
    reveal_strlit("--align_size=");
    reveal_strlit("--facade12");
    reveal_strlit("--isa");
    reveal_strlit("--isa=");
    reveal_strlit("--isa-word");
    reveal_strlit("--isa-word=");
    reveal_strlit("--abi");
    reveal_strlit("--abi=");
    reveal_strlit("--abi-word");
    reveal_strlit("--abi-word=");
    reveal_strlit("--rustlet");
    reveal_strlit("-rs");
    reveal_strlit("--securitydomain");
    reveal_strlit("-sd");
    reveal_strlit("--stack-size");
    reveal_strlit("--allow-rt0-mismatch");
    reveal_strlit("-v");
    reveal_strlit("--verbose");
    let a = args[i];
    if a.len() > 0 {
        assert(a.subrange(0, 1)[0] == a[0]);
    }
    if a.len() >= 5 {
        assert(a.subrange(0, 5) =~= seq![a[0], a[1], a[2], a[3], a[4]]);
    }
    if a.len() >= 6 {
        assert(a.subrange(0, 6) =~= seq![a[0], a[1], a[2], a[3], a[4], a[5]]);
    }
    if a.len() >= 11 {
        assert(a.subrange(0, 11) =~= seq![a[0], a[1], a[2], a[3], a[4], a[5], a[6], a[7], a[8], a[9], a[10]]);
    }
    if a.len() >= 13 {
        assert(a.subrange(0, 13) =~= a.subrange(0, 11) + seq![a[11], a[12]]);
    }
    if a.len() >= 16 {
        assert(a.subrange(0, 16) =~= a.subrange(0, 13) + seq![a[13], a[14], a[15]]);
    }
}

/// `seg` stands in `args` from `i` on.
pub open spec fn stands_at(args: Seq<Seq<char>>, i: int, seg: Seq<Seq<char>>) -> bool {
    &&& 0 <= i
    &&& i + seg.len() <= args.len()
    &&& args.subrange(i, i + seg.len()) == seg
}

proof fn lemma_stands_split(args: Seq<Seq<char>>, i: int, s1: Seq<Seq<char>>, s2: Seq<Seq<char>>)
    requires
        stands_at(args, i, s1 + s2),
    ensures
        stands_at(args, i, s1),
        stands_at(args, i + s1.len(), s2),
{
    let whole = args.subrange(i, i + s1.len() + s2.len());
    assert(whole == s1 + s2);
    assert(args.subrange(i, i + s1.len()) =~= whole.subrange(0, s1.len() as int));
    assert(whole.subrange(0, s1.len() as int) =~= s1);
    assert(args.subrange(i + s1.len(), i + s1.len() + s2.len()) =~= whole.subrange(
        s1.len() as int,
        (s1.len() + s2.len()) as int,
    ));
    assert(whole.subrange(s1.len() as int, (s1.len() + s2.len()) as int) =~= s2);
}

proof fn lemma_stands_item(args: Seq<Seq<char>>, i: int, seg: Seq<Seq<char>>, k: int)
    requires
        stands_at(args, i, seg),
        0 <= k < seg.len(),
    ensures
        args[i + k] == seg[k],
{
    assert(args.subrange(i, i + seg.len())[k] == args[i + k]);
}

proof fn lemma_next(args: Seq<Seq<char>>, files: Seq<Seq<char>>, i: int, st: ArgsView, next: ArgsView, j: int)
    requires
        0 <= i < args.len(),
        i < j,
        arg_step(args, files, i, st) == ArgStep::Next(next, j),
    ensures
        args_from(args, files, i, st) == args_from(args, files, j, next),
{
}

proof fn lemma_word_args_len(option: Seq<char>, words: Seq<u32>)
    ensures
        word_args(option, words).len() == 2 * words.len(),
    decreases words.len(),
{
    if words.len() > 0 {
        lemma_word_args_len(option, words.drop_last());
    }
}

/// Words after `--isa-word` (or `--abi-word`) are appended in order.
proof fn lemma_words_read(args: Seq<Seq<char>>, files: Seq<Seq<char>>, i: int, st: ArgsView, isa: bool, words: Seq<u32>)
    requires
        stands_at(args, i, word_args(if isa { "--isa-word"@ } else { "--abi-word"@ }, words)),
    ensures
        args_from(args, files, i, st) == args_from(
            args,
            files,
            i + 2 * words.len(),
            if isa {
                ArgsView { isa_words: st.isa_words + words, ..st }
            } else {
                ArgsView { abi_words: st.abi_words + words, ..st }
            },
        ),
    decreases words.len(),
{
    let option = if isa { "--isa-word"@ } else { "--abi-word"@ };
    lemma_word_args_len(option, words);
    if words.len() == 0 {
        assert(st.isa_words + words =~= st.isa_words);
        assert(st.abi_words + words =~= st.abi_words);
    } else {
        let w = words.drop_last();
        let x = words.last();
        lemma_word_args_len(option, w);
        lemma_stands_split(args, i, word_args(option, w), seq![option, hex_word_text(x)]);
        lemma_words_read(args, files, i, st, isa, w);
        let k = i + 2 * w.len();
        let mid = if isa {
            ArgsView { isa_words: st.isa_words + w, ..st }
        } else {
            ArgsView { abi_words: st.abi_words + w, ..st }
        };
        lemma_stands_item(args, k, seq![option, hex_word_text(x)], 0);
        lemma_stands_item(args, k, seq![option, hex_word_text(x)], 1);
        lemma_option_steps(args, files, k, mid);
        lemma_hex_word_read_back(x);
        assert(w.push(x) =~= words);
        assert((st.isa_words + w).push(x) =~= st.isa_words + words);
        assert((st.abi_words + w).push(x) =~= st.abi_words + words);
        lemma_next(
            args,
            files,
            k,
            mid,
            if isa {
                ArgsView { isa_words: st.isa_words + words, ..st }
            } else {
                ArgsView { abi_words: st.abi_words + words, ..st }
            },
            k + 2,
        );
    }
}

spec fn startup_args(rt0: Option<Seq<char>>) -> Seq<Seq<char>> {
    match rt0 {
        Some(r) => seq!["--rt0"@, r],
        None => Seq::empty(),
    }
}

spec fn after_startup(st: ArgsView, rt0: Option<Seq<char>>) -> ArgsView {
    match rt0 {
        None => st,
        Some(r) => match startup_kind_named(r) {
            Some(k) => ArgsView {
                startup_selection: StartupSelection::Explicit(k),
                has_explicit_startup_source: true,
                ..st
            },
            None => ArgsView {
                startup_source: SourceView::ExplicitElf(r),
                has_explicit_startup_source: true,
                ..st
            },
        },
    }
}

proof fn lemma_startup_read(args: Seq<Seq<char>>, files: Seq<Seq<char>>, i: int, st: ArgsView, rt0: Option<Seq<char>>)
    requires
        stands_at(args, i, startup_args(rt0)),
        !st.has_explicit_startup_source,
        rt0 matches Some(r) ==> trimmed(r) == r && valid_rt0(r, files),
    ensures
        args_from(args, files, i, st) == args_from(args, files, i + startup_args(rt0).len(), after_startup(st, rt0)),
{
    if let Some(r) = rt0 {
        lemma_stands_item(args, i, startup_args(rt0), 0);
        lemma_stands_item(args, i, startup_args(rt0), 1);
        lemma_option_steps(args, files, i, st);
        reveal_strlit("thumb");
        reveal_strlit("thumbv6m");
        reveal_strlit("arm");
        lemma_next(args, files, i, st, after_startup(st, rt0), i + 2);
    }
}

spec fn flag_args(on: bool, flag: Seq<char>) -> Seq<Seq<char>> {
    if on {
        seq![flag]
    } else {
        Seq::empty()
    }
}

proof fn lemma_flags_read(
    args: Seq<Seq<char>>,
    files: Seq<Seq<char>>,
    i: int,
    st: ArgsView,
    allow: bool,
    facade12: bool,
)
    requires
        stands_at(args, i, flag_args(allow, "--allow-rt0-mismatch"@) + flag_args(facade12, "--facade12"@)),
    ensures
        args_from(args, files, i, st) == args_from(
            args,
            files,
            i + flag_args(allow, "--allow-rt0-mismatch"@).len() + flag_args(facade12, "--facade12"@).len(),
            ArgsView { allow_rt0_mismatch: st.allow_rt0_mismatch || allow, facade12: st.facade12 || facade12, ..st },
        ),
{
    let f1 = flag_args(allow, "--allow-rt0-mismatch"@);
    let f2 = flag_args(facade12, "--facade12"@);
    lemma_stands_split(args, i, f1, f2);
    let mid = ArgsView { allow_rt0_mismatch: st.allow_rt0_mismatch || allow, ..st };
    if allow {
        lemma_stands_item(args, i, f1, 0);
        lemma_option_steps(args, files, i, st);
        lemma_next(args, files, i, st, mid, i + 1);
    } else {
        assert(mid == st);
    }
    let j = i + f1.len();
    if facade12 {
        lemma_stands_item(args, j, f2, 0);
        lemma_option_steps(args, files, j, mid);
        lemma_next(args, files, j, mid, ArgsView { facade12: true, ..mid }, j + 1);
    }
}

spec fn profile_args(kind: Option<RustletProfileKind>) -> Seq<Seq<char>> {
    match kind {
        Some(RustletProfileKind::Application) => seq!["--rustlet"@],
        Some(RustletProfileKind::SecurityDomain) => seq!["--securitydomain"@],
        None => Seq::empty(),
    }
}

spec fn profile_abi(kind: Option<RustletProfileKind>) -> AbiView {
    match kind {
        Some(RustletProfileKind::Application) => AbiView::Rustlet,
        Some(RustletProfileKind::SecurityDomain) => AbiView::RustletSecurityDomain,
        None => AbiView::Xipfs,
    }
}

proof fn lemma_profile_read(args: Seq<Seq<char>>, files: Seq<Seq<char>>, i: int, st: ArgsView, kind: Option<RustletProfileKind>)
    requires
        stands_at(args, i, profile_args(kind)),
        st.abi is Xipfs,
        st.abi_descriptor is None,
    ensures
        args_from(args, files, i, st) == args_from(
            args,
            files,
            i + profile_args(kind).len(),
            ArgsView { abi: profile_abi(kind), ..st },
        ),
{
    if kind is Some {
        lemma_stands_item(args, i, profile_args(kind), 0);
        lemma_option_steps(args, files, i, st);
        lemma_next(args, files, i, st, ArgsView { abi: profile_abi(kind), ..st }, i + 1);
    } else {
        assert(ArgsView { abi: profile_abi(kind), ..st } == st);
    }
}

spec fn after_descriptor(st: ArgsView, isa: bool, descriptor: Option<u32>, words: Seq<u32>) -> ArgsView {
    match descriptor {
        None => st,
        Some(d) => if isa {
            ArgsView { isa_descriptor: Some(d), isa_words: st.isa_words + words, ..st }
        } else {
            ArgsView { abi_descriptor: Some(d), abi_words: st.abi_words + words, ..st }
        },
    }
}

proof fn lemma_descriptor_read(
    args: Seq<Seq<char>>,
    files: Seq<Seq<char>>,
    i: int,
    st: ArgsView,
    isa: bool,
    descriptor: Option<u32>,
    words: Seq<u32>,
)
    requires
        stands_at(
            args,
            i,
            descriptor_args(
                if isa { "--isa"@ } else { "--abi"@ },
                if isa { "--isa-word"@ } else { "--abi-word"@ },
                descriptor,
                words,
            ),
        ),
        !isa && descriptor is Some ==> st.abi is Xipfs,
    ensures
        args_from(args, files, i, st) == args_from(
            args,
            files,
            i + descriptor_args(
                if isa { "--isa"@ } else { "--abi"@ },
                if isa { "--isa-word"@ } else { "--abi-word"@ },
                descriptor,
                words,
            ).len(),
            after_descriptor(st, isa, descriptor, words),
        ),
{
    let option = if isa { "--isa"@ } else { "--abi"@ };
    let word_option = if isa { "--isa-word"@ } else { "--abi-word"@ };
    if let Some(d) = descriptor {
        let head = seq![option, hex_word_text(d)];
        lemma_stands_split(args, i, head, word_args(word_option, words));
        lemma_stands_item(args, i, head, 0);
        lemma_stands_item(args, i, head, 1);
        lemma_option_steps(args, files, i, st);
        lemma_hex_word_read_back(d);
        let mid = if isa {
            ArgsView { isa_descriptor: Some(d), ..st }
        } else {
            ArgsView { abi_descriptor: Some(d), ..st }
        };
        lemma_next(args, files, i, st, mid, i + 2);
        lemma_words_read(args, files, i + 2, mid, isa, words);
        lemma_word_args_len(word_option, words);
    }
}

spec fn tail_args(stack_size: u32, align_payload: usize, align_size: usize, elf: Seq<char>) -> Seq<Seq<char>> {
    seq![
        "--stack-size"@,
        decimal(stack_size as nat),
        "--align_payload"@,
        decimal(align_payload as nat),
        "--align_size"@,
        decimal(align_size as nat),
        elf,
    ]
}

proof fn lemma_tail_read(
    args: Seq<Seq<char>>,
    files: Seq<Seq<char>>,
    i: int,
    st: ArgsView,
    stack_size: u32,
    align_payload: usize,
    align_size: usize,
    elf: Seq<char>,
)
    requires
        stands_at(args, i, tail_args(stack_size, align_payload, align_size, elf)),
        i + 7 == args.len(),
        alignment_ok(align_payload),
        alignment_ok(align_size),
        elf.len() > 0,
        elf[0] != '-',
    ensures
        args_from(args, files, i, st) == Ok::<ArgsView, crate::build_args::ArgsFailure>(
            ArgsView {
                stack_size,
                align_payload,
                align_size,
                positional: st.positional.push(elf),
                ..st
            },
        ),
{
    let t = tail_args(stack_size, align_payload, align_size, elf);
    lemma_stands_item(args, i, t, 0);
    lemma_stands_item(args, i, t, 1);
    lemma_stands_item(args, i, t, 2);
    lemma_stands_item(args, i, t, 3);
    lemma_stands_item(args, i, t, 4);
    lemma_stands_item(args, i, t, 5);
    lemma_stands_item(args, i, t, 6);
    lemma_decimal_read_back(stack_size);
    lemma_alignment_read_back(align_payload);
    lemma_alignment_read_back(align_size);
    let s1 = ArgsView { stack_size, ..st };
    let s2 = ArgsView { align_payload, ..s1 };
    let s3 = ArgsView { align_size, ..s2 };
    let s4 = ArgsView { positional: s3.positional.push(elf), ..s3 };
    lemma_option_steps(args, files, i, st);
    lemma_next(args, files, i, st, s1, i + 2);
    lemma_option_steps(args, files, i + 2, s1);
    lemma_next(args, files, i + 2, s1, s2, i + 4);
    lemma_option_steps(args, files, i + 4, s2);
    lemma_next(args, files, i + 4, s2, s3, i + 6);
    lemma_option_steps(args, files, i + 6, s3);
    lemma_next(args, files, i + 6, s3, s4, i + 7);
}

spec fn read_back_state(v: AppOptionsView, startup: Option<Seq<char>>, elf: Seq<char>) -> ArgsView {
    let st1 = after_startup(initial_args(), named_startup(v, startup));
    let st2 = ArgsView { allow_rt0_mismatch: v.allow_rt0_mismatch, facade12: v.facade12, ..st1 };
    let st4 = ArgsView { abi: profile_abi(v.profile_kind), ..st2 };
    let st5 = after_descriptor(st4, true, v.isa_descriptor, v.isa_words);
    let st6 = after_descriptor(st5, false, v.abi_descriptor, v.abi_words);
    ArgsView {
        stack_size: v.stack_size,
        align_payload: v.align_payload,
        align_size: v.align_size,
        positional: st6.positional.push(elf),
        ..st6
    }
}

#[verifier::rlimit(50)]
#[verifier::spinoff_prover]
proof fn lemma_command_read(
    program: Seq<char>,
    v: AppOptionsView,
    startup: Option<Seq<char>>,
    elf: Seq<char>,
    files: Seq<Seq<char>>,
)
    requires
        app_options_ok(v, files),
        v.rt0 matches Some(r) ==> trimmed(r) == r,
        startup matches Some(s) ==> trimmed(s) == s && valid_rt0(s, files),
        elf.len() > 0,
        elf[0] != '-',
    ensures
        args_from(seq![program] + spec_build_fae_args(v, startup, elf), files, 1, initial_args())
            == Ok::<ArgsView, crate::build_args::ArgsFailure>(read_back_state(v, startup, elf)),
{
    let a = spec_build_fae_args(v, startup, elf);
    let args = seq![program] + a;
    let rt0 = named_startup(v, startup);
    let p1 = startup_args(rt0);
    let p2 = flag_args(v.allow_rt0_mismatch, "--allow-rt0-mismatch"@) + flag_args(v.facade12, "--facade12"@);
    let p4 = profile_args(v.profile_kind);
    let p5 = descriptor_args("--isa"@, "--isa-word"@, v.isa_descriptor, v.isa_words);
    let p6 = descriptor_args("--abi"@, "--abi-word"@, v.abi_descriptor, v.abi_words);
    let p7 = tail_args(v.stack_size, v.align_payload, v.align_size, elf);
    assert(a =~= p1 + p2 + p4 + p5 + p6 + p7);
    assert(args.subrange(1, 1 + a.len() as int) =~= a);
    lemma_stands_split(args, 1, p1 + p2 + p4 + p5 + p6, p7);
    lemma_stands_split(args, 1, p1 + p2 + p4 + p5, p6);
    lemma_stands_split(args, 1, p1 + p2 + p4, p5);
    lemma_stands_split(args, 1, p1 + p2, p4);
    lemma_stands_split(args, 1, p1, p2);
    let i2: int = 1 + p1.len() as int;
    let i4: int = i2 + p2.len();
    let i5: int = i4 + p4.len();
    let i6: int = i5 + p5.len();
    let i7: int = i6 + p6.len();

    let st0 = initial_args();
    let st1 = after_startup(st0, rt0);
    lemma_startup_read(args, files, 1, st0, rt0);
    let st2 = ArgsView { allow_rt0_mismatch: v.allow_rt0_mismatch, facade12: v.facade12, ..st1 };
    lemma_flags_read(args, files, i2, st1, v.allow_rt0_mismatch, v.facade12);
    let st4 = ArgsView { abi: profile_abi(v.profile_kind), ..st2 };
    lemma_profile_read(args, files, i4, st2, v.profile_kind);
    let st5 = after_descriptor(st4, true, v.isa_descriptor, v.isa_words);
    lemma_descriptor_read(args, files, i5, st4, true, v.isa_descriptor, v.isa_words);
    lemma_descriptor_read(args, files, i6, st5, false, v.abi_descriptor, v.abi_words);
    lemma_tail_read(
        args,
        files,
        i7,
        after_descriptor(st5, false, v.abi_descriptor, v.abi_words),
        v.stack_size,
        v.align_payload,
        v.align_size,
        elf,
    );
}

/// What the image builder reads from the command the Rust builder hands it:
/// for options the Rust builder accepted, a startup with no white space
/// around it, and an ELF name that does not start with `-`, the image
/// builder takes the same startup, mismatch allowance, legacy footer, ABI
/// (descriptor with its words, or profile alias), ISA descriptor with its
/// words, stack size and alignments, and the ELF as its one input.
pub proof fn lemma_build_fae_command_read_back(
    program: Seq<char>,
    v: AppOptionsView,
    startup: Option<Seq<char>>,
    elf: Seq<char>,
    files: Seq<Seq<char>>,
)
    requires
        app_options_ok(v, files),
        v.rt0 matches Some(r) ==> trimmed(r) == r,
        startup matches Some(s) ==> trimmed(s) == s && valid_rt0(s, files),
        elf.len() > 0,
        elf[0] != '-',
    ensures
        spec_parse_build_args(seq![program] + spec_build_fae_args(v, startup, elf), files) == ArgsOutcome::Options(
            read_back_options(v, startup, elf),
        ),
{
    lemma_command_read(program, v, startup, elf, files);
    let last = read_back_state(v, startup, elf);
    assert(Seq::<u32>::empty() + v.isa_words =~= v.isa_words);
    assert(Seq::<u32>::empty() + v.abi_words =~= v.abi_words);
    reveal_strlit("start");
    assert(last.positional =~= seq![elf]);
    assert(finish_args(last) == Ok::<OptionsView, UsageProblem>(read_back_options(v, startup, elf)));
}

/// Every command line the Rust builder accepts, whose `--rt0` value (if
/// any) has no white space around it, leads to an image-builder command that
/// the image builder reads back as the same settings.
pub proof fn lemma_accepted_command_read_back(
    program: Seq<char>,
    app_args: Seq<Seq<char>>,
    startup: Option<Seq<char>>,
    elf: Seq<char>,
    files: Seq<Seq<char>>,
)
    requires
        spec_parse_app_args(app_args, files) is Ok,
        spec_parse_app_args(app_args, files)->Ok_0.rt0 matches Some(r) ==> trimmed(r) == r,
        startup matches Some(s) ==> trimmed(s) == s && valid_rt0(s, files),
        elf.len() > 0,
        elf[0] != '-',
    ensures
        spec_parse_build_args(
            seq![program] + spec_build_fae_args(spec_parse_app_args(app_args, files)->Ok_0, startup, elf),
            files,
        ) == ArgsOutcome::Options(read_back_options(spec_parse_app_args(app_args, files)->Ok_0, startup, elf)),
{
    lemma_parsed_options_ok(app_args, files);
    lemma_build_fae_command_read_back(program, spec_parse_app_args(app_args, files)->Ok_0, startup, elf, files);
}

} // verus!

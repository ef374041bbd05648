use xiprfs_fae_tools::build_args::{
    parse_args, ArgsError, BuildMode, CliOption, DescriptorKind, UsageProblem, CLI_OPTION_RT0,
    CLI_OPTION_RT0_SHORT,
};
use xiprfs_fae_tools::build_cli::{
    BuildAbi, FirmwareBoard, StartupKind, StartupSelection, StartupSource,
};

fn strings(items: &[&str]) -> Vec<String> {
    items.iter().map(|s| s.to_string()).collect()
}

#[test]
fn rt0_option_accepts_an_embedded_kind_or_existing_elf() {
    for option in [CLI_OPTION_RT0_SHORT, CLI_OPTION_RT0] {
        let path = format!("/tmp/fae-build-rt0-option-{option}.elf");
        let args = vec![
            "build_fae".to_owned(),
            option.to_owned(),
            path.clone(),
            "payload.elf".to_owned(),
        ];
        let options =
            parse_args(&args, &[path.clone()]).expect("explicit RT0 option must parse");

        assert!(matches!(
            options.startup_source,
            StartupSource::ExplicitElf(ref parsed) if *parsed == path
        ));
        assert!(matches!(
            options.mode,
            BuildMode::Application { ref elf_filename } if elf_filename == "payload.elf"
        ));
    }

    let args = vec![
        "build_fae".to_owned(),
        CLI_OPTION_RT0.to_owned(),
        "thumbv6m".to_owned(),
        "payload.elf".to_owned(),
    ];
    let options = parse_args(&args, &[]).expect("embedded RT0 kind must parse");
    assert!(matches!(
        options.startup_selection,
        StartupSelection::Explicit(StartupKind::ThumbV6M)
    ));
}

#[test]
fn rt0_option_rejects_an_unknown_kind_or_missing_file() {
    let args = vec![
        "build_fae".to_owned(),
        CLI_OPTION_RT0.to_owned(),
        "not-an-rt0".to_owned(),
        "payload.elf".to_owned(),
    ];
    assert!(parse_args(&args, &[]).is_err());
}

#[test]
fn build_args_help_alone_asks_for_help() {
    let r = parse_args(&strings(&["build_fae", "--help"]), &[]);
    assert_eq!(r.unwrap_err(), ArgsError::HelpRequested);
    let r = parse_args(&strings(&["build_fae", "-h"]), &[]);
    assert_eq!(r.unwrap_err().exit_code(), 0);
}

#[test]
fn build_args_rejects_the_removed_startup_option() {
    let r = parse_args(&strings(&["build_fae", "--startup", "thumb", "payload.elf"]), &[]);
    assert_eq!(r.unwrap_err(), ArgsError::UnrecognizedOption("--startup".to_owned()));
}

#[test]
fn build_args_defaults_for_one_input() {
    let o = parse_args(&strings(&["build_fae", "  app.elf  "]), &[]).unwrap();
    assert!(matches!(o.startup_source, StartupSource::EmbeddedDefaultRuntime));
    assert!(matches!(o.startup_selection, StartupSelection::Auto));
    assert!(matches!(o.mode, BuildMode::Application { ref elf_filename } if elf_filename == "app.elf"));
    assert_eq!(o.runtime_entry_point, "start");
    assert_eq!(o.ram_size, 1024);
    assert_eq!(o.align_payload, 0);
    assert_eq!(o.align_size, 32);
    assert!(!o.facade12);
    assert!(o.isa.is_none());
    assert!(matches!(o.abi, BuildAbi::Xipfs));
    assert_eq!(o.stack_size, 2048);
    assert!(!o.allow_rt0_mismatch);
    assert!(!o.verbose);
}

#[test]
fn build_args_reads_values_in_both_forms() {
    let o = parse_args(
        &strings(&[
            "build_fae",
            "--align_payload=64",
            "--align_size",
            "128",
            "--isa=0x0102_0001",
            "--isa-word",
            "7",
            "--firmware=mps2-an386",
            "-v",
            "--allow-rt0-mismatch",
            "--stack-size",
            "+4096",
            "app.elf",
        ]),
        &[],
    )
    .unwrap();
    assert_eq!(o.align_payload, 64);
    assert_eq!(o.align_size, 128);
    let isa = o.isa.unwrap();
    assert_eq!(isa.descriptor(), 0x0102_0001);
    assert!(matches!(o.startup_source, StartupSource::EmbeddedFirmware(FirmwareBoard::Mps2An386)));
    assert!(o.verbose);
    assert!(o.allow_rt0_mismatch);
    assert_eq!(o.stack_size, 4096);
}

#[test]
fn build_args_reports_each_usage_problem() {
    let cases: Vec<(Vec<&str>, UsageProblem)> = vec![
        (vec!["b", "--rt0"], UsageProblem::MissingValue(CliOption::Rt0)),
        (vec!["b", "--rt0", "arm", "--rt0", "thumb", "a.elf"], UsageProblem::StartupSourceRepeated),
        (vec!["b", "--rt0", "arm", "--firmware", "mps2-an385", "a.elf"], UsageProblem::FirmwareWithRt0),
        (vec!["b", "--firmware", "unknown-board", "a.elf"], UsageProblem::InvalidFirmware),
        (vec!["b", "--ram-size", "lots", "--startup-alone"], UsageProblem::NotAnInteger(CliOption::RamSize)),
        (vec!["b", "--align_size", "24", "a.elf"], UsageProblem::NotPowerOfTwo(CliOption::AlignSize)),
        (vec!["b", "--align_payload=x", "a.elf"], UsageProblem::NotAnInteger(CliOption::AlignPayload)),
        (vec!["b", "--abi", "0x1_0000_0000", "a.elf"], UsageProblem::NotAU32(CliOption::Abi)),
        (vec!["b", "--rustlet", "--abi", "5", "a.elf"], UsageProblem::AbiWithProfile),
        (vec!["b", "--rustlet", "-sd", "a.elf"], UsageProblem::ProfileWithOtherAbi(CliOption::SecurityDomain)),
        (vec!["b", "--isa", "0x01020002", "--isa-word", "1", "a.elf"],
            UsageProblem::InvalidDescriptor { kind: DescriptorKind::Isa, expected: 2, actual: 1 }),
        (vec!["b", "--abi-word", "1", "a.elf"], UsageProblem::WordWithoutDescriptor(DescriptorKind::Abi)),
        (vec!["b", "--runtime-entry-point", "  ", "a.elf"], UsageProblem::EmptyEntryPoint),
        (vec!["b", "--facade12", "--rustlet", "a.elf"], UsageProblem::Facade12WithFae1Options),
        (vec!["b", "--startup-alone", "--rustlet"], UsageProblem::ProfileNeedsInputElf),
        (vec!["b", "--startup-alone", "a.elf"], UsageProblem::StartupAloneWithInput),
        (vec!["b", "--startup-alone", "--runtime-entry-point", "main"], UsageProblem::StartupAloneWithEntryPoint),
        (vec!["b", "a.elf", "b.elf"], UsageProblem::ExpectedOneInput),
        (vec!["b"], UsageProblem::ExpectedOneInput),
        (vec!["b", "--ram-size", "2048", "a.elf"], UsageProblem::RamSizeNeedsStartupAlone),
    ];
    for (args, problem) in cases {
        let r = parse_args(&strings(&args), &[]);
        assert_eq!(r.unwrap_err(), ArgsError::Usage(problem), "{args:?}");
    }
}

#[test]
fn build_args_startup_alone_takes_no_input() {
    let o = parse_args(&strings(&["build_fae", "--startup-alone", "--ram-size", " 4096 "]), &[]).unwrap();
    assert!(matches!(o.mode, BuildMode::StartupAlone));
    assert_eq!(o.ram_size, 4096);
}

use xiprfs_fae_tools::build_args::parse_args as parse_build_fae_args;
use xiprfs_fae_tools::build_args::BuildMode;
use xiprfs_fae_tools::build_cli::{
    parse_alignment, parse_u32_decimal, parse_u32_value, BuildAbi, StartupKind, StartupSelection,
    StartupSource,
};
use xiprfs_fae_tools::fae_format::DescriptorWords;
use xiprfs_fae_tools::rust_app::{
    build_rustflags, firmware_build_fae_command, parse_args, parse_package_name,
    runtime_build_fae_command, runtime_startup_for_target, set_packaging_option, toml_array,
    validate_descriptor_word_count, AppArgsError, AppOption, DescriptorName, PackagingMode,
    RustletProfileKind, WordCountMismatch,
};

fn strings(items: &[&str]) -> Vec<String> {
    items.iter().map(|s| s.to_string()).collect()
}

#[test]
fn rustflags_without_script_or_cfg() {
    let flags = build_rustflags(None, None);
    assert_eq!(
        flags,
        strings(&[
            "-Z",
            "function-sections=yes",
            "-C",
            "panic=abort",
            "-C",
            "relocation-model=ropi-rwpi",
            "-C",
            "link-arg=--emit-relocs",
            "-C",
            "link-arg=--gc-sections",
            "-C",
            "link-arg=--no-undefined",
        ])
    );
}

#[test]
fn rustflags_with_script_and_cfg() {
    let flags = build_rustflags(Some("/tmp/auto.ld"), Some("refresh_1"));
    assert_eq!(flags.len(), 16);
    assert_eq!(&flags[12..], &strings(&["-Z", "pre-link-arg=-T/tmp/auto.ld", "--cfg", "refresh_1"])[..]);
}

#[test]
fn toml_array_quotes_and_escapes() {
    assert_eq!(toml_array(&[]), "[]");
    assert_eq!(toml_array(&strings(&["-C", "panic=abort"])), "[\"-C\",\"panic=abort\"]");
    assert_eq!(toml_array(&strings(&["a\"b", "c\\d"])), "[\"a\\\"b\",\"c\\\\d\"]");
}

#[test]
fn startup_for_armv6m_targets_only() {
    assert_eq!(runtime_startup_for_target("thumbv6m-none-eabi"), Some("thumbv6m"));
    assert_eq!(runtime_startup_for_target("thumbv7em-none-eabi"), None);
    assert_eq!(runtime_startup_for_target("thumbv6"), None);
}

#[test]
fn descriptor_word_count_checks_low_nibble() {
    assert_eq!(validate_descriptor_word_count(DescriptorName::Isa, None, &[1, 2]), Ok(()));
    assert_eq!(validate_descriptor_word_count(DescriptorName::Isa, Some(0x12), &[1, 2]), Ok(()));
    assert_eq!(
        validate_descriptor_word_count(DescriptorName::Abi, Some(0x11), &[]),
        Err(WordCountMismatch { kind: DescriptorName::Abi, expected: 1, supplied: 0 })
    );
}

#[test]
fn packaging_option_only_once() {
    let mut packaging = None;
    assert!(set_packaging_option(&mut packaging, PackagingMode::Fae, "--fae").is_ok());
    assert_eq!(packaging, Some(PackagingMode::Fae));
    let err = set_packaging_option(&mut packaging, PackagingMode::ElfOnly, "--elf").unwrap_err();
    assert_eq!(err.option, "--elf");
    assert_eq!(packaging, Some(PackagingMode::Fae));
}

#[test]
fn package_name_from_package_table() {
    let manifest = "[workspace]\nname = \"outer\"\n\n[package]\nversion = \"0.1.0\"\n  name   =  \"hello-app\"  \nedition = \"2021\"\n";
    assert_eq!(parse_package_name(manifest), Some("hello-app".to_owned()));
}

#[test]
fn package_name_missing_or_outside_package() {
    assert_eq!(parse_package_name("[dependencies]\nname = \"x\"\n"), None);
    assert_eq!(parse_package_name("[package]\nname = \"\"\n"), None);
    assert_eq!(parse_package_name(""), None);
    assert_eq!(parse_package_name("[package]\nnamespace=\"ns\"\n"), None);
}

#[test]
fn package_name_strips_every_quote() {
    assert_eq!(parse_package_name("[package]\nname=\"\"demo\"\"\r\n"), Some("demo".to_owned()));
}

#[test]
fn app_args_minimal_fae() {
    let args = strings(&["--manifest-path", "app/Cargo.toml", "--fae"]);
    let options = parse_args(&args, &[]).unwrap();
    assert_eq!(options.app_manifest, "app/Cargo.toml");
    assert_eq!(options.target, "thumbv7em-none-eabi");
    assert_eq!(options.align_payload, 0);
    assert_eq!(options.align_size, 32);
    assert_eq!(options.stack_size, 2048);
    assert_eq!(options.profile, "release");
    assert_eq!(options.packaging, PackagingMode::Fae);
    assert_eq!(options.bin_name, None);
}

#[test]
fn app_args_bootable_and_values() {
    let args = strings(&[
        "--manifest-path",
        "m.toml",
        "--bin",
        "demo",
        "--target",
        "thumbv6m-none-eabi",
        "--align_payload",
        "16",
        "--isa",
        "0x0000_0001",
        "--isa-word",
        "7",
        "-rs",
        "--stack-size",
        "4096",
        "--profile",
        "dev",
        "bootable",
        "mps2-an385",
    ]);
    let options = parse_args(&args, &[]).unwrap();
    assert_eq!(options.bin_name.as_deref(), Some("demo"));
    assert_eq!(options.target, "thumbv6m-none-eabi");
    assert_eq!(options.align_payload, 16);
    assert_eq!(options.isa_descriptor, Some(1));
    assert_eq!(options.isa_words, vec![7]);
    assert_eq!(options.profile_kind, Some(RustletProfileKind::Application));
    assert_eq!(options.stack_size, 4096);
    assert_eq!(options.profile, "dev");
    assert_eq!(options.packaging, PackagingMode::Bootable { board: "mps2-an385".to_owned() });
}

#[test]
fn app_args_errors() {
    let run = |a: &[&str]| parse_args(&strings(a), &[]).unwrap_err();
    assert_eq!(run(&["--fae"]), AppArgsError::MissingManifest);
    assert_eq!(run(&["--manifest-path", "m"]), AppArgsError::MissingPackaging);
    assert_eq!(run(&["--manifest-path", "m", "--fae", "bootable", "b"]), AppArgsError::PackagingTwice);
    assert_eq!(run(&["--manifest-path", "m", "stray"]), AppArgsError::UnexpectedTrailing);
    assert_eq!(run(&["--manifest-path", "m", "--elf", "--fae"]), AppArgsError::DuplicatePackaging(AppOption::Fae));
    assert_eq!(run(&["--manifest-path"]), AppArgsError::MissingValue(AppOption::ManifestPath));
    assert_eq!(run(&["--align_size", "12"]), AppArgsError::NotPowerOfTwo(AppOption::AlignSize));
    assert_eq!(run(&["--align_size", "x"]), AppArgsError::NotAnInteger(AppOption::AlignSize));
    assert_eq!(run(&["--abi", "zz"]), AppArgsError::NotAU32(AppOption::Abi));
    assert_eq!(run(&["-sd", "--abi", "1"]), AppArgsError::AbiWithProfile);
    assert_eq!(run(&["--abi", "1", "--rustlet"]), AppArgsError::ProfileConflict(AppOption::Rustlet));
    assert_eq!(run(&["--rt0", "missing.elf"]), AppArgsError::InvalidRt0);
    assert_eq!(run(&["--stack-size", " 5"]), AppArgsError::StackSizeNotInteger);
    assert_eq!(run(&["--fae", "-h", "--bogus"]), AppArgsError::HelpRequested);
    assert_eq!(
        run(&["--manifest-path", "m", "--fae", "--isa-word", "1"]),
        AppArgsError::WordsWithoutDescriptor(DescriptorName::Isa)
    );
    assert_eq!(
        run(&["--manifest-path", "m", "--fae", "--abi", "0x2"]),
        AppArgsError::WordCount(WordCountMismatch { kind: DescriptorName::Abi, expected: 2, supplied: 0 })
    );
    assert_eq!(run(&["--manifest-path", "m", "--fae", "--facade12", "-rs"]), AppArgsError::Facade12WithFae1);
}

#[test]
fn app_args_rt0_kinds_and_files() {
    let args = strings(&["--manifest-path", "m", "--elf", "--rt0", "thumbv6m"]);
    assert_eq!(parse_args(&args, &[]).unwrap().rt0.as_deref(), Some("thumbv6m"));
    let args = strings(&["--manifest-path", "m", "--elf", "-rt0", "my_rt0.elf"]);
    let files = strings(&["my_rt0.elf"]);
    assert_eq!(parse_args(&args, &files).unwrap().rt0.as_deref(), Some("my_rt0.elf"));
}

#[test]
fn build_fae_arguments_exact() {
    let args = strings(&[
        "--manifest-path",
        "m",
        "--fae",
        "--abi",
        "0x0000_0102",
        "--abi-word",
        "0xABCDEF01",
        "--abi-word",
        "5",
        "--allow-rt0-mismatch",
    ]);
    let options = parse_args(&args, &[]).unwrap();
    let command = runtime_build_fae_command(&options, Some("thumbv6m"), "out/app.elf");
    assert_eq!(
        command,
        strings(&[
            "--rt0",
            "thumbv6m",
            "--allow-rt0-mismatch",
            "--abi",
            "0x00000102",
            "--abi-word",
            "0xABCDEF01",
            "--abi-word",
            "0x00000005",
            "--stack-size",
            "2048",
            "--align_payload",
            "0",
            "--align_size",
            "32",
            "out/app.elf",
        ])
    );
}

#[test]
fn build_fae_arguments_prefer_given_rt0_and_profile() {
    let args = strings(&["--manifest-path", "m", "--fae", "--rt0", "arm", "-sd", "--facade12"]);
    let err = parse_args(&args, &[]).unwrap_err();
    assert_eq!(err, AppArgsError::Facade12WithFae1);
    let args = strings(&["--manifest-path", "m", "--fae", "--rt0", "arm", "-sd"]);
    let options = parse_args(&args, &[]).unwrap();
    let command = runtime_build_fae_command(&options, Some("thumbv6m"), "a.elf");
    assert_eq!(&command[..3], &strings(&["--rt0", "arm", "--securitydomain"])[..]);
}

#[test]
fn firmware_arguments_exact() {
    let args = strings(&["--manifest-path", "m", "--facade12", "--align_size", "64", "bootable", "mps2-an386"]);
    let options = parse_args(&args, &[]).unwrap();
    let board = match &options.packaging {
        PackagingMode::Bootable { board } => board.clone(),
        other => panic!("unexpected packaging {other:?}"),
    };
    assert_eq!(
        firmware_build_fae_command(&options, &board, "x.elf"),
        strings(&["--firmware", "mps2-an386", "--align_payload", "0", "--align_size", "64", "--facade12", "x.elf"])
    );
}

#[test]
fn emitted_numbers_read_back_by_image_builder() {
    for word in [0u32, 1, 0x0000_0102, 0xABCD_EF01, u32::MAX] {
        let text = format!("0x{word:08X}");
        assert_eq!(parse_u32_value(&text), Some(word));
    }
    for n in [0u32, 7, 2048, u32::MAX] {
        assert_eq!(parse_u32_decimal(&n.to_string()), Some(n));
    }
    for a in [0usize, 1, 2, 4096] {
        assert_eq!(parse_alignment(&a.to_string()), Ok(a));
    }
}

#[test]
fn emitted_command_is_accepted_by_image_builder() {
    let args = strings(&[
        "--manifest-path",
        "m",
        "--fae",
        "--isa",
        "0x1",
        "--isa-word",
        "0xFFFF0000",
        "--stack-size",
        "1024",
        "--align_payload",
        "8",
    ]);
    let options = parse_args(&args, &[]).unwrap();
    let mut command = vec!["build_fae".to_owned()];
    command.extend(runtime_build_fae_command(&options, None, "app.elf"));
    let files = strings(&["app.elf"]);
    let build = parse_build_fae_args(&command, &files).unwrap();
    assert_eq!(build.stack_size, 1024);
    assert_eq!(build.align_payload, 8);
    assert_eq!(build.align_size, 32);
}

#[test]
fn emitted_profile_and_startup_read_back_by_image_builder() {
    let args = strings(&[
        "--manifest-path",
        "m",
        "--fae",
        "--rustlet",
        "--allow-rt0-mismatch",
        "--stack-size",
        "2048",
        "--align_size",
        "64",
    ]);
    let options = parse_args(&args, &[]).unwrap();
    let mut command = vec!["build_fae".to_owned()];
    command.extend(runtime_build_fae_command(&options, Some("thumbv6m"), "app.elf"));
    let build = parse_build_fae_args(&command, &[]).unwrap();
    assert!(matches!(build.abi, BuildAbi::Rustlet));
    assert_eq!(build.startup_selection, StartupSelection::Explicit(StartupKind::ThumbV6M));
    assert!(matches!(build.startup_source, StartupSource::EmbeddedDefaultRuntime));
    assert!(build.allow_rt0_mismatch);
    assert!(!build.facade12);
    assert!(build.isa.is_none());
    assert_eq!(build.stack_size, 2048);
    assert_eq!(build.align_payload, 0);
    assert_eq!(build.align_size, 64);
    assert!(matches!(build.mode, BuildMode::Application { ref elf_filename } if elf_filename == "app.elf"));
}

#[test]
fn emitted_abi_descriptor_and_rt0_file_read_back_by_image_builder() {
    let args = strings(&[
        "--manifest-path",
        "m",
        "--fae",
        "--abi",
        "0x00010002",
        "--abi-word",
        "7",
        "--abi-word",
        "0x10",
        "-rt0",
        "crt0.elf",
    ]);
    let files = strings(&["crt0.elf"]);
    let options = parse_args(&args, &files).unwrap();
    let mut command = vec!["build_fae".to_owned()];
    command.extend(runtime_build_fae_command(&options, Some("thumbv6m"), "out.elf"));
    let build = parse_build_fae_args(&command, &files).unwrap();
    let expected = DescriptorWords::new(0x0001_0002, &[7, 0x10]).unwrap();
    assert!(matches!(build.abi, BuildAbi::Explicit(w) if w == expected));
    assert!(matches!(build.startup_source, StartupSource::ExplicitElf(ref p) if p == "crt0.elf"));
    assert_eq!(build.startup_selection, StartupSelection::Auto);
    assert!(!build.allow_rt0_mismatch);
    assert!(matches!(build.mode, BuildMode::Application { ref elf_filename } if elf_filename == "out.elf"));
}

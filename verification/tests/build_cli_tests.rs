use xiprfs_fae_tools::build_cli::{
    parse_alignment, parse_firmware_board, parse_startup_kind, parse_u32_decimal, parse_u32_value,
    AlignmentError, EmbeddedStartup, FirmwareBoard, StartupKind,
};

#[test]
fn u32_values_hex_decimal_and_separators() {
    assert_eq!(parse_u32_value("0x10"), Some(16));
    assert_eq!(parse_u32_value(" 0XFF_FF "), Some(0xffff));
    assert_eq!(parse_u32_value("1_000"), Some(1000));
    assert_eq!(parse_u32_value("+7"), Some(7));
    assert_eq!(parse_u32_value("0x+7"), Some(7));
    assert_eq!(parse_u32_value("4294967295"), Some(u32::MAX));
    assert_eq!(parse_u32_value("4294967296"), None);
    assert_eq!(parse_u32_value("0x1_0000_0000"), None);
    assert_eq!(parse_u32_value("0x"), None);
    assert_eq!(parse_u32_value(""), None);
    assert_eq!(parse_u32_value("12a"), None);
}

#[test]
fn u32_decimal_is_not_trimmed() {
    assert_eq!(parse_u32_decimal("4096"), Some(4096));
    assert_eq!(parse_u32_decimal("+1"), Some(1));
    assert_eq!(parse_u32_decimal(" 1"), None);
    assert_eq!(parse_u32_decimal("0x10"), None);
}

#[test]
fn alignment_values() {
    assert_eq!(parse_alignment("0"), Ok(0));
    assert_eq!(parse_alignment(" 1 "), Ok(1));
    assert_eq!(parse_alignment("64"), Ok(64));
    assert_eq!(parse_alignment("48"), Err(AlignmentError::NotPowerOfTwo));
    assert_eq!(parse_alignment("-4"), Err(AlignmentError::NotAnInteger));
    assert_eq!(parse_alignment("0x10"), Err(AlignmentError::NotAnInteger));
}

#[test]
fn startup_and_board_names() {
    assert_eq!(parse_startup_kind(" thumbv6m "), Some(StartupKind::ThumbV6M));
    assert_eq!(parse_startup_kind("arm"), Some(StartupKind::Arm));
    assert_eq!(parse_startup_kind("x86"), None);
    assert_eq!(parse_firmware_board("b-l475e-iot01a"), Some(FirmwareBoard::BL475eIot01a));
    assert_eq!(parse_firmware_board("mps2"), None);
    assert_eq!(FirmwareBoard::OlimexStm32H405.flash_base(), 0x0800_0000);
    assert_eq!(FirmwareBoard::Mps2An385.flash_base(), 0);
    assert_eq!(FirmwareBoard::Mps2An386.ram_base(), 0x2000_0000);
}

#[test]
fn startup_file_names_follow_the_stem() {
    let spec = StartupKind::ThumbV6M.embedded().startup_spec();
    assert_eq!(spec.output_stem, "rt0-thumbv6m");
    assert_eq!(spec.symbol_filename, "build_fae-rt0-thumbv6m.elf");
    assert_eq!(spec.generated_filename, "rt0-thumbv6m.elf");
    assert_eq!(spec.fae1_generated_filename, "rt0-thumbv6m-fae1.elf");
    assert_eq!(spec.rustlet_symbol_filename.as_deref(), Some("build_fae-rt0-thumbv6m-rustlet.elf"));
    let board = EmbeddedStartup::Firmware(FirmwareBoard::Mps2An386).startup_spec();
    assert_eq!(board.fae1_symbol_filename, "build_fae-boot-mps2-an386-fae1.elf");
    assert_eq!(board.rustlet_generated_filename, None);
}

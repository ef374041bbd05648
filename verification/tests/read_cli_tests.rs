use xiprfs_fae_tools::read_cli::{checked_end, has_option, hexdump, hexdump_line, parse_options, OptionsError};

fn strings(items: &[&str]) -> Vec<String> {
    items.iter().map(|s| s.to_string()).collect()
}

#[test]
fn reader_options_selected_before_file() {
    let options = parse_options(&strings(&["read_fae", "-Hrom", "--Dcrt0", "app.fae"])).unwrap();
    assert!(has_option(&options, "-Hrom", "--Hrom"));
    assert!(has_option(&options, "-Dcrt0", "--Dcrt0"));
    assert!(!has_option(&options, "-Hgot", "--Hgot"));
}

#[test]
fn reader_verbose_turns_every_dump_on() {
    let options = parse_options(&strings(&["read_fae", "-v", "app.fae"])).unwrap();
    for (short, long) in [("-Dcrt0", "--Dcrt0"), ("-Hreloc", "--Hreloc"), ("-Hromram", "--Hromram"), ("-Hgot", "--Hgot")] {
        assert!(has_option(&options, short, long));
    }
    assert!(!options.iter().any(|o| o == "-v"));
}

#[test]
fn reader_option_errors() {
    assert_eq!(parse_options(&strings(&["read_fae"])), Err(OptionsError::MissingInput));
    assert_eq!(parse_options(&strings(&["read_fae", "-Hrom"])), Err(OptionsError::MissingInput));
    assert_eq!(parse_options(&strings(&["read_fae", "--help"])), Err(OptionsError::HelpRequested));
    assert_eq!(
        parse_options(&strings(&["read_fae", "-x", "app.fae"])),
        Err(OptionsError::UnrecognizedOption("-x".to_owned()))
    );
    assert_eq!(OptionsError::HelpRequested.exit_code(), 0);
    assert_eq!(OptionsError::MissingInput.exit_code(), 1);
    assert_eq!(OptionsError::MissingInput.message().as_deref(), Some("missing input file"));
    assert_eq!(
        OptionsError::UnrecognizedOption("-q".to_owned()).message().as_deref(),
        Some("unrecognized option: -q")
    );
}

#[test]
fn hexdump_full_line() {
    let bytes: Vec<u8> = (0x41..=0x50).collect();
    assert_eq!(
        hexdump_line(0x10, &bytes),
        "00000010  41 42 43 44 45 46 47 48  49 4a 4b 4c 4d 4e 4f 50  |ABCDEFGHIJKLMNOP|"
    );
}

#[test]
fn hexdump_short_line_pads_and_masks() {
    let expected = format!("00000000  00 41 7f  {}  |.A.{}|", " ".repeat(35), " ".repeat(13));
    assert_eq!(hexdump_line(0, &[0x00, 0x41, 0x7f]), expected);
    let line = hexdump_line(0x123456789, &[0x30; 10]);
    assert_eq!(line, format!("123456789  30 30 30 30 30 30 30 30  30 30{}  |0000000000{}|", " ".repeat(18), " ".repeat(6)));
}

#[test]
fn hexdump_splits_into_lines_of_sixteen() {
    let data = vec![0xffu8; 40];
    let lines = hexdump(&data);
    assert_eq!(lines.len(), 3);
    assert!(lines[0].starts_with("00000000  "));
    assert!(lines[1].starts_with("00000010  "));
    assert!(lines[2].starts_with("00000020  ff ff ff ff ff ff ff ff  "));
    assert!(hexdump(&[]).is_empty());
}

#[test]
fn chunk_end_is_last_byte() {
    assert_eq!(checked_end(16, 4), Some(19));
    assert_eq!(checked_end(16, 0), None);
    assert_eq!(checked_end(usize::MAX, 2), None);
    assert_eq!(checked_end(usize::MAX, 1), Some(usize::MAX));
}

use xiprfs_fae_tools::elf::{ElfFile, ElfSection, ElfSymbol};
use xiprfs_fae_tools::relocation_report::{
    count_matching_relocations, group_by_target, relocation_dump, relocation_requests, CountError,
    RelocationFilter,
};

const SHT_PROGBITS: u32 = 1;
const SHT_RELA: u32 = 4;
const SHT_REL: u32 = 9;

fn entry(offset: u32, symbol: u32, kind: u32) -> Vec<u8> {
    let mut out = offset.to_le_bytes().to_vec();
    out.extend_from_slice(&((symbol << 8) | kind).to_le_bytes());
    out
}

fn sample_bytes() -> Vec<u8> {
    let mut bytes = entry(0x10, 1, 2);
    bytes.extend(entry(0x20, 2, 10));
    bytes.extend(entry(0x30, 2, 2));
    bytes
}

fn section(name: &str, sh_type: u32, offset: u64, size: u64, entsize: u64, info: u32) -> ElfSection {
    ElfSection::new(Some(name), sh_type, 0, 0, offset, size, entsize, info, 0)
}

fn sample_elf() -> ElfFile {
    ElfFile {
        machine: 40,
        sections: vec![
            section("", 0, 0, 0, 0, 0),
            section(".text", SHT_PROGBITS, 0, 0, 0, 0),
            section(".rel.text", SHT_REL, 0, 16, 8, 1),
            section(".data", SHT_PROGBITS, 0, 0, 0, 0),
            section(".rel.data", SHT_REL, 16, 8, 8, 3),
            section(".rela.text", SHT_RELA, 0, 8, 8, 1),
            section(".rel.lost", SHT_REL, 8, 8, 8, 99),
        ],
        symbols: vec![
            ElfSymbol::new(0, None, 0, 0),
            ElfSymbol::new(1, Some("foo"), 0, 3),
            ElfSymbol::new(5, Some("bar"), 0, 1),
        ],
    }
}

#[test]
fn count_relocations_by_filter() {
    let bytes = sample_bytes();
    assert_eq!(count_matching_relocations(&bytes, 0, 24, 8, RelocationFilter::Any), Ok(3));
    assert_eq!(count_matching_relocations(&bytes, 0, 24, 8, RelocationFilter::ArmAbs32Only), Ok(2));
    assert_eq!(count_matching_relocations(&bytes, 8, 8, 8, RelocationFilter::ArmAbs32Only), Ok(0));
}

#[test]
fn count_relocations_errors_and_empty_entries() {
    let bytes = sample_bytes();
    assert_eq!(count_matching_relocations(&bytes, 0, 24, 0, RelocationFilter::Any), Ok(0));
    assert_eq!(count_matching_relocations(&bytes, 16, 16, 8, RelocationFilter::Any), Err(CountError::BeyondFile));
    assert_eq!(count_matching_relocations(&bytes, 20, 4, 4, RelocationFilter::Any), Err(CountError::TruncatedEntry));
    assert_eq!(count_matching_relocations(&bytes, u64::MAX, 2, 8, RelocationFilter::Any), Err(CountError::EndOverflow));
}

#[test]
fn requests_in_section_order_with_placeholders() {
    let elf = sample_elf();
    let bytes = sample_bytes();
    let requests = relocation_requests(&elf, &bytes, RelocationFilter::Any).unwrap();
    let seen: Vec<(String, String, &str, usize)> = requests
        .iter()
        .map(|r| (r.target_name.clone(), r.relocation_section_name.clone(), r.relocation_kind, r.entry_count))
        .collect();
    assert_eq!(
        seen,
        vec![
            (".text".to_owned(), ".rel.text".to_owned(), "REL", 2),
            (".data".to_owned(), ".rel.data".to_owned(), "REL", 1),
            (".text".to_owned(), ".rela.text".to_owned(), "RELA", 1),
            ("<invalid target section 99>".to_owned(), ".rel.lost".to_owned(), "REL", 1),
        ]
    );
}

#[test]
fn abs32_filter_drops_sections_without_matches() {
    let elf = sample_elf();
    let bytes = sample_bytes();
    let requests = relocation_requests(&elf, &bytes, RelocationFilter::ArmAbs32Only).unwrap();
    let names: Vec<&str> = requests.iter().map(|r| r.relocation_section_name.as_str()).collect();
    assert_eq!(names, vec![".rel.text", ".rel.data", ".rela.text"]);
}

#[test]
fn groups_sorted_by_target_name() {
    let elf = sample_elf();
    let bytes = sample_bytes();
    let requests = relocation_requests(&elf, &bytes, RelocationFilter::Any).unwrap();
    let groups = group_by_target(&requests);
    let targets: Vec<&str> = groups.iter().map(|g| g.target_name.as_str()).collect();
    assert_eq!(targets, vec![".data", ".text", "<invalid target section 99>"]);
    let text: Vec<&str> = groups[1].requests.iter().map(|r| r.relocation_section_name.as_str()).collect();
    assert_eq!(text, vec![".rel.text", ".rela.text"]);
    assert!(group_by_target(&Vec::new()).is_empty());
}

#[test]
fn dump_lists_abs32_entries_with_symbols() {
    let elf = sample_elf();
    let bytes = sample_bytes();
    let dump = relocation_dump(&elf, &bytes, RelocationFilter::ArmAbs32Only).unwrap();
    assert_eq!(dump.len(), 4);
    assert_eq!(dump[0].relocation_section_name, ".rel.text");
    assert_eq!(dump[0].target_name, ".text");
    assert_eq!(dump[0].relocation_kind, "REL");
    let first: Vec<(u32, u32, &str, &str)> = dump[0]
        .entries
        .iter()
        .map(|e| (e.offset, e.r_type, e.symbol_name.as_str(), e.symbol_section.as_str()))
        .collect();
    assert_eq!(first, vec![(0x10, 2, "foo", ".data")]);
    assert_eq!(dump[1].entries[0].symbol_name, "bar");
    assert_eq!(dump[1].entries[0].symbol_section, ".text");
    assert_eq!(dump[3].target_name, "<invalid target>");
    assert!(dump[3].entries.is_empty());
}

#[test]
fn dump_names_missing_symbols() {
    let mut elf = sample_elf();
    elf.symbols.truncate(1);
    let bytes = sample_bytes();
    let dump = relocation_dump(&elf, &bytes, RelocationFilter::Any).unwrap();
    assert_eq!(dump[0].entries.len(), 2);
    assert_eq!(dump[0].entries[0].symbol_name, "<no-symbol>");
    assert_eq!(dump[0].entries[0].symbol_section, "<no-section>");
    assert_eq!(dump[0].entries[1].r_type, 10);
}

use xiprfs_fae_tools::fae1::{
    self, registry, AbiVersion, OxideSeProfile, RustletProfileKind, XipfsProfile,
};
use xiprfs_fae_tools::fae_format::{
    compute_aligned_header_size, compute_aligned_header_size_for_format, concatenate_and_pad_bytearray,
    concatenate_and_pad_bytearray_for_format, fits_image, DescriptorWords, ExportedSymbols, Fae1Abi,
    OutputFormat,
};

fn symbols() -> ExportedSymbols {
    ExportedSymbols {
        start: 1,
        rom_ram_size: 8,
        rom_size: 12,
        got_size: 4,
        ram_size: 16,
    }
}

#[test]
fn legacy_selector_is_bit_for_bit_identical() {
    let startup = [1, 2, 3, 4];
    let relocations = 0u32.to_le_bytes();
    let partition = [0xAA; 24];
    let old = concatenate_and_pad_bytearray(&startup, symbols(), &relocations, 4, 32, &partition);
    let selected = concatenate_and_pad_bytearray_for_format(
        &startup,
        symbols(),
        &relocations,
        4,
        32,
        &partition,
        OutputFormat::Facade12,
    )
    .unwrap();
    assert_eq!(selected, old);
}

#[test]
fn fae1_binary_size_and_profile_match_image() {
    let startup = [1, 2, 3, 4];
    let relocations = 0u32.to_le_bytes();
    let image = concatenate_and_pad_bytearray_for_format(
        &startup,
        symbols(),
        &relocations,
        4,
        32,
        &[0xAA; 24],
        OutputFormat::Fae1 {
            isa: DescriptorWords::arm(registry::isa::arm::THUMB_2),
            abi: Fae1Abi::Xipfs,
        },
    )
    .unwrap();
    assert_eq!(
        u32::from_le_bytes(image[4..8].try_into().unwrap()) as usize,
        image.len()
    );
    assert_eq!(image.len() % 32, 0);
    let decoded = fae1::decode(&image).unwrap();
    assert_eq!(XipfsProfile::decode(&decoded.footer).unwrap().rom_size, 12);
}

#[test]
fn rustlet_fae1_uses_compact_public_profile_and_private_rt0_metadata() {
    let startup = [1, 2, 3, 4];
    let relocations = 0u32.to_le_bytes();
    let image = concatenate_and_pad_bytearray_for_format(
        &startup,
        symbols(),
        &relocations,
        4,
        1,
        &[0xAA; 24],
        OutputFormat::Fae1 {
            isa: DescriptorWords::arm(registry::isa::arm::THUMB_2),
            abi: Fae1Abi::Rustlet {
                kind: RustletProfileKind::Application,
                minimum_version: AbiVersion {
                    major: 1,
                    minor: 0,
                    patch: 0,
                    revision: 0,
                },
                stack_size: 2048,
            },
        },
    )
    .unwrap();
    let decoded = fae1::decode(&image).unwrap();
    assert_eq!(decoded.footer_size, 28);
    assert_eq!(decoded.footer.abi.encode(), 0xAC1D_A992);
    let profile = OxideSeProfile::decode(&decoded.footer).unwrap();
    assert_eq!(profile.writable_ram_size, 32);
    assert_eq!(profile.stack_size, 2048);
    assert_eq!(u32::from_le_bytes(image[8..12].try_into().unwrap()), 16);
    assert_eq!(u32::from_le_bytes(image[24..28].try_into().unwrap()), 1);
}

#[test]
fn rustlet_alias_and_explicit_descriptors_are_identical() {
    let startup = [1, 2, 3, 4];
    let relocations = 0u32.to_le_bytes();
    let isa = DescriptorWords::arm(registry::isa::arm::THUMB_2);
    let common = |abi| {
        concatenate_and_pad_bytearray_for_format(
            &startup,
            symbols(),
            &relocations,
            4,
            32,
            &[0xAA; 24],
            OutputFormat::Fae1 { isa, abi },
        )
        .unwrap()
    };
    let alias = common(Fae1Abi::Rustlet {
        kind: RustletProfileKind::Application,
        minimum_version: AbiVersion {
            major: 1,
            minor: 0,
            patch: 0,
            revision: 0,
        },
        stack_size: 2048,
    });
    let explicit = common(Fae1Abi::Explicit(
        DescriptorWords::new(0xAC1D_A992, &[0xA990_1000, 0x0001_0040]).unwrap(),
    ));

    assert_eq!(alias, explicit);
}

#[test]
fn partition_lies_at_the_aligned_header_size_for_each_format() {
    let startup = [1, 2, 3, 4, 5];
    let relocations = 0u32.to_le_bytes();
    let partition = [0xAB; 12];
    let rustlet = Fae1Abi::Rustlet {
        kind: RustletProfileKind::Application,
        minimum_version: AbiVersion { major: 1, minor: 0, patch: 0, revision: 0 },
        stack_size: 2048,
    };
    let isa = DescriptorWords::arm(registry::isa::arm::THUMB_2);
    let formats = [
        OutputFormat::Facade12,
        OutputFormat::Fae1 { isa, abi: Fae1Abi::Xipfs },
        OutputFormat::Fae1 { isa, abi: rustlet },
    ];
    for (k, format) in formats.into_iter().enumerate() {
        let at = compute_aligned_header_size_for_format(&startup, &relocations, 8, format);
        let h = startup.len() + 4 + relocations.len();
        if k < 2 {
            assert_eq!(at, compute_aligned_header_size(&startup, &relocations, 8));
            assert_eq!(at, 24);
        } else {
            assert_eq!(at, (h + 24 + 7) & !7);
            assert_eq!(at, 40);
        }
        let image = concatenate_and_pad_bytearray_for_format(
            &startup,
            symbols(),
            &relocations,
            8,
            32,
            &partition,
            format,
        )
        .unwrap();
        assert_eq!(&image[at..at + partition.len()], &partition);
    }
}

#[test]
fn images_fit_up_to_the_address_arithmetic() {
    let startup = [1, 2, 3, 4];
    let relocations = 0u32.to_le_bytes();
    let partition = [0xAA; 24];
    let isa = DescriptorWords::arm(registry::isa::arm::THUMB_2);
    for format in [OutputFormat::Facade12, OutputFormat::Fae1 { isa, abi: Fae1Abi::Xipfs }] {
        assert!(fits_image(&startup, symbols(), &relocations, 4, 0x1000_0000, &partition, format));
        assert!(fits_image(&startup, symbols(), &relocations, 0x1000_0000, 32, &partition, format));
        assert!(!fits_image(&startup, symbols(), &relocations, 4, usize::MAX, &partition, format));
        assert!(!fits_image(&startup, symbols(), &relocations, usize::MAX, 32, &partition, format));
    }
}

use xiprfs_fae_tools::fae1::registry;
use xiprfs_fae_tools::fae1::{
    decode, decode_riscv_isa, encode_riscv_isa, read_word_from_end, AbiVersion, Error, Footer,
    OxideSeProfile, RustletProfileKind, XipfsProfile, MAGIC_AND_VERSION,
};

fn arm_xipfs_footer() -> (Footer, XipfsProfile) {
    let profile = XipfsProfile {
        ram_size: 12,
        got_size: 8,
        rom_size: 100,
        rom_ram_size: 20,
        entrypoint_offset: 5,
        startup_code_size: 64,
    };
    let footer = Footer::new(
        registry::isa::ARM,
        registry::isa::arm::THUMB_2,
        0,
        vec![],
        vec![],
        registry::abi::XIPFS,
        profile.words(),
    )
    .unwrap();
    (footer, profile)
}

#[test]
fn xipfs_round_trip_and_wire_order() {
    let (footer, profile) = arm_xipfs_footer();
    let mut image = b"payload".to_vec();
    footer.append_to(&mut image).unwrap();
    let decoded = decode(&image).unwrap();
    assert_eq!(decoded.footer_size, 44);
    assert_eq!(decoded.footer, footer);
    assert_eq!(XipfsProfile::decode(&decoded.footer).unwrap(), profile);
    assert_eq!(&image[image.len() - 4..], &MAGIC_AND_VERSION.to_le_bytes());
    assert_eq!(read_word_from_end(&image, 24).unwrap(), 12);
    assert_eq!(read_word_from_end(&image, 44).unwrap(), 64);
}

#[test]
fn crc_covers_payload_fixed_and_additional_words() {
    let (footer, _) = arm_xipfs_footer();
    let mut image = b"payload".to_vec();
    footer.append_to(&mut image).unwrap();
    for index in [0, image.len() - 4, image.len() - 24, image.len() - 44] {
        let mut corrupted = image.clone();
        corrupted[index] ^= 0x80;
        assert!(matches!(
            decode(&corrupted),
            Err(Error::CrcMismatch { .. }) | Err(Error::InvalidMagic(_))
        ));
    }
}

#[test]
fn rejects_truncated_and_oversized_extensions() {
    assert_eq!(decode(&[0; 12]), Err(Error::Truncated));
    assert!(matches!(
        Footer::new(1, 1, 0, vec![], vec![0; 16], 1, vec![]),
        Err(Error::TooManyExtraWords { .. })
    ));
}

#[test]
fn rustlet_profiles_round_trip() {
    for kind in [
        RustletProfileKind::Application,
        RustletProfileKind::SecurityDomain,
    ] {
        let profile = OxideSeProfile {
            kind,
            minimum_version: AbiVersion {
                major: 1,
                minor: 2,
                patch: 3,
                revision: 4,
            },
            writable_ram_size: 1024,
            stack_size: 513,
        };
        let footer = Footer::new(
            1,
            2,
            0,
            vec![],
            vec![],
            registry::abi::OXIDE_SE,
            profile.words().unwrap(),
        )
        .unwrap();
        assert_eq!(
            OxideSeProfile::decode(&footer).unwrap(),
            OxideSeProfile {
                stack_size: 544,
                ..profile
            }
        );
    }
}

#[test]
fn rustlet_profile_rejects_memory_larger_than_encodable_limit() {
    let profile = OxideSeProfile {
        kind: RustletProfileKind::Application,
        minimum_version: AbiVersion {
            major: 1,
            minor: 0,
            patch: 0,
            revision: 0,
        },
        writable_ram_size: OxideSeProfile::MAX_MEMORY_REQUIREMENT + 1,
        stack_size: 2048,
    };
    assert!(matches!(
        profile.words(),
        Err(Error::RustletMemoryRequirementTooLarge {
            kind: "writable RAM",
            ..
        })
    ));
}

#[test]
fn riscv_canonical_text_round_trip() {
    let words = encode_riscv_isa("rv32imac_zicsr").unwrap();
    assert_eq!(decode_riscv_isa(&words).unwrap(), "rv32imac_zicsr");
    assert!(encode_riscv_isa("RV32I").is_err());
    assert!(encode_riscv_isa(&format!("rv32{}", "i".repeat(60))).is_err());
}

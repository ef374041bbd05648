use xiprfs_fae_tools::elf::{
    decode_arm_add_pc_self, decode_arm_ldr_pc_self, decode_thumb_add_register,
    encode_thumb_add_pc, encode_thumb_add_sb, find_thumb_add_pc_for_register,
};

#[test]
fn encode_thumb_add_sb_supports_low_registers() {
    assert_eq!(u16::from_le_bytes(encode_thumb_add_sb(4)), 0x444c);
}

#[test]
fn encode_thumb_add_sb_supports_high_registers() {
    assert_eq!(u16::from_le_bytes(encode_thumb_add_sb(12)), 0x44cc);
}

#[test]
fn encode_thumb_add_pc_supports_high_registers() {
    assert_eq!(u16::from_le_bytes(encode_thumb_add_pc(12)), 0x44fc);
}

#[test]
fn decode_thumb_add_register_handles_high_register_pc_base() {
    assert_eq!(decode_thumb_add_register(0x44fc), Some((12, 15)));
}

#[test]
fn thumb_add_pc_search_skips_interleaved_materializations() {
    let mut bytes = Vec::new();
    bytes.extend_from_slice(&encode_thumb_add_pc(0));
    bytes.extend_from_slice(&encode_thumb_add_pc(2));
    assert_eq!(
        find_thumb_add_pc_for_register(&bytes, 0, bytes.len(), 2).unwrap(),
        Some(2)
    );
}

#[test]
fn thumb_add_pc_search_rejects_ambiguous_matches() {
    let mut bytes = Vec::new();
    bytes.extend_from_slice(&encode_thumb_add_pc(2));
    bytes.extend_from_slice(&encode_thumb_add_pc(2));
    assert!(find_thumb_add_pc_for_register(&bytes, 0, bytes.len(), 2).is_err());
}

#[test]
fn decode_arm_pc_relative_materialization_patterns() {
    assert_eq!(decode_arm_add_pc_self(0xe08ff00f), Some((0xe, 15)));
    assert_eq!(decode_arm_ldr_pc_self(0xe79ff00f), Some((0xe, 15)));
}

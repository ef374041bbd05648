use xiprfs_fae_tools::gdbinit::{append_memory_layout_prelude, GdbMemoryLayout};

#[test]
fn relocatable_gdbinit_uses_r9_for_ram_base() {
    let mut out = String::new();
    append_memory_layout_prelude(
        &mut out,
        GdbMemoryLayout::Relocatable {
            flash_base_hint: None,
        },
    );

    assert!(out.contains("set $ram_base = $r9"));
    assert!(out.contains("value held in r9"));
}

#[test]
fn fixed_gdbinit_uses_known_firmware_bases() {
    let mut out = String::new();
    append_memory_layout_prelude(
        &mut out,
        GdbMemoryLayout::Fixed {
            flash_base: 0x0800_0000,
            ram_base: 0x2000_0000,
        },
    );

    assert!(out.contains("set $flash_base = 0x08000000"));
    assert!(out.contains("set $ram_base = 0x20000000"));
}

use xiprfs_fae_tools::link_script::{classify_sections, render_link_script, LinkPlan, SectionDescriptor};

#[test]
fn classify_sections_moves_alloc_abs32_metadata_to_rom_ram() {
    let plan = classify_sections(&[
        SectionDescriptor {
            name: ".text.foo".to_owned(),
            is_alloc: true,
            is_writable: false,
            is_executable: true,
            is_nobits: false,
            has_abs32: false,
        },
        SectionDescriptor {
            name: ".rodata..Lanon.1".to_owned(),
            is_alloc: true,
            is_writable: false,
            is_executable: false,
            is_nobits: false,
            has_abs32: true,
        },
        SectionDescriptor {
            name: ".rodata.payload".to_owned(),
            is_alloc: true,
            is_writable: false,
            is_executable: false,
            is_nobits: false,
            has_abs32: false,
        },
        SectionDescriptor {
            name: ".data.foo".to_owned(),
            is_alloc: true,
            is_writable: true,
            is_executable: false,
            is_nobits: false,
            has_abs32: false,
        },
        SectionDescriptor {
            name: ".bss.foo".to_owned(),
            is_alloc: true,
            is_writable: true,
            is_executable: false,
            is_nobits: true,
            has_abs32: false,
        },
        SectionDescriptor {
            name: ".debug_info".to_owned(),
            is_alloc: false,
            is_writable: false,
            is_executable: false,
            is_nobits: false,
            has_abs32: true,
        },
    ]);

    assert_eq!(plan.rom_sections, vec![".text.foo", ".rodata.payload"]);
    assert_eq!(plan.rom_ram_sections, vec![".rodata..Lanon.1", ".data.foo"]);
    assert_eq!(plan.ram_sections, vec![".bss.foo"]);
    assert_eq!(plan.alloc_abs32_sections, vec![".rodata..Lanon.1"]);
    assert_eq!(plan.non_alloc_abs32_sections, vec![".debug_info"]);
}

#[test]
fn classify_sections_moves_all_readonly_abs32_metadata_to_rom_ram() {
    let plan = classify_sections(&[
        SectionDescriptor {
            name: ".rodata.meta".to_owned(),
            is_alloc: true,
            is_writable: false,
            is_executable: false,
            is_nobits: false,
            has_abs32: true,
        },
        SectionDescriptor {
            name: ".rodata.bridge".to_owned(),
            is_alloc: true,
            is_writable: false,
            is_executable: false,
            is_nobits: false,
            has_abs32: true,
        },
        SectionDescriptor {
            name: ".data.foo".to_owned(),
            is_alloc: true,
            is_writable: true,
            is_executable: false,
            is_nobits: false,
            has_abs32: false,
        },
    ]);

    assert_eq!(plan.rom_sections, Vec::<String>::new());
    assert_eq!(
        plan.rom_ram_sections,
        vec![".rodata.meta", ".rodata.bridge", ".data.foo"]
    );
    assert_eq!(
        plan.alloc_abs32_sections,
        vec![".rodata.meta", ".rodata.bridge"]
    );
}

#[test]
fn render_link_script_mentions_abs32_sections() {
    let text = render_link_script(&LinkPlan {
        rom_sections: vec![".text.foo".to_owned()],
        got_sections: vec![".got".to_owned()],
        rom_ram_sections: vec![".rodata..Lanon.1".to_owned(), ".data.foo".to_owned()],
        ram_sections: vec![".bss.foo".to_owned()],
        discard_sections: vec![".ARM.exidx.foo".to_owned()],
        alloc_abs32_sections: vec![".rodata..Lanon.1".to_owned()],
        non_alloc_abs32_sections: vec![".debug_info".to_owned()],
    });

    assert!(text.contains("Allocatable sections receiving R_ARM_ABS32 relocations"));
    assert!(text.contains("*(.rodata..Lanon.1)"));
    assert!(text.contains("*(.data.foo)"));
    assert!(text.contains("*(.bss.foo)"));
    assert!(text.contains("*(COMMON)"));
}

#[test]
fn render_link_script_groups_runtime_ram_sections_in_rw_segment() {
    let text = render_link_script(&LinkPlan {
        rom_sections: vec![".text".to_owned()],
        got_sections: vec![".got".to_owned()],
        rom_ram_sections: vec![".rodata.descriptor".to_owned()],
        ram_sections: vec![".bss.heap".to_owned()],
        discard_sections: Vec::new(),
        alloc_abs32_sections: Vec::new(),
        non_alloc_abs32_sections: Vec::new(),
    });

    assert!(text.contains("PHDRS"));
    assert!(text.contains("rx PT_LOAD FLAGS(5);"));
    assert!(text.contains("rw PT_LOAD FLAGS(6);"));
    assert!(text.contains("__rom_end = .;\n    } :rx"));
    assert!(text.contains("__got_end = .;\n    } :rw"));
    assert!(text.contains("__rom_ram_end = .;\n    } :rw"));
    assert!(text.contains("__ram_end = .;\n    } :rw"));
}

#[test]
fn render_link_script_uses_exact_base_sections() {
    let text = render_link_script(&LinkPlan {
        rom_sections: vec![".text".to_owned()],
        got_sections: vec![".got".to_owned()],
        rom_ram_sections: vec![".rodata".to_owned(), ".data".to_owned()],
        ram_sections: vec![".bss".to_owned()],
        discard_sections: vec![".ARM.exidx".to_owned(), ".ARM.extab".to_owned()],
        alloc_abs32_sections: vec![".rodata".to_owned()],
        non_alloc_abs32_sections: Vec::new(),
    });

    assert!(text.contains("*(.text)"));
    assert!(text.contains("*(.got)"));
    assert!(text.contains("*(.rodata)"));
    assert!(text.contains("*(.data)"));
    assert!(text.contains("*(.bss)"));
    assert!(text.contains("/DISCARD/"));
    assert!(text.contains("*(.ARM.exidx)"));
}

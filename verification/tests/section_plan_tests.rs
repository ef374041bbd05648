use xiprfs_fae_tools::section_plan::{PlanBucket, RustInputSectionPlan, SectionPlanError};

#[test]
fn section_plan_roundtrip() {
    let plan = RustInputSectionPlan {
        rom_sections: vec![".text.foo".to_owned()],
        got_sections: vec![".got".to_owned()],
        rom_ram_sections: vec![".rodata..Lanon.1".to_owned()],
        ram_sections: vec![".bss.foo".to_owned()],
        discard_sections: vec![".ARM.exidx.foo".to_owned()],
        alloc_abs32_sections: vec![".rodata..Lanon.1".to_owned()],
        nonalloc_abs32_sections: vec![".debug_info".to_owned()],
    };

    let text = plan.to_text();
    let decoded = RustInputSectionPlan::parse(&text).unwrap();
    assert_eq!(decoded, plan);
}

#[test]
fn runtime_bucket_overrides_previous_rom_bucket() {
    let mut plan = RustInputSectionPlan::default();

    plan.push(PlanBucket::Rom, ".rodata..Lanon.1");
    plan.push(PlanBucket::AllocAbs32, ".rodata..Lanon.1");
    plan.push(PlanBucket::RomRam, ".rodata..Lanon.1");
    plan.push(PlanBucket::Rom, ".rodata..Lanon.1");

    assert!(plan.rom_sections.is_empty());
    assert_eq!(plan.rom_ram_sections, vec![".rodata..Lanon.1"]);
    assert_eq!(plan.alloc_abs32_sections, vec![".rodata..Lanon.1"]);

    let decoded = RustInputSectionPlan::parse(&plan.to_text()).unwrap();
    assert_eq!(decoded, plan);
}

#[test]
fn readonly_abs32_moves_to_runtime_even_when_it_only_points_to_rom() {
    let mut plan = RustInputSectionPlan::default();
    plan.push(PlanBucket::AllocAbs32, ".rodata..Lanon.1");
    plan.push(PlanBucket::RomRam, ".rodata..Lanon.1");
    assert!(plan.rom_sections.is_empty());
    assert_eq!(plan.rom_ram_sections, vec![".rodata..Lanon.1"]);
    assert_eq!(plan.alloc_abs32_sections, vec![".rodata..Lanon.1"]);
}

#[test]
fn section_plan_text_errors_name_the_line() {
    let text = "# plan\n\nrom\t.text\nno-tab-here\n";
    assert_eq!(
        RustInputSectionPlan::parse(text),
        Err(SectionPlanError::InvalidLine { line: 4, text: "no-tab-here".to_owned() })
    );
    assert_eq!(
        RustInputSectionPlan::parse("  heap\t.bss\n"),
        Err(SectionPlanError::InvalidBucket { line: 1, bucket: "heap".to_owned() })
    );
}

#[test]
fn section_plan_text_skips_comments_and_trims() {
    let plan = RustInputSectionPlan::parse("# c\n  ram\t.bss.x  \r\n\n").unwrap();
    assert_eq!(plan.ram_sections, vec![".bss.x"]);
    assert!(plan.rom_sections.is_empty());
}

#[test]
fn section_plan_merge_keeps_order_and_uniqueness() {
    let mut a = RustInputSectionPlan::default();
    a.push(PlanBucket::Rom, ".text.a");
    a.push(PlanBucket::Got, ".got");
    let mut b = RustInputSectionPlan::default();
    b.push(PlanBucket::Rom, ".text.b");
    b.push(PlanBucket::Rom, ".text.a");
    b.push(PlanBucket::Got, ".got");
    a.merge(&b);
    assert_eq!(a.rom_sections, vec![".text.a", ".text.b"]);
    assert_eq!(a.got_sections, vec![".got"]);
    let text = a.to_text();
    assert_eq!(RustInputSectionPlan::parse(&text).unwrap(), a);
}

#[test]
fn section_plan_merge_twice_changes_nothing_and_moves_runtime_out_of_rom() {
    let mut a = RustInputSectionPlan::default();
    a.push(PlanBucket::Rom, ".text.a");
    a.push(PlanBucket::Rom, ".data.x");
    a.push(PlanBucket::Ram, ".bss.y");
    let mut b = RustInputSectionPlan::default();
    b.push(PlanBucket::Rom, ".bss.y");
    b.push(PlanBucket::Rom, ".text.c");
    b.push(PlanBucket::RomRam, ".data.x");
    b.push(PlanBucket::NonAllocAbs32, ".debug_info");
    a.merge(&b);
    assert_eq!(a.rom_sections, vec![".text.a", ".text.c"]);
    assert_eq!(a.rom_ram_sections, vec![".data.x"]);
    assert_eq!(a.ram_sections, vec![".bss.y"]);
    assert_eq!(a.nonalloc_abs32_sections, vec![".debug_info"]);
    let once = a.clone();
    a.merge(&b);
    assert_eq!(a, once);
}

use xiprfs_fae_tools::link_inputs::collect_linker_input_files;

fn strings(items: &[&str]) -> Vec<String> {
    items.iter().map(|s| s.to_string()).collect()
}

#[test]
fn linker_inputs_are_existing_objects_and_archives_once() {
    let args = strings(&[
        "-o",
        "out.o",
        "a.o",
        "-L",
        "libdir.a",
        "lib.rlib",
        "--gc-sections",
        "missing.o",
        "a.o",
        "notes.txt",
        "libc.a",
        "-T",
        "script.o",
    ]);
    let existing = strings(&["out.o", "a.o", "libdir.a", "lib.rlib", "notes.txt", "libc.a", "script.o"]);
    assert_eq!(
        collect_linker_input_files(&args, &existing),
        strings(&["a.o", "lib.rlib", "libc.a"])
    );
}

#[test]
fn linker_inputs_skip_values_of_long_options() {
    let args = strings(&["--script", "x.o", "--Map", "m.a", "--entry", "e.o", "y.o"]);
    let existing = strings(&["x.o", "m.a", "e.o", "y.o"]);
    assert_eq!(collect_linker_input_files(&args, &existing), strings(&["y.o"]));
    assert!(collect_linker_input_files(&[], &[]).is_empty());
}

# xiprfs-fae-tools

Host tools and runtime pieces for FAE executable images (the legacy
`0xFACADE12` footer and the FAE 1.0 `0xFAEC0D10` footer), written in Verus:
the library under `src/` is verified, the programs under `app/` do the file,
process and terminal work around it.

## Library (`src/`)

- `fae1`, `fae_format`, `common`, `constants`: the footers, descriptors and
  profiles, the image layout and its padding, little-endian words.
- `elf`: the model of a parsed ELF file (read by `goblin`), symbol and
  section export, relocation tables, the checks on relocations and the
  rewriting of executable references to SB-relative form.
- `section_plan`, `plan_round_trip`, `link_script`, `link_inputs`: the
  section plan gathered from a link's inputs (archives read by `object`),
  its text form, and the linker script made from it; `plan_merge`: what
  merging plans keeps.
- `build_cli`, `build_args`, `build_image`, `gdbinit`: the image builder's
  command line, startup selection, output format, partition and image, and
  its GDB script.
- `inspect`, `read_cli`: the image reader's integrity check, options and
  hexdump lines.
- `relocation_report`: which sections relocation sections apply to.
- `rust_app`: the Rust application builder's command line, compiler flags,
  manifest reading and the image-builder command it runs.
- `command_read_back`: the image builder reads that command back as the
  settings it was built from.
- `rt0`, `xipfs_ctx`: the legacy startup code's load of an image into RAM.
- `allocator`, `cstr_buf`: the runtime's first-fit heap and C string writer
  (which writes into the caller's buffer and ends with a view of it).

## Programs (`app/`)

One binary; its first argument names the tool: `build_fae`,
`build_fae_rust`, `read_fae`, `generate_fae_rust_ld`, `check_elf_rel`. Run
by cargo as a linker during `build_fae_rust`'s discovery build, it acts as
the link wrapper that records the section plan.

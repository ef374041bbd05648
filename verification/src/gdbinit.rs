//! The GDB start-up script that loads the symbols of a FAE image at the
//! addresses where the image and its relocated data lie.

use vstd::prelude::*;

use crate::common::{decimal, hex8, push_decimal, push_hex8};
use crate::constants;
use crate::fae_format::ExportedSymbols;

verus! {

broadcast use vstd::string::group_string_axioms;

#[derive(Debug, Clone, Copy, PartialEq, Eq)]
pub enum GdbMemoryLayout {
    Relocatable { flash_base_hint: Option<u32> },
    Fixed { flash_base: u32, ram_base: u32 },
}

pub const RELOCATABLE_FLASH_COMMENT: &'static str = "# Set this to the load base of the startup blob in ROM/flash.\n";

pub const RELOCATABLE_RAM_COMMENT: &'static str = "# Set this to the relocated data base of the loaded image.\n# In the current ARM convention, this is the value held in r9.\nset $ram_base = $r9\n";

pub const FIXED_COMMENT: &'static str = "# Fixed firmware memory map selected from the bundled board profile.\n";

/// The lines that set `$flash_base` and `$ram_base`.
pub open spec fn memory_layout_prelude(layout: GdbMemoryLayout) -> Seq<char> {
    match layout {
        GdbMemoryLayout::Relocatable { flash_base_hint } => RELOCATABLE_FLASH_COMMENT@
            + "set $flash_base = 0x"@ + (match flash_base_hint {
            Some(h) => hex8(h),
            None => "00000000"@,
        }) + "\n"@ + RELOCATABLE_RAM_COMMENT@,
        GdbMemoryLayout::Fixed { flash_base, ram_base } => FIXED_COMMENT@ + "set $flash_base = 0x"@
            + hex8(flash_base) + "\n"@ + "set $ram_base = 0x"@ + hex8(ram_base) + "\n"@,
    }
}

/// Appends the lines that set `$flash_base` and `$ram_base`: from `r9` and a
/// hint for a relocatable image, or the board's fixed bases.
pub fn append_memory_layout_prelude(out: &mut String, memory_layout: GdbMemoryLayout)
    ensures
        final(out)@ == old(out)@ + memory_layout_prelude(memory_layout),
{
    match memory_layout {
        GdbMemoryLayout::Relocatable { flash_base_hint } => {
            out.append(RELOCATABLE_FLASH_COMMENT);
            out.append("set $flash_base = 0x");
            match flash_base_hint {
                Some(h) => push_hex8(out, h),
                None => out.append("00000000"),
            }
            out.append("\n");
            out.append(RELOCATABLE_RAM_COMMENT);
        },
        GdbMemoryLayout::Fixed { flash_base, ram_base } => {
            out.append(FIXED_COMMENT);
            out.append("set $flash_base = 0x");
            push_hex8(out, flash_base);
            out.append("\n");
            out.append("set $ram_base = 0x");
            push_hex8(out, ram_base);
            out.append("\n");
        },
    }
    assert(out@ =~= old(out)@ + memory_layout_prelude(memory_layout));
}

/// The sums the script prints stay within `u32`.
pub open spec fn gdbinit_fits(metadata_size: usize, symbols: Option<ExportedSymbols>) -> bool {
    match symbols {
        Some(s) => (metadata_size as u32) + s.rom_size + s.got_size + s.rom_ram_size <= u32::MAX
            && s.got_size + s.rom_ram_size + s.ram_size <= u32::MAX,
        None => true,
    }
}

/// Whether the sums the script prints stay within `u32`.
pub fn gdbinit_sizes_fit(metadata_size: usize, symbols: Option<ExportedSymbols>) -> (r: bool)
    ensures
        r == gdbinit_fits(metadata_size, symbols),
{
    match symbols {
        Some(s) => {
            let flash: u64 = (metadata_size as u32) as u64 + s.rom_size as u64 + s.got_size as u64
                + s.rom_ram_size as u64;
            let ram: u64 = s.got_size as u64 + s.rom_ram_size as u64 + s.ram_size as u64;
            flash <= 0xFFFF_FFFF && ram <= 0xFFFF_FFFF
        },
        None => true,
    }
}

/// A `prefix value` line.
pub open spec fn assign_line(prefix: Seq<char>, value: nat) -> Seq<char> {
    prefix + decimal(value) + "\n"@
}

fn append_assign_line(data: &mut String, prefix: &str, value: u64)
    ensures
        final(data)@ == old(data)@ + assign_line(prefix@, value as nat),
{
    data.append(prefix);
    push_decimal(data, value);
    data.append("\n");
    assert(data@ =~= old(data)@ + assign_line(prefix@, value as nat));
}

/// The lines that load the application's symbols and bound its memory.
pub open spec fn application_lines(app_path: Seq<char>, metadata_size: usize, s: ExportedSymbols) -> Seq<char> {
    assign_line("set $text = $startup_text + "@, metadata_size as nat) + assign_line(
        "set $got = $text + "@,
        s.rom_size as nat,
    ) + assign_line("set $data_image = $got + "@, s.got_size as nat)
        + "set $rel_got = $ram_base\n"@ + assign_line("set $rel_data = $rel_got + "@, s.got_size as nat)
        + assign_line("set $rel_ram_tail = $rel_data + "@, s.rom_ram_size as nat) + (
    "add-symbol-file "@ + app_path
        + " -s .text $text -s .got $rel_got -s .rom.ram $rel_data -s .ram $rel_ram_tail\n"@)
        + assign_line(
        "set $flash_end = $flash_base + "@,
        ((metadata_size as u32) + s.rom_size + s.got_size + s.rom_ram_size) as nat,
    ) + assign_line("set $ram_end = $ram_base + "@, (s.got_size + s.rom_ram_size + s.ram_size) as nat)
}

/// The GDB script: the memory layout, the startup code's symbols at the
/// flash base, and, for an application, its symbols at the text, GOT and
/// data addresses; otherwise the startup code's own bounds.
pub open spec fn gdbinit_script(
    startup_path: Seq<char>,
    app_path: Option<Seq<char>>,
    metadata_size: usize,
    symbols: Option<ExportedSymbols>,
    ram_size: u32,
    layout: GdbMemoryLayout,
) -> Seq<char> {
    memory_layout_prelude(layout) + "set $startup_text = $flash_base\n"@ + "add-symbol-file "@
        + startup_path + " -s "@ + constants::STARTUP_SECTION_NAME@ + " $startup_text\n"@ + (
    match (app_path, symbols) {
        (Some(p), Some(s)) => application_lines(p, metadata_size, s),
        _ => "set $flash_end = $flash_base + "@ + decimal((metadata_size as u32) as nat) + "\n"@
            + "set $ram_end = $ram_base + "@ + decimal(ram_size as nat) + "\n"@,
    })
}

fn append_application_lines(data: &mut String, app: &str, metadata_size: usize, s: ExportedSymbols)
    requires
        gdbinit_fits(metadata_size, Some(s)),
    ensures
        final(data)@ == old(data)@ + application_lines(app@, metadata_size, s),
{
    let ghost d0 = data@;
    append_assign_line(data, "set $text = $startup_text + ", metadata_size as u64);
    append_assign_line(data, "set $got = $text + ", s.rom_size as u64);
    append_assign_line(data, "set $data_image = $got + ", s.got_size as u64);
    data.append("set $rel_got = $ram_base\n");
    append_assign_line(data, "set $rel_data = $rel_got + ", s.got_size as u64);
    append_assign_line(data, "set $rel_ram_tail = $rel_data + ", s.rom_ram_size as u64);
    let ghost d1 = data@;
    data.append("add-symbol-file ");
    data.append(app);
    data.append(" -s .text $text -s .got $rel_got -s .rom.ram $rel_data -s .ram $rel_ram_tail\n");
    let ghost d2 = data@;
    append_assign_line(
        data,
        "set $flash_end = $flash_base + ",
        ((metadata_size as u32) + s.rom_size + s.got_size + s.rom_ram_size) as u64,
    );
    append_assign_line(
        data,
        "set $ram_end = $ram_base + ",
        (s.got_size + s.rom_ram_size + s.ram_size) as u64,
    );
    assert(data@ =~= old(data)@ + application_lines(app@, metadata_size, s));
}

/// The text of the GDB script, the symbol file paths being given relative to
/// the script's directory.
pub fn gdbinit_text(
    startup_symbol_path: &str,
    app_symbol_path: Option<&str>,
    metadata_size: usize,
    exported_symbols: Option<ExportedSymbols>,
    ram_size: u32,
    memory_layout: GdbMemoryLayout,
) -> (r: String)
    requires
        gdbinit_fits(metadata_size, exported_symbols),
    ensures
        r@ == gdbinit_script(
            startup_symbol_path@,
            match app_symbol_path {
                Some(p) => Some(p@),
                None => None,
            },
            metadata_size,
            exported_symbols,
            ram_size,
            memory_layout,
        ),
{
    let mut data = String::new();
    append_memory_layout_prelude(&mut data, memory_layout);
    data.append("set $startup_text = $flash_base\n");
    data.append("add-symbol-file ");
    data.append(startup_symbol_path);
    data.append(" -s ");
    data.append(constants::STARTUP_SECTION_NAME);
    data.append(" $startup_text\n");
    let ghost head = data@;
    match (app_symbol_path, exported_symbols) {
        (Some(app), Some(s)) => {
            append_application_lines(&mut data, app, metadata_size, s);
        },
        _ => {
            data.append("set $flash_end = $flash_base + ");
            push_decimal(&mut data, (metadata_size as u32) as u64);
            data.append("\n");
            data.append("set $ram_end = $ram_base + ");
            push_decimal(&mut data, ram_size as u64);
            data.append("\n");
        },
    }
    assert(data@ =~= gdbinit_script(
        startup_symbol_path@,
        match app_symbol_path {
            Some(p) => Some(p@),
            None => None,
        },
        metadata_size,
        exported_symbols,
        ram_size,
        memory_layout,
    ));
    data
}

/// `piece` stands somewhere in `text`.
pub open spec fn holds_text(text: Seq<char>, piece: Seq<char>) -> bool {
    exists|k: int| 0 <= k && k + piece.len() <= text.len() && #[trigger] text.subrange(k, k + piece.len()) == piece
}

/// A text holds itself.
pub proof fn lemma_holds_self(piece: Seq<char>)
    ensures
        holds_text(piece, piece),
{
    let k: int = 0;
    assert(piece.subrange(k, k + piece.len()) =~= piece);
}

/// What a text holds, it holds with more after it.
pub proof fn lemma_holds_left(x: Seq<char>, y: Seq<char>, piece: Seq<char>)
    requires
        holds_text(x, piece),
    ensures
        holds_text(x + y, piece),
{
    let k = choose|k: int| 0 <= k && k + piece.len() <= x.len() && #[trigger] x.subrange(k, k + piece.len()) == piece;
    assert((x + y).subrange(k, k + piece.len()) =~= x.subrange(k, k + piece.len()));
}

/// What a text holds, it holds with more before it.
pub proof fn lemma_holds_right(x: Seq<char>, y: Seq<char>, piece: Seq<char>)
    requires
        holds_text(y, piece),
    ensures
        holds_text(x + y, piece),
{
    let k = choose|k: int| 0 <= k && k + piece.len() <= y.len() && #[trigger] y.subrange(k, k + piece.len()) == piece;
    assert((x + y).subrange(x.len() + k, x.len() + k + piece.len()) =~= y.subrange(k, k + piece.len()));
}

proof fn lemma_holds_along(cs: Seq<Seq<char>>, ls: Seq<Seq<char>>, piece: Seq<char>, i: int, j: int)
    requires
        0 <= i <= j < cs.len(),
        cs.len() == ls.len(),
        forall|k: int| 0 < k < cs.len() ==> #[trigger] cs[k] == cs[k - 1] + ls[k],
        holds_text(cs[i], piece),
    ensures
        holds_text(cs[j], piece),
    decreases j - i,
{
    if j > i {
        lemma_holds_along(cs, ls, piece, i, j - 1);
        assert(cs[j] == cs[j - 1] + ls[j]);
        lemma_holds_left(cs[j - 1], ls[j], piece);
    }
}

/// The script for an application sets each address from the one before by
/// the right size: the text after the metadata, the GOT image after the
/// ROM, the data image after the GOT, the relocated data after the
/// relocated GOT by the GOT's size, the RAM tail after the relocated data by
/// the `.rom.ram` size; it loads the application's symbols at those
/// addresses, and bounds flash and RAM by the sums of the sizes.
pub proof fn lemma_application_script_addresses(
    startup_path: Seq<char>,
    app_path: Seq<char>,
    metadata_size: usize,
    s: ExportedSymbols,
    ram_size: u32,
    layout: GdbMemoryLayout,
)
    requires
        gdbinit_fits(metadata_size, Some(s)),
    ensures
        ({
            let script = gdbinit_script(startup_path, Some(app_path), metadata_size, Some(s), ram_size, layout);
            &&& holds_text(script, "set $text = $startup_text + "@ + decimal(metadata_size as nat) + "\n"@)
            &&& holds_text(script, "set $got = $text + "@ + decimal(s.rom_size as nat) + "\n"@)
            &&& holds_text(script, "set $data_image = $got + "@ + decimal(s.got_size as nat) + "\n"@)
            &&& holds_text(script, "set $rel_got = $ram_base\n"@)
            &&& holds_text(script, "set $rel_data = $rel_got + "@ + decimal(s.got_size as nat) + "\n"@)
            &&& holds_text(script, "set $rel_ram_tail = $rel_data + "@ + decimal(s.rom_ram_size as nat) + "\n"@)
            &&& holds_text(
                script,
                "add-symbol-file "@ + app_path
                    + " -s .text $text -s .got $rel_got -s .rom.ram $rel_data -s .ram $rel_ram_tail\n"@,
            )
            &&& holds_text(
                script,
                "set $flash_end = $flash_base + "@ + decimal(
                    ((metadata_size as u32) + s.rom_size + s.got_size + s.rom_ram_size) as nat,
                ) + "\n"@,
            )
            &&& holds_text(
                script,
                "set $ram_end = $ram_base + "@ + decimal((s.got_size + s.rom_ram_size + s.ram_size) as nat) + "\n"@,
            )
        }),
{
    let head = memory_layout_prelude(layout) + "set $startup_text = $flash_base\n"@ + "add-symbol-file "@
        + startup_path + " -s "@ + constants::STARTUP_SECTION_NAME@ + " $startup_text\n"@;
    let l1 = assign_line("set $text = $startup_text + "@, metadata_size as nat);
    let l2 = assign_line("set $got = $text + "@, s.rom_size as nat);
    let l3 = assign_line("set $data_image = $got + "@, s.got_size as nat);
    let l4 = "set $rel_got = $ram_base\n"@;
    let l5 = assign_line("set $rel_data = $rel_got + "@, s.got_size as nat);
    let l6 = assign_line("set $rel_ram_tail = $rel_data + "@, s.rom_ram_size as nat);
    let l7 = "add-symbol-file "@ + app_path
        + " -s .text $text -s .got $rel_got -s .rom.ram $rel_data -s .ram $rel_ram_tail\n"@;
    let l8 = assign_line(
        "set $flash_end = $flash_base + "@,
        ((metadata_size as u32) + s.rom_size + s.got_size + s.rom_ram_size) as nat,
    );
    let l9 = assign_line("set $ram_end = $ram_base + "@, (s.got_size + s.rom_ram_size + s.ram_size) as nat);
    let ls = seq![l1, l2, l3, l4, l5, l6, l7, l8, l9];
    let c1 = l1;
    let c2 = c1 + l2;
    let c3 = c2 + l3;
    let c4 = c3 + l4;
    let c5 = c4 + l5;
    let c6 = c5 + l6;
    let c7 = c6 + l7;
    let c8 = c7 + l8;
    let c9 = c8 + l9;
    let cs = seq![c1, c2, c3, c4, c5, c6, c7, c8, c9];
    assert forall|k: int| 0 < k < 9 implies #[trigger] cs[k] == cs[k - 1] + ls[k] by {}
    assert(application_lines(app_path, metadata_size, s) == c9);
    let script = gdbinit_script(startup_path, Some(app_path), metadata_size, Some(s), ram_size, layout);
    assert(script == head + c9);
    assert forall|i: int| 0 <= i < 9 implies holds_text(script, #[trigger] ls[i]) by {
        lemma_holds_self(ls[i]);
        if i > 0 {
            lemma_holds_right(cs[i - 1], ls[i], ls[i]);
        }
        assert(holds_text(cs[i], ls[i]));
        lemma_holds_along(cs, ls, ls[i], i, 8);
        lemma_holds_right(head, c9, ls[i]);
    }
    assert(ls[0] == l1);
    assert(ls[1] == l2);
    assert(ls[2] == l3);
    assert(ls[3] == l4);
    assert(ls[4] == l5);
    assert(ls[5] == l6);
    assert(ls[6] == l7);
    assert(ls[7] == l8);
    assert(ls[8] == l9);
}

/// The script for the startup code alone bounds flash by the metadata size
/// and RAM by the RAM size given.
pub proof fn lemma_startup_script_bounds(
    startup_path: Seq<char>,
    metadata_size: usize,
    ram_size: u32,
    layout: GdbMemoryLayout,
)
    ensures
        ({
            let script = gdbinit_script(startup_path, None, metadata_size, None, ram_size, layout);
            &&& holds_text(script, "set $flash_end = $flash_base + "@ + decimal((metadata_size as u32) as nat) + "\n"@)
            &&& holds_text(script, "set $ram_end = $ram_base + "@ + decimal(ram_size as nat) + "\n"@)
            &&& holds_text(
                script,
                "add-symbol-file "@ + startup_path + " -s "@ + constants::STARTUP_SECTION_NAME@ + " $startup_text\n"@,
            )
        }),
{
    let head = memory_layout_prelude(layout) + "set $startup_text = $flash_base\n"@;
    let a = "add-symbol-file "@ + startup_path + " -s "@ + constants::STARTUP_SECTION_NAME@ + " $startup_text\n"@;
    let f = "set $flash_end = $flash_base + "@ + decimal((metadata_size as u32) as nat) + "\n"@;
    let r = "set $ram_end = $ram_base + "@ + decimal(ram_size as nat) + "\n"@;
    let script = gdbinit_script(startup_path, None, metadata_size, None, ram_size, layout);
    assert(script =~= head + a + (f + r));
    lemma_holds_self(a);
    lemma_holds_right(head, a, a);
    lemma_holds_left(head + a, f + r, a);
    lemma_holds_self(f);
    lemma_holds_left(f, r, f);
    lemma_holds_right(head + a, f + r, f);
    lemma_holds_self(r);
    lemma_holds_right(f, r, r);
    lemma_holds_right(head + a, f + r, r);
}

} // verus!

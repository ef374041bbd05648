//! The startup code of a legacy (0xFACADE12) image, as it runs on the
//! device: it reads the footer behind the image, copies `.rom.ram` into the
//! RAM window given to the payload, clears `.ram`, fills the relocated GOT,
//! patches the pointers the image lists, and reports where the payload
//! starts. Memory is the image in flash, from its base address, and the RAM
//! window, from its start; addresses are 32-bit and wrap as on the device.

use vstd::prelude::*;

use crate::common::{le_bytes, le_word, lemma_le_word_at, lemma_le_word_of_bytes_in_middle, read_le_word, to_word};
use crate::constants;
use crate::xipfs_ctx::{XipfsRt0Ctx, XipfsRt0CtxData};

verus! {

/// The image's magic word is not the legacy one.
pub const ERR_INVALID_VERSION: u32 = 1;
/// An offset lies past the sections it should fall in.
pub const ERR_OUT_OF_BOUNDS: u32 = 3;
/// A listed pointer lies in `.rom`.
pub const ERR_PTR_IN_ROM: u32 = 4;
/// A listed pointer lies in, or points into, the GOT.
pub const ERR_PTR_IN_GOT: u32 = 5;

/// `x` as a 32-bit address: the device's arithmetic wraps.
pub open spec fn addr32(x: int) -> u32 {
    (x % 0x1_0000_0000) as u32
}

fn add32(a: u32, b: u32) -> (r: u32)
    ensures
        r == addr32(a + b),
{
    (((a as u64) + (b as u64)) % 0x1_0000_0000) as u32
}

fn sub32(a: u32, b: u32) -> (r: u32)
    ensures
        r == addr32(a - b),
{
    (((a as u64) + 0x1_0000_0000 - (b as u64)) % 0x1_0000_0000) as u32
}

/// What the startup code reports: a status (0 for success) and, on success,
/// the first free RAM address, the first free flash address (rounded up to
/// 32 bytes), the relocated entry point and the relocated GOT; and, on every
/// path, the address of the loader's context, which the startup stub hands
/// to the application.
#[derive(Debug, Clone, Copy, PartialEq, Eq)]
pub struct Rt0Result {
    pub status: u32,
    pub next_ram: u32,
    pub next_nvm: u32,
    pub entry: u32,
    pub got: u32,
    pub ctx_addr: u32,
}

/// A read that falls outside the image, or a write outside the RAM window:
/// on the device, memory the image does not describe.
#[derive(Debug, Clone, Copy, PartialEq, Eq)]
pub enum Rt0Fault {
    OutsideImage,
    OutsideWindow,
}

/// The word at address `a` of flash, the image starting at `base`.
pub open spec fn flash_word(flash: Seq<u8>, base: u32, a: u32) -> Result<u32, Rt0Fault> {
    let i = addr32(a - base);
    if i + 4 <= flash.len() {
        Ok(le_word(flash, i as int))
    } else {
        Err(Rt0Fault::OutsideImage)
    }
}

fn read_flash_word(flash: &[u8], base: u32, a: u32) -> (r: Result<u32, Rt0Fault>)
    ensures
        r == flash_word(flash@, base, a),
{
    let i = sub32(a, base) as usize;
    let n = flash.len();
    if i > n || n - i < 4 {
        return Err(Rt0Fault::OutsideImage);
    }
    Ok(read_le_word(flash, i))
}

/// The window with the word `x` stored at offset `w`.
pub open spec fn put_word(window: Seq<u8>, w: int, x: u32) -> Seq<u8> {
    window.subrange(0, w) + le_bytes(x) + window.subrange(w + 4, window.len() as int)
}

/// Storing `x` at address `a`, the window starting at `start`.
pub open spec fn store_word(window: Seq<u8>, start: u32, a: u32, x: u32) -> Result<Seq<u8>, Rt0Fault> {
    let w = addr32(a - start);
    if w + 4 <= window.len() {
        Ok(put_word(window, w as int, x))
    } else {
        Err(Rt0Fault::OutsideWindow)
    }
}

fn write_ram_word(window: &mut Vec<u8>, start: u32, a: u32, x: u32) -> (r: Result<(), Rt0Fault>)
    ensures
        match store_word(old(window)@, start, a, x) {
            Ok(s) => r is Ok && final(window)@ == s,
            Err(e) => r == Err::<(), Rt0Fault>(e) && final(window)@ == old(window)@,
        },
{
    let w = sub32(a, start) as usize;
    let n = window.len();
    if w > n || n - w < 4 {
        return Err(Rt0Fault::OutsideWindow);
    }
    let b = to_word(x);
    window.set(w, b[0]);
    window.set(w + 1, b[1]);
    window.set(w + 2, b[2]);
    window.set(w + 3, b[3]);
    assert(window@ =~= put_word(old(window)@, w as int, x));
    Ok(())
}

/// Where the sections are: in flash (`rom_addr`, `got_addr`, `rom_ram_addr`)
/// and in RAM (`rel_got`, `rel_rom_ram`, `rel_ram`), with their sizes.
#[derive(Debug, Clone, Copy, PartialEq, Eq)]
pub struct Rt0Layout {
    pub rom_addr: u32,
    pub got_addr: u32,
    pub rom_ram_addr: u32,
    pub rel_got: u32,
    pub rel_rom_ram: u32,
    pub rel_ram: u32,
    pub rom: u32,
    pub got: u32,
    pub rom_ram: u32,
    pub ram: u32,
}

/// The run-time address of an offset into the image's sections laid end to
/// end (`.rom`, `.got`, `.rom.ram`, `.ram`): in flash for `.rom`, in the RAM
/// window for the others; none past them.
pub open spec fn spec_resolve(off: u32, l: Rt0Layout) -> Option<u32> {
    if off < l.rom {
        Some(addr32(l.rom_addr + off))
    } else if off - l.rom < l.got {
        Some(addr32(l.rel_got + (off - l.rom)))
    } else if off - l.rom - l.got < l.rom_ram {
        Some(addr32(l.rel_rom_ram + (off - l.rom - l.got)))
    } else if off - l.rom - l.got - l.rom_ram < l.ram {
        Some(addr32(l.rel_ram + (off - l.rom - l.got - l.rom_ram)))
    } else {
        None
    }
}

/// The run-time address of an offset into the image's sections.
pub fn resolve_binary_offset(off: u32, l: &Rt0Layout) -> (r: Option<u32>)
    ensures
        r == spec_resolve(off, *l),
{
    let mut o = off;
    if o < l.rom {
        return Some(add32(l.rom_addr, o));
    }
    o = o - l.rom;
    if o < l.got {
        return Some(add32(l.rel_got, o));
    }
    o = o - l.got;
    if o < l.rom_ram {
        return Some(add32(l.rel_rom_ram, o));
    }
    o = o - l.rom_ram;
    if o < l.ram {
        return Some(add32(l.rel_ram, o));
    }
    None
}

/// `value` rounded up to a multiple of the power of two `align`, wrapping.
pub open spec fn spec_round_up(value: u32, align: u32) -> u32 {
    (addr32(value + align - 1) & !((align - 1) as u32)) as u32
}

/// Rounds `value` up to a multiple of the power of two `align`, wrapping as
/// the device does.
pub fn round_up(value: u32, align: u32) -> (r: u32)
    requires
        align > 0,
    ensures
        r == spec_round_up(value, align),
{
    let mask = align - 1;
    add32(value, mask) & !mask
}


// ---------------------------------------------------------------------------
// The footer and the layout
// ---------------------------------------------------------------------------
/// What the reads before the first write decide: stop with a status, or go
/// on with the layout, the metadata's address and patch count, the
/// relocated entry point, and the end of the image.
#[derive(Debug, Clone, Copy, PartialEq, Eq)]
pub enum Rt0Plan {
    Stop(u32),
    Go { layout: Rt0Layout, metadata: u32, patches: u32, entry: u32, end: u32 },
}

/// The footer words before the magic word: entry point offset and the sizes
/// of `.rom`, `.got`, `.rom.ram` and `.ram`.
pub open spec fn footer_words(flash: Seq<u8>, base: u32, end: u32) -> Result<(u32, u32, u32, u32, u32), Rt0Fault> {
    match (
        flash_word(flash, base, addr32(end - 12)),
        flash_word(flash, base, addr32(end - 20)),
        flash_word(flash, base, addr32(end - 24)),
        flash_word(flash, base, addr32(end - 16)),
        flash_word(flash, base, addr32(end - 28)),
    ) {
        (Ok(e), Ok(r), Ok(g), Ok(rr), Ok(m)) => Ok((e, r, g, rr, m)),
        _ => Err(Rt0Fault::OutsideImage),
    }
}

/// The reads before the first write. The metadata (at `metadata_off` from
/// the image's base) holds the image size (counted from the startup code at
/// `start_offset`) and the number of listed pointers, then the pointers,
/// then the payload's padding; the footer ends the image.
#[verifier::opaque]
pub open spec fn spec_plan(flash: Seq<u8>, base: u32, metadata_off: u32, start_offset: u32, ram_start: u32) -> Result<
    Rt0Plan,
    Rt0Fault,
> {
    let metadata = addr32(base + metadata_off);
    let startup = addr32(base + start_offset);
    match (flash_word(flash, base, metadata), flash_word(flash, base, addr32(metadata + 4))) {
        (Ok(binary_size), Ok(n)) => {
            let end = addr32(startup + binary_size);
            match flash_word(flash, base, addr32(end - 4)) {
                Err(e) => Err(e),
                Ok(magic) => if magic != constants::MAGIC_NUMBER_AND_VERSION {
                    Ok(Rt0Plan::Stop(ERR_INVALID_VERSION))
                } else {
                    match footer_words(flash, base, end) {
                        Err(e) => Err(e),
                        Ok((entry_off, rom, got, rom_ram, ram)) => if entry_off > rom {
                            Ok(Rt0Plan::Stop(ERR_OUT_OF_BOUNDS))
                        } else {
                            let pp = addr32(metadata + 8 + 4 * n);
                            match flash_word(flash, base, pp) {
                                Err(e) => Err(e),
                                Ok(padding) => {
                                    let rom_addr = addr32(pp + 4 + padding);
                                    let got_addr = addr32(rom_addr + rom);
                                    let rel_rom_ram = addr32(ram_start + got);
                                    Ok(
                                        Rt0Plan::Go {
                                            layout: Rt0Layout {
                                                rom_addr,
                                                got_addr,
                                                rom_ram_addr: addr32(got_addr + got),
                                                rel_got: ram_start,
                                                rel_rom_ram,
                                                rel_ram: addr32(rel_rom_ram + rom_ram),
                                                rom,
                                                got,
                                                rom_ram,
                                                ram,
                                            },
                                            metadata,
                                            patches: n,
                                            entry: addr32(rom_addr + entry_off),
                                            end,
                                        },
                                    )
                                },
                            }
                        },
                    }
                },
            }
        },
        _ => Err(Rt0Fault::OutsideImage),
    }
}

// ---------------------------------------------------------------------------
// The writes
// ---------------------------------------------------------------------------
/// The window after copying `.rom.ram` from flash.
#[verifier::opaque]
pub open spec fn spec_copy_rom_ram(flash: Seq<u8>, base: u32, window: Seq<u8>, start: u32, l: Rt0Layout) -> Result<
    Seq<u8>,
    Rt0Fault,
> {
    let si = addr32(l.rom_ram_addr - base) as int;
    let wi = addr32(l.rel_rom_ram - start) as int;
    if si + l.rom_ram > flash.len() {
        Err(Rt0Fault::OutsideImage)
    } else if wi + l.rom_ram > window.len() {
        Err(Rt0Fault::OutsideWindow)
    } else {
        Ok(window.subrange(0, wi) + flash.subrange(si, si + l.rom_ram) + window.subrange(wi + l.rom_ram, window.len() as int))
    }
}

/// The window after clearing `.ram` a whole word at a time.
#[verifier::opaque]
pub open spec fn spec_clear_ram(window: Seq<u8>, start: u32, l: Rt0Layout) -> Result<Seq<u8>, Rt0Fault> {
    let zi = addr32(l.rel_ram - start) as int;
    let n = 4 * (l.ram / 4) as int;
    if zi + n > window.len() {
        Err(Rt0Fault::OutsideWindow)
    } else {
        Ok(window.subrange(0, zi) + Seq::new(n as nat, |k: int| 0u8) + window.subrange(zi + n, window.len() as int))
    }
}

/// The state of the window after a step: all done, or stopped with a status.
pub enum Rt0Step {
    Done(Seq<u8>),
    Stop(u32, Seq<u8>),
}

/// The number of GOT words the startup code relocates.
pub open spec fn got_entries(got: u32) -> nat {
    ((got + 3) / 4) as nat
}

/// The window after relocating the first `k` GOT words: each word of the
/// flash GOT is an offset into the sections, stored in the RAM GOT as its
/// run-time address; an offset past the sections stops with
/// `ERR_OUT_OF_BOUNDS`.
#[verifier::opaque]
pub open spec fn got_fill(flash: Seq<u8>, base: u32, window: Seq<u8>, start: u32, l: Rt0Layout, k: nat) -> Result<
    Rt0Step,
    Rt0Fault,
>
    decreases k,
{
    if k == 0 {
        Ok(Rt0Step::Done(window))
    } else {
        match got_fill(flash, base, window, start, l, (k - 1) as nat) {
            Err(e) => Err(e),
            Ok(Rt0Step::Stop(s, w)) => Ok(Rt0Step::Stop(s, w)),
            Ok(Rt0Step::Done(w)) => {
                let i = k - 1;
                match flash_word(flash, base, addr32(l.got_addr + 4 * i)) {
                    Err(e) => Err(e),
                    Ok(off) => match spec_resolve(off, l) {
                        None => Ok(Rt0Step::Stop(ERR_OUT_OF_BOUNDS, w)),
                        Some(a) => match store_word(w, start, addr32(l.rel_got + 4 * i), a) {
                            Err(e) => Err(e),
                            Ok(w2) => Ok(Rt0Step::Done(w2)),
                        },
                    },
                }
            },
        }
    }
}

/// Where a listed pointer goes in RAM, given its offset into the sections:
/// in `.rom.ram` or `.ram`; in `.rom` or the GOT, or past the sections, it
/// stops with a status.
pub open spec fn patch_target(ptr_off: u32, l: Rt0Layout) -> Result<u32, u32> {
    if ptr_off < l.rom {
        Err(ERR_PTR_IN_ROM)
    } else if ptr_off - l.rom < l.got {
        Err(ERR_PTR_IN_GOT)
    } else if ptr_off - l.rom - l.got < l.rom_ram {
        Ok(addr32(l.rel_rom_ram + (ptr_off - l.rom - l.got)))
    } else if ptr_off - l.rom - l.got - l.rom_ram < l.ram {
        Ok(addr32(l.rel_ram + (ptr_off - l.rom - l.got - l.rom_ram)))
    } else {
        Err(ERR_OUT_OF_BOUNDS)
    }
}

/// The value a listed pointer takes: the run-time address of the offset
/// stored at it in the image, never inside the RAM GOT.
pub open spec fn patch_value(off: u32, l: Rt0Layout) -> Result<u32, u32> {
    match spec_resolve(off, l) {
        None => Err(ERR_OUT_OF_BOUNDS),
        Some(v) => if v >= l.rel_got && v < addr32(l.rel_got + l.got) {
            Err(ERR_PTR_IN_GOT)
        } else {
            Ok(v)
        },
    }
}

/// The window after the first `k` listed pointers are patched; the list
/// follows the two metadata words.
#[verifier::opaque]
pub open spec fn patch_fill(flash: Seq<u8>, base: u32, window: Seq<u8>, start: u32, l: Rt0Layout, metadata: u32, k: nat) -> Result<
    Rt0Step,
    Rt0Fault,
>
    decreases k,
{
    if k == 0 {
        Ok(Rt0Step::Done(window))
    } else {
        match patch_fill(flash, base, window, start, l, metadata, (k - 1) as nat) {
            Err(e) => Err(e),
            Ok(Rt0Step::Stop(s, w)) => Ok(Rt0Step::Stop(s, w)),
            Ok(Rt0Step::Done(w)) => {
                let j = k - 1;
                match flash_word(flash, base, addr32(metadata + 8 + 4 * j)) {
                    Err(e) => Err(e),
                    Ok(ptr_off) => match flash_word(flash, base, addr32(l.rom_addr + ptr_off)) {
                        Err(e) => Err(e),
                        Ok(off) => match patch_target(ptr_off, l) {
                            Err(s) => Ok(Rt0Step::Stop(s, w)),
                            Ok(target) => match patch_value(off, l) {
                                Err(s) => Ok(Rt0Step::Stop(s, w)),
                                Ok(v) => match store_word(w, start, target, v) {
                                    Err(e) => Err(e),
                                    Ok(w2) => Ok(Rt0Step::Done(w2)),
                                },
                            },
                        },
                    },
                }
            },
        }
    }
}

/// A report with a failure status and the context's address, and nothing
/// else.
pub open spec fn stopped(status: u32, ctx_addr: u32) -> Rt0Result {
    Rt0Result { status, next_ram: 0, next_nvm: 0, entry: 0, got: 0, ctx_addr }
}

/// A whole run: the report and the RAM window it leaves, or a read outside
/// the image or a write outside the window.
pub open spec fn spec_rt0_run(
    flash: Seq<u8>,
    base: u32,
    metadata_off: u32,
    start_offset: u32,
    ram_start: u32,
    ctx_addr: u32,
    window: Seq<u8>,
) -> Result<
    (Rt0Result, Seq<u8>),
    Rt0Fault,
> {
    match spec_plan(flash, base, metadata_off, start_offset, ram_start) {
        Err(e) => Err(e),
        Ok(Rt0Plan::Stop(s)) => Ok((stopped(s, ctx_addr), window)),
        Ok(Rt0Plan::Go { layout: l, metadata, patches, entry, end }) => match spec_copy_rom_ram(
            flash,
            base,
            window,
            ram_start,
            l,
        ) {
            Err(e) => Err(e),
            Ok(w1) => match spec_clear_ram(w1, ram_start, l) {
                Err(e) => Err(e),
                Ok(w2) => match got_fill(flash, base, w2, ram_start, l, got_entries(l.got)) {
                    Err(e) => Err(e),
                    Ok(Rt0Step::Stop(s, w3)) => Ok((stopped(s, ctx_addr), w3)),
                    Ok(Rt0Step::Done(w3)) => match patch_fill(flash, base, w3, ram_start, l, metadata, patches as nat) {
                        Err(e) => Err(e),
                        Ok(Rt0Step::Stop(s, w4)) => Ok((stopped(s, ctx_addr), w4)),
                        Ok(Rt0Step::Done(w4)) => Ok(
                            (
                                Rt0Result {
                                    status: 0,
                                    next_ram: addr32(l.rel_ram + l.ram),
                                    next_nvm: spec_round_up(end, 32),
                                    entry,
                                    got: l.rel_got,
                                    ctx_addr,
                                },
                                w4,
                            ),
                        ),
                    },
                },
            },
        },
    }
}


// ---------------------------------------------------------------------------
// The run
// ---------------------------------------------------------------------------
fn plan(flash: &[u8], base: u32, metadata_off: u32, start_offset: u32, ram_start: u32) -> (r: Result<Rt0Plan, Rt0Fault>)
    ensures
        r == spec_plan(flash@, base, metadata_off, start_offset, ram_start),
{
    reveal(spec_plan);
    let metadata = add32(base, metadata_off);
    let startup = add32(base, start_offset);
    let binary_size = match read_flash_word(flash, base, metadata) {
        Ok(v) => v,
        Err(e) => {
            return Err(e);
        },
    };
    let n = match read_flash_word(flash, base, add32(metadata, 4)) {
        Ok(v) => v,
        Err(e) => {
            return Err(e);
        },
    };
    let end = add32(startup, binary_size);
    let magic = match read_flash_word(flash, base, sub32(end, 4)) {
        Ok(v) => v,
        Err(e) => {
            return Err(e);
        },
    };
    if magic != constants::MAGIC_NUMBER_AND_VERSION {
        return Ok(Rt0Plan::Stop(ERR_INVALID_VERSION));
    }
    let e1 = read_flash_word(flash, base, sub32(end, 12));
    let e2 = read_flash_word(flash, base, sub32(end, 20));
    let e3 = read_flash_word(flash, base, sub32(end, 24));
    let e4 = read_flash_word(flash, base, sub32(end, 16));
    let e5 = read_flash_word(flash, base, sub32(end, 28));
    let (entry_off, rom, got, rom_ram, ram) = match (e1, e2, e3, e4, e5) {
        (Ok(a), Ok(b), Ok(c), Ok(d), Ok(f)) => (a, b, c, d, f),
        _ => {
            return Err(Rt0Fault::OutsideImage);
        },
    };
    if entry_off > rom {
        return Ok(Rt0Plan::Stop(ERR_OUT_OF_BOUNDS));
    }
    let pp = (((metadata as u64) + 8 + 4 * (n as u64)) % 0x1_0000_0000) as u32;
    let padding = match read_flash_word(flash, base, pp) {
        Ok(v) => v,
        Err(e) => {
            return Err(e);
        },
    };
    let rom_addr = (((pp as u64) + 4 + (padding as u64)) % 0x1_0000_0000) as u32;
    let got_addr = add32(rom_addr, rom);
    let rel_rom_ram = add32(ram_start, got);
    Ok(
        Rt0Plan::Go {
            layout: Rt0Layout {
                rom_addr,
                got_addr,
                rom_ram_addr: add32(got_addr, got),
                rel_got: ram_start,
                rel_rom_ram,
                rel_ram: add32(rel_rom_ram, rom_ram),
                rom,
                got,
                rom_ram,
                ram,
            },
            metadata,
            patches: n,
            entry: add32(rom_addr, entry_off),
            end,
        },
    )
}

fn copy_rom_ram(flash: &[u8], base: u32, window: &mut Vec<u8>, start: u32, l: &Rt0Layout) -> (r: Result<(), Rt0Fault>)
    ensures
        match spec_copy_rom_ram(flash@, base, old(window)@, start, *l) {
            Ok(w) => r is Ok && final(window)@ == w,
            Err(e) => r == Err::<(), Rt0Fault>(e) && final(window)@ == old(window)@,
        },
{
    reveal(spec_copy_rom_ram);
    let si = sub32(l.rom_ram_addr, base) as usize;
    let wi = sub32(l.rel_rom_ram, start) as usize;
    let n = l.rom_ram as usize;
    let flen = flash.len();
    let wlen = window.len();
    if si > flen || n > flen - si {
        return Err(Rt0Fault::OutsideImage);
    }
    if wi > wlen || n > wlen - wi {
        return Err(Rt0Fault::OutsideWindow);
    }
    let ghost w0 = window@;
    let mut k: usize = 0;
    while k < n
        invariant
            k <= n,
            si + n <= flen == flash@.len(),
            wi + n <= wlen,
            window@.len() == wlen,
            w0.len() == wlen,
            window@ == w0.subrange(0, wi as int) + flash@.subrange(si as int, (si + k) as int) + w0.subrange(
                (wi + k) as int,
                wlen as int,
            ),
        decreases n - k,
    {
        window.set(wi + k, flash[si + k]);
        assert(window@ =~= w0.subrange(0, wi as int) + flash@.subrange(si as int, (si + k + 1) as int)
            + w0.subrange((wi + k + 1) as int, wlen as int));
        k = k + 1;
    }
    Ok(())
}

fn clear_ram(window: &mut Vec<u8>, start: u32, l: &Rt0Layout) -> (r: Result<(), Rt0Fault>)
    ensures
        match spec_clear_ram(old(window)@, start, *l) {
            Ok(w) => r is Ok && final(window)@ == w,
            Err(e) => r == Err::<(), Rt0Fault>(e) && final(window)@ == old(window)@,
        },
{
    reveal(spec_clear_ram);
    let zi = sub32(l.rel_ram, start) as usize;
    let n = 4 * ((l.ram / 4) as usize);
    let wlen = window.len();
    if zi > wlen || n > wlen - zi {
        return Err(Rt0Fault::OutsideWindow);
    }
    let ghost w0 = window@;
    let mut k: usize = 0;
    while k < n
        invariant
            k <= n,
            zi + n <= wlen,
            window@.len() == wlen,
            w0.len() == wlen,
            window@ == w0.subrange(0, zi as int) + Seq::new(k as nat, |i: int| 0u8) + w0.subrange(
                (zi + k) as int,
                wlen as int,
            ),
        decreases n - k,
    {
        window.set(zi + k, 0);
        assert(window@ =~= w0.subrange(0, zi as int) + Seq::new((k + 1) as nat, |i: int| 0u8) + w0.subrange(
            (zi + k + 1) as int,
            wlen as int,
        ));
        k = k + 1;
    }
    Ok(())
}

/// The outcome of a fill as the exec code reports it: `None` when all is
/// done, the status where it stopped.
pub open spec fn step_matches(step: Rt0Step, stop: Option<u32>, window: Seq<u8>) -> bool {
    match step {
        Rt0Step::Done(w) => stop is None && window == w,
        Rt0Step::Stop(s, w) => stop == Some(s) && window == w,
    }
}

proof fn lemma_got_fill_stays(flash: Seq<u8>, base: u32, window: Seq<u8>, start: u32, l: Rt0Layout, k: nat, n: nat)
    requires
        k <= n,
        !(got_fill(flash, base, window, start, l, k) matches Ok(Rt0Step::Done(_))),
    ensures
        got_fill(flash, base, window, start, l, n) == got_fill(flash, base, window, start, l, k),
    decreases n - k,
{
    if k < n {
        lemma_got_fill_stays(flash, base, window, start, l, k, (n - 1) as nat);
        reveal(got_fill);
    }
}

fn got_step(flash: &[u8], base: u32, window: &mut Vec<u8>, start: u32, l: &Rt0Layout, i: u64, Ghost(w0): Ghost<Seq<u8>>) -> (r: Result<
    Option<u32>,
    Rt0Fault,
>)
    requires
        i < 0x4000_0000,
        got_fill(flash@, base, w0, start, *l, i as nat) == Ok::<Rt0Step, Rt0Fault>(Rt0Step::Done(old(window)@)),
    ensures
        match got_fill(flash@, base, w0, start, *l, (i + 1) as nat) {
            Err(e) => r == Err::<Option<u32>, Rt0Fault>(e),
            Ok(step) => r matches Ok(stop) && step_matches(step, stop, final(window)@),
        },
{
    reveal(got_fill);
    let a = ((l.got_addr as u64 + 4 * i) % 0x1_0000_0000) as u32;
    let off = match read_flash_word(flash, base, a) {
        Ok(v) => v,
        Err(e) => {
            return Err(e);
        },
    };
    let v = match resolve_binary_offset(off, l) {
        Some(v) => v,
        None => {
            return Ok(Some(ERR_OUT_OF_BOUNDS));
        },
    };
    let target = ((l.rel_got as u64 + 4 * i) % 0x1_0000_0000) as u32;
    match write_ram_word(window, start, target, v) {
        Ok(()) => Ok(None),
        Err(e) => Err(e),
    }
}

fn fill_got(flash: &[u8], base: u32, window: &mut Vec<u8>, start: u32, l: &Rt0Layout) -> (r: Result<Option<u32>, Rt0Fault>)
    ensures
        match got_fill(flash@, base, old(window)@, start, *l, got_entries(l.got)) {
            Err(e) => r == Err::<Option<u32>, Rt0Fault>(e),
            Ok(step) => r matches Ok(stop) && step_matches(step, stop, final(window)@),
        },
{
    let ghost w0 = window@;
    let ghost total = got_entries(l.got);
    assert(got_fill(flash@, base, w0, start, *l, 0) == Ok::<Rt0Step, Rt0Fault>(Rt0Step::Done(w0))) by {
        reveal(got_fill);
    }
    let got = l.got as u64;
    let mut i: u64 = 0;
    while i * 4 < got
        invariant
            i <= total,
            w0 == old(window)@,
            i * 4 < got + 4,
            got == l.got,
            total == got_entries(l.got),
            got_fill(flash@, base, w0, start, *l, i as nat) == Ok::<Rt0Step, Rt0Fault>(Rt0Step::Done(window@)),
        decreases total - i,
    {
        let step = got_step(flash, base, window, start, l, i, Ghost(w0));
        match step {
            Ok(None) => {},
            _ => {
                proof {
                    assert(i + 1 <= total) by (nonlinear_arith)
                        requires
                            i * 4 < got,
                            total == (got + 3) / 4,
                    ;
                    assert(!(got_fill(flash@, base, w0, start, *l, (i + 1) as nat) matches Ok(Rt0Step::Done(_))));
                    lemma_got_fill_stays(flash@, base, w0, start, *l, (i + 1) as nat, total);
                }
                return step;
            },
        }
        i = i + 1;
    }
    Ok(None)
}

proof fn lemma_patch_fill_stays(
    flash: Seq<u8>,
    base: u32,
    window: Seq<u8>,
    start: u32,
    l: Rt0Layout,
    metadata: u32,
    k: nat,
    n: nat,
)
    requires
        k <= n,
        !(patch_fill(flash, base, window, start, l, metadata, k) matches Ok(Rt0Step::Done(_))),
    ensures
        patch_fill(flash, base, window, start, l, metadata, n) == patch_fill(flash, base, window, start, l, metadata, k),
    decreases n - k,
{
    if k < n {
        lemma_patch_fill_stays(flash, base, window, start, l, metadata, k, (n - 1) as nat);
        reveal(patch_fill);
    }
}

fn patch_step(
    flash: &[u8],
    base: u32,
    window: &mut Vec<u8>,
    start: u32,
    l: &Rt0Layout,
    metadata: u32,
    j: u32,
    Ghost(w0): Ghost<Seq<u8>>,
) -> (r: Result<Option<u32>, Rt0Fault>)
    requires
        patch_fill(flash@, base, w0, start, *l, metadata, j as nat) == Ok::<Rt0Step, Rt0Fault>(
            Rt0Step::Done(old(window)@),
        ),
    ensures
        match patch_fill(flash@, base, w0, start, *l, metadata, (j + 1) as nat) {
            Err(e) => r == Err::<Option<u32>, Rt0Fault>(e),
            Ok(step) => r matches Ok(stop) && step_matches(step, stop, final(window)@),
        },
{
    reveal(patch_fill);
    let entry_addr = (((metadata as u64) + 8 + 4 * (j as u64)) % 0x1_0000_0000) as u32;
    let ptr_off = match read_flash_word(flash, base, entry_addr) {
        Ok(v) => v,
        Err(e) => {
            return Err(e);
        },
    };
    let off = match read_flash_word(flash, base, add32(l.rom_addr, ptr_off)) {
        Ok(v) => v,
        Err(e) => {
            return Err(e);
        },
    };
    let target = match patch_target_of(ptr_off, l) {
        Ok(t) => t,
        Err(s) => {
            return Ok(Some(s));
        },
    };
    let v = match resolve_binary_offset(off, l) {
        None => {
            return Ok(Some(ERR_OUT_OF_BOUNDS));
        },
        Some(v) => {
            if v >= l.rel_got && v < add32(l.rel_got, l.got) {
                return Ok(Some(ERR_PTR_IN_GOT));
            }
            v
        },
    };
    match write_ram_word(window, start, target, v) {
        Ok(()) => Ok(None),
        Err(e) => Err(e),
    }
}

fn patch_target_of(ptr_off: u32, l: &Rt0Layout) -> (r: Result<u32, u32>)
    ensures
        r == patch_target(ptr_off, *l),
{
    let mut p = ptr_off;
    if p < l.rom {
        return Err(ERR_PTR_IN_ROM);
    }
    p = p - l.rom;
    if p < l.got {
        return Err(ERR_PTR_IN_GOT);
    }
    p = p - l.got;
    if p < l.rom_ram {
        return Ok(add32(l.rel_rom_ram, p));
    }
    p = p - l.rom_ram;
    if p < l.ram {
        return Ok(add32(l.rel_ram, p));
    }
    Err(ERR_OUT_OF_BOUNDS)
}

fn fill_patches(flash: &[u8], base: u32, window: &mut Vec<u8>, start: u32, l: &Rt0Layout, metadata: u32, patches: u32) -> (r: Result<
    Option<u32>,
    Rt0Fault,
>)
    ensures
        match patch_fill(flash@, base, old(window)@, start, *l, metadata, patches as nat) {
            Err(e) => r == Err::<Option<u32>, Rt0Fault>(e),
            Ok(step) => r matches Ok(stop) && step_matches(step, stop, final(window)@),
        },
{
    let ghost w0 = window@;
    assert(patch_fill(flash@, base, w0, start, *l, metadata, 0) == Ok::<Rt0Step, Rt0Fault>(Rt0Step::Done(w0))) by {
        reveal(patch_fill);
    }
    let mut j: u32 = 0;
    while j < patches
        invariant
            j <= patches,
            w0 == old(window)@,
            patch_fill(flash@, base, w0, start, *l, metadata, j as nat) == Ok::<Rt0Step, Rt0Fault>(
                Rt0Step::Done(window@),
            ),
        decreases patches - j,
    {
        let step = patch_step(flash, base, window, start, l, metadata, j, Ghost(w0));
        match step {
            Ok(None) => {},
            _ => {
                proof {
                    assert(!(patch_fill(flash@, base, w0, start, *l, metadata, (j + 1) as nat) matches Ok(
                        Rt0Step::Done(_),
                    )));
                    lemma_patch_fill_stays(flash@, base, w0, start, *l, metadata, (j + 1) as nat, patches as nat);
                }
                return step;
            },
        }
        j = j + 1;
    }
    Ok(None)
}

/// One run of the startup code: `flash` is memory from the image's base
/// address (`ctx.bin_base`), `metadata_off` and `start_offset` are where the
/// metadata and the startup code lie from that base, and `window` is the
/// RAM granted to the payload, from `ctx.ram_start`; `ctx_addr` is the
/// context's address. The report, and the window as the run leaves it, are
/// those of `spec_rt0_run`: every report carries `ctx_addr`. On success the
/// loader's data records the relocated GOT. A read outside the image or a
/// write outside the window is reported as such.
pub fn rustrt0_thumb_run(
    ctx: &XipfsRt0Ctx,
    ctx_addr: u32,
    ctx_data: &mut XipfsRt0CtxData,
    flash: &[u8],
    metadata_off: u32,
    start_offset: u32,
    window: &mut Vec<u8>,
) -> (r: Result<Rt0Result, Rt0Fault>)
    ensures
        match spec_rt0_run(flash@, ctx.bin_base, metadata_off, start_offset, ctx.ram_start, ctx_addr, old(window)@) {
            Ok((res, w)) => r == Ok::<Rt0Result, Rt0Fault>(res) && final(window)@ == w,
            Err(e) => r == Err::<Rt0Result, Rt0Fault>(e),
        },
        r matches Ok(res) ==> res.ctx_addr == ctx_addr,
        match r {
            Ok(res) => if res.status == 0 {
                *final(ctx_data) == (XipfsRt0CtxData { current_got: res.got, ..*old(ctx_data) })
            } else {
                *final(ctx_data) == *old(ctx_data)
            },
            Err(_) => *final(ctx_data) == *old(ctx_data),
        },
{
    let base = ctx.bin_base;
    let ram_start = ctx.ram_start;
    let p = match plan(flash, base, metadata_off, start_offset, ram_start) {
        Ok(p) => p,
        Err(e) => {
            return Err(e);
        },
    };
    let (l, metadata, patches, entry, end) = match p {
        Rt0Plan::Stop(s) => {
            proof {
                lemma_plan_layout(flash@, base, metadata_off, start_offset, ram_start);
            }
            return Ok(Rt0Result { status: s, next_ram: 0, next_nvm: 0, entry: 0, got: 0, ctx_addr });
        },
        Rt0Plan::Go { layout, metadata, patches, entry, end } => (layout, metadata, patches, entry, end),
    };
    match copy_rom_ram(flash, base, window, ram_start, &l) {
        Ok(()) => {},
        Err(e) => {
            return Err(e);
        },
    }
    match clear_ram(window, ram_start, &l) {
        Ok(()) => {},
        Err(e) => {
            return Err(e);
        },
    }
    let ghost w2 = window@;
    match fill_got(flash, base, window, ram_start, &l) {
        Err(e) => {
            return Err(e);
        },
        Ok(Some(s)) => {
            proof {
                lemma_got_fill_stop(flash@, base, w2, ram_start, l, got_entries(l.got));
            }
            return Ok(Rt0Result { status: s, next_ram: 0, next_nvm: 0, entry: 0, got: 0, ctx_addr });
        },
        Ok(None) => {},
    }
    let ghost w3 = window@;
    match fill_patches(flash, base, window, ram_start, &l, metadata, patches) {
        Err(e) => {
            return Err(e);
        },
        Ok(Some(s)) => {
            proof {
                lemma_patch_fill_stop(flash@, base, w3, ram_start, l, metadata, patches as nat);
            }
            return Ok(Rt0Result { status: s, next_ram: 0, next_nvm: 0, entry: 0, got: 0, ctx_addr });
        },
        Ok(None) => {},
    }
    ctx_data.current_got = l.rel_got;
    Ok(
        Rt0Result {
            status: 0,
            next_ram: add32(l.rel_ram, l.ram),
            next_nvm: round_up(end, 32),
            entry,
            got: l.rel_got,
            ctx_addr,
        },
    )
}

// ---------------------------------------------------------------------------
// The relocated GOT
// ---------------------------------------------------------------------------
/// The run-time address that word `i` of the image's GOT, an offset into
/// the sections, stands for.
pub open spec fn relocated_got_word(flash: Seq<u8>, base: u32, l: Rt0Layout, i: int) -> Option<u32> {
    match flash_word(flash, base, addr32(l.got_addr + 4 * i)) {
        Ok(off) => spec_resolve(off, l),
        Err(_) => None,
    }
}

/// The layout a run plans, where it goes on past the footer.
pub open spec fn planned_layout(flash: Seq<u8>, base: u32, metadata_off: u32, start_offset: u32, ram_start: u32) -> Rt0Layout {
    match spec_plan(flash, base, metadata_off, start_offset, ram_start) {
        Ok(Rt0Plan::Go { layout, .. }) => layout,
        _ => arbitrary(),
    }
}

/// The RAM window a run leaves, where it reports.
pub open spec fn run_window(
    flash: Seq<u8>,
    base: u32,
    metadata_off: u32,
    start_offset: u32,
    ram_start: u32,
    ctx_addr: u32,
    window: Seq<u8>,
) -> Seq<u8> {
    match spec_rt0_run(flash, base, metadata_off, start_offset, ram_start, ctx_addr, window) {
        Ok((_, w)) => w,
        Err(_) => arbitrary(),
    }
}

proof fn lemma_put_word(w: Seq<u8>, off: int, x: u32, j: int)
    requires
        0 <= off,
        off + 4 <= w.len(),
    ensures
        put_word(w, off, x).len() == w.len(),
        le_word(put_word(w, off, x), off) == x,
        0 <= j && j + 4 <= off ==> le_word(put_word(w, off, x), j) == le_word(w, j),
{
    let t = put_word(w, off, x);
    lemma_le_word_of_bytes_in_middle(w.subrange(0, off), x, w.subrange(off + 4, w.len() as int));
    if 0 <= j && j + 4 <= off {
        assert(t[j] == w[j] && t[j + 1] == w[j + 1] && t[j + 2] == w[j + 2] && t[j + 3] == w[j + 3]);
    }
}

proof fn lemma_offset_back(start: u32, d: int)
    requires
        0 <= d < 0x1_0000_0000,
    ensures
        addr32(addr32(start + d) - start) == d,
{
    vstd::arithmetic::div_mod::lemma_sub_mod_noop(start + d, start as int, 0x1_0000_0000);
    vstd::arithmetic::div_mod::lemma_small_mod(start as nat, 0x1_0000_0000);
    vstd::arithmetic::div_mod::lemma_small_mod(d as nat, 0x1_0000_0000);
    vstd::arithmetic::div_mod::lemma_mod_bound(start + d, 0x1_0000_0000);
    vstd::arithmetic::div_mod::lemma_mod_bound(addr32(start + d) - start, 0x1_0000_0000);
}

proof fn lemma_offset_back2(start: u32, a: int, b: int)
    requires
        0 <= a,
        0 <= b,
        a + b < 0x1_0000_0000,
    ensures
        addr32(addr32(addr32(start + a) + b) - start) == a + b,
{
    vstd::arithmetic::div_mod::lemma_add_mod_noop(start + a, b, 0x1_0000_0000);
    vstd::arithmetic::div_mod::lemma_small_mod(b as nat, 0x1_0000_0000);
    vstd::arithmetic::div_mod::lemma_mod_bound(start + a, 0x1_0000_0000);
    assert(addr32(addr32(start + a) + b) == addr32(start + (a + b)));
    lemma_offset_back(start, a + b);
}

proof fn lemma_got_fill_words(flash: Seq<u8>, base: u32, w0: Seq<u8>, start: u32, l: Rt0Layout, k: nat)
    requires
        l.rel_got == start,
        k <= got_entries(l.got),
    ensures
        got_fill(flash, base, w0, start, l, k) matches Ok(Rt0Step::Done(w)) ==> w.len() == w0.len() && forall|i: int|
            0 <= i < k ==> relocated_got_word(flash, base, l, i) == Some(#[trigger] le_word(w, 4 * i)),
    decreases k,
{
    reveal(got_fill);
    if k > 0 {
        lemma_got_fill_words(flash, base, w0, start, l, (k - 1) as nat);
        if let Ok(Rt0Step::Done(w)) = got_fill(flash, base, w0, start, l, k) {
            let wp = match got_fill(flash, base, w0, start, l, (k - 1) as nat) {
                Ok(Rt0Step::Done(v)) => v,
                _ => arbitrary(),
            };
            let j = k - 1;
            let off = flash_word(flash, base, addr32(l.got_addr + 4 * j))->Ok_0;
            let a = spec_resolve(off, l)->Some_0;
            assert(4 * j < 0x1_0000_0000) by {
                assert(l.got < 0x1_0000_0000);
            }
            lemma_offset_back(start, 4 * j);
            assert(w == put_word(wp, 4 * j, a));
            assert forall|i: int| 0 <= i < k implies relocated_got_word(flash, base, l, i) == Some(
                #[trigger] le_word(w, 4 * i),
            ) by {
                lemma_put_word(wp, 4 * j, a, 4 * i);
            }
        }
    }
}

proof fn lemma_patch_fill_keeps_got(
    flash: Seq<u8>,
    base: u32,
    w0: Seq<u8>,
    start: u32,
    l: Rt0Layout,
    metadata: u32,
    k: nat,
)
    requires
        l.rel_got == start,
        l.rel_rom_ram == addr32(start + l.got),
        l.rel_ram == addr32(l.rel_rom_ram + l.rom_ram),
        l.got + l.rom_ram + l.ram < 0x1_0000_0000,
    ensures
        patch_fill(flash, base, w0, start, l, metadata, k) matches Ok(Rt0Step::Done(w)) ==> w.len() == w0.len()
            && forall|j: int| 0 <= j && j + 4 <= l.got ==> #[trigger] le_word(w, j) == le_word(w0, j),
    decreases k,
{
    reveal(patch_fill);
    if k > 0 {
        lemma_patch_fill_keeps_got(flash, base, w0, start, l, metadata, (k - 1) as nat);
        if let Ok(Rt0Step::Done(w)) = patch_fill(flash, base, w0, start, l, metadata, k) {
            let wp = match patch_fill(flash, base, w0, start, l, metadata, (k - 1) as nat) {
                Ok(Rt0Step::Done(v)) => v,
                _ => arbitrary(),
            };
            let jj = k - 1;
            let ptr_off = flash_word(flash, base, addr32(metadata + 8 + 4 * jj))->Ok_0;
            let off = flash_word(flash, base, addr32(l.rom_addr + ptr_off))->Ok_0;
            let target = patch_target(ptr_off, l)->Ok_0;
            let v = patch_value(off, l)->Ok_0;
            let p = ptr_off - l.rom - l.got;
            let d: int = if p < l.rom_ram {
                lemma_offset_back2(start, l.got as int, p);
                l.got + p
            } else {
                lemma_offset_back2(start, l.got as int, l.rom_ram as int);
                vstd::arithmetic::div_mod::lemma_add_mod_noop(start + l.got + l.rom_ram, p - l.rom_ram, 0x1_0000_0000);
                lemma_offset_back2(start, (l.got + l.rom_ram) as int, p - l.rom_ram);
                vstd::arithmetic::div_mod::lemma_add_mod_noop(start + l.got, l.rom_ram as int, 0x1_0000_0000);
                vstd::arithmetic::div_mod::lemma_small_mod((p - l.rom_ram) as nat, 0x1_0000_0000);
                vstd::arithmetic::div_mod::lemma_small_mod(l.rom_ram as nat, 0x1_0000_0000);
                l.got + p
            };
            assert(addr32(target - start) == d);
            assert(w == put_word(wp, d, v));
            assert forall|j: int| 0 <= j && j + 4 <= l.got implies #[trigger] le_word(w, j) == le_word(w0, j) by {
                lemma_put_word(wp, d, v, j);
            }
        }
    }
}

proof fn lemma_got_fill_stop(flash: Seq<u8>, base: u32, w0: Seq<u8>, start: u32, l: Rt0Layout, k: nat)
    ensures
        got_fill(flash, base, w0, start, l, k) matches Ok(Rt0Step::Stop(s, _)) ==> s != 0,
    decreases k,
{
    reveal(got_fill);
    if k > 0 {
        lemma_got_fill_stop(flash, base, w0, start, l, (k - 1) as nat);
    }
}

proof fn lemma_patch_fill_stop(flash: Seq<u8>, base: u32, w0: Seq<u8>, start: u32, l: Rt0Layout, metadata: u32, k: nat)
    ensures
        patch_fill(flash, base, w0, start, l, metadata, k) matches Ok(Rt0Step::Stop(s, _)) ==> s != 0,
    decreases k,
{
    reveal(patch_fill);
    if k > 0 {
        lemma_patch_fill_stop(flash, base, w0, start, l, metadata, (k - 1) as nat);
    }
}

proof fn lemma_plan_layout(flash: Seq<u8>, base: u32, metadata_off: u32, start_offset: u32, ram_start: u32)
    ensures
        spec_plan(flash, base, metadata_off, start_offset, ram_start) matches Ok(Rt0Plan::Stop(s)) ==> s != 0,
        spec_plan(flash, base, metadata_off, start_offset, ram_start) matches Ok(Rt0Plan::Go { .. }) ==> ({
            let l = planned_layout(flash, base, metadata_off, start_offset, ram_start);
            &&& l.rel_got == ram_start
            &&& l.rel_rom_ram == addr32(ram_start + l.got)
            &&& l.rel_ram == addr32(l.rel_rom_ram + l.rom_ram)
        }),
{
    reveal(spec_plan);
}

/// After a successful run, each whole word of the RAM GOT holds the run-time
/// address of the offset that the image's GOT holds at the same place: in
/// flash for `.rom`, in the RAM window for the other sections. (For a layout
/// whose GOT and the sections after it fit below 4 GiB.)
pub proof fn lemma_rt0_relocates_got(
    flash: Seq<u8>,
    base: u32,
    metadata_off: u32,
    start_offset: u32,
    ram_start: u32,
    ctx_addr: u32,
    window: Seq<u8>,
    i: int,
)
    requires
        spec_rt0_run(flash, base, metadata_off, start_offset, ram_start, ctx_addr, window) matches Ok((res, _))
            && res.status == 0,
        ({
            let l = planned_layout(flash, base, metadata_off, start_offset, ram_start);
            l.got + l.rom_ram + l.ram < 0x1_0000_0000 && 0 <= i && 4 * i + 4 <= l.got
        }),
    ensures
        relocated_got_word(flash, base, planned_layout(flash, base, metadata_off, start_offset, ram_start), i)
            == Some(le_word(run_window(flash, base, metadata_off, start_offset, ram_start, ctx_addr, window), 4 * i)),
{
    let l = planned_layout(flash, base, metadata_off, start_offset, ram_start);
    lemma_plan_layout(flash, base, metadata_off, start_offset, ram_start);
    match spec_plan(flash, base, metadata_off, start_offset, ram_start) {
        Ok(Rt0Plan::Go { layout, metadata, patches, entry, end }) => {
            assert(layout == l);
            match spec_copy_rom_ram(flash, base, window, ram_start, l) {
                Ok(w1) => match spec_clear_ram(w1, ram_start, l) {
                    Ok(w2) => {
                        lemma_got_fill_words(flash, base, w2, ram_start, l, got_entries(l.got));
                        lemma_got_fill_stop(flash, base, w2, ram_start, l, got_entries(l.got));
                        match got_fill(flash, base, w2, ram_start, l, got_entries(l.got)) {
                            Ok(Rt0Step::Done(w3)) => {
                                assert(i < got_entries(l.got));
                                assert(relocated_got_word(flash, base, l, i) == Some(le_word(w3, 4 * i)));
                                lemma_patch_fill_keeps_got(flash, base, w3, ram_start, l, metadata, patches as nat);
                                lemma_patch_fill_stop(flash, base, w3, ram_start, l, metadata, patches as nat);
                                match patch_fill(flash, base, w3, ram_start, l, metadata, patches as nat) {
                                    Ok(Rt0Step::Done(w4)) => {
                                        assert(le_word(w4, 4 * i) == le_word(w3, 4 * i));
                                        assert(run_window(flash, base, metadata_off, start_offset, ram_start, ctx_addr, window) == w4);
                                    },
                                    _ => {},
                                }
                            },
                            _ => {},
                        }
                    },
                    _ => {},
                },
                _ => {},
            }
        },
        _ => {},
    }
}

} // verus!

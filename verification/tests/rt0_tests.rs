use xiprfs_fae_tools::rt0::{
    resolve_binary_offset, round_up, rustrt0_thumb_run, Rt0Fault, Rt0Layout, Rt0Result,
};
use xiprfs_fae_tools::xipfs_ctx::{XipfsRt0Ctx, XipfsRt0CtxData, XipfsSyscall, XIPFS_EXEC_ARGC_MAX};

const BASE: u32 = 0x0800_0000;
const RAM: u32 = 0x2000_0000;
const CTX_ADDR: u32 = 0x2000_7F00;

fn words(ws: &[u32]) -> Vec<u8> {
    ws.iter().flat_map(|w| w.to_le_bytes()).collect()
}

/// Metadata (image size, one listed pointer, its offset, no padding), then
/// `.rom`, `.got`, `.rom.ram`, then the footer.
fn sample_image(magic: u32, entry: u32, patch: u32) -> Vec<u8> {
    let mut image = words(&[68, 1, patch, 0]);
    image.extend(words(&[0x1111_1111, 0x2222_2222]));
    image.extend(words(&[4, 16]));
    image.extend(words(&[0xAAAA_AAAA, 0]));
    image.extend(words(&[8, 8, 8, 8, entry, 0, magic]));
    assert_eq!(image.len(), 68);
    image
}

fn ctx() -> XipfsRt0Ctx {
    XipfsRt0Ctx { bin_base: BASE, ram_start: RAM, ram_end: RAM + 0x1000, nvm_start: BASE + 0x1000, nvm_end: BASE + 0x2000, argv: 0 }
}

fn ctx_data() -> XipfsRt0CtxData {
    XipfsRt0CtxData {
        file_base: BASE,
        is_safe_call: 0,
        syscall_table: 0,
        argc: 0,
        argv: [0; XIPFS_EXEC_ARGC_MAX],
        former_got: 0x1234,
        current_got: 0,
    }
}

fn run(image: &[u8], window: &mut Vec<u8>) -> (Result<Rt0Result, Rt0Fault>, u32) {
    let mut data = ctx_data();
    let r = rustrt0_thumb_run(&ctx(), CTX_ADDR, &mut data, image, 0, 0, window);
    assert_eq!(data.former_got, 0x1234);
    (r, data.current_got)
}

fn word_at(bytes: &[u8], i: usize) -> u32 {
    u32::from_le_bytes([bytes[i], bytes[i + 1], bytes[i + 2], bytes[i + 3]])
}

#[test]
fn startup_relocates_got_and_listed_pointer() {
    let image = sample_image(0xFACADE12, 4, 20);
    let mut window = vec![0xEE; 24];
    let (result, current_got) = run(&image, &mut window);
    let result = result.unwrap();
    assert_eq!(current_got, RAM);
    assert_eq!(
        result,
        Rt0Result {
            status: 0,
            next_ram: RAM + 24,
            next_nvm: BASE + 96,
            entry: BASE + 20,
            got: RAM,
            ctx_addr: CTX_ADDR,
        }
    );
    assert_eq!(word_at(&window, 0), BASE + 20);
    assert_eq!(word_at(&window, 4), RAM + 8);
    assert_eq!(word_at(&window, 8), 0xAAAA_AAAA);
    assert_eq!(word_at(&window, 12), BASE + 16);
    assert_eq!(&window[16..], &[0u8; 8]);
}

#[test]
fn startup_refuses_other_magic_without_writing() {
    let image = sample_image(0xFACADE10, 4, 20);
    let mut window = vec![0xEE; 24];
    let (result, current_got) = run(&image, &mut window);
    let result = result.unwrap();
    assert_eq!(current_got, 0);
    assert_eq!(result.status, 1);
    assert_eq!(result.entry, 0);
    assert_eq!(result.ctx_addr, CTX_ADDR);
    assert_eq!(window, vec![0xEE; 24]);
}

#[test]
fn startup_statuses_for_bad_offsets() {
    let mut window = vec![0; 24];
    let past_rom = sample_image(0xFACADE12, 12, 20);
    let stopped = run(&past_rom, &mut window).0.unwrap();
    assert_eq!(stopped.status, 3);
    assert_eq!(stopped.ctx_addr, CTX_ADDR);
    let into_rom = sample_image(0xFACADE12, 4, 4);
    assert_eq!(run(&into_rom, &mut window).0.unwrap().status, 4);
    let into_got = sample_image(0xFACADE12, 4, 12);
    assert_eq!(run(&into_got, &mut window).0.unwrap().status, 5);
    let past_ram = sample_image(0xFACADE12, 4, 40);
    assert_eq!(run(&past_ram, &mut window).0.unwrap().status, 3);
}

#[test]
fn startup_model_faults_outside_memory() {
    let image = sample_image(0xFACADE12, 4, 20);
    let mut small = vec![0; 8];
    assert_eq!(run(&image, &mut small), (Err(Rt0Fault::OutsideWindow), 0));
    let mut window = vec![0; 24];
    assert_eq!(run(&image[..40], &mut window), (Err(Rt0Fault::OutsideImage), 0));
}

#[test]
fn offsets_resolve_section_by_section() {
    let l = Rt0Layout {
        rom_addr: 0x100,
        got_addr: 0x110,
        rom_ram_addr: 0x118,
        rel_got: 0x2000,
        rel_rom_ram: 0x2008,
        rel_ram: 0x2010,
        rom: 0x10,
        got: 8,
        rom_ram: 8,
        ram: 4,
    };
    assert_eq!(resolve_binary_offset(0, &l), Some(0x100));
    assert_eq!(resolve_binary_offset(0x0f, &l), Some(0x10f));
    assert_eq!(resolve_binary_offset(0x10, &l), Some(0x2000));
    assert_eq!(resolve_binary_offset(0x18, &l), Some(0x2008));
    assert_eq!(resolve_binary_offset(0x20, &l), Some(0x2010));
    assert_eq!(resolve_binary_offset(0x24, &l), None);
}

#[test]
fn round_up_wraps_like_the_device() {
    assert_eq!(round_up(0, 32), 0);
    assert_eq!(round_up(33, 32), 64);
    assert_eq!(round_up(64, 32), 64);
    assert_eq!(round_up(u32::MAX - 3, 32), 0);
}

#[test]
fn syscall_slots_follow_declaration_order() {
    assert_eq!(XipfsSyscall::Exit.index(), 0);
    assert_eq!(XipfsSyscall::Vprintf.index(), 1);
    assert_eq!(XipfsSyscall::Memset.index(), 9);
    assert_eq!(XipfsSyscall::Max.index(), 10);
}

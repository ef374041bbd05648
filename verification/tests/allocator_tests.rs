use xiprfs_fae_tools::allocator::{FirstFitAllocator, HEAP_SIZE};

const BASE: u32 = 0x2000_0000;

fn heap() -> FirstFitAllocator {
    let mut a = FirstFitAllocator::new(BASE);
    a.init();
    a
}

#[test]
fn nothing_before_set_up() {
    let mut a = FirstFitAllocator::new(BASE);
    assert_eq!(a.allocate(16, 4), 0);
    a.deallocate(0);
    a.init();
    assert_eq!(a.allocate(16, 4), BASE + 8);
}

#[test]
fn first_fit_splits_blocks_in_order() {
    let mut a = heap();
    assert_eq!(a.allocate(16, 4), BASE + 8);
    assert_eq!(a.allocate(4, 8), BASE + 32);
    assert_eq!(a.allocate(0, 1), BASE + 44);
}

#[test]
fn alignment_is_honoured() {
    let mut a = heap();
    assert_eq!(a.allocate(1, 64), BASE + 64);
    let p = a.allocate(3, 256);
    assert_eq!(p % 256, 0);
    assert_eq!(p, BASE + 256);
}

#[test]
fn too_large_requests_get_null() {
    let mut a = heap();
    assert_eq!(a.allocate(HEAP_SIZE, 4), 0);
    assert_eq!(a.allocate(HEAP_SIZE - 8, 4), BASE + 8);
    assert_eq!(a.allocate(1, 4), 0);
}

#[test]
fn freed_block_is_reused_whole_when_remainder_is_small() {
    let mut a = heap();
    let p = a.allocate(16, 4);
    let q = a.allocate(4, 8);
    a.deallocate(p);
    assert_eq!(a.allocate(16, 4), p);
    assert_eq!(a.allocate(8, 4), q + 12);
}

#[test]
fn freeing_everything_merges_back_to_one_block() {
    let mut a = heap();
    let p = a.allocate(100, 4);
    let q = a.allocate(200, 4);
    let r = a.allocate(300, 4);
    assert!(p != 0 && q != 0 && r != 0);
    a.deallocate(q);
    a.deallocate(p);
    a.deallocate(r);
    assert_eq!(a.allocate(HEAP_SIZE - 8, 4), BASE + 8);
}

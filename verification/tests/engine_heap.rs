use loqng::engine::heap::{Heap, HEAP, HEAP_SIZE};

#[test]
fn blocks_are_whole_eights() {
    let mut h = Heap::new();
    assert_eq!(h.allot(1), HEAP);
    assert_eq!(h.allot(8), HEAP + 8);
    assert_eq!(h.allot(9), HEAP + 16);
    assert_eq!(h.allot(0), HEAP + 32);
    assert_eq!(h.size(HEAP + 16), 16);
    assert_eq!(h.size(HEAP + 17), 0);
}

#[test]
fn the_first_freed_block_that_fits_is_used_whole() {
    let mut h = Heap::new();
    let a = h.allot(8);
    let b = h.allot(64);
    let c = h.allot(16);
    h.free(a);
    h.free(b);
    h.free(c);
    assert_eq!(h.allot(16), b);
    assert_eq!(h.size(b), 64);
    assert_eq!(h.allot(16), c);
    assert_eq!(h.allot(1), a);
    h.free(a);
    h.free(a);
    assert_eq!(h.allot(1), a);
    assert_ne!(h.allot(1), a);
}

#[test]
fn the_heap_has_an_end() {
    let mut h = Heap::new();
    assert!(h.has_room(HEAP_SIZE));
    assert!(!h.has_room(HEAP_SIZE + 1));
    let a = h.allot(HEAP_SIZE);
    assert!(!h.has_room(0));
    h.free(a);
    assert!(h.has_room(5));
}

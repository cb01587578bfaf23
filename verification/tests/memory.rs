use defunct::memory::arena::Arena;
use defunct::memory::heap::{Heap, HeapInner, SpanSet};
use defunct::memory::sizes::{
    generate_class_to_alloc_pages, generate_size_to_class, get_alloc_pages, get_obj_size,
    get_size_class, CLASS_TO_ALLOC_PAGES, CLASS_TO_SIZE, SIZE_TO_CLASS,
};
use defunct::memory::span::Span;

const BASE: u64 = 0x400_0000;
const PAGE: u64 = 8192;

#[test]
fn arena_takes_the_first_run_that_fits() {
    let mut arena = Arena::new(BASE);
    assert_eq!(arena.base(), BASE);
    assert_eq!(arena.count(), 0);
    assert_eq!(arena.try_alloc(3), Some(BASE));
    assert_eq!(arena.try_alloc(2), Some(BASE + 3 * PAGE));
    assert_eq!(arena.try_alloc(4), Some(BASE + 5 * PAGE));
    assert_eq!(arena.count(), 9);
    assert_eq!(arena.bits()[0], 0b1111_1111);
    assert_eq!(arena.bits()[1], 0b0000_0001);
    arena.dealloc(BASE + 3 * PAGE, 2);
    assert_eq!(arena.count(), 7);
    assert_eq!(arena.bits()[0], 0b1110_0111);
    assert_eq!(arena.try_alloc(3), Some(BASE + 9 * PAGE));
    assert_eq!(arena.try_alloc(2), Some(BASE + 3 * PAGE));
    assert_eq!(arena.try_alloc(1), Some(BASE + 12 * PAGE));
    assert_eq!(arena.count(), 13);
}

#[test]
fn arena_without_room_changes_nothing() {
    let mut arena = Arena::new(BASE);
    assert_eq!(arena.try_alloc(8192), Some(BASE));
    assert_eq!(arena.count(), 8192);
    assert_eq!(arena.try_alloc(1), None);
    assert_eq!(arena.count(), 8192);
    arena.dealloc(BASE + 100 * PAGE, 1);
    arena.dealloc(BASE + 100 * PAGE, 1);
    assert_eq!(arena.count(), 8191);
    assert_eq!(arena.try_alloc(2), None);
    assert_eq!(arena.try_alloc(1), Some(BASE + 100 * PAGE));
    assert_eq!(arena.try_alloc(8193), None);
    let mut fresh = Arena::new(BASE);
    assert_eq!(fresh.try_alloc(0), Some(BASE));
    assert_eq!(fresh.count(), 0);
}

#[test]
fn size_classes() {
    assert_eq!(get_size_class(1), 1);
    assert_eq!(get_size_class(16), 1);
    assert_eq!(get_size_class(17), 2);
    assert_eq!(get_size_class(1024), 30);
    assert_eq!(get_size_class(1025), 31);
    assert_eq!(get_size_class(32768), 65);
    assert_eq!(get_size_class(32641), 65);
    assert_eq!(get_size_class(32769), 0);
    assert_eq!(get_size_class(0), 0);
    assert_eq!(get_obj_size(1), 16);
    assert_eq!(get_obj_size(65), 32768);
    assert_eq!(get_alloc_pages(1), 1);
    assert_eq!(get_alloc_pages(47), 5);
    assert_eq!(get_alloc_pages(65), 4);
    for size in 1..=32768usize {
        let class = get_size_class(size);
        assert!(get_obj_size(class) >= size);
        assert!(get_obj_size(class - 1) < size);
    }
    for class in 1..66 {
        let bytes = get_alloc_pages(class) * 8192;
        assert!(8 * (bytes % get_obj_size(class)) < bytes);
    }
}

#[test]
fn tables_are_what_their_generators_make() {
    assert_eq!(generate_size_to_class(), SIZE_TO_CLASS);
    assert_eq!(generate_class_to_alloc_pages(), CLASS_TO_ALLOC_PAGES);
    assert_eq!(CLASS_TO_SIZE.len(), 66);
    assert_eq!(SIZE_TO_CLASS[128], 30);
    assert_eq!(SIZE_TO_CLASS[376], 65);
}

#[test]
fn span_hands_out_its_slots_in_order() {
    let mut span = Span::new(BASE, 3);
    assert_eq!(span.obj_size, 48);
    assert_eq!(span.pages, 1);
    assert_eq!(span.capacity, 170);
    assert!(!span.is_full());
    for i in 0..170u64 {
        assert_eq!(span.allocate(), Some(BASE + 48 * i));
    }
    assert!(span.is_full());
    assert_eq!(span.count, 170);
    assert_eq!(span.allocate(), None);
    assert_eq!(span.count, 170);
}

#[test]
fn span_set_moves_full_spans_aside() {
    let mut set = SpanSet::new(65, 32768);
    assert!(set.is_full());
    assert_eq!(set.allocate(), None);
    set.add_span(Span::new(BASE, 65));
    assert!(!set.is_full());
    assert_eq!(set.allocate(), Some(BASE));
    assert!(set.is_full());
    assert_eq!(set.allocate(), None);
    set.add_span(Span::new(BASE + 4 * PAGE, 65));
    assert_eq!(set.allocate(), Some(BASE + 4 * PAGE));
}

#[test]
fn heap_serves_by_size_class() {
    let mut heap = HeapInner::new();
    let a = heap.allocate(16).unwrap();
    let b = heap.allocate(10).unwrap();
    assert_eq!(a, BASE);
    assert_eq!(b, BASE + 16);
    let c = heap.allocate(100).unwrap();
    assert_eq!(c, BASE + PAGE);
    assert_eq!(heap.allocate(112), Some(BASE + PAGE + 112));
    assert_eq!(heap.allocate(8), Some(BASE + 32));
    assert_eq!(heap.allocate(0), None);
    assert_eq!(heap.allocate(32769), None);
    assert_eq!(heap.alloc_large(40000), None);
    let big = heap.allocate(32768).unwrap();
    assert_eq!(big, BASE + 2 * PAGE);
    assert_eq!(heap.allocate(32768), Some(BASE + 6 * PAGE));
    let span = heap.alloc_span(1).unwrap();
    assert_eq!(span.base, BASE + 10 * PAGE);
}

#[test]
fn heap_never_hands_an_address_out_twice() {
    let mut heap = Heap::new();
    let mut seen = std::collections::HashSet::new();
    for i in 0..5000usize {
        let size = 1 + (i * 37) % 600;
        let addr = heap.allocate(size).unwrap();
        assert_eq!(addr % 16, 0);
        assert!(addr >= BASE);
        assert!(seen.insert(addr), "address handed out twice");
    }
    heap.deallocate(BASE, 16);
    assert!(seen.insert(heap.allocate(16).unwrap()));
}

#[test]
fn heap_opens_a_new_arena_when_the_first_is_full() {
    let mut heap = HeapInner::new();
    let mut last = 0;
    for _ in 0..2049 {
        last = heap.allocate(32768).unwrap();
    }
    assert_eq!(last, 2 * BASE);
    assert_eq!(heap.allocate(16), Some(2 * BASE + 4 * PAGE));
}

#[test]
fn pages_taken_in_an_arena_are_the_pages_of_its_spans() {
    let mut heap = HeapInner::new();
    for i in 0..3000usize {
        heap.allocate(1 + (i * 131) % 32768).unwrap();
    }
    for _ in 0..2100 {
        heap.allocate(32768).unwrap();
    }
    assert!(heap.arena_count() >= 2);
    let mut pages = vec![0usize; heap.arena_count()];
    for class in 0..66 {
        for (base, span_pages) in heap.spans_of_class(class) {
            assert_eq!(span_pages, get_alloc_pages(class));
            pages[(base / BASE) as usize - 1] += span_pages;
        }
    }
    for a in 0..heap.arena_count() {
        assert_eq!(heap.pages_taken(a), pages[a]);
        assert!(pages[a] > 0);
    }
}

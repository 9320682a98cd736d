use stellaros::allocator::{StackPageAllocator, StackPageAllocatorMetadata};
use stellaros::memory::{Address, PageAllocator};

fn pool(base: usize, pages: usize) -> StackPageAllocator {
    let mut metadata = StackPageAllocatorMetadata::new();
    metadata.init(Address::new(base), pages);
    StackPageAllocator::new(metadata)
}

#[test]
fn fresh_pool_hands_out_nothing_yet() {
    let alloc = pool(0x1000_0000, 4);
    assert_eq!(alloc.top().into_usize(), 0x1000_0000);
    let range = alloc.metadata().range();
    assert_eq!(range.addr().into_usize(), 0x1000_0000);
    assert_eq!(range.size(), 4 * 4096);
    assert_eq!(alloc.metadata().used().size(), 0);
}

#[test]
fn pool_of_four_pages_grants_three_and_refuses_two() {
    let mut alloc = pool(0x1000_0000, 4);
    let page = alloc.alloc_pages(3);
    assert!(page.is_ok());
    let page = page.unwrap();
    assert_eq!(page.base().into_usize(), 0x1000_0000);
    assert_eq!(page.page_num(), 3);
    assert_eq!(page.size(), 3 * 4096);
    assert_eq!(alloc.top().into_usize(), 0x1000_3000);
    let second = alloc.alloc_pages(2);
    assert_eq!(second.err(), Some("Page stack overflow"));
    assert_eq!(alloc.top().into_usize(), 0x1000_3000);
    let last = alloc.alloc_pages(1);
    assert!(last.is_ok());
    assert_eq!(last.unwrap().base().into_usize(), 0x1000_3000);
    assert_eq!(alloc.top().into_usize(), 0x1000_4000);
    assert_eq!(alloc.alloc_pages(1).err(), Some("Page stack overflow"));
}

#[test]
fn top_moves_by_the_size_of_each_grant() {
    let mut alloc = pool(0x2000_0000, 10);
    let mut expected = 0x2000_0000;
    for n in [1usize, 2, 3, 4] {
        let before = alloc.top().into_usize();
        assert_eq!(before, expected);
        let r = alloc.alloc_pages(n);
        assert!(r.is_ok());
        expected += n * 4096;
        assert_eq!(alloc.top().into_usize(), expected);
    }
    assert_eq!(alloc.alloc_pages(1).err(), Some("Page stack overflow"));
    assert_eq!(alloc.top().into_usize(), expected);
}

#[test]
fn zero_pages_are_always_granted() {
    let mut alloc = pool(0x1000_0000, 0);
    let r = alloc.alloc_pages(0);
    assert!(r.is_ok());
    assert_eq!(alloc.top().into_usize(), 0x1000_0000);
}

#[test]
fn huge_request_is_refused_without_overflow() {
    let mut alloc = pool(0x1000_0000, 4);
    assert_eq!(alloc.alloc_pages(usize::MAX).err(), Some("Page stack overflow"));
    assert_eq!(alloc.top().into_usize(), 0x1000_0000);
}

#[test]
fn pages_are_never_taken_back() {
    let mut alloc = pool(0x1000_0000, 4);
    let mut page = alloc.alloc_pages(1).unwrap();
    assert_eq!(alloc.free_pages(&mut page), Err("Page stack free not supported"));
    assert_eq!(alloc.top().into_usize(), 0x1000_1000);
    let (base, num) = page.into_raw();
    assert_eq!(base.into_usize(), 0x1000_0000);
    assert_eq!(num, 1);
}

#[test]
fn released_pages_are_refused_by_the_pool() {
    let mut alloc = pool(0x1000_0000, 4);
    let page = alloc.alloc_pages(2).unwrap();
    assert_eq!(page.release(&mut alloc), Err("Page stack free not supported"));
    assert_eq!(alloc.top().into_usize(), 0x1000_2000);
}

use guest_runtime::abi::zkvm_abi_alloc_words;
use guest_runtime::bump::BumpPointerAlloc;
use guest_runtime::error::AllocError;
use guest_runtime::region::Strategy;

const TOP: usize = 0x0C00_0000;

fn countdown(capacity: usize, word: usize) -> BumpPointerAlloc {
    BumpPointerAlloc::countdown_from(TOP, capacity, word).unwrap()
}

fn growing(start: usize, word: usize) -> BumpPointerAlloc {
    BumpPointerAlloc::growing_from(start, word).unwrap()
}

#[test]
fn full_capacity_request_then_halt() {
    let mut heap = countdown(4096, 4);
    assert_eq!(heap.remaining_words(), 4096);
    assert_eq!(zkvm_abi_alloc_words(&mut heap, 4096), Ok(TOP - 4096 * 4));
    assert_eq!(heap.remaining_words(), 0);
    assert_eq!(heap.cursor(), TOP);
    assert_eq!(zkvm_abi_alloc_words(&mut heap, 1), Err(AllocError::OutOfMemory));
    assert_eq!(heap.remaining_words(), 0);
    assert_eq!(heap.cursor(), TOP);
}

#[test]
fn full_capacity_request_with_wide_words() {
    let mut heap = countdown(4096, 8);
    assert_eq!(heap.allocate_words(4096), Ok(TOP - 4096 * 8));
    assert_eq!(heap.allocate_words(1), Err(AllocError::OutOfMemory));
}

#[test]
fn countdown_address_is_top_minus_remaining_words() {
    let mut heap = countdown(100, 4);
    assert_eq!(heap.allocate_words(10), Ok(TOP - 100 * 4));
    assert_eq!(heap.remaining_words(), 90);
    assert_eq!(heap.allocate_words(25), Ok(TOP - 90 * 4));
    assert_eq!(heap.remaining_words(), 65);
    assert_eq!(heap.allocate_words(65), Ok(TOP - 65 * 4));
    assert_eq!(heap.remaining_words(), 0);
}

#[test]
fn one_word_too_many_is_refused_and_changes_nothing() {
    let mut heap = countdown(16, 4);
    assert_eq!(heap.allocate_words(6), Ok(TOP - 64));
    let cursor = heap.cursor();
    assert_eq!(heap.allocate_words(11), Err(AllocError::OutOfMemory));
    assert_eq!(heap.cursor(), cursor);
    assert_eq!(heap.remaining_words(), 10);
    assert_eq!(heap.allocate_words(10), Ok(cursor));
    assert_eq!(heap.remaining_words(), 0);
}

#[test]
fn zero_words_returns_cursor_and_changes_nothing() {
    let mut heap = countdown(32, 4);
    let mut twin = countdown(32, 4);
    assert_eq!(heap.allocate_words(3), twin.allocate_words(3));
    let cursor = heap.cursor();
    let remaining = heap.remaining_words();
    assert_eq!(zkvm_abi_alloc_words(&mut heap, 0), Ok(cursor));
    assert_eq!(heap.cursor(), cursor);
    assert_eq!(heap.remaining_words(), remaining);
    assert_eq!(heap.allocate_words(7), twin.allocate_words(7));
    assert_eq!(heap.cursor(), twin.cursor());
}

#[test]
fn zero_words_from_an_exhausted_region_returns_the_top() {
    let mut heap = countdown(2, 4);
    assert_eq!(heap.allocate_words(2), Ok(TOP - 8));
    assert_eq!(heap.allocate_words(0), Ok(TOP));
    assert_eq!(heap.allocate_words(0), Ok(TOP));
    assert_eq!(heap.remaining_words(), 0);
}

#[test]
fn zero_words_in_a_growing_region() {
    let mut heap = growing(0x8000, 4);
    assert_eq!(heap.allocate_words(0), Ok(0x8000));
    assert_eq!(heap.cursor(), 0x8000);
    assert_eq!(heap.allocate_words(2), Ok(0x8000));
    assert_eq!(heap.allocate_words(0), Ok(0x8008));
    assert_eq!(heap.cursor(), 0x8008);
}

#[test]
fn growing_region_returns_cursor_then_advances() {
    let mut heap = growing(0x1000, 8);
    assert_eq!(heap.strategy(), Strategy::Growing);
    assert_eq!(heap.allocate_words(1), Ok(0x1000));
    assert_eq!(heap.allocate_words(3), Ok(0x1008));
    assert_eq!(heap.allocate_words(2), Ok(0x1020));
    assert_eq!(heap.cursor(), 0x1030);
}

#[test]
fn growing_region_stops_at_the_end_of_the_address_space() {
    let start = usize::MAX - 15 - 64;
    let mut heap = growing(start, 8);
    assert_eq!(heap.remaining_words(), (usize::MAX - start) / 8);
    assert_eq!(heap.remaining_words(), 9);
    assert_eq!(heap.allocate_words(10), Err(AllocError::OutOfMemory));
    assert_eq!(heap.cursor(), start);
    assert_eq!(heap.allocate_words(usize::MAX), Err(AllocError::OutOfMemory));
    assert_eq!(heap.allocate_words(9), Ok(start));
    assert_eq!(heap.remaining_words(), 0);
    assert_eq!(heap.allocate_words(1), Err(AllocError::OutOfMemory));
}

#[test]
fn byte_sizes_round_up_to_whole_words() {
    let mut heap = growing(0x2000, 4);
    assert_eq!(heap.allocate(1, 1), Ok(0x2000));
    assert_eq!(heap.cursor(), 0x2004);
    assert_eq!(heap.allocate(4, 4), Ok(0x2004));
    assert_eq!(heap.cursor(), 0x2008);
    assert_eq!(heap.allocate(5, 2), Ok(0x2008));
    assert_eq!(heap.cursor(), 0x2010);
    assert_eq!(heap.allocate(0, 1), Ok(0x2010));
    assert_eq!(heap.cursor(), 0x2010);
    assert_eq!(heap.allocate(13, 4), Ok(0x2010));
    assert_eq!(heap.cursor(), 0x2020);
}

#[test]
fn byte_sizes_round_up_to_wide_words() {
    let mut heap = countdown(8, 8);
    assert_eq!(heap.allocate(9, 8), Ok(TOP - 64));
    assert_eq!(heap.remaining_words(), 6);
    assert_eq!(heap.allocate(8, 1), Ok(TOP - 48));
    assert_eq!(heap.remaining_words(), 5);
    assert_eq!(heap.allocate(33, 2), Ok(TOP - 40));
    assert_eq!(heap.remaining_words(), 0);
}

#[test]
fn served_addresses_are_multiples_of_the_alignment() {
    for word in [4usize, 8] {
        let mut heap = countdown(1024, word);
        let mut align = 1;
        while align <= word {
            for size in [0usize, 1, 3, 4, 7, 8, 9, 31] {
                let addr = heap.allocate(size, align).unwrap();
                assert_eq!(addr % align, 0);
                assert_eq!(addr % word, 0);
            }
            align *= 2;
        }
    }
}

#[test]
fn alignment_above_the_word_is_refused() {
    let mut heap = countdown(64, 4);
    assert_eq!(heap.allocate(16, 8), Err(AllocError::UnsupportedAlignment));
    assert_eq!(heap.allocate(16, 16), Err(AllocError::UnsupportedAlignment));
    assert_eq!(heap.allocate(16, 4096), Err(AllocError::UnsupportedAlignment));
    assert_eq!(heap.remaining_words(), 64);
    let mut wide = countdown(64, 8);
    assert_eq!(wide.allocate(16, 8), Ok(TOP - 64 * 8));
    assert_eq!(wide.allocate(16, 16), Err(AllocError::UnsupportedAlignment));
    assert_eq!(wide.remaining_words(), 62);
}

#[test]
fn alignment_that_is_no_power_of_two_is_refused() {
    let mut heap = growing(0x4000, 8);
    for align in [0usize, 3, 5, 6, 7] {
        assert_eq!(heap.allocate(8, align), Err(AllocError::UnsupportedAlignment));
        assert_eq!(heap.alloc_zeroed(8, align), Err(AllocError::UnsupportedAlignment));
    }
    assert_eq!(heap.cursor(), 0x4000);
}

#[test]
fn unsupported_alignment_is_reported_before_exhaustion() {
    let mut heap = countdown(1, 4);
    assert_eq!(heap.allocate(400, 16), Err(AllocError::UnsupportedAlignment));
    assert_eq!(heap.allocate(400, 4), Err(AllocError::OutOfMemory));
    assert_eq!(heap.allocate(5, 4), Err(AllocError::OutOfMemory));
    assert_eq!(heap.allocate(4, 4), Ok(TOP - 4));
}

#[test]
fn huge_byte_request_is_out_of_memory() {
    let mut heap = countdown(4096, 4);
    assert_eq!(heap.allocate(usize::MAX, 1), Err(AllocError::OutOfMemory));
    assert_eq!(heap.remaining_words(), 4096);
    let mut open = growing(0x1000, 4);
    assert_eq!(open.allocate(usize::MAX, 4), Err(AllocError::OutOfMemory));
    assert_eq!(open.cursor(), 0x1000);
}

#[test]
fn alloc_zeroed_serves_as_allocate_does() {
    let mut heap = countdown(64, 4);
    let mut twin = countdown(64, 4);
    for (size, align) in [(1usize, 1usize), (6, 2), (0, 4), (17, 4), (3, 8), (1000, 4)] {
        assert_eq!(heap.alloc_zeroed(size, align), twin.allocate(size, align));
        assert_eq!(heap.cursor(), twin.cursor());
        assert_eq!(heap.remaining_words(), twin.remaining_words());
    }
}

#[test]
fn dealloc_changes_no_later_answer() {
    let mut heap = countdown(64, 4);
    let mut twin = countdown(64, 4);
    let first = heap.allocate(24, 4).unwrap();
    assert_eq!(twin.allocate(24, 4), Ok(first));
    heap.dealloc(first, 24, 4);
    assert_eq!(heap.cursor(), twin.cursor());
    assert_eq!(heap.remaining_words(), twin.remaining_words());
    let second = heap.allocate(24, 4).unwrap();
    assert_eq!(twin.allocate(24, 4), Ok(second));
    assert_ne!(second, first);
    heap.dealloc(0, 0, 0);
    heap.dealloc(second, 1 << 20, 64);
    assert_eq!(heap.allocate_words(53), Err(AllocError::OutOfMemory));
    assert_eq!(heap.allocate_words(52), twin.allocate_words(52));
    assert_eq!(heap.allocate_words(1), Err(AllocError::OutOfMemory));
}

#[test]
fn served_ranges_do_not_overlap() {
    let requests = [3usize, 0, 1, 7, 2, 0, 19];
    let word = 4;
    let mut heap = countdown(32, word);
    let base = heap.cursor();
    let mut ranges: Vec<(usize, usize)> = Vec::new();
    for n in requests {
        let start = heap.allocate_words(n).unwrap();
        ranges.push((start, start + n * word));
    }
    assert_eq!(heap.remaining_words(), 0);
    for i in 0..ranges.len() {
        assert!(base <= ranges[i].0 && ranges[i].1 <= TOP);
        for j in (i + 1)..ranges.len() {
            assert!(ranges[i].1 <= ranges[j].0);
        }
    }
}

#[test]
fn mixed_requests_share_one_region() {
    let mut heap = countdown(10, 8);
    let a = heap.allocate(12, 4).unwrap();
    let b = zkvm_abi_alloc_words(&mut heap, 3).unwrap();
    let c = heap.alloc_zeroed(1, 1).unwrap();
    assert_eq!(a, TOP - 80);
    assert_eq!(b, a + 16);
    assert_eq!(c, b + 24);
    assert_eq!(heap.remaining_words(), 4);
}

#[test]
fn constructors_accept_only_valid_regions() {
    assert!(BumpPointerAlloc::growing_from(0x1000, 4).is_some());
    assert!(BumpPointerAlloc::growing_from(0x1000, 8).is_some());
    assert!(BumpPointerAlloc::growing_from(0x1000, 2).is_none());
    assert!(BumpPointerAlloc::growing_from(0x1000, 0).is_none());
    assert!(BumpPointerAlloc::growing_from(0x1000, 16).is_none());
    assert!(BumpPointerAlloc::growing_from(0, 4).is_none());
    assert!(BumpPointerAlloc::growing_from(0x1002, 4).is_none());
    assert!(BumpPointerAlloc::growing_from(0x1004, 8).is_none());
    assert!(BumpPointerAlloc::growing_from(0x1004, 4).is_some());

    assert!(BumpPointerAlloc::countdown_from(TOP, 4096, 4).is_some());
    assert!(BumpPointerAlloc::countdown_from(TOP, 0, 8).is_some());
    assert!(BumpPointerAlloc::countdown_from(TOP, 4096, 3).is_none());
    assert!(BumpPointerAlloc::countdown_from(TOP + 4, 4096, 8).is_none());
    assert!(BumpPointerAlloc::countdown_from(TOP + 2, 4096, 4).is_none());
    assert!(BumpPointerAlloc::countdown_from(0, 0, 4).is_none());
    assert!(BumpPointerAlloc::countdown_from(64, 16, 4).is_none());
    assert!(BumpPointerAlloc::countdown_from(64, 15, 4).is_some());
    assert!(BumpPointerAlloc::countdown_from(TOP, usize::MAX, 8).is_none());
}

#[test]
fn getters_report_the_region() {
    let heap = countdown(12, 8);
    assert_eq!(heap.word_size(), 8);
    assert_eq!(heap.strategy(), Strategy::Countdown);
    assert_eq!(heap.cursor(), TOP - 96);
    assert_eq!(heap.remaining_words(), 12);
    let open = growing(0x40, 4);
    assert_eq!(open.word_size(), 4);
    assert_eq!(open.strategy(), Strategy::Growing);
    assert_eq!(open.cursor(), 0x40);
    assert_eq!(open.remaining_words(), (usize::MAX - 0x40) / 4);
}

use mmap_allocator::allocator::{AllocError, MmapAllocator};
use mmap_allocator::memory_ops::{read_memory, write_memory};

#[test]
fn allocate_write_read_release() {
    let mut allocator = MmapAllocator::new();
    let region = allocator.allocate(100, Ok(0x7f00_0000_0000)).unwrap();
    assert_eq!(region.size, 4096);
    let mut memory = vec![0u8; region.size];
    assert_eq!(write_memory(&mut memory, "hello"), Ok(()));
    assert_eq!(read_memory(&memory, 5), Ok("hello".to_string()));
    assert!(allocator.deallocate(region.base_address).is_ok());
    assert_eq!(allocator.deallocate(region.base_address), Err(AllocError::NotFound));
}

#[test]
fn write_then_read_returns_the_text() {
    let texts = ["", "a", "hello world", "gr\u{fc}\u{df}e", "\u{65e5}\u{672c}\u{8a9e}", "\u{1f600} ok"];
    for text in texts {
        let mut memory = vec![0xAAu8; 64];
        assert_eq!(write_memory(&mut memory, text), Ok(()));
        assert_eq!(read_memory(&memory, text.len()), Ok(text.to_string()));
    }
}

#[test]
fn write_that_fills_the_region_reads_back() {
    let mut memory = vec![0u8; 8];
    write_memory(&mut memory, "12345678").unwrap();
    assert_eq!(read_memory(&memory, 8), Ok("12345678".to_string()));
}

#[test]
fn write_leaves_the_rest_of_the_region() {
    let mut memory = vec![7u8; 6];
    write_memory(&mut memory, "ab").unwrap();
    assert_eq!(memory, vec![b'a', b'b', 7, 7, 7, 7]);
}

#[test]
fn write_of_nothing_changes_nothing() {
    let mut memory = vec![1u8, 2, 3];
    write_memory(&mut memory, "").unwrap();
    assert_eq!(memory, vec![1u8, 2, 3]);
}

#[test]
fn write_truncates_to_the_region() {
    let mut memory = vec![0u8; 4];
    assert_eq!(write_memory(&mut memory, "abcdefgh"), Ok(()));
    assert_eq!(memory, vec![b'a', b'b', b'c', b'd']);
}

#[test]
fn write_does_not_touch_the_byte_behind_the_region() {
    let mut backing = vec![0u8; 4097];
    backing[4096] = 0x5A;
    let payload = "x".repeat(5000);
    {
        let (region, sentinel) = backing.split_at_mut(4096);
        assert_eq!(write_memory(region, &payload), Ok(()));
        assert_eq!(sentinel[0], 0x5A);
    }
    assert!(backing[..4096].iter().all(|byte| *byte == b'x'));
    assert_eq!(backing[4096], 0x5A);
}

#[test]
fn write_into_an_empty_region() {
    let mut memory: Vec<u8> = Vec::new();
    assert_eq!(write_memory(&mut memory, "abc"), Ok(()));
    assert!(memory.is_empty());
}

#[test]
fn read_clamps_to_the_region() {
    let mut backing = vec![b'r'; 8];
    backing[4] = b'N';
    backing[5] = b'N';
    let text = read_memory(&backing[..4], 100).unwrap();
    assert_eq!(text, "rrrr");
    assert_eq!(read_memory(&backing[..4], usize::MAX), Ok("rrrr".to_string()));
}

#[test]
fn read_of_a_part() {
    let memory = b"hello world".to_vec();
    assert_eq!(read_memory(&memory, 5), Ok("hello".to_string()));
    assert_eq!(read_memory(&memory, 11), Ok("hello world".to_string()));
    assert_eq!(read_memory(&memory, 0), Ok(String::new()));
}

#[test]
fn read_of_fresh_memory_gives_zero_characters() {
    let memory = vec![0u8; 4096];
    assert_eq!(read_memory(&memory, 3), Ok("\0\0\0".to_string()));
}

#[test]
fn read_of_bytes_that_are_no_text_lists_them() {
    let memory = vec![0xFFu8, 0xFE, 65];
    assert_eq!(read_memory(&memory, 3), Ok("[255, 254, 65]".to_string()));
    assert_eq!(read_memory(&memory, 1), Ok("[255]".to_string()));
}

#[test]
fn read_that_cuts_a_character_lists_the_bytes() {
    let mut memory = vec![0u8; 16];
    write_memory(&mut memory, "\u{e9}").unwrap();
    assert_eq!(read_memory(&memory, 2), Ok("\u{e9}".to_string()));
    assert_eq!(read_memory(&memory, 1), Ok("[195]".to_string()));
}

#[test]
fn read_does_not_change_the_region() {
    let memory = vec![1u8, 2, 3, 4];
    let copy = memory.clone();
    read_memory(&memory, 4).unwrap();
    assert_eq!(memory, copy);
}

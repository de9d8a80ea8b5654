use xori::memory::{decode_le, encode_le, AddressSpace, MemError, MemoryType};

fn space() -> AddressSpace {
    let mut space = AddressSpace::new();
    space.register(0x1000, MemoryType::Image, true, vec![1, 2, 3, 4, 5, 6, 7, 8]).unwrap();
    space.register(0x2000, MemoryType::Stack, true, vec![0; 16]).unwrap();
    space.register(0x3000, MemoryType::Other, false, vec![9, 9]).unwrap();
    space
}

#[test]
fn read_copies_the_range() {
    let space = space();
    assert_eq!(space.read(0x1002, 3), Ok(vec![3, 4, 5]));
    assert_eq!(space.read(0x1000, 8), Ok(vec![1, 2, 3, 4, 5, 6, 7, 8]));
    assert_eq!(space.read(0x1008, 0), Ok(vec![]));
}

#[test]
fn read_outside_every_region_is_out_of_bounds() {
    let space = space();
    assert_eq!(space.read(0x1006, 3), Err(MemError::OutOfBounds));
    assert_eq!(space.read(0x0fff, 1), Err(MemError::OutOfBounds));
    assert_eq!(space.read(0x5000, 1), Err(MemError::OutOfBounds));
    assert_eq!(space.read(u64::MAX, 2), Err(MemError::OutOfBounds));
}

#[test]
fn write_lays_bytes_over_the_region() {
    let mut space = space();
    assert_eq!(space.write(0x2004, &[0xaa, 0xbb]), Ok(()));
    assert_eq!(space.read(0x2003, 4), Ok(vec![0, 0xaa, 0xbb, 0]));
    assert_eq!(space.read(0x1000, 2), Ok(vec![1, 2]));
}

#[test]
fn write_is_refused_outside_and_on_read_only_regions() {
    let mut space = space();
    assert_eq!(space.write(0x200f, &[1, 2]), Err(MemError::OutOfBounds));
    assert_eq!(space.write(0x3000, &[1]), Err(MemError::ReadOnlyRegion));
    assert_eq!(space.read(0x3000, 2), Ok(vec![9, 9]));
    assert_eq!(space.read(0x2000, 16), Ok(vec![0; 16]));
}

#[test]
fn region_for_finds_the_region_of_an_address() {
    let space = space();
    let region = space.region_for(0x2005).unwrap();
    assert_eq!(region.base_addr, 0x2000);
    assert_eq!(region.mem_type, MemoryType::Stack);
    assert_eq!(space.region_for(0x2010).err(), Some(MemError::Unmapped));
    assert_eq!(space.region_for(0).err(), Some(MemError::Unmapped));
}

#[test]
fn overlapping_regions_resolve_to_the_first() {
    let mut space = AddressSpace::new();
    space.register(0x1000, MemoryType::Image, true, vec![1; 4]).unwrap();
    space.register(0x1002, MemoryType::Heap, true, vec![2; 4]).unwrap();
    assert_eq!(space.read(0x1002, 2), Ok(vec![1, 1]));
    assert_eq!(space.read(0x1003, 2), Ok(vec![2, 2]));
    assert_eq!(space.region_for(0x1003).unwrap().mem_type, MemoryType::Image);
    assert_eq!(space.len(), 2);
    assert_eq!(space.region(1).base_addr, 0x1002);
}

#[test]
fn window_stops_at_the_end_of_the_region() {
    let space = space();
    assert_eq!(space.window(0x1000, 16), Ok(vec![1, 2, 3, 4, 5, 6, 7, 8]));
    assert_eq!(space.window(0x1006, 16), Ok(vec![7, 8]));
    assert_eq!(space.window(0x1001, 3), Ok(vec![2, 3, 4]));
    assert_eq!(space.window(0x1008, 16), Err(MemError::Unmapped));
}

#[test]
fn region_past_the_address_range_is_refused() {
    let mut space = AddressSpace::new();
    assert_eq!(
        space.register(u64::MAX - 1, MemoryType::Other, true, vec![0; 4]),
        Err(MemError::OutOfBounds)
    );
    assert_eq!(space.len(), 0);
    assert_eq!(space.register(u64::MAX - 4, MemoryType::Other, true, vec![0; 4]), Ok(()));
}

#[test]
fn words_are_little_endian() {
    assert_eq!(decode_le(&[0x78, 0x56, 0x34, 0x12]), 0x12345678);
    assert_eq!(decode_le(&[]), 0);
    assert_eq!(decode_le(&[0xff; 8]), u64::MAX);
    assert_eq!(encode_le(0x12345678, 4), vec![0x78, 0x56, 0x34, 0x12]);
    assert_eq!(encode_le(0x12345678, 2), vec![0x78, 0x56]);
    assert_eq!(encode_le(1, 8), vec![1, 0, 0, 0, 0, 0, 0, 0]);
}

#[test]
fn word_written_is_word_read() {
    let mut space = space();
    assert!(space.write_word(0x2008, 0xdeadbeef, 4));
    assert_eq!(space.read_word(0x2008, 4), Some(0xdeadbeef));
    assert_eq!(space.read_word(0x2008, 2), Some(0xbeef));
    assert_eq!(space.read(0x2008, 4), Ok(vec![0xef, 0xbe, 0xad, 0xde]));
    assert!(!space.write_word(0x200e, 1, 4));
    assert_eq!(space.read_word(0x200e, 4), None);
    assert_eq!(space.read_word(0x1000, 8), Some(0x0807060504030201));
}

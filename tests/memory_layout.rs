use polkavm::abi::VM_ADDR_RETURN_TO_HOST;
use polkavm::memory::{decode, encode, MemoryConfig, Region};
use polkavm::program::{LoadKind, StoreKind};

fn layout() -> MemoryConfig {
    MemoryConfig {
        ro_data_address: 0x20000,
        ro_data_size: 0x1000,
        heap_address: 0x10000,
        heap_size: 0x2000,
        stack_address: 0xfffe_0000,
        stack_size: 0x1000,
    }
}

#[test]
fn valid_layout_is_accepted() {
    assert!(layout().check());
}

#[test]
fn overlapping_regions_are_refused() {
    let mut config = layout();
    config.heap_size = 0x11000;
    assert!(!config.check());
}

#[test]
fn unaligned_regions_are_refused() {
    let mut config = layout();
    config.stack_address = 0xfffe_0800;
    assert!(!config.check());
}

#[test]
fn region_over_return_address_is_refused() {
    let mut config = layout();
    config.stack_address = VM_ADDR_RETURN_TO_HOST;
    assert!(!config.check());
}

#[test]
fn region_past_address_space_is_refused() {
    let mut config = layout();
    config.stack_address = 0xffff_f000;
    config.stack_size = 0x2000;
    assert!(!config.check());
}

#[test]
fn empty_regions_are_accepted() {
    let mut config = layout();
    config.ro_data_size = 0;
    config.stack_size = 0;
    assert!(config.check());
    assert_eq!(config.find_region(0x20000), None);
}

#[test]
fn addresses_find_their_region() {
    let config = layout();
    assert_eq!(config.find_region(0x10000), Some(Region::Heap));
    assert_eq!(config.find_region(0x11fff), Some(Region::Heap));
    assert_eq!(config.find_region(0x12000), None);
    assert_eq!(config.find_region(0x20000), Some(Region::ReadOnly));
    assert_eq!(config.find_region(0xfffe_0fff), Some(Region::Stack));
    assert_eq!(config.find_region(0), None);
    assert_eq!(config.region_start(Region::Stack), 0xfffe_0000);
    assert_eq!(config.region_size(Region::Heap), 0x2000);
}

#[test]
fn little_endian_encoding() {
    assert_eq!(encode(StoreKind::U8, 0x1ff), vec![0xff]);
    assert_eq!(encode(StoreKind::U16, 0x12345678), vec![0x78, 0x56]);
    assert_eq!(encode(StoreKind::U32, 0x12345678), vec![0x78, 0x56, 0x34, 0x12]);
}

#[test]
fn loads_extend_to_32_bits() {
    assert_eq!(decode(LoadKind::U8, &[0x80]), 0x80);
    assert_eq!(decode(LoadKind::I8, &[0x80]), 0xffff_ff80);
    assert_eq!(decode(LoadKind::I8, &[0x7f]), 0x7f);
    assert_eq!(decode(LoadKind::U16, &[0x34, 0x12]), 0x1234);
    assert_eq!(decode(LoadKind::I16, &[0x00, 0x80]), 0xffff_8000);
    assert_eq!(decode(LoadKind::I16, &[0xff, 0x7f]), 0x7fff);
    assert_eq!(decode(LoadKind::U32, &[0x78, 0x56, 0x34, 0x12]), 0x12345678);
}

#[test]
fn encoding_round_trips_through_unsigned_loads() {
    for value in [0u32, 1, 0x80, 0xffff, 0x1234_5678, u32::MAX] {
        assert_eq!(decode(LoadKind::U8, &encode(StoreKind::U8, value)), value & 0xff);
        assert_eq!(decode(LoadKind::U16, &encode(StoreKind::U16, value)), value & 0xffff);
        assert_eq!(decode(LoadKind::U32, &encode(StoreKind::U32, value)), value);
    }
}

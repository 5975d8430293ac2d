use move_native::memory::Memory;

#[test]
fn new_store_is_zeroed() {
    let mem = Memory::new(5);
    assert_eq!(mem.len(), 5);
    assert_eq!(mem.bytes, vec![0u8; 5]);
}

#[test]
fn write_le_orders_bytes_least_significant_first() {
    let mut mem = Memory::new(6);
    mem.write_le(1, 4, 0x0403_0201);
    assert_eq!(mem.bytes, vec![0, 1, 2, 3, 4, 0]);
    assert_eq!(mem.read_le(1, 4), 0x0403_0201);
    assert_eq!(mem.read_le(1, 2), 0x0201);
    assert_eq!(mem.read_le(3, 3), 0x0403);
}

#[test]
fn read_le_of_sixteen_bytes_reaches_the_largest_value() {
    let mut mem = Memory::new(16);
    mem.write_le(0, 16, u128::MAX);
    assert_eq!(mem.bytes, vec![0xff; 16]);
    assert_eq!(mem.read_le(0, 16), u128::MAX);
}

#[test]
fn write_u8_at_changes_one_byte() {
    let mut mem = Memory::new(3);
    mem.write_u8_at(1, 9);
    assert_eq!(mem.bytes, vec![0, 9, 0]);
    assert_eq!(mem.read_u8_at(1), 9);
}

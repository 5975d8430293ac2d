use move_native::conv::{borrow_move_value_as_rust_value, store_scalar, BorrowedTypedMoveValue as V};
use move_native::memory::Memory;
use move_native::rt_types::{AccountAddress, MoveType, SignerCapability, StructTypeInfo, U256};

fn round_trip(t: &MoveType, v: V) {
    let mut mem = Memory::new(40);
    store_scalar(&mut mem, 3, &v);
    assert_eq!(borrow_move_value_as_rust_value(&mem, t, 3), v);
}

#[test]
fn every_scalar_kind_reads_back_what_was_stored() {
    round_trip(&MoveType::Bool, V::Bool(true));
    round_trip(&MoveType::Bool, V::Bool(false));
    round_trip(&MoveType::U8, V::U8(0xab));
    round_trip(&MoveType::U16, V::U16(0xbeef));
    round_trip(&MoveType::U32, V::U32(0xdead_beef));
    round_trip(&MoveType::U64, V::U64(u64::MAX - 1));
    round_trip(&MoveType::U128, V::U128(0x0123_4567_89ab_cdef_0011_2233_4455_6677));
    round_trip(&MoveType::U256, V::U256(U256 { lo: 5, hi: 7 }));
    round_trip(&MoveType::Address, V::Address(AccountAddress { lo: 1, hi: 2 }));
    round_trip(
        &MoveType::Signer,
        V::Signer(SignerCapability { addr: AccountAddress { lo: 3, hi: u128::MAX } }),
    );
}

#[test]
fn largest_u256_reads_back_exactly() {
    let max = U256 { lo: u128::MAX, hi: u128::MAX };
    round_trip(&MoveType::U256, V::U256(max));
}

#[test]
fn stored_bytes_are_little_endian() {
    let mut mem = Memory::new(4);
    store_scalar(&mut mem, 1, &V::U16(0x0102));
    assert_eq!(mem.bytes, vec![0, 2, 1, 0]);
    store_scalar(&mut mem, 0, &V::Bool(true));
    assert_eq!(mem.bytes, vec![1, 2, 1, 0]);
}

#[test]
fn u256_halves_are_read_low_then_high() {
    let mut mem = Memory::new(32);
    mem.write_le(0, 16, 11);
    mem.write_le(16, 16, 22);
    assert_eq!(
        borrow_move_value_as_rust_value(&mem, &MoveType::U256, 0),
        V::U256(U256 { lo: 11, hi: 22 })
    );
}

#[test]
fn compound_views_carry_type_and_address() {
    let mut mem = Memory::new(48);
    let elem = MoveType::U8;
    let vt = MoveType::Vector(Box::new(MoveType::U8));
    assert_eq!(borrow_move_value_as_rust_value(&mem, &vt, 8), V::Vector(&elem, 8));
    let st = MoveType::Struct(StructTypeInfo { fields: vec![], size: 0, alignment: 1 });
    assert_eq!(borrow_move_value_as_rust_value(&mem, &st, 5), V::Struct(&st, 5));
    mem.write_le(0, 8, 40);
    let rt = MoveType::Reference(Box::new(MoveType::U64));
    assert_eq!(
        borrow_move_value_as_rust_value(&mem, &rt, 0),
        V::Reference(&MoveType::U64, 40)
    );
}

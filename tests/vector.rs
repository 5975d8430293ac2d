use move_native::memory::Memory;
use move_native::rt_types::MoveType;
use move_native::vector::TypedMoveBorrowedRustVec;

fn write_header(mem: &mut Memory, header: usize, ptr: usize, len: u64) {
    mem.write_le(header, 8, ptr as u128);
    mem.write_le(header + 8, 8, len as u128);
    mem.write_le(header + 16, 8, len as u128);
}

fn write_u64s(mem: &mut Memory, ptr: usize, xs: &[u64]) {
    for (i, x) in xs.iter().enumerate() {
        mem.write_le(ptr + 8 * i, 8, *x as u128);
    }
}

/// Headers at 0, 24, 48, 72; elements from 100 on.
fn store_with(a: &[u64], b: &[u64]) -> Memory {
    let mut mem = Memory::new(400);
    write_header(&mut mem, 0, 100, a.len() as u64);
    write_u64s(&mut mem, 100, a);
    write_header(&mut mem, 24, 250, b.len() as u64);
    write_u64s(&mut mem, 250, b);
    mem
}

#[test]
fn handle_reads_length_and_element_addresses() {
    let mem = store_with(&[10, 20, 30], &[]);
    let v = TypedMoveBorrowedRustVec::new(&mem, &MoveType::U64, 0);
    assert_eq!(v.len(), 3);
    assert_eq!(v.ptr, 100);
    assert_eq!(v.borrow(&mem, 2), 116);
    assert_eq!(v.iter(&mem), vec![100, 108, 116]);
}

#[test]
fn vector_equals_itself() {
    let mem = store_with(&[1, 2, 3], &[]);
    let v = TypedMoveBorrowedRustVec::new(&mem, &MoveType::U64, 0);
    assert!(v.cmp_eq(&mem, &v));
}

#[test]
fn vectors_with_equal_elements_at_different_places_are_equal() {
    let mem = store_with(&[1, 2, 3], &[1, 2, 3]);
    let v1 = TypedMoveBorrowedRustVec::new(&mem, &MoveType::U64, 0);
    let v2 = TypedMoveBorrowedRustVec::new(&mem, &MoveType::U64, 24);
    assert!(v1.cmp_eq(&mem, &v2));
    assert!(v2.cmp_eq(&mem, &v1));
}

#[test]
fn vectors_of_different_lengths_are_unequal() {
    let mem = store_with(&[1, 2, 3], &[1, 2]);
    let v1 = TypedMoveBorrowedRustVec::new(&mem, &MoveType::U64, 0);
    let v2 = TypedMoveBorrowedRustVec::new(&mem, &MoveType::U64, 24);
    assert!(!v1.cmp_eq(&mem, &v2));
    assert!(!v2.cmp_eq(&mem, &v1));
}

#[test]
fn vectors_with_one_differing_element_are_unequal() {
    let mem = store_with(&[1, 2, 3], &[1, 9, 3]);
    let v1 = TypedMoveBorrowedRustVec::new(&mem, &MoveType::U64, 0);
    let v2 = TypedMoveBorrowedRustVec::new(&mem, &MoveType::U64, 24);
    assert!(!v1.cmp_eq(&mem, &v2));
}

#[test]
fn empty_vectors_are_equal() {
    let mem = store_with(&[], &[]);
    let v1 = TypedMoveBorrowedRustVec::new(&mem, &MoveType::U64, 0);
    let v2 = TypedMoveBorrowedRustVec::new(&mem, &MoveType::U64, 24);
    assert_eq!(v1.len(), 0);
    assert!(v1.cmp_eq(&mem, &v2));
}

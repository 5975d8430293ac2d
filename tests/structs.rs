use move_native::conv::{store_scalar, BorrowedTypedMoveValue as V};
use move_native::memory::Memory;
use move_native::rt_types::{
    fits_in, is_comparable, is_well_formed, MoveType, StructFieldInfo, StructTypeInfo,
};
use move_native::structs::{cmp_eq, equal, try_equal, walk_fields, walk_fields_mut};

fn field(type_: MoveType, offset: u64, name: &str) -> StructFieldInfo {
    StructFieldInfo { type_, offset, name: name.to_string() }
}

fn point_info() -> StructTypeInfo {
    StructTypeInfo {
        fields: vec![field(MoveType::U64, 0, "x"), field(MoveType::U64, 8, "y")],
        size: 16,
        alignment: 8,
    }
}

fn store_point(mem: &mut Memory, at: usize, x: u64, y: u64) {
    store_scalar(mem, at, &V::U64(x));
    store_scalar(mem, at + 8, &V::U64(y));
}

#[test]
fn point_walk_yields_x_then_y() {
    let info = point_info();
    let fields = walk_fields(&info, 64);
    assert_eq!(fields.len(), 2);
    assert_eq!(*fields[0].type_, MoveType::U64);
    assert_eq!(fields[0].ptr, 64);
    assert_eq!(fields[0].name.as_str(), "x");
    assert_eq!(*fields[1].type_, MoveType::U64);
    assert_eq!(fields[1].ptr, 72);
    assert_eq!(fields[1].name.as_str(), "y");
}

#[test]
fn point_equality() {
    let t = MoveType::Struct(point_info());
    let mut mem = Memory::new(48);
    store_point(&mut mem, 0, 3, 4);
    store_point(&mut mem, 16, 3, 4);
    store_point(&mut mem, 32, 3, 5);
    assert!(cmp_eq(&mem, &t, 0, 16));
    assert!(equal(&mem, &t, 0, 16));
    assert!(!cmp_eq(&mem, &t, 0, 32));
    assert!(!equal(&mem, &t, 32, 0));
}

#[test]
fn walk_visits_every_field_in_order_at_base_plus_offset() {
    let info = StructTypeInfo {
        fields: vec![
            field(MoveType::Bool, 0, "a"),
            field(MoveType::U32, 4, "b"),
            field(MoveType::U128, 16, "c"),
            field(MoveType::Address, 32, "d"),
        ],
        size: 64,
        alignment: 16,
    };
    let fields = walk_fields(&info, 1000);
    assert_eq!(fields.len(), 4);
    let names: Vec<&str> = fields.iter().map(|f| f.name.as_str()).collect();
    assert_eq!(names, vec!["a", "b", "c", "d"]);
    let ptrs: Vec<usize> = fields.iter().map(|f| f.ptr).collect();
    assert_eq!(ptrs, vec![1000, 1004, 1016, 1032]);
    assert_eq!(*fields[2].type_, MoveType::U128);
}

#[test]
fn walk_of_empty_struct_yields_nothing() {
    let info = StructTypeInfo { fields: vec![], size: 0, alignment: 1 };
    assert!(walk_fields(&info, 7).is_empty());
}

#[test]
fn mutable_walk_matches_read_only_walk() {
    let info = point_info();
    let mut mem = Memory::new(32);
    store_point(&mut mem, 16, 1, 2);
    let before = mem.bytes.clone();
    let ro: Vec<(usize, String)> =
        walk_fields(&info, 16).iter().map(|f| (f.ptr, f.name.clone())).collect();
    let rw: Vec<(usize, String)> =
        walk_fields_mut(&info, &mut mem, 16).iter().map(|f| (f.ptr, f.name.clone())).collect();
    assert_eq!(ro, rw);
    assert_eq!(mem.bytes, before);
}

#[test]
fn equality_is_symmetric_over_mixed_fields() {
    let t = MoveType::Struct(StructTypeInfo {
        fields: vec![field(MoveType::Bool, 0, "flag"), field(MoveType::U16, 2, "n")],
        size: 4,
        alignment: 2,
    });
    let mut mem = Memory::new(12);
    store_scalar(&mut mem, 0, &V::Bool(true));
    store_scalar(&mut mem, 2, &V::U16(300));
    store_scalar(&mut mem, 4, &V::Bool(true));
    store_scalar(&mut mem, 6, &V::U16(300));
    store_scalar(&mut mem, 8, &V::Bool(false));
    store_scalar(&mut mem, 10, &V::U16(300));
    assert!(equal(&mem, &t, 0, 4));
    assert!(equal(&mem, &t, 4, 0));
    assert!(!equal(&mem, &t, 0, 8));
    assert!(!equal(&mem, &t, 8, 0));
    assert!(equal(&mem, &t, 8, 8));
}

/// `Outer { items: vector<Inner>, tag: u8 }` with `Inner { a: u8, b: u32 }`.
fn outer_type() -> MoveType {
    let inner = MoveType::Struct(StructTypeInfo {
        fields: vec![field(MoveType::U8, 0, "a"), field(MoveType::U32, 4, "b")],
        size: 8,
        alignment: 4,
    });
    MoveType::Struct(StructTypeInfo {
        fields: vec![
            field(MoveType::Vector(Box::new(inner)), 0, "items"),
            field(MoveType::U8, 24, "tag"),
        ],
        size: 32,
        alignment: 8,
    })
}

/// An `Outer` at `at` whose items start at `items`.
fn store_outer(mem: &mut Memory, at: usize, items: usize, elems: &[(u8, u32)], tag: u8) {
    mem.write_le(at, 8, items as u128);
    mem.write_le(at + 8, 8, elems.len() as u128);
    mem.write_le(at + 16, 8, elems.len() as u128);
    for (i, (a, b)) in elems.iter().enumerate() {
        store_scalar(mem, items + 8 * i, &V::U8(*a));
        store_scalar(mem, items + 8 * i + 4, &V::U32(*b));
    }
    store_scalar(mem, at + 24, &V::U8(tag));
}

#[test]
fn nested_struct_equals_its_copy_and_not_after_a_leaf_changes() {
    let t = outer_type();
    let elems = [(1u8, 10u32), (2, 20), (3, 30)];
    let mut mem = Memory::new(256);
    store_outer(&mut mem, 0, 100, &elems, 7);
    store_outer(&mut mem, 32, 150, &elems, 7);
    assert!(is_well_formed(&t));
    assert!(fits_in(&mem, &t, 0));
    assert!(equal(&mem, &t, 0, 32));
    assert_eq!(try_equal(&mem, &t, 32, 0), Some(true));

    store_scalar(&mut mem, 150 + 8 + 4, &V::U32(21));
    assert!(!equal(&mem, &t, 0, 32));
    store_scalar(&mut mem, 150 + 8 + 4, &V::U32(20));
    assert!(equal(&mem, &t, 0, 32));
    store_scalar(&mut mem, 150 + 16, &V::U8(4));
    assert!(!equal(&mem, &t, 0, 32));
    store_scalar(&mut mem, 150 + 16, &V::U8(3));
    store_scalar(&mut mem, 32 + 24, &V::U8(8));
    assert_eq!(try_equal(&mem, &t, 0, 32), Some(false));
}

#[test]
fn reference_field_is_refused() {
    let t = MoveType::Struct(StructTypeInfo {
        fields: vec![
            field(MoveType::U64, 0, "n"),
            field(MoveType::Reference(Box::new(MoveType::U64)), 8, "r"),
        ],
        size: 16,
        alignment: 8,
    });
    let mem = Memory::new(64);
    assert!(!is_well_formed(&t));
    assert!(!is_comparable(&t));
    assert_eq!(try_equal(&mem, &t, 0, 16), None);
}

#[test]
fn top_level_reference_is_not_comparable() {
    let t = MoveType::Reference(Box::new(MoveType::U8));
    let mem = Memory::new(16);
    assert!(is_well_formed(&t));
    assert!(!is_comparable(&t));
    assert_eq!(try_equal(&mem, &t, 0, 8), None);
}

#[test]
fn field_outside_its_struct_is_refused() {
    let t = MoveType::Struct(StructTypeInfo {
        fields: vec![field(MoveType::U64, 4, "x")],
        size: 8,
        alignment: 8,
    });
    assert!(!is_well_formed(&t));
    assert_eq!(try_equal(&Memory::new(32), &t, 0, 8), None);
}

#[test]
fn values_outside_the_store_are_refused() {
    let t = MoveType::Struct(point_info());
    let mem = Memory::new(24);
    assert!(fits_in(&mem, &t, 8));
    assert!(!fits_in(&mem, &t, 9));
    assert_eq!(try_equal(&mem, &t, 0, 9), None);
    assert_eq!(try_equal(&mem, &t, 0, 8), Some(true));
}

#[test]
fn vector_whose_elements_leave_the_store_does_not_fit() {
    let t = MoveType::Vector(Box::new(MoveType::U64));
    let mut mem = Memory::new(64);
    mem.write_le(0, 8, 40);
    mem.write_le(16, 8, 3);
    assert!(fits_in(&mem, &t, 0));
    mem.write_le(16, 8, 4);
    assert!(!fits_in(&mem, &t, 0));
}

//! Walking the fields of a struct, and structural equality of values.
use vstd::prelude::*;
use crate::conv::{borrow_move_value_as_rust_value, num_at, BorrowedTypedMoveValue as BTMV};
use crate::memory::{le_value, lemma_le_value_injective, Memory};
use crate::rt_types::{
    fits_in, is_comparable, is_well_formed, comparable, elem_addr, ref_target, type_size, type_wf, value_fits, vec_len, FieldRef, MoveType,
    StructTypeInfo,
};
use crate::vector::{vector_of, TypedMoveBorrowedRustVec};

verus! {

/// Whether the values of type `t` at `a` and at `b` are equal, part by part.
pub open spec fn values_equal(mem: Seq<u8>, t: MoveType, a: int, b: int) -> bool
    decreases t,
{
    match t {
        MoveType::Bool => (mem[a] != 0) == (mem[b] != 0),
        MoveType::Vector(e) => {
            &&& vec_len(mem, a) == vec_len(mem, b)
            &&& forall|i: int|
                #![trigger elem_addr(mem, a, *e, i)]
                0 <= i < vec_len(mem, a) ==> values_equal(
                    mem,
                    *e,
                    elem_addr(mem, a, *e, i),
                    elem_addr(mem, b, *e, i),
                )
        },
        MoveType::Struct(info) => forall|i: int|
            #![trigger info.fields@[i]]
            0 <= i < info.fields@.len() ==> values_equal(
                mem,
                info.fields@[i].type_,
                a + info.fields@[i].offset,
                b + info.fields@[i].offset,
            ),
        MoveType::Reference(inner) => values_equal(
            mem,
            *inner,
            ref_target(mem, a) as int,
            ref_target(mem, b) as int,
        ),
        _ => mem.subrange(a, a + type_size(t)) == mem.subrange(b, b + type_size(t)),
    }
}

/// Every value equals itself.
pub proof fn lemma_values_equal_reflexive(mem: Seq<u8>, t: MoveType, a: int)
    ensures
        values_equal(mem, t, a, a),
    decreases t,
{
    match t {
        MoveType::Vector(e) => {
            assert forall|i: int| #![trigger elem_addr(mem, a, *e, i)]
                0 <= i < vec_len(mem, a) implies values_equal(
                mem,
                *e,
                elem_addr(mem, a, *e, i),
                elem_addr(mem, a, *e, i),
            ) by {
                lemma_values_equal_reflexive(mem, *e, elem_addr(mem, a, *e, i));
            }
        },
        MoveType::Struct(info) => {
            assert forall|i: int| #![trigger info.fields@[i]]
                0 <= i < info.fields@.len() implies values_equal(
                mem,
                info.fields@[i].type_,
                a + info.fields@[i].offset,
                a + info.fields@[i].offset,
            ) by {
                lemma_values_equal_reflexive(mem, info.fields@[i].type_, a + info.fields@[i].offset);
            }
        },
        MoveType::Reference(inner) => {
            lemma_values_equal_reflexive(mem, *inner, ref_target(mem, a) as int);
        },
        _ => {},
    }
}

/// Equality does not depend on the order of the two values.
pub proof fn lemma_values_equal_symmetric(mem: Seq<u8>, t: MoveType, a: int, b: int)
    ensures
        values_equal(mem, t, a, b) == values_equal(mem, t, b, a),
    decreases t,
{
    match t {
        MoveType::Vector(e) => {
            assert forall|i: int| 0 <= i < vec_len(mem, a) && 0 <= i < vec_len(mem, b) implies #[trigger]
                values_equal(mem, *e, elem_addr(mem, a, *e, i), elem_addr(mem, b, *e, i))
                == values_equal(mem, *e, elem_addr(mem, b, *e, i), elem_addr(mem, a, *e, i)) by {
                lemma_values_equal_symmetric(mem, *e, elem_addr(mem, a, *e, i), elem_addr(mem, b, *e, i));
            }
            if values_equal(mem, t, a, b) {
                assert forall|i: int| #![trigger elem_addr(mem, b, *e, i)]
                    0 <= i < vec_len(mem, b) implies values_equal(
                    mem,
                    *e,
                    elem_addr(mem, b, *e, i),
                    elem_addr(mem, a, *e, i),
                ) by {
                    assert(values_equal(mem, *e, elem_addr(mem, a, *e, i), elem_addr(mem, b, *e, i)));
                }
            }
            if values_equal(mem, t, b, a) {
                assert forall|i: int| #![trigger elem_addr(mem, a, *e, i)]
                    0 <= i < vec_len(mem, a) implies values_equal(
                    mem,
                    *e,
                    elem_addr(mem, a, *e, i),
                    elem_addr(mem, b, *e, i),
                ) by {
                    assert(values_equal(mem, *e, elem_addr(mem, b, *e, i), elem_addr(mem, a, *e, i)));
                }
            }
        },
        MoveType::Struct(info) => {
            assert forall|i: int| #![trigger info.fields@[i]] 0 <= i < info.fields@.len() implies
                values_equal(mem, info.fields@[i].type_, a + info.fields@[i].offset, b + info.fields@[i].offset)
                == values_equal(mem, info.fields@[i].type_, b + info.fields@[i].offset, a + info.fields@[i].offset) by {
                lemma_values_equal_symmetric(
                    mem,
                    info.fields@[i].type_,
                    a + info.fields@[i].offset,
                    b + info.fields@[i].offset,
                );
            }
        },
        MoveType::Reference(inner) => {
            lemma_values_equal_symmetric(mem, *inner, ref_target(mem, a) as int, ref_target(mem, b) as int);
        },
        _ => {},
    }
}

/// Two structs of one layout are equal exactly when every pair of fields is.
pub proof fn lemma_struct_equal_fieldwise(mem: Seq<u8>, info: StructTypeInfo, a: int, b: int)
    ensures
        values_equal(mem, MoveType::Struct(info), a, b) == forall|i: int|
            #![trigger info.fields@[i]]
            0 <= i < info.fields@.len() ==> values_equal(
                mem,
                info.fields@[i].type_,
                a + info.fields@[i].offset,
                b + info.fields@[i].offset,
            ),
{
}

/// A vector equals itself; two vectors of different lengths are unequal; so are two
/// vectors of one length with a pair of unequal elements.
pub proof fn lemma_vector_equality(mem: Seq<u8>, e: MoveType, a: int, b: int, k: int)
    ensures
        values_equal(mem, vector_of(e), a, a),
        vec_len(mem, a) != vec_len(mem, b) ==> !values_equal(mem, vector_of(e), a, b),
        0 <= k < vec_len(mem, a) && !values_equal(mem, e, elem_addr(mem, a, e, k), elem_addr(mem, b, e, k))
            ==> !values_equal(mem, vector_of(e), a, b),
{
    lemma_values_equal_reflexive(mem, vector_of(e), a);
    assert(elem_addr(mem, a, e, k) == elem_addr(mem, a, e, k));
}

/// Two runs of `n` bytes hold the same number exactly when they hold the same bytes.
proof fn lemma_num_eq(mem: Seq<u8>, a: int, b: int, n: int)
    requires
        0 <= a,
        0 <= b,
        0 <= n,
        a + n <= mem.len(),
        b + n <= mem.len(),
    ensures
        (num_at(mem, a, n) == num_at(mem, b, n)) == (mem.subrange(a, a + n) == mem.subrange(b, b + n)),
{
    if num_at(mem, a, n) == num_at(mem, b, n) {
        lemma_le_value_injective(mem.subrange(a, a + n), mem.subrange(b, b + n));
    }
}

/// Two runs of 32 bytes are equal exactly when both halves are.
proof fn lemma_halves_eq(mem: Seq<u8>, a: int, b: int)
    requires
        0 <= a,
        0 <= b,
        a + 32 <= mem.len(),
        b + 32 <= mem.len(),
    ensures
        (num_at(mem, a, 16) == num_at(mem, b, 16) && num_at(mem, a + 16, 16) == num_at(mem, b + 16, 16))
            == (mem.subrange(a, a + 32) == mem.subrange(b, b + 32)),
{
    lemma_num_eq(mem, a, b, 16);
    lemma_num_eq(mem, a + 16, b + 16, 16);
    assert(mem.subrange(a, a + 32) =~= mem.subrange(a, a + 16) + mem.subrange(a + 16, a + 32));
    assert(mem.subrange(b, b + 32) =~= mem.subrange(b, b + 16) + mem.subrange(b + 16, b + 32));
    if mem.subrange(a, a + 32) == mem.subrange(b, b + 32) {
        assert(mem.subrange(a, a + 16) =~= mem.subrange(a, a + 32).subrange(0, 16));
        assert(mem.subrange(b, b + 16) =~= mem.subrange(b, b + 32).subrange(0, 16));
        assert(mem.subrange(a + 16, a + 32) =~= mem.subrange(a, a + 32).subrange(16, 32));
        assert(mem.subrange(b + 16, b + 32) =~= mem.subrange(b, b + 32).subrange(16, 32));
    }
}

/// `r` lists the fields of the struct laid out by `info` at `base`, in declaration
/// order: each with its type, its address (`base` plus its offset) and its name.
pub open spec fn walks_fields(info: StructTypeInfo, base: int, r: Seq<FieldRef>) -> bool {
    &&& r.len() == info.fields@.len()
    &&& forall|i: int|
        #![trigger r[i]]
        0 <= i < r.len() ==> {
            &&& *r[i].type_ == info.fields@[i].type_
            &&& r[i].ptr == base + info.fields@[i].offset
            &&& *r[i].name == info.fields@[i].name
        }
}

/// No field address of the struct laid out by `info` at `base` passes the largest address.
pub open spec fn field_addrs_in_range(info: StructTypeInfo, base: int) -> bool {
    forall|i: int|
        #![trigger info.fields@[i]]
        0 <= i < info.fields@.len() ==> base + info.fields@[i].offset <= usize::MAX
}

/// The fields of the struct at `base`, read-only.
pub fn walk_fields<'a>(info: &'a StructTypeInfo, base: usize) -> (r: Vec<FieldRef<'a>>)
    requires
        field_addrs_in_range(*info, base as int),
    ensures
        walks_fields(*info, base as int, r@),
{
    let mut r: Vec<FieldRef<'a>> = Vec::new();
    let mut i: usize = 0;
    while i < info.fields.len()
        invariant
            i <= info.fields@.len(),
            field_addrs_in_range(*info, base as int),
            r@.len() == i,
            forall|j: int|
                #![trigger r@[j]]
                0 <= j < i ==> {
                    &&& *r@[j].type_ == info.fields@[j].type_
                    &&& r@[j].ptr == base + info.fields@[j].offset
                    &&& *r@[j].name == info.fields@[j].name
                },
        decreases info.fields@.len() - i,
    {
        let f = &info.fields[i];
        r.push(FieldRef { type_: &f.type_, ptr: base + f.offset as usize, name: &f.name });
        i = i + 1;
    }
    r
}

/// The fields of the struct at `base`, for writing: the exclusive borrow of the store
/// is held for the walk, and the store is left as it was.
pub fn walk_fields_mut<'a>(info: &'a StructTypeInfo, mem: &mut Memory, base: usize) -> (r: Vec<
    FieldRef<'a>,
>)
    requires
        field_addrs_in_range(*info, base as int),
    ensures
        walks_fields(*info, base as int, r@),
        *final(mem) == *old(mem),
{
    walk_fields(info, base)
}

/// The two walks, read-only and for writing, visit the same fields in the same order,
/// at the same addresses.
pub proof fn lemma_walks_agree(info: StructTypeInfo, base: int, r1: Seq<FieldRef>, r2: Seq<FieldRef>)
    requires
        walks_fields(info, base, r1),
        walks_fields(info, base, r2),
    ensures
        r1.len() == r2.len(),
        forall|i: int|
            #![trigger r1[i], r2[i]]
            0 <= i < r1.len() ==> {
                &&& *r1[i].type_ == *r2[i].type_
                &&& r1[i].ptr == r2[i].ptr
                &&& *r1[i].name == *r2[i].name
            },
{
    assert forall|i: int| #![trigger r1[i], r2[i]] 0 <= i < r1.len() implies {
        &&& *r1[i].type_ == *r2[i].type_
        &&& r1[i].ptr == r2[i].ptr
        &&& *r1[i].name == *r2[i].name
    } by {
        assert(r1[i] == r1[i] && r2[i] == r2[i]);
    }
}

/// Structural equality of the two values of type `t` at `a` and at `b`.
pub fn equal(mem: &Memory, t: &MoveType, a: usize, b: usize) -> (r: bool)
    requires
        type_wf(*t),
        comparable(*t),
        value_fits(mem@, *t, a as int),
        value_fits(mem@, *t, b as int),
    ensures
        r == values_equal(mem@, *t, a as int, b as int),
    decreases *t, 1int,
{
    let rv1 = borrow_move_value_as_rust_value(mem, t, a);
    let rv2 = borrow_move_value_as_rust_value(mem, t, b);
    proof {
        match *t {
            MoveType::U16 => lemma_num_eq(mem@, a as int, b as int, 2),
            MoveType::U32 => lemma_num_eq(mem@, a as int, b as int, 4),
            MoveType::U64 => lemma_num_eq(mem@, a as int, b as int, 8),
            MoveType::U128 => lemma_num_eq(mem@, a as int, b as int, 16),
            MoveType::U256 | MoveType::Address | MoveType::Signer => lemma_halves_eq(
                mem@,
                a as int,
                b as int,
            ),
            MoveType::U8 => {
                let sa = mem@.subrange(a as int, a + 1);
                let sb = mem@.subrange(b as int, b + 1);
                if mem@[a as int] == mem@[b as int] {
                    assert(sa =~= sb);
                } else {
                    assert(sa[0] != sb[0]);
                }
            },
            _ => {},
        }
    }
    match (rv1, rv2) {
        (BTMV::Bool(val1), BTMV::Bool(val2)) => val1 == val2,
        (BTMV::U8(val1), BTMV::U8(val2)) => val1 == val2,
        (BTMV::U16(val1), BTMV::U16(val2)) => val1 == val2,
        (BTMV::U32(val1), BTMV::U32(val2)) => val1 == val2,
        (BTMV::U64(val1), BTMV::U64(val2)) => val1 == val2,
        (BTMV::U128(val1), BTMV::U128(val2)) => val1 == val2,
        (BTMV::U256(val1), BTMV::U256(val2)) => val1 == val2,
        (BTMV::Address(val1), BTMV::Address(val2)) => val1 == val2,
        (BTMV::Signer(val1), BTMV::Signer(val2)) => val1 == val2,
        (BTMV::Vector(t1, utv1), BTMV::Vector(t2, utv2)) => {
            let v1 = TypedMoveBorrowedRustVec::new(mem, t1, utv1);
            let v2 = TypedMoveBorrowedRustVec::new(mem, t2, utv2);
            v1.cmp_eq(mem, &v2)
        },
        (BTMV::Struct(t1, anyv1), BTMV::Struct(_t2, anyv2)) => cmp_eq(mem, t1, anyv1, anyv2),
        _ => {
            // Both views come from `t`, which holds no reference: no other pairing occurs.
            proof {
                assert(false);
            }
            false
        },
    }
}

/// Structural equality, checked: `None` where `t` is not well formed, holds a
/// reference, or either value does not lie inside the store.
pub fn try_equal(mem: &Memory, t: &MoveType, a: usize, b: usize) -> (r: Option<bool>)
    ensures
        r == if type_wf(*t) && comparable(*t) && value_fits(mem@, *t, a as int) && value_fits(
            mem@,
            *t,
            b as int,
        ) {
            Some(values_equal(mem@, *t, a as int, b as int))
        } else {
            None::<bool>
        },
{
    if is_well_formed(t) && is_comparable(t) && fits_in(mem, t, a) && fits_in(mem, t, b) {
        Some(equal(mem, t, a, b))
    } else {
        None
    }
}

/// Equality of two structs of type `type_ve`: every pair of fields compares equal.
/// Stops at the first unequal field.
pub fn cmp_eq(mem: &Memory, type_ve: &MoveType, s1: usize, s2: usize) -> (r: bool)
    requires
        type_ve is Struct,
        type_wf(*type_ve),
        comparable(*type_ve),
        value_fits(mem@, *type_ve, s1 as int),
        value_fits(mem@, *type_ve, s2 as int),
    ensures
        r == values_equal(mem@, *type_ve, s1 as int, s2 as int),
    decreases *type_ve, 0int,
{
    let st_info = match type_ve {
        MoveType::Struct(info) => info,
        _ => {
            // `type_ve` is a struct type.
            proof {
                assert(false);
            }
            return false;
        },
    };
    // The store's length, a usize, bounds every field address.
    let len = mem.len();
    assert forall|i: int| #![trigger st_info.fields@[i]]
        0 <= i < st_info.fields@.len() implies s1 + st_info.fields@[i].offset <= usize::MAX
            && s2 + st_info.fields@[i].offset <= usize::MAX by {}
    let fields1 = walk_fields(st_info, s1);
    let fields2 = walk_fields(st_info, s2);
    let mut i: usize = 0;
    while i < fields1.len()
        invariant
            *type_ve == MoveType::Struct(*st_info),
            type_wf(*type_ve),
            comparable(*type_ve),
            value_fits(mem@, *type_ve, s1 as int),
            value_fits(mem@, *type_ve, s2 as int),
            fields1@.len() == st_info.fields@.len(),
            fields2@.len() == st_info.fields@.len(),
            forall|j: int| 0 <= j < fields1@.len() ==> {
                &&& *fields1@[j].type_ == st_info.fields@[j].type_
                &&& fields1@[j].ptr == s1 + st_info.fields@[j].offset
                &&& *fields2@[j].type_ == st_info.fields@[j].type_
                &&& fields2@[j].ptr == s2 + st_info.fields@[j].offset
            },
            i <= fields1@.len(),
            forall|j: int|
                0 <= j < i ==> #[trigger] values_equal(
                    mem@,
                    st_info.fields@[j].type_,
                    s1 + st_info.fields@[j].offset,
                    s2 + st_info.fields@[j].offset,
                ),
        decreases fields1@.len() - i,
    {
        let fld_ty1 = fields1[i].type_;
        let fld_ref1 = fields1[i].ptr;
        let fld_ref2 = fields2[i].ptr;
        proof {
            assert(value_fits(mem@, st_info.fields@[i as int].type_, s1 + st_info.fields@[i as int].offset));
            assert(value_fits(mem@, st_info.fields@[i as int].type_, s2 + st_info.fields@[i as int].offset));
            assert(type_wf(st_info.fields@[i as int].type_));
            assert(comparable(st_info.fields@[i as int].type_));
        }
        if !equal(mem, fld_ty1, fld_ref1, fld_ref2) {
            return false;
        }
        i = i + 1;
    }
    assert forall|j: int| #![trigger st_info.fields@[j]]
        0 <= j < st_info.fields@.len() implies values_equal(
        mem@,
        st_info.fields@[j].type_,
        s1 + st_info.fields@[j].offset,
        s2 + st_info.fields@[j].offset,
    ) by {}
    true
}

} // verus!

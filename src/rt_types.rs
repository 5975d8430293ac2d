//! Runtime type descriptors.
use vstd::prelude::*;
use crate::memory::{le_value, lemma_le_value_bound, lemma_pow256_widths, Memory};

verus! {

/// A 256-bit unsigned integer as two 128-bit halves, `lo` the less significant.
#[derive(Clone, Copy, Debug, PartialEq, Eq, Structural)]
pub struct U256 {
    pub lo: u128,
    pub hi: u128,
}

/// A 32-byte account address, held as its two 16-byte halves read little-endian.
#[derive(Clone, Copy, Debug, PartialEq, Eq, Structural)]
pub struct AccountAddress {
    pub lo: u128,
    pub hi: u128,
}

/// The capability to act for an account.
#[derive(Clone, Copy, Debug, PartialEq, Eq, Structural)]
pub struct SignerCapability {
    pub addr: AccountAddress,
}


/// The kind of a value, with enough layout information to locate its parts.
#[derive(Debug, PartialEq, Eq)]
pub enum MoveType {
    Bool,
    U8,
    U16,
    U32,
    U64,
    U128,
    U256,
    Address,
    Signer,
    Vector(Box<MoveType>),
    Struct(StructTypeInfo),
    Reference(Box<MoveType>),
}

/// One field of a struct layout.
#[derive(Debug, PartialEq, Eq)]
pub struct StructFieldInfo {
    pub type_: MoveType,
    pub offset: u64,
    pub name: String,
}

/// The layout of a struct: its fields in declaration order, its size and alignment.
#[derive(Debug, PartialEq, Eq)]
pub struct StructTypeInfo {
    pub fields: Vec<StructFieldInfo>,
    pub size: u64,
    pub alignment: u64,
}

/// A field located by a walk: its type, its address and its name.
#[derive(Debug)]
pub struct FieldRef<'a> {
    pub type_: &'a MoveType,
    pub ptr: usize,
    pub name: &'a String,
}

/// The number of bytes a value of type `t` occupies in place. A vector is held in
/// place by its header: the address of its elements, its capacity and its length,
/// eight bytes each, little-endian.
pub open spec fn type_size(t: MoveType) -> nat {
    match t {
        MoveType::Bool | MoveType::U8 => 1,
        MoveType::U16 => 2,
        MoveType::U32 => 4,
        MoveType::U64 | MoveType::Reference(_) => 8,
        MoveType::U128 => 16,
        MoveType::U256 | MoveType::Address | MoveType::Signer => 32,
        MoveType::Vector(_) => 24,
        MoveType::Struct(info) => info.size as nat,
    }
}

/// Every field of every struct layout within `t` lies inside its struct, and none is a reference.
pub open spec fn type_wf(t: MoveType) -> bool
    decreases t,
{
    match t {
        MoveType::Vector(e) => type_wf(*e),
        MoveType::Struct(info) => forall|i: int|
            #![trigger info.fields@[i]]
            0 <= i < info.fields@.len() ==> {
                &&& info.fields@[i].offset + type_size(info.fields@[i].type_) <= info.size
                &&& !(info.fields@[i].type_ is Reference)
                &&& type_wf(info.fields@[i].type_)
            },
        MoveType::Reference(inner) => type_wf(*inner),
        _ => true,
    }
}

/// Holds no reference at any depth: values of such a type can be compared.
pub open spec fn comparable(t: MoveType) -> bool
    decreases t,
{
    match t {
        MoveType::Vector(e) => comparable(*e),
        MoveType::Struct(info) => forall|i: int|
            #![trigger info.fields@[i]]
            0 <= i < info.fields@.len() ==> comparable(info.fields@[i].type_),
        MoveType::Reference(_) => false,
        _ => true,
    }
}

/// The address of the elements of the vector whose header is at `a`.
pub open spec fn vec_ptr(mem: Seq<u8>, a: int) -> nat {
    le_value(mem.subrange(a, a + 8))
}

/// The number of elements of the vector whose header is at `a`.
pub open spec fn vec_len(mem: Seq<u8>, a: int) -> nat {
    le_value(mem.subrange(a + 16, a + 24))
}

/// The address of element `i` of the vector, with elements of type `e`, whose header is at `a`.
pub open spec fn elem_addr(mem: Seq<u8>, a: int, e: MoveType, i: int) -> int {
    vec_ptr(mem, a) + i * type_size(e)
}

/// The address that the reference stored at `a` points to.
pub open spec fn ref_target(mem: Seq<u8>, a: int) -> nat {
    le_value(mem.subrange(a, a + 8))
}

/// The value of type `t` at `a`, and everything it reaches, lies inside the store.
pub open spec fn value_fits(mem: Seq<u8>, t: MoveType, a: int) -> bool
    decreases t,
{
    &&& 0 <= a
    &&& a + type_size(t) <= mem.len()
    &&& match t {
        MoveType::Vector(e) => forall|i: int|
            #![trigger elem_addr(mem, a, *e, i)]
            0 <= i < vec_len(mem, a) ==> value_fits(mem, *e, elem_addr(mem, a, *e, i)),
        MoveType::Struct(info) => forall|i: int|
            #![trigger info.fields@[i]]
            0 <= i < info.fields@.len() ==> value_fits(
                mem,
                info.fields@[i].type_,
                a + info.fields@[i].offset,
            ),
        MoveType::Reference(inner) => value_fits(mem, *inner, ref_target(mem, a) as int),
        _ => true,
    }
}

/// The number of bytes a value of type `t` occupies in place.
pub fn size_of(t: &MoveType) -> (r: u64)
    ensures
        r == type_size(*t),
{
    match t {
        MoveType::Bool | MoveType::U8 => 1,
        MoveType::U16 => 2,
        MoveType::U32 => 4,
        MoveType::U64 | MoveType::Reference(_) => 8,
        MoveType::U128 => 16,
        MoveType::U256 | MoveType::Address | MoveType::Signer => 32,
        MoveType::Vector(_) => 24,
        MoveType::Struct(info) => info.size,
    }
}

/// Whether `t` is well formed: every field lies inside its struct and none is a reference.
pub fn is_well_formed(t: &MoveType) -> (r: bool)
    ensures
        r == type_wf(*t),
    decreases *t,
{
    match t {
        MoveType::Vector(e) => is_well_formed(e),
        MoveType::Reference(inner) => is_well_formed(inner),
        MoveType::Struct(info) => {
            let mut i: usize = 0;
            while i < info.fields.len()
                invariant
                    *t == MoveType::Struct(*info),
                    i <= info.fields@.len(),
                    forall|j: int|
                        #![trigger info.fields@[j]]
                        0 <= j < i ==> {
                            &&& info.fields@[j].offset + type_size(info.fields@[j].type_) <= info.size
                            &&& !(info.fields@[j].type_ is Reference)
                            &&& type_wf(info.fields@[j].type_)
                        },
                decreases info.fields@.len() - i,
            {
                let f = &info.fields[i];
                if f.offset as u128 + size_of(&f.type_) as u128 > info.size as u128 {
                    return false;
                }
                if let MoveType::Reference(_) = &f.type_ {
                    return false;
                }
                if !is_well_formed(&f.type_) {
                    return false;
                }
                i = i + 1;
            }
            true
        },
        _ => true,
    }
}

/// Whether `t` holds no reference at any depth.
pub fn is_comparable(t: &MoveType) -> (r: bool)
    ensures
        r == comparable(*t),
    decreases *t,
{
    match t {
        MoveType::Vector(e) => is_comparable(e),
        MoveType::Reference(_) => false,
        MoveType::Struct(info) => {
            let mut i: usize = 0;
            while i < info.fields.len()
                invariant
                    *t == MoveType::Struct(*info),
                    i <= info.fields@.len(),
                    forall|j: int|
                        #![trigger info.fields@[j]]
                        0 <= j < i ==> comparable(info.fields@[j].type_),
                decreases info.fields@.len() - i,
            {
                let f = &info.fields[i];
                proof {
                    // Names the field's place inside `t`, for the termination measure.
                    assert((*t)->Struct_0 == *info);
                }
                if !is_comparable(&f.type_) {
                    return false;
                }
                i = i + 1;
            }
            true
        },
        _ => true,
    }
}

/// Whether the value of type `t` at `a`, and everything it reaches, lies inside `mem`.
pub fn fits_in(mem: &Memory, t: &MoveType, a: usize) -> (r: bool)
    ensures
        r == value_fits(mem@, *t, a as int),
    decreases *t,
{
    let len = mem.len();
    if a as u128 + size_of(t) as u128 > len as u128 {
        return false;
    }
    proof {
        lemma_pow256_widths();
    }
    match t {
        MoveType::Vector(e) => {
            proof {
                lemma_le_value_bound(mem@.subrange(a as int, a + 8));
                lemma_le_value_bound(mem@.subrange(a + 16, a + 24));
            }
            let ptr = mem.read_le(a, 8);
            let n = mem.read_le(a + 16, 8);
            let es = size_of(e) as u128;
            let ghost ee = **e;
            if es == 0 {
                if n == 0 {
                    return true;
                }
                if ptr > len as u128 {
                    assert(!value_fits(mem@, ee, elem_addr(mem@, a as int, ee, 0)));
                    return false;
                }
                let ok = fits_in(mem, e, ptr as usize);
                assert forall|i: int| #![trigger elem_addr(mem@, a as int, ee, i)]
                    0 <= i < n implies elem_addr(mem@, a as int, ee, i) == ptr by {
                    assert(i * 0 == 0);
                }
                assert(ok ==> value_fits(mem@, *t, a as int));
                assert(!ok ==> !value_fits(mem@, ee, elem_addr(mem@, a as int, ee, 0)));
                return ok;
            }
            let mut i: u128 = 0;
            while i < n
                invariant
                    *t == MoveType::Vector(Box::new(ee)),
                    **e == ee,
                    len == mem@.len(),
                    ptr == vec_ptr(mem@, a as int),
                    n == vec_len(mem@, a as int),
                    n < 0x1_0000_0000_0000_0000,
                    ptr < 0x1_0000_0000_0000_0000,
                    es == type_size(ee),
                    es < 0x1_0000_0000_0000_0000,
                    i <= n,
                    forall|j: int|
                        #![trigger elem_addr(mem@, a as int, ee, j)]
                        0 <= j < i ==> value_fits(mem@, ee, elem_addr(mem@, a as int, ee, j)),
                decreases n - i,
            {
                assert(i * es < 0x1_0000_0000_0000_0000 * 0x1_0000_0000_0000_0000 - 0x1_0000_0000_0000_0000)
                    by (nonlinear_arith)
                    requires
                        i < 0x1_0000_0000_0000_0000,
                        es < 0x1_0000_0000_0000_0000,
                ;
                let addr = ptr + i * es;
                assert(addr == elem_addr(mem@, a as int, ee, i as int));
                if addr > len as u128 {
                    assert(!value_fits(mem@, ee, elem_addr(mem@, a as int, ee, i as int)));
                    return false;
                }
                proof {
                    assert((*t)->Vector_0 == *e);
                }
                if !fits_in(mem, e, addr as usize) {
                    return false;
                }
                i = i + 1;
            }
            true
        },
        MoveType::Struct(info) => {
            let mut i: usize = 0;
            while i < info.fields.len()
                invariant
                    *t == MoveType::Struct(*info),
                    len == mem@.len(),
                    a + info.size <= len,
                    i <= info.fields@.len(),
                    forall|j: int|
                        #![trigger info.fields@[j]]
                        0 <= j < i ==> value_fits(mem@, info.fields@[j].type_, a + info.fields@[j].offset),
                decreases info.fields@.len() - i,
            {
                let f = &info.fields[i];
                let addr = a as u128 + f.offset as u128;
                if addr > len as u128 {
                    assert(info.fields@[i as int] == *f);
                    assert(!value_fits(mem@, f.type_, addr as int));
                    return false;
                }
                proof {
                    // Names the field's place inside `t`, for the termination measure.
                    assert((*t)->Struct_0 == *info);
                }
                if !fits_in(mem, &f.type_, addr as usize) {
                    return false;
                }
                i = i + 1;
            }
            true
        },
        MoveType::Reference(inner) => {
            proof {
                lemma_le_value_bound(mem@.subrange(a as int, a + 8));
            }
            let target = mem.read_le(a, 8);
            if target > len as u128 {
                assert(!value_fits(mem@, **inner, target as int));
                return false;
            }
            fits_in(mem, inner, target as usize)
        },
        _ => true,
    }
}

} // verus!

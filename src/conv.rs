//! Classifying a value by its type: a view that exposes its kind.
use vstd::prelude::*;
use crate::memory::{
    le_bytes, le_value, lemma_le_round_trip, lemma_le_value_bound, lemma_pow256_16,
    lemma_pow256_widths, Memory,
};
use crate::rt_types::{
    ref_target, type_size, value_fits, AccountAddress, MoveType, SignerCapability, U256,
};

verus! {

/// A value seen through its type: scalars are copied out, the other kinds carry
/// their type and an address.
#[derive(Debug, PartialEq, Eq)]
pub enum BorrowedTypedMoveValue<'a> {
    Bool(bool),
    U8(u8),
    U16(u16),
    U32(u32),
    U64(u64),
    U128(u128),
    U256(U256),
    Address(AccountAddress),
    Signer(SignerCapability),
    /// The element type and the address of the vector's header.
    Vector(&'a MoveType, usize),
    /// The struct's own type and the address of the struct.
    Struct(&'a MoveType, usize),
    /// The type referred to and the address it points to.
    Reference(&'a MoveType, usize),
}

/// The little-endian number in the `n` bytes from `a`.
pub open spec fn num_at(mem: Seq<u8>, a: int, n: int) -> nat {
    le_value(mem.subrange(a, a + n))
}

/// `rv` is the view of the value of type `t` stored at `a`.
pub open spec fn is_view_of(mem: Seq<u8>, t: MoveType, a: int, rv: BorrowedTypedMoveValue) -> bool {
    match t {
        MoveType::Bool => rv matches BorrowedTypedMoveValue::Bool(x) && x == (mem[a] != 0),
        MoveType::U8 => rv matches BorrowedTypedMoveValue::U8(x) && x == mem[a],
        MoveType::U16 => rv matches BorrowedTypedMoveValue::U16(x) && x == num_at(mem, a, 2),
        MoveType::U32 => rv matches BorrowedTypedMoveValue::U32(x) && x == num_at(mem, a, 4),
        MoveType::U64 => rv matches BorrowedTypedMoveValue::U64(x) && x == num_at(mem, a, 8),
        MoveType::U128 => rv matches BorrowedTypedMoveValue::U128(x) && x == num_at(mem, a, 16),
        MoveType::U256 => rv matches BorrowedTypedMoveValue::U256(x) && x.lo == num_at(mem, a, 16)
            && x.hi == num_at(mem, a + 16, 16),
        MoveType::Address => rv matches BorrowedTypedMoveValue::Address(x) && x.lo == num_at(
            mem,
            a,
            16,
        ) && x.hi == num_at(mem, a + 16, 16),
        MoveType::Signer => rv matches BorrowedTypedMoveValue::Signer(x) && x.addr.lo == num_at(
            mem,
            a,
            16,
        ) && x.addr.hi == num_at(mem, a + 16, 16),
        MoveType::Vector(e) => rv matches BorrowedTypedMoveValue::Vector(et, p) && *et == *e && p
            == a,
        MoveType::Struct(_) => rv matches BorrowedTypedMoveValue::Struct(st, p) && *st == t && p
            == a,
        MoveType::Reference(inner) => rv matches BorrowedTypedMoveValue::Reference(it, p) && *it
            == *inner && p == ref_target(mem, a),
    }
}

/// The view holds a copied-out scalar rather than an address.
pub open spec fn is_scalar_view(v: BorrowedTypedMoveValue) -> bool {
    !(v is Vector || v is Struct || v is Reference)
}

/// The type of the value that `v` views.
pub open spec fn type_of_view(v: BorrowedTypedMoveValue) -> MoveType {
    match v {
        BorrowedTypedMoveValue::Bool(_) => MoveType::Bool,
        BorrowedTypedMoveValue::U8(_) => MoveType::U8,
        BorrowedTypedMoveValue::U16(_) => MoveType::U16,
        BorrowedTypedMoveValue::U32(_) => MoveType::U32,
        BorrowedTypedMoveValue::U64(_) => MoveType::U64,
        BorrowedTypedMoveValue::U128(_) => MoveType::U128,
        BorrowedTypedMoveValue::U256(_) => MoveType::U256,
        BorrowedTypedMoveValue::Address(_) => MoveType::Address,
        BorrowedTypedMoveValue::Signer(_) => MoveType::Signer,
        BorrowedTypedMoveValue::Vector(e, _) => MoveType::Vector(Box::new(*e)),
        BorrowedTypedMoveValue::Struct(t, _) => *t,
        BorrowedTypedMoveValue::Reference(t, _) => MoveType::Reference(Box::new(*t)),
    }
}

/// The bytes that hold the scalar viewed by `v`.
pub open spec fn scalar_bytes(v: BorrowedTypedMoveValue) -> Seq<u8> {
    match v {
        BorrowedTypedMoveValue::Bool(x) => seq![if x { 1u8 } else { 0u8 }],
        BorrowedTypedMoveValue::U8(x) => seq![x],
        BorrowedTypedMoveValue::U16(x) => le_bytes(x as nat, 2),
        BorrowedTypedMoveValue::U32(x) => le_bytes(x as nat, 4),
        BorrowedTypedMoveValue::U64(x) => le_bytes(x as nat, 8),
        BorrowedTypedMoveValue::U128(x) => le_bytes(x as nat, 16),
        BorrowedTypedMoveValue::U256(x) => le_bytes(x.lo as nat, 16) + le_bytes(x.hi as nat, 16),
        BorrowedTypedMoveValue::Address(x) => le_bytes(x.lo as nat, 16) + le_bytes(x.hi as nat, 16),
        BorrowedTypedMoveValue::Signer(x) => le_bytes(x.addr.lo as nat, 16) + le_bytes(
            x.addr.hi as nat,
            16,
        ),
        _ => Seq::empty(),
    }
}

/// `mem` with the bytes from `a` replaced by `bytes`.
pub open spec fn splice(mem: Seq<u8>, a: int, bytes: Seq<u8>) -> Seq<u8> {
    mem.subrange(0, a) + bytes + mem.subrange(a + bytes.len(), mem.len() as int)
}

/// Writes `x` into the `n` bytes from `a`.
fn store_le(mem: &mut Memory, a: usize, n: usize, x: u128)
    requires
        n <= 16,
        a + n <= old(mem)@.len(),
        x < crate::memory::pow256(n as nat),
    ensures
        final(mem)@ == splice(old(mem)@, a as int, le_bytes(x as nat, n as nat)),
{
    mem.write_le(a, n, x);
    assert(final(mem)@ =~= splice(old(mem)@, a as int, le_bytes(x as nat, n as nat))) by {
        assert forall|j: int| a <= j < a + n implies final(mem)@[j] == le_bytes(x as nat, n as nat)[j - a] by {
            assert(final(mem)@.subrange(a as int, a + n)[j - a] == final(mem)@[j]);
        }
    }
}

/// Stores the scalar viewed by `v` at `addr`, the other bytes unchanged.
pub fn store_scalar(mem: &mut Memory, addr: usize, v: &BorrowedTypedMoveValue)
    requires
        is_scalar_view(*v),
        addr + type_size(type_of_view(*v)) <= old(mem)@.len(),
    ensures
        final(mem)@ == splice(old(mem)@, addr as int, scalar_bytes(*v)),
{
    proof {
        lemma_pow256_widths();
        lemma_pow256_16();
    }
    match v {
        BorrowedTypedMoveValue::Bool(x) => {
            mem.write_u8_at(addr, if *x { 1u8 } else { 0u8 });
            assert(final(mem)@ =~= splice(old(mem)@, addr as int, scalar_bytes(*v)));
        },
        BorrowedTypedMoveValue::U8(x) => {
            mem.write_u8_at(addr, *x);
            assert(final(mem)@ =~= splice(old(mem)@, addr as int, scalar_bytes(*v)));
        },
        BorrowedTypedMoveValue::U16(x) => store_le(mem, addr, 2, *x as u128),
        BorrowedTypedMoveValue::U32(x) => store_le(mem, addr, 4, *x as u128),
        BorrowedTypedMoveValue::U64(x) => store_le(mem, addr, 8, *x as u128),
        BorrowedTypedMoveValue::U128(x) => store_le(mem, addr, 16, *x),
        BorrowedTypedMoveValue::U256(x) => store_halves(mem, addr, x.lo, x.hi),
        BorrowedTypedMoveValue::Address(x) => store_halves(mem, addr, x.lo, x.hi),
        BorrowedTypedMoveValue::Signer(x) => store_halves(mem, addr, x.addr.lo, x.addr.hi),
        _ => {},
    }
}

/// Writes `lo` into the 16 bytes from `a` and `hi` into the 16 after them.
fn store_halves(mem: &mut Memory, a: usize, lo: u128, hi: u128)
    requires
        a + 32 <= old(mem)@.len(),
    ensures
        final(mem)@ == splice(old(mem)@, a as int, le_bytes(lo as nat, 16) + le_bytes(hi as nat, 16)),
{
    proof {
        lemma_pow256_16();
    }
    // The store's length, a usize, bounds every address below.
    let _len = mem.len();
    store_le(mem, a, 16, lo);
    store_le(mem, a + 16, 16, hi);
    assert(final(mem)@ =~= splice(old(mem)@, a as int, le_bytes(lo as nat, 16) + le_bytes(hi as nat, 16)));
}

/// Storing a scalar and viewing it again, as the type it has, gives the scalar back.
pub proof fn lemma_store_round_trip(
    mem: Seq<u8>,
    a: int,
    v: BorrowedTypedMoveValue,
    r: BorrowedTypedMoveValue,
)
    requires
        is_scalar_view(v),
        0 <= a,
        a + type_size(type_of_view(v)) <= mem.len(),
        is_view_of(splice(mem, a, scalar_bytes(v)), type_of_view(v), a, r),
    ensures
        r == v,
{
    let m = splice(mem, a, scalar_bytes(v));
    let n = scalar_bytes(v).len() as int;
    lemma_pow256_widths();
    lemma_pow256_16();
    assert(m.subrange(a, a + n) =~= scalar_bytes(v));
    match v {
        BorrowedTypedMoveValue::U16(x) => lemma_le_round_trip(x as nat, 2),
        BorrowedTypedMoveValue::U32(x) => lemma_le_round_trip(x as nat, 4),
        BorrowedTypedMoveValue::U64(x) => lemma_le_round_trip(x as nat, 8),
        BorrowedTypedMoveValue::U128(x) => lemma_le_round_trip(x as nat, 16),
        BorrowedTypedMoveValue::U256(x) => {
            lemma_halves_round_trip(m, a, x.lo, x.hi);
        },
        BorrowedTypedMoveValue::Address(x) => {
            lemma_halves_round_trip(m, a, x.lo, x.hi);
        },
        BorrowedTypedMoveValue::Signer(x) => {
            lemma_halves_round_trip(m, a, x.addr.lo, x.addr.hi);
        },
        BorrowedTypedMoveValue::Bool(x) => {
            assert(m[a] == m.subrange(a, a + n)[0]);
        },
        BorrowedTypedMoveValue::U8(x) => {
            assert(m[a] == m.subrange(a, a + n)[0]);
        },
        _ => {},
    }
}

proof fn lemma_halves_round_trip(m: Seq<u8>, a: int, lo: u128, hi: u128)
    requires
        0 <= a,
        a + 32 <= m.len(),
        m.subrange(a, a + 32) == le_bytes(lo as nat, 16) + le_bytes(hi as nat, 16),
    ensures
        num_at(m, a, 16) == lo,
        num_at(m, a + 16, 16) == hi,
{
    lemma_pow256_16();
    assert(m.subrange(a, a + 16) =~= m.subrange(a, a + 32).subrange(0, 16));
    assert(m.subrange(a + 16, a + 32) =~= m.subrange(a, a + 32).subrange(16, 32));
    assert(m.subrange(a, a + 16) =~= le_bytes(lo as nat, 16));
    assert(m.subrange(a + 16, a + 32) =~= le_bytes(hi as nat, 16));
    lemma_le_round_trip(lo as nat, 16);
    lemma_le_round_trip(hi as nat, 16);
}

/// Reads the 32 bytes from `a` as two little-endian halves.
fn read_halves(mem: &Memory, a: usize) -> (r: (u128, u128))
    requires
        a + 32 <= mem@.len(),
    ensures
        r.0 == num_at(mem@, a as int, 16),
        r.1 == num_at(mem@, a + 16, 16),
{
    // The store's length, a usize, bounds every address below.
    let _len = mem.len();
    (mem.read_le(a, 16), mem.read_le(a + 16, 16))
}

/// The view of the value of type `type_` stored at `value`.
pub fn borrow_move_value_as_rust_value<'a>(
    mem: &Memory,
    type_: &'a MoveType,
    value: usize,
) -> (r: BorrowedTypedMoveValue<'a>)
    requires
        value_fits(mem@, *type_, value as int),
    ensures
        is_view_of(mem@, *type_, value as int, r),
{
    proof {
        lemma_pow256_widths();
    }
    match type_ {
        MoveType::Bool => BorrowedTypedMoveValue::Bool(mem.read_u8_at(value) != 0),
        MoveType::U8 => BorrowedTypedMoveValue::U8(mem.read_u8_at(value)),
        MoveType::U16 => {
            proof {
                lemma_le_value_bound(mem@.subrange(value as int, value + 2));
            }
            BorrowedTypedMoveValue::U16(mem.read_le(value, 2) as u16)
        },
        MoveType::U32 => {
            proof {
                lemma_le_value_bound(mem@.subrange(value as int, value + 4));
            }
            BorrowedTypedMoveValue::U32(mem.read_le(value, 4) as u32)
        },
        MoveType::U64 => {
            proof {
                lemma_le_value_bound(mem@.subrange(value as int, value + 8));
            }
            BorrowedTypedMoveValue::U64(mem.read_le(value, 8) as u64)
        },
        MoveType::U128 => BorrowedTypedMoveValue::U128(mem.read_le(value, 16)),
        MoveType::U256 => {
            let (lo, hi) = read_halves(mem, value);
            BorrowedTypedMoveValue::U256(U256 { lo, hi })
        },
        MoveType::Address => {
            let (lo, hi) = read_halves(mem, value);
            BorrowedTypedMoveValue::Address(AccountAddress { lo, hi })
        },
        MoveType::Signer => {
            let (lo, hi) = read_halves(mem, value);
            BorrowedTypedMoveValue::Signer(SignerCapability { addr: AccountAddress { lo, hi } })
        },
        MoveType::Vector(e) => BorrowedTypedMoveValue::Vector(&**e, value),
        MoveType::Struct(_) => BorrowedTypedMoveValue::Struct(type_, value),
        MoveType::Reference(inner) => {
            let target = mem.read_le(value, 8);
            let len = mem.len();
            proof {
                lemma_le_value_bound(mem@.subrange(value as int, value + 8));
                reveal_with_fuel(value_fits, 2);
                assert(target <= len);
            }
            BorrowedTypedMoveValue::Reference(&**inner, target as usize)
        },
    }
}

} // verus!

//! A borrowed vector whose element type is known only at run time.
use vstd::prelude::*;
use crate::memory::{lemma_le_value_bound, lemma_pow256_widths, Memory};
use crate::rt_types::{
    elem_addr, size_of, type_size, type_wf, comparable, value_fits, vec_len, vec_ptr, MoveType,
};
use crate::structs::{equal, values_equal};

verus! {

/// A vector in the store, seen through its element type.
pub struct TypedMoveBorrowedRustVec<'a> {
    pub type_elem: &'a MoveType,
    /// The address of the vector's header.
    pub header: usize,
    /// The address of the first element.
    pub ptr: u64,
    /// The number of elements.
    pub len: u64,
}

/// The vector type with elements of type `e`.
pub open spec fn vector_of(e: MoveType) -> MoveType {
    MoveType::Vector(Box::new(e))
}

impl<'a> TypedMoveBorrowedRustVec<'a> {
    /// The handle describes the vector stored at its header in `mem`.
    pub open spec fn describes(&self, mem: Seq<u8>) -> bool {
        &&& value_fits(mem, vector_of(*self.type_elem), self.header as int)
        &&& self.ptr == vec_ptr(mem, self.header as int)
        &&& self.len == vec_len(mem, self.header as int)
    }

    /// The vector with elements of type `type_elem` whose header is at `header`.
    pub fn new(mem: &Memory, type_elem: &'a MoveType, header: usize) -> (r: Self)
        requires
            value_fits(mem@, vector_of(*type_elem), header as int),
        ensures
            r.type_elem == type_elem,
            r.header == header,
            r.describes(mem@),
    {
        proof {
            lemma_pow256_widths();
            lemma_le_value_bound(mem@.subrange(header as int, header + 8));
            lemma_le_value_bound(mem@.subrange(header + 16, header + 24));
        }
        // The store's length, a usize, bounds every address below.
        let _len = mem.len();
        let ptr = mem.read_le(header, 8) as u64;
        let len = mem.read_le(header + 16, 8) as u64;
        TypedMoveBorrowedRustVec { type_elem, header, ptr, len }
    }

    /// The number of elements.
    pub fn len(&self) -> (r: u64)
        ensures
            r == self.len,
    {
        self.len
    }

    /// The address of element `i`.
    pub fn borrow(&self, mem: &Memory, i: u64) -> (r: usize)
        requires
            self.describes(mem@),
            i < self.len,
        ensures
            r == elem_addr(mem@, self.header as int, *self.type_elem, i as int),
            value_fits(mem@, *self.type_elem, r as int),
    {
        let ghost e = *self.type_elem;
        assert(value_fits(mem@, e, elem_addr(mem@, self.header as int, e, i as int)));
        let len = mem.len();
        let size = size_of(self.type_elem);
        assert(i * size <= elem_addr(mem@, self.header as int, e, i as int)) by (nonlinear_arith)
            requires
                size == type_size(e),
                elem_addr(mem@, self.header as int, e, i as int) == self.ptr + i * type_size(e),
                self.ptr >= 0,
        ;
        (self.ptr + i * size) as usize
    }

    /// The addresses of the elements, first to last.
    pub fn iter(&self, mem: &Memory) -> (r: Vec<usize>)
        requires
            self.describes(mem@),
        ensures
            r@.len() == self.len,
            forall|i: int|
                0 <= i < r@.len() ==> r@[i] == elem_addr(mem@, self.header as int, *self.type_elem, i),
    {
        let mut r: Vec<usize> = Vec::new();
        let mut i: u64 = 0;
        while i < self.len
            invariant
                self.describes(mem@),
                i <= self.len,
                r@.len() == i,
                forall|j: int|
                    0 <= j < i ==> r@[j] == elem_addr(mem@, self.header as int, *self.type_elem, j),
            decreases self.len - i,
        {
            let p = self.borrow(mem, i);
            r.push(p);
            i = i + 1;
        }
        r
    }

    /// Element-wise equality: the lengths agree and so does each pair of elements.
    pub fn cmp_eq(&self, mem: &Memory, other: &Self) -> (r: bool)
        requires
            self.describes(mem@),
            other.describes(mem@),
            *self.type_elem == *other.type_elem,
            type_wf(*self.type_elem),
            comparable(*self.type_elem),
        ensures
            r == values_equal(mem@, vector_of(*self.type_elem), self.header as int, other.header as int),
        decreases *self.type_elem, 2int,
    {
        let ghost e = *self.type_elem;
        if self.len != other.len {
            return false;
        }
        let mut i: u64 = 0;
        while i < self.len
            invariant
                self.describes(mem@),
                other.describes(mem@),
                *self.type_elem == *other.type_elem,
                type_wf(e),
                comparable(e),
                e == *self.type_elem,
                self.len == other.len,
                i <= self.len,
                forall|j: int|
                    0 <= j < i ==> #[trigger] values_equal(
                        mem@,
                        e,
                        elem_addr(mem@, self.header as int, e, j),
                        elem_addr(mem@, other.header as int, e, j),
                    ),
            decreases self.len - i,
        {
            let p1 = self.borrow(mem, i);
            let p2 = other.borrow(mem, i);
            if !equal(mem, self.type_elem, p1, p2) {
                return false;
            }
            i = i + 1;
        }
        assert forall|j: int| #![trigger elem_addr(mem@, self.header as int, e, j)]
            0 <= j < vec_len(mem@, self.header as int) implies values_equal(
            mem@,
            e,
            elem_addr(mem@, self.header as int, e, j),
            elem_addr(mem@, other.header as int, e, j),
        ) by {}
        true
    }
}

} // verus!

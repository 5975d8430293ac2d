//! Type-erased structural operations over values laid out in a byte store.
//!
//! A value is never held on its own: it is an address into a [`memory::Memory`]
//! together with the [`rt_types::MoveType`] that says how to read the bytes there.
//! From such a pair the library walks a struct's fields, views a value by its kind,
//! borrows a vector whose element type is known only at run time, and compares two
//! values of one type part by part.

pub mod conv;
pub mod memory;
pub mod rt_types;
pub mod structs;
pub mod vector;

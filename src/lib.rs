//! A growable, contiguous sequence built on a doubling slot buffer, with a
//! double-ended consuming traversal.
//!
//! The buffer ([`raw_buf::RawBuf`]) only knows its slots and their number
//! (the capacity). [`my_vec::MyVec`] keeps a length on top of it: slots below
//! the length hold live elements, the others are empty. [`into_iter::IntoIter`]
//! takes the buffer over and hands the elements out from either end.
//! Elements are owned by their slot, so whatever is still live when a value
//! is discarded is destroyed exactly once, and nothing else is.

mod into_iter;
pub mod laws;
mod my_vec;
mod raw_buf;

pub use into_iter::IntoIter;
pub use my_vec::MyVec;
pub use raw_buf::{fits_in_memory, next_cap, RawBuf};

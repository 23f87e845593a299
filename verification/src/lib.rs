//! A library for bitwise iteration over Rust integers.
//!
//! A value of any integer type can be walked through bit by bit: as booleans
//! ([`Bits`](iters::Bits), [`BitsRev`](iters::BitsRev)), as single-bit masks
//! ([`Ones`](iters::Ones), [`Zeros`](iters::Zeros)) or as bit indices
//! ([`OneIndices`](iters::OneIndices), [`ZeroIndices`](iters::ZeroIndices)).
//! [`BitIter`] starts each of them from a value.
//!
//! What a value means is its bit pattern, defined in [`pattern`]; what an
//! integer type has to offer is laid down in [`Binary`]; and [`traversal`]
//! holds the theorems about whole traversals.
//!
//! # Examples
//! ```
//! use bitit::BitIter;
//!
//! let x: u8 = 0b10101100;
//!
//! // Get ones as singular bits: 4, 8, 32, 128.
//! let mut ones = x.ones();
//! while let Some(b) = ones.next() {
//!     print!("{b} ");
//! }
//!
//! // Or as indices, here from the top down: 7, 5, 3, 2.
//! let mut at = x.one_indices();
//! while let Some(i) = at.next_back() {
//!     print!("{i} ");
//! }
//!
//! // Or see them all as bools, most significant first: 10101100.
//! let mut bits = x.bits_rev();
//! while let Some(b) = bits.next() {
//!     print!("{}", b as u8);
//! }
//! ```

pub mod binary;
pub mod bit_iter;
pub mod iters;
pub mod pattern;
pub mod traversal;

pub use binary::Binary;
pub use bit_iter::BitIter;
pub use iters::{Bits, BitsRev, OneIndices, Ones, ZeroIndices, Zeros};

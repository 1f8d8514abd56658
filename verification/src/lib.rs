//! White-box AES-128 instance generation and evaluation, after the
//! Baek-Cheon-Hong revisited construction.
//!
//! The crate provides the GF(2) linear algebra (8x8 and 256x256 bit
//! matrices), the affine-encoding algebra built on it, a reference AES-128
//! primitive, the round-table generator that folds one AES round together
//! with its encodings into 16-bit-indexed lookup tables, the runtime that
//! evaluates those tables, and a versioned byte framing for instances.

pub mod affine;
pub mod block;
pub mod cipher;
pub mod errors;
pub mod generator;
pub mod instance;
pub mod gf2;
pub mod key;
pub mod linear;
pub mod matrix;
pub mod rng;
pub mod round;
pub mod runtime;
pub mod sbox;
pub mod tables;

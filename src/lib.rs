//! A byte-oriented stream cipher: a 256-entry permutation table, scheduled
//! from a key, drives a generator whose bytes are combined with data by
//! exclusive-or. The same operation encrypts and decrypts.
pub mod cipher;
pub mod lemmas;
pub mod model;

pub use cipher::{rc4, rc4_g, KeyError, RC4Key};

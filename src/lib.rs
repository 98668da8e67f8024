//! Statistical cryptanalysis of XOR ciphers: an English-text scorer, a
//! single-byte XOR solver, a key-length estimator, block transposition and a
//! repeating-key recovery pipeline.
//!
//! Scores are exact fractions, so every ranking is deterministic: ties are
//! broken by the smaller key byte or key length.
pub mod attack;
pub mod error;
pub mod freq;
pub mod hamming;
pub mod keysize;
pub mod ratio;
pub mod score;
pub mod single;
pub mod transpose;
pub mod xor;

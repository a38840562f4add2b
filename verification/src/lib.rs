//! A verified implementation of the MD5 Merkle–Damgård streaming hash engine
//! together with a length-extension attack on the naive secret-prefix MAC
//! `digest(key ‖ message)`.
//!
//! The engine is specified against a mathematical model of the compression
//! function (`model`), and the attack is proved correct: the forged tag it
//! returns is exactly the tag a verifier recomputing the secret-prefix MAC
//! over the forged bytes would obtain, for every key of the stated length.

pub mod model;
pub mod engine;
pub mod hex;
pub mod attack;

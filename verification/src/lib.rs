//! Core of a zero-knowledge virtual machine proof system: the Baby Bear
//! prime field and its degree-4 extension, SHA-256 digests and the
//! Fiat-Shamir transcript built from them, proof-stream transcripts for
//! prover and verifier, Merkle tree commitments, polynomial utilities,
//! and the executor's memory and host-I/O machinery.

pub mod adapter;
pub mod consts;
pub mod errors;
pub mod fmtstr;
pub mod fp;
pub mod fp4;
pub mod loader;
pub mod machine;
pub mod memory;
pub mod merkle;
pub mod method_id;
pub mod platform;
pub mod poly;
pub mod read_iop;
pub mod receipt;
pub mod rng;
pub mod sha;
pub mod write_iop;

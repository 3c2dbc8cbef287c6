//! Proofs of reserves for Bitcoin custodians: a single transaction that spends a synthetic
//! challenge input together with every output under proof into one unspendable output of
//! the same total value, kept with its history in a versioned proof file.
pub mod bindings;
pub mod file_format;
pub mod init;
pub mod proof_file;
pub mod proofs;
pub mod resolver;
pub mod signer;
pub mod transaction;
pub mod wire;

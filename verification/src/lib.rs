//! Cryptographic authentication and canonical block data model for a
//! chain-based consensus protocol: deterministic content hashing,
//! domain-separated signing and verification over secp256k1, an in-memory
//! signer with a deterministic keyring, and the block / certificate value
//! types that validators sign.

pub mod block;
pub mod data_types;
pub mod encoding;
pub mod hashing;
pub mod signer;
pub mod signing;

//! CLSAG: compact linkable ring signatures over the Ristretto group.
//!
//! A signer proves, hidden among a ring of decoy key vectors, that it holds the
//! private keys of one ring member, and publishes one key image per key layer so
//! that a second use of the same private key can be detected.
//!
//! - [`scalar`] and [`point`]: scalars and group elements, held by their
//!   canonical 32-byte encodings;
//! - [`keys`]: the key vectors of a member;
//! - [`member`] and [`clsag`]: ring members, the ring and signing;
//! - [`signature`]: signatures, their wire form and their verification;
//! - [`transcript`]: what is hashed into aggregation weights and challenges;
//! - [`laws`]: what holds of all of these together;
//! - [`backend`]: the calls into `curve25519-dalek`, `sha2` and `rand_core`,
//!   whose contracts are the only statements in this crate that are taken on
//!   trust.

pub mod backend;
pub mod clsag;
pub mod encoding;
pub mod error;
pub mod keys;
pub mod laws;
pub mod member;
pub mod point;
pub mod scalar;
pub mod signature;
pub mod transcript;

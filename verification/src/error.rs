//! The ways in which assembling a ring, signing and verifying can fail.

use vstd::prelude::*;

verus! {

/// Why an operation on a ring or a signature was refused.
#[derive(Clone, Copy, Debug, PartialEq, Eq, Structural)]
pub enum Error {
    /// A member presents the same public key twice, or a ring holds the same
    /// key vector twice.
    DuplicateKey,
    /// A member has no key at all, or not as many keys as the other members of
    /// the ring.
    MismatchedKeyLength,
    /// A second signer was added to a ring.
    MultipleSigners,
    /// A ring without a signer was asked to sign.
    NoSigner,
    /// A ring without members was asked to sign, or a signature was checked
    /// against no keys.
    EmptyRing,
    /// The number of responses differs from the ring size, or the number of
    /// key images from the number of layers.
    LengthMismatch,
    /// Bytes that should encode a group element or a scalar do not.
    InvalidEncoding,
    /// The challenge chain of a signature does not close: the signature is not
    /// valid for the ring and the message.
    ChallengeMismatch,
    /// What the library relies on from outside failed: the operating system
    /// gave no random bytes.
    CryptoBackendError,
}

} // verus!

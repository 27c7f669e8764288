//! The boundary to `curve25519-dalek`, `sha2` and `rand_core`.
//!
//! Every function here hands plain bytes to the outside crates and takes plain
//! bytes back. Their contracts are believed, not proved: each says what the
//! outside function it calls is documented to compute. What a group operation
//! returns is not written out; it gets a name, and the rest of the crate speaks
//! of the operations through these names.

use vstd::prelude::*;
use crate::encoding::{group_order, le_value};

verus! {

/// Whether `bytes` is the canonical encoding of a group element, which is to
/// say whether `CompressedRistretto::decompress` returns a point for it.
pub uninterp spec fn is_point_encoding(bytes: Seq<u8>) -> bool;

/// The encoding of `A + B`, where `a` encodes `A` and `b` encodes `B`.
pub uninterp spec fn point_sum(a: Seq<u8>, b: Seq<u8>) -> Seq<u8>;

/// The encoding of `scalar * P`, where `point` encodes `P`.
pub uninterp spec fn point_product(scalar: nat, point: Seq<u8>) -> Seq<u8>;

/// The encoding of `scalar * B`, where `B` is the Ristretto basepoint.
pub uninterp spec fn base_product(scalar: nat) -> Seq<u8>;

/// The encoding of the group element that `input` is hashed to with SHA-512
/// and the Ristretto one-way map.
pub uninterp spec fn point_hash(input: Seq<u8>) -> Seq<u8>;

/// The 64-byte SHA-512 digest of `input`, read as a little-endian integer.
pub uninterp spec fn wide_hash(input: Seq<u8>) -> nat;

/// `Scalar::from_bytes_mod_order`: the canonical encoding of the integer that
/// `bytes` encodes, reduced modulo the group order.
#[verifier::external_body]
pub(crate) fn scalar_reduce(bytes: &[u8; 32]) -> (r: [u8; 32])
    ensures
        le_value(r@) == le_value(bytes@) % group_order(),
{
    curve25519_dalek::scalar::Scalar::from_bytes_mod_order(*bytes).to_bytes()
}

/// `Scalar::from_canonical_bytes`: whether `bytes` encodes an integer below
/// the group order.
#[verifier::external_body]
pub(crate) fn scalar_is_canonical(bytes: &[u8; 32]) -> (r: bool)
    ensures
        r == (le_value(bytes@) < group_order()),
{
    curve25519_dalek::scalar::Scalar::from_canonical_bytes(*bytes).is_some().into()
}

/// `Scalar + Scalar`: the canonical encoding of the sum, modulo the group
/// order, of the two integers that `a` and `b` encode.
#[verifier::external_body]
pub(crate) fn scalar_add(a: &[u8; 32], b: &[u8; 32]) -> (r: [u8; 32])
    ensures
        le_value(r@) == (le_value(a@) + le_value(b@)) % group_order(),
{
    let x = curve25519_dalek::scalar::Scalar::from_bytes_mod_order(*a);
    let y = curve25519_dalek::scalar::Scalar::from_bytes_mod_order(*b);
    (x + y).to_bytes()
}

/// `Scalar - Scalar`: the canonical encoding of the difference, modulo the
/// group order, of the two integers that `a` and `b` encode.
#[verifier::external_body]
pub(crate) fn scalar_sub(a: &[u8; 32], b: &[u8; 32]) -> (r: [u8; 32])
    ensures
        le_value(r@) == (le_value(a@) - le_value(b@)) % (group_order() as int),
{
    let x = curve25519_dalek::scalar::Scalar::from_bytes_mod_order(*a);
    let y = curve25519_dalek::scalar::Scalar::from_bytes_mod_order(*b);
    (x - y).to_bytes()
}

/// `Scalar * Scalar`: the canonical encoding of the product, modulo the group
/// order, of the two integers that `a` and `b` encode.
#[verifier::external_body]
pub(crate) fn scalar_mul(a: &[u8; 32], b: &[u8; 32]) -> (r: [u8; 32])
    ensures
        le_value(r@) == (le_value(a@) * le_value(b@)) % group_order(),
{
    let x = curve25519_dalek::scalar::Scalar::from_bytes_mod_order(*a);
    let y = curve25519_dalek::scalar::Scalar::from_bytes_mod_order(*b);
    (x * y).to_bytes()
}

/// `RngCore::try_fill_bytes` on `rand_core::OsRng`: 64 bytes from the
/// operating system's random number generator, or `None` where the system
/// has none to give. Nothing is claimed of the bytes, and two calls may differ.
#[verifier::external_body]
pub(crate) fn random_bytes() -> (r: Option<[u8; 64]>) {
    let mut bytes = [0u8; 64];
    match rand_core::RngCore::try_fill_bytes(&mut rand_core::OsRng, &mut bytes) {
        Ok(()) => Some(bytes),
        Err(_) => None,
    }
}

/// `Scalar::from_bytes_mod_order_wide`: the canonical encoding of the 512-bit
/// integer that `bytes` encodes, reduced modulo the group order.
#[verifier::external_body]
pub(crate) fn scalar_reduce_wide(bytes: &[u8; 64]) -> (r: [u8; 32])
    ensures
        le_value(r@) == le_value(bytes@) % group_order(),
{
    curve25519_dalek::scalar::Scalar::from_bytes_mod_order_wide(bytes).to_bytes()
}

/// `Scalar::hash_from_bytes::<Sha512>`: the canonical encoding of the SHA-512
/// digest of `input`, read as a 512-bit little-endian integer and reduced
/// modulo the group order.
#[verifier::external_body]
pub(crate) fn scalar_from_hash(input: &[u8]) -> (r: [u8; 32])
    ensures
        le_value(r@) == wide_hash(input@) % group_order(),
{
    curve25519_dalek::scalar::Scalar::hash_from_bytes::<sha2::Sha512>(input).to_bytes()
}

/// `RistrettoPoint::hash_from_bytes::<Sha512>`, compressed: the encoding of the
/// group element that `input` is hashed to.
#[verifier::external_body]
pub(crate) fn point_from_hash(input: &[u8]) -> (r: [u8; 32])
    ensures
        r@ == point_hash(input@),
        is_point_encoding(r@),
{
    curve25519_dalek::ristretto::RistrettoPoint::hash_from_bytes::<sha2::Sha512>(input)
        .compress()
        .to_bytes()
}

/// `CompressedRistretto::decompress`: whether `bytes` is the canonical
/// encoding of a group element.
#[verifier::external_body]
pub(crate) fn point_decompresses(bytes: &[u8; 32]) -> (r: bool)
    ensures
        r == is_point_encoding(bytes@),
{
    curve25519_dalek::ristretto::CompressedRistretto(*bytes).decompress().is_some()
}

/// `RistrettoPoint + RistrettoPoint`, between encodings: decompresses both
/// arguments, adds the points and compresses the sum.
#[verifier::external_body]
pub(crate) fn point_add(a: &[u8; 32], b: &[u8; 32]) -> (r: [u8; 32])
    requires
        is_point_encoding(a@),
        is_point_encoding(b@),
    ensures
        r@ == point_sum(a@, b@),
        is_point_encoding(r@),
{
    let p = curve25519_dalek::ristretto::CompressedRistretto(*a).decompress().unwrap();
    let q = curve25519_dalek::ristretto::CompressedRistretto(*b).decompress().unwrap();
    (p + q).compress().to_bytes()
}

/// `Scalar * RistrettoPoint`, between encodings: decompresses `point`,
/// multiplies it by the residue that `scalar` encodes and compresses the
/// product.
#[verifier::external_body]
pub(crate) fn point_mul(scalar: &[u8; 32], point: &[u8; 32]) -> (r: [u8; 32])
    requires
        is_point_encoding(point@),
    ensures
        r@ == point_product(le_value(scalar@) % group_order(), point@),
        is_point_encoding(r@),
{
    let s = curve25519_dalek::scalar::Scalar::from_bytes_mod_order(*scalar);
    let p = curve25519_dalek::ristretto::CompressedRistretto(*point).decompress().unwrap();
    (s * p).compress().to_bytes()
}

/// `RistrettoPoint::mul_base`, compressed: the encoding of the basepoint
/// multiplied by the residue that `scalar` encodes.
#[verifier::external_body]
pub(crate) fn point_mul_base(scalar: &[u8; 32]) -> (r: [u8; 32])
    ensures
        r@ == base_product(le_value(scalar@) % group_order()),
        is_point_encoding(r@),
{
    let s = curve25519_dalek::scalar::Scalar::from_bytes_mod_order(*scalar);
    curve25519_dalek::ristretto::RistrettoPoint::mul_base(&s).compress().to_bytes()
}

} // verus!

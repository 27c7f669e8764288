//! Scalars: integers modulo the group order.

use vstd::prelude::*;
use crate::backend;
use crate::encoding::{bytes_equal, group_order, le_value, lemma_le_value_injective};

verus! {

/// An integer modulo the group order, held by its canonical 32-byte
/// little-endian encoding. Its view is the integer, which is always below the
/// group order.
#[derive(Clone, Copy, Debug)]
pub struct Scalar {
    bytes: [u8; 32],
}

impl View for Scalar {
    type V = nat;

    closed spec fn view(&self) -> nat {
        le_value(self.bytes@)
    }
}

/// The scalar that a transcript is hashed to: its SHA-512 digest, read as a
/// little-endian integer and reduced modulo the group order.
pub open spec fn scalar_hash(input: Seq<u8>) -> nat {
    backend::wide_hash(input) % group_order()
}

/// `a - b` modulo the group order.
pub open spec fn sub_mod(a: nat, b: nat) -> nat {
    ((a - b) % (group_order() as int)) as nat
}

impl Scalar {
    /// What holds of every scalar: it is below the group order.
    #[verifier::type_invariant]
    pub open spec fn is_canonical(self) -> bool {
        self@ < group_order()
    }

    /// The 32 bytes that encode the scalar.
    pub closed spec fn encoding(self) -> Seq<u8> {
        self.bytes@
    }

    /// The encoding has 32 bytes and encodes the view; scalars with one view
    /// have one encoding.
    pub proof fn lemma_encoding(self)
        ensures
            self.encoding().len() == 32,
            le_value(self.encoding()) == self@,
            forall|other: Scalar| other@ == self@ ==> other == self,
    {
        assert forall|other: Scalar| other@ == self@ implies other == self by {
            lemma_le_value_injective(other.bytes@, self.bytes@);
            assert(other.bytes =~= self.bytes);
        }
    }

    /// The scalar that `bytes` encodes, reduced modulo the group order.
    pub fn from_bytes_mod_order(bytes: [u8; 32]) -> (r: Scalar)
        ensures
            r@ == le_value(bytes@) % group_order(),
    {
        let reduced = backend::scalar_reduce(&bytes);
        Scalar { bytes: reduced }
    }

    /// The scalar that `bytes` encodes, if they encode an integer below the
    /// group order.
    pub fn from_canonical_bytes(bytes: [u8; 32]) -> (r: Option<Scalar>)
        ensures
            r is Some <==> le_value(bytes@) < group_order(),
            r is Some ==> r->0.encoding() == bytes@ && r->0@ == le_value(bytes@),
    {
        if backend::scalar_is_canonical(&bytes) {
            Some(Scalar { bytes })
        } else {
            None
        }
    }

    /// The scalar that the 64 bytes `bytes` encode, reduced modulo the group
    /// order. On bytes drawn evenly, the scalar is drawn all but evenly.
    pub fn from_bytes_mod_order_wide(bytes: &[u8; 64]) -> (r: Scalar)
        ensures
            r@ == le_value(bytes@) % group_order(),
    {
        let reduced = backend::scalar_reduce_wide(bytes);
        Scalar { bytes: reduced }
    }

    /// A scalar drawn from the operating system's random number generator,
    /// or `None` where the generator fails: 64 bytes are drawn and reduced
    /// modulo the group order. Which scalar comes out, and whether one does,
    /// is for the generator to decide; what is drawn is below the group order.
    pub fn random() -> (r: Option<Scalar>)
        ensures
            r is Some ==> r->0@ < group_order(),
    {
        match backend::random_bytes() {
            Some(bytes) => Some(Scalar::from_bytes_mod_order_wide(&bytes)),
            None => None,
        }
    }

    /// The scalar that `input` is hashed to.
    pub fn hash_from_bytes(input: &[u8]) -> (r: Scalar)
        ensures
            r@ == scalar_hash(input@),
    {
        let bytes = backend::scalar_from_hash(input);
        Scalar { bytes }
    }

    /// The canonical encoding of the scalar.
    pub fn to_bytes(&self) -> (r: [u8; 32])
        ensures
            r@ == self.encoding(),
            le_value(r@) == self@,
            self@ < group_order(),
    {
        proof {
            use_type_invariant(self);
        }
        self.bytes
    }

    /// The canonical encoding of the scalar, borrowed.
    pub fn as_bytes(&self) -> (r: &[u8; 32])
        ensures
            r@ == self.encoding(),
            le_value(r@) == self@,
            self@ < group_order(),
    {
        proof {
            use_type_invariant(self);
        }
        &self.bytes
    }

    /// `self + other` modulo the group order.
    pub fn add(&self, other: &Scalar) -> (r: Scalar)
        ensures
            r@ == (self@ + other@) % group_order(),
    {
        let bytes = backend::scalar_add(&self.bytes, &other.bytes);
        Scalar { bytes }
    }

    /// `self - other` modulo the group order.
    pub fn sub(&self, other: &Scalar) -> (r: Scalar)
        ensures
            r@ == sub_mod(self@, other@),
    {
        let bytes = backend::scalar_sub(&self.bytes, &other.bytes);
        Scalar { bytes }
    }

    /// `self * other` modulo the group order.
    pub fn mul(&self, other: &Scalar) -> (r: Scalar)
        ensures
            r@ == (self@ * other@) % group_order(),
    {
        let bytes = backend::scalar_mul(&self.bytes, &other.bytes);
        Scalar { bytes }
    }
}

impl PartialEq for Scalar {
    fn eq(&self, other: &Scalar) -> (r: bool) {
        proof {
            if self.bytes@ == other.bytes@ {
            } else if self@ == other@ {
                lemma_le_value_injective(self.bytes@, other.bytes@);
            }
        }
        bytes_equal(&self.bytes, &other.bytes)
    }
}

impl vstd::std_specs::cmp::PartialEqSpecImpl for Scalar {
    open spec fn obeys_eq_spec() -> bool {
        true
    }

    open spec fn eq_spec(&self, other: &Scalar) -> bool {
        self@ == other@
    }
}

} // verus!

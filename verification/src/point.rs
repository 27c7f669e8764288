//! Group elements and their wire form.

use vstd::prelude::*;
use crate::backend;
use crate::backend::{base_product, is_point_encoding, point_hash, point_product, point_sum};
use crate::encoding::bytes_equal;
use crate::scalar::Scalar;

verus! {

/// Thirty-two bytes that are meant to encode a group element. Whether they do
/// is found out by [`CompressedPoint::decompress`].
#[derive(Clone, Copy, Debug)]
pub struct CompressedPoint(pub [u8; 32]);

impl View for CompressedPoint {
    type V = Seq<u8>;

    open spec fn view(&self) -> Seq<u8> {
        self.0@
    }
}

/// An element of the Ristretto group, held by its canonical 32-byte encoding.
/// Its view is that encoding. Equal elements have equal encodings, so two
/// points are the same element exactly if their views are equal.
#[derive(Clone, Copy, Debug)]
pub struct Point {
    bytes: [u8; 32],
}

impl View for Point {
    type V = Seq<u8>;

    closed spec fn view(&self) -> Seq<u8> {
        self.bytes@
    }
}

impl CompressedPoint {
    /// The bytes of the encoding.
    pub fn to_bytes(&self) -> (r: [u8; 32])
        ensures
            r@ == self@,
    {
        self.0
    }

    /// The bytes of the encoding, borrowed.
    pub fn as_bytes(&self) -> (r: &[u8; 32])
        ensures
            r@ == self@,
    {
        &self.0
    }

    /// The group element that the bytes encode, if they are the canonical
    /// encoding of one.
    pub fn decompress(&self) -> (r: Option<Point>)
        ensures
            r is Some <==> is_point_encoding(self@),
            r is Some ==> r->0@ == self@,
    {
        if backend::point_decompresses(&self.0) {
            Some(Point { bytes: self.0 })
        } else {
            None
        }
    }
}

impl Point {
    /// What holds of every point: its view is the encoding of a group
    /// element.
    #[verifier::type_invariant]
    pub open spec fn is_valid(self) -> bool {
        is_point_encoding(self@)
    }

    /// A point's view has 32 bytes, and points with one view are one point.
    pub proof fn lemma_view(self)
        ensures
            self@.len() == 32,
            forall|other: Point| other@ == self@ ==> other == self,
    {
        assert forall|other: Point| other@ == self@ implies other == self by {
            assert(other.bytes =~= self.bytes);
        }
    }

    /// The canonical encoding of the point.
    pub fn compress(&self) -> (r: CompressedPoint)
        ensures
            r@ == self@,
            is_point_encoding(r@),
    {
        proof {
            use_type_invariant(self);
        }
        CompressedPoint(self.bytes)
    }

    /// The group element that `input` is hashed to. No multiple of another
    /// point is known for it.
    pub fn hash_from_bytes(input: &[u8]) -> (r: Point)
        ensures
            r@ == point_hash(input@),
    {
        let bytes = backend::point_from_hash(input);
        Point { bytes }
    }

    /// `scalar * B`, where `B` is the basepoint of the group.
    pub fn mul_base(scalar: &Scalar) -> (r: Point)
        ensures
            r@ == base_product(scalar@),
    {
        let s = scalar.as_bytes();
        assert(scalar@ % crate::encoding::group_order() == scalar@) by {
            vstd::arithmetic::div_mod::lemma_small_mod(scalar@, crate::encoding::group_order());
        }
        let bytes = backend::point_mul_base(s);
        Point { bytes }
    }

    /// `scalar * self`.
    pub fn mul(&self, scalar: &Scalar) -> (r: Point)
        ensures
            r@ == point_product(scalar@, self@),
    {
        proof {
            use_type_invariant(self);
        }
        let s = scalar.as_bytes();
        assert(scalar@ % crate::encoding::group_order() == scalar@) by {
            vstd::arithmetic::div_mod::lemma_small_mod(scalar@, crate::encoding::group_order());
        }
        let bytes = backend::point_mul(s, &self.bytes);
        Point { bytes }
    }

    /// `self + other`.
    pub fn add(&self, other: &Point) -> (r: Point)
        ensures
            r@ == point_sum(self@, other@),
    {
        proof {
            use_type_invariant(self);
            use_type_invariant(other);
        }
        let bytes = backend::point_add(&self.bytes, &other.bytes);
        Point { bytes }
    }
}

impl PartialEq for CompressedPoint {
    fn eq(&self, other: &CompressedPoint) -> (r: bool) {
        bytes_equal(&self.0, &other.0)
    }
}

impl vstd::std_specs::cmp::PartialEqSpecImpl for CompressedPoint {
    open spec fn obeys_eq_spec() -> bool {
        true
    }

    open spec fn eq_spec(&self, other: &CompressedPoint) -> bool {
        self@ == other@
    }
}

impl PartialEq for Point {
    fn eq(&self, other: &Point) -> (r: bool) {
        bytes_equal(&self.bytes, &other.bytes)
    }
}

impl vstd::std_specs::cmp::PartialEqSpecImpl for Point {
    open spec fn obeys_eq_spec() -> bool {
        true
    }

    open spec fn eq_spec(&self, other: &Point) -> bool {
        self@ == other@
    }
}

} // verus!

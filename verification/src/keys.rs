//! Key vectors: the public keys of one ring member, and the private keys of
//! the signer.
//!
//! A member has one key per layer, and the order of the layers is the same for
//! every member of a ring. A public key vector is meant to be a set: presenting
//! one key twice proves nothing more, and a ring refuses it.

use vstd::prelude::*;
use crate::backend::{base_product, is_point_encoding, point_hash, point_product};
use crate::encoding::{append_bytes, concat, group_order, lemma_concat_push};
use crate::point::{CompressedPoint, Point};
use crate::scalar::Scalar;

verus! {

/// The encodings of a sequence of points.
pub open spec fn point_encodings(points: Seq<Point>) -> Seq<Seq<u8>> {
    Seq::new(points.len(), |i: int| points[i]@)
}

/// The byte strings of a sequence of compressed points.
pub open spec fn compressed_encodings(points: Seq<CompressedPoint>) -> Seq<Seq<u8>> {
    Seq::new(points.len(), |i: int| points[i]@)
}

/// The integers of a sequence of scalars.
pub open spec fn scalar_values(scalars: Seq<Scalar>) -> Seq<nat> {
    Seq::new(scalars.len(), |i: int| scalars[i]@)
}

/// Whether every scalar of `scalars` is below the group order.
pub open spec fn all_canonical(scalars: Seq<nat>) -> bool {
    forall|i: int| 0 <= i < scalars.len() ==> (#[trigger] scalars[i]) < group_order()
}

/// Whether every byte string of `encodings` encodes a group element.
pub open spec fn all_decompress(encodings: Seq<Seq<u8>>) -> bool {
    forall|i: int| 0 <= i < encodings.len() ==> is_point_encoding(#[trigger] encodings[i])
}

/// Whether some encoding occurs at two places of `keys`.
pub open spec fn has_duplicates(keys: Seq<Seq<u8>>) -> bool {
    exists|i: int, j: int| 0 <= i < j < keys.len() && keys[i] == keys[j]
}

/// The public keys that belong to the private keys `private`: each private key
/// times the basepoint.
pub open spec fn public_keys_of(private: Seq<nat>) -> Seq<Seq<u8>> {
    Seq::new(private.len(), |i: int| base_product(private[i]))
}

/// The key images of the private keys `private` over `generator`: each
/// private key times the generator.
pub open spec fn key_images_of(private: Seq<nat>, generator: Seq<u8>) -> Seq<Seq<u8>> {
    Seq::new(private.len(), |i: int| point_product(private[i], generator))
}

/// The encodings of `points`, one after the other.
pub fn points_to_bytes(points: &Vec<Point>) -> (r: Vec<u8>)
    ensures
        r@ == concat(point_encodings(points@)),
{
    let mut out: Vec<u8> = Vec::new();
    let mut i: usize = 0;
    while i < points.len()
        invariant
            i <= points@.len(),
            out@ == concat(point_encodings(points@).take(i as int)),
        decreases points@.len() - i,
    {
        let encoded = points[i].compress();
        append_bytes(&mut out, encoded.as_bytes().as_slice());
        proof {
            let all = point_encodings(points@);
            lemma_concat_push(all.take(i as int), all[i as int]);
            assert(all.take(i + 1) =~= all.take(i as int).push(all[i as int]));
        }
        i += 1;
    }
    assert(point_encodings(points@).take(points@.len() as int) =~= point_encodings(points@));
    out
}

/// The wire forms of `points`, in the same order.
pub fn compress_points(points: &Vec<Point>) -> (r: Vec<CompressedPoint>)
    ensures
        r@.len() == points@.len(),
        compressed_encodings(r@) == point_encodings(points@),
        forall|i: int| 0 <= i < r@.len() ==> is_point_encoding(#[trigger] r@[i]@),
{
    let mut compressed: Vec<CompressedPoint> = Vec::new();
    let mut i: usize = 0;
    while i < points.len()
        invariant
            i <= points@.len(),
            compressed@.len() == i,
            forall|k: int| 0 <= k < i ==> (#[trigger] compressed@[k])@ == points@[k]@,
            forall|k: int| 0 <= k < i ==> is_point_encoding(#[trigger] compressed@[k]@),
        decreases points@.len() - i,
    {
        compressed.push(points[i].compress());
        i += 1;
    }
    compressed
}

/// The public keys of one ring member, one per layer. Its view is the
/// sequence of their encodings.
#[derive(Debug)]
pub struct PublicSet(pub Vec<Point>);

impl View for PublicSet {
    type V = Seq<Seq<u8>>;

    open spec fn view(&self) -> Seq<Seq<u8>> {
        point_encodings(self.0@)
    }
}

impl Clone for PublicSet {
    fn clone(&self) -> (r: PublicSet)
        ensures
            r@ == self@,
    {
        let mut keys: Vec<Point> = Vec::new();
        let mut i: usize = 0;
        while i < self.0.len()
            invariant
                i <= self.0@.len(),
                keys@ == self.0@.take(i as int),
            decreases self.0@.len() - i,
        {
            keys.push(self.0[i]);
            i += 1;
        }
        PublicSet(keys)
    }
}

impl PublicSet {
    /// The number of public keys in the set.
    pub fn len(&self) -> (r: usize)
        ensures
            r == self@.len(),
    {
        self.0.len()
    }

    /// Whether the set holds no key.
    pub fn is_empty(&self) -> (r: bool)
        ensures
            r == (self@.len() == 0),
    {
        if self.0.len() == 0 {
            return true;
        }
        false
    }

    /// Whether two of the keys have the same canonical encoding, which is to
    /// say whether the member presents one key twice.
    pub fn duplicates_exist(&self) -> (r: bool)
        ensures
            r == has_duplicates(self@),
    {
        let n = self.0.len();
        let mut i: usize = 0;
        while i < n
            invariant
                n == self.0@.len(),
                i <= n,
                forall|a: int, b: int| 0 <= a < b < n && a < i ==> self@[a] != self@[b],
            decreases n - i,
        {
            let first = self.0[i].compress();
            let mut j: usize = i + 1;
            while j < n
                invariant
                    n == self.0@.len(),
                    i < j <= n,
                    first@ == self@[i as int],
                    forall|b: int| i < b < j ==> self@[i as int] != self@[b],
                decreases n - j,
            {
                let second = self.0[j].compress();
                if first == second {
                    assert(self@[i as int] == self@[j as int]);
                    return true;
                }
                j += 1;
            }
            i += 1;
        }
        false
    }

    /// The hash-to-point of the first public key of the set: the generator over
    /// which the key images of this member are taken.
    pub fn hashed_pubkey(&self) -> (r: Point)
        requires
            self@.len() > 0,
        ensures
            r@ == point_hash(self@[0]),
    {
        let first_pubkey = self.0[0].compress();
        Point::hash_from_bytes(first_pubkey.as_bytes().as_slice())
    }

    /// The encodings of the keys, one after the other in layer order.
    pub fn to_bytes(&self) -> (r: Vec<u8>)
        ensures
            r@ == concat(self@),
    {
        points_to_bytes(&self.0)
    }

    /// The keys in their wire form, in layer order.
    pub fn to_keys(&self) -> (r: Vec<CompressedPoint>)
        ensures
            r@.len() == self@.len(),
            compressed_encodings(r@) == self@,
            forall|i: int| 0 <= i < r@.len() ==> is_point_encoding(#[trigger] r@[i]@),
    {
        compress_points(&self.0)
    }
}

impl PartialEq for PublicSet {
    fn eq(&self, other: &PublicSet) -> (r: bool) {
        if self.0.len() != other.0.len() {
            assert(self@.len() != other@.len());
            return false;
        }
        let mut i: usize = 0;
        while i < self.0.len()
            invariant
                i <= self.0@.len(),
                self.0@.len() == other.0@.len(),
                forall|k: int| 0 <= k < i ==> self@[k] == other@[k],
            decreases self.0@.len() - i,
        {
            if self.0[i] != other.0[i] {
                assert(self@[i as int] != other@[i as int]);
                return false;
            }
            i += 1;
        }
        assert(self@ =~= other@);
        true
    }
}

impl vstd::std_specs::cmp::PartialEqSpecImpl for PublicSet {
    open spec fn obeys_eq_spec() -> bool {
        true
    }

    open spec fn eq_spec(&self, other: &PublicSet) -> bool {
        self@ == other@
    }
}

/// The private keys of the signer, one per layer. Its view is the sequence of
/// the integers they stand for.
#[derive(Debug)]
pub struct PrivateSet(pub(crate) Vec<Scalar>);

impl View for PrivateSet {
    type V = Seq<nat>;

    closed spec fn view(&self) -> Seq<nat> {
        scalar_values(self.0@)
    }
}

impl Clone for PrivateSet {
    fn clone(&self) -> (r: PrivateSet)
        ensures
            r@ == self@,
    {
        PrivateSet(self.to_scalars())
    }
}

impl PrivateSet {
    /// The set of the private keys `scalars`.
    pub fn new(scalars: Vec<Scalar>) -> (r: PrivateSet)
        ensures
            r@ == scalar_values(scalars@),
    {
        PrivateSet(scalars)
    }

    /// The public keys that belong to the private keys: each private key
    /// times the basepoint, in the same order.
    pub fn to_public_set(&self) -> (r: PublicSet)
        ensures
            r@ == public_keys_of(self@),
    {
        let mut public_keys: Vec<Point> = Vec::new();
        let mut i: usize = 0;
        while i < self.0.len()
            invariant
                i <= self.0@.len(),
                public_keys@.len() == i,
                forall|k: int|
                    0 <= k < i ==> (#[trigger] public_keys@[k])@ == base_product(self@[k]),
            decreases self.0@.len() - i,
        {
            public_keys.push(Point::mul_base(&self.0[i]));
            i += 1;
        }
        PublicSet(public_keys)
    }

    /// The key images of the private keys as group elements: each private
    /// key times `signers_basepoint`, in the same order.
    pub fn key_image_points(&self, signers_basepoint: &Point) -> (r: Vec<Point>)
        ensures
            r@.len() == self@.len(),
            point_encodings(r@) == key_images_of(self@, signers_basepoint@),
    {
        let mut images: Vec<Point> = Vec::new();
        let mut i: usize = 0;
        while i < self.0.len()
            invariant
                i <= self.0@.len(),
                images@.len() == i,
                forall|k: int|
                    0 <= k < i ==> (#[trigger] images@[k])@ == point_product(
                        self@[k],
                        signers_basepoint@,
                    ),
            decreases self.0@.len() - i,
        {
            images.push(signers_basepoint.mul(&self.0[i]));
            i += 1;
        }
        images
    }

    /// The key images of the private keys: each private key times
    /// `signers_basepoint`, compressed, in the same order. The generator is
    /// meant to be the hashed public key of the member that owns the keys.
    pub fn compute_key_images(&self, signers_basepoint: &Point) -> (r: Vec<CompressedPoint>)
        ensures
            r@.len() == self@.len(),
            compressed_encodings(r@) == key_images_of(self@, signers_basepoint@),
            forall|i: int| 0 <= i < r@.len() ==> is_point_encoding(#[trigger] r@[i]@),
    {
        let images = self.key_image_points(signers_basepoint);
        compress_points(&images)
    }

    /// The private key of layer `j`.
    pub(crate) fn key(&self, j: usize) -> (r: &Scalar)
        requires
            j < self@.len(),
        ensures
            r@ == self@[j as int],
            r@ < group_order(),
    {
        let key = &self.0[j];
        proof {
            use_type_invariant(key);
        }
        key
    }

    /// The number of private keys in the set.
    pub fn len(&self) -> (r: usize)
        ensures
            r == self@.len(),
    {
        self.0.len()
    }

    /// Whether the set holds no key.
    pub fn is_empty(&self) -> (r: bool)
        ensures
            r == (self@.len() == 0),
    {
        if self.0.len() == 0 {
            return true;
        }
        false
    }

    /// The private keys, in layer order.
    pub fn to_scalars(&self) -> (r: Vec<Scalar>)
        ensures
            scalar_values(r@) == self@,
    {
        let mut scalars: Vec<Scalar> = Vec::new();
        let mut i: usize = 0;
        while i < self.0.len()
            invariant
                i <= self.0@.len(),
                scalars@ == self.0@.take(i as int),
            decreases self.0@.len() - i,
        {
            scalars.push(self.0[i]);
            i += 1;
        }
        scalars
    }
}

} // verus!

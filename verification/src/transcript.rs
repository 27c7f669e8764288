//! What a challenge chain reads of a ring: the aggregation weights of the
//! layers, the aggregated key of each member, the aggregated key image, and
//! the transcripts that are hashed into challenges.
//!
//! The byte layout of the two transcripts is fixed here, once, for signing and
//! for verifying.

use vstd::prelude::*;
use vstd::bytes::{spec_u64_to_le_bytes, u64_to_le_bytes};
use crate::backend::{base_product, point_hash, point_product, point_sum};
use crate::encoding::{append_bytes, concat, lemma_concat_push};
use crate::keys::{point_encodings, points_to_bytes, scalar_values, PublicSet};
use crate::point::Point;
use crate::scalar::{scalar_hash, Scalar};

verus! {

/// The tag that opens the transcript of an aggregation weight: `CLSAG_agg`.
pub const AGGREGATION_DOMAIN: [u8; 9] = [0x43, 0x4c, 0x53, 0x41, 0x47, 0x5f, 0x61, 0x67, 0x67];

/// The tag that opens the transcript of a challenge: `CLSAG_round`.
pub const CHALLENGE_DOMAIN: [u8; 11] = [
    0x43,
    0x4c,
    0x53,
    0x41,
    0x47,
    0x5f,
    0x72,
    0x6f,
    0x75,
    0x6e,
    0x64,
];

/// The key vectors of the members of a ring, by member and layer.
pub open spec fn key_matrix(sets: Seq<PublicSet>) -> Seq<Seq<Seq<u8>>> {
    Seq::new(sets.len(), |i: int| sets[i]@)
}

/// Whether the ring `keys` has at least one member and every member has
/// `layers` keys, `layers` being at least one.
pub open spec fn is_ring_of(keys: Seq<Seq<Seq<u8>>>, layers: nat) -> bool {
    &&& keys.len() > 0
    &&& layers > 0
    &&& forall|i: int| 0 <= i < keys.len() ==> (#[trigger] keys[i]).len() == layers
}

/// The keys of layer `j`, one per member, in ring order.
pub open spec fn layer_keys(keys: Seq<Seq<Seq<u8>>>, j: int) -> Seq<Seq<u8>> {
    Seq::new(keys.len(), |i: int| keys[i][j])
}

/// The transcript of the aggregation weight of layer `j`: the tag, the layer
/// index in eight little-endian bytes, the layer's key of every member in ring
/// order, and the key images in layer order.
pub open spec fn aggregation_transcript(
    keys: Seq<Seq<Seq<u8>>>,
    images: Seq<Seq<u8>>,
    j: int,
) -> Seq<u8> {
    AGGREGATION_DOMAIN@ + spec_u64_to_le_bytes(j as u64) + concat(layer_keys(keys, j)) + concat(
        images,
    )
}

/// The aggregation weights, one per layer.
pub open spec fn layer_weights(keys: Seq<Seq<Seq<u8>>>, images: Seq<Seq<u8>>) -> Seq<nat> {
    Seq::new(images.len(), |j: int| scalar_hash(aggregation_transcript(keys, images, j)))
}

/// `weights[0] * points[0] + ... + weights[count - 1] * points[count - 1]`,
/// for `count` at least one.
pub open spec fn weighted_point_sum(weights: Seq<nat>, points: Seq<Seq<u8>>, count: nat) -> Seq<u8>
    decreases count,
{
    if count <= 1 {
        point_product(weights[0], points[0])
    } else {
        point_sum(
            weighted_point_sum(weights, points, (count - 1) as nat),
            point_product(weights[count - 1], points[count - 1]),
        )
    }
}

/// What the challenges of one ring, one set of key images and one message are
/// computed from.
pub struct TranscriptView {
    /// The aggregated public key of each member.
    pub keys: Seq<Seq<u8>>,
    /// The generator of each member: the hash-to-point of its first key.
    pub generators: Seq<Seq<u8>>,
    /// The aggregated key image.
    pub image: Seq<u8>,
    /// What every challenge transcript begins with: the tag, the message, the
    /// aggregated keys in ring order and the aggregated key image.
    pub prefix: Seq<u8>,
}

/// The aggregated public key of each member of the ring.
pub open spec fn aggregated_keys(keys: Seq<Seq<Seq<u8>>>, images: Seq<Seq<u8>>) -> Seq<Seq<u8>> {
    Seq::new(
        keys.len(),
        |i: int| weighted_point_sum(layer_weights(keys, images), keys[i], images.len()),
    )
}

/// The aggregated key image.
pub open spec fn aggregated_image(keys: Seq<Seq<Seq<u8>>>, images: Seq<Seq<u8>>) -> Seq<u8> {
    weighted_point_sum(layer_weights(keys, images), images, images.len())
}

/// The transcript data of the ring `keys`, the key images `images` and the
/// message `msg`.
pub open spec fn transcript_of(
    keys: Seq<Seq<Seq<u8>>>,
    images: Seq<Seq<u8>>,
    msg: Seq<u8>,
) -> TranscriptView {
    TranscriptView {
        keys: aggregated_keys(keys, images),
        generators: Seq::new(keys.len(), |i: int| point_hash(keys[i][0])),
        image: aggregated_image(keys, images),
        prefix: CHALLENGE_DOMAIN@ + msg + concat(aggregated_keys(keys, images)) + aggregated_image(
            keys,
            images,
        ),
    }
}

/// The challenge that follows member `i`, whose own challenge is `c` and whose
/// response is `s`: the hash of the prefix, of `s * B + c * P_i` and of
/// `s * H_i + c * I`, where `P_i` is the member's aggregated key, `H_i` its
/// generator and `I` the aggregated key image.
pub open spec fn next_challenge(t: TranscriptView, i: int, c: nat, s: nat) -> nat {
    scalar_hash(
        t.prefix + point_sum(base_product(s), point_product(c, t.keys[i])) + point_sum(
            point_product(s, t.generators[i]),
            point_product(c, t.image),
        ),
    )
}

/// The challenge that follows the signer, member `l`, when it commits to the
/// nonce `alpha`: the hash of the prefix, of `alpha * B` and of `alpha * H_l`.
pub open spec fn opening_challenge(t: TranscriptView, l: int, alpha: nat) -> nat {
    scalar_hash(t.prefix + base_product(alpha) + point_product(alpha, t.generators[l]))
}

/// The transcript data of one ring, one set of key images and one message,
/// ready for computing challenges.
pub(crate) struct Transcript {
    keys: Vec<Point>,
    generators: Vec<Point>,
    image: Point,
    prefix: Vec<u8>,
    weights: Vec<Scalar>,
}

impl View for Transcript {
    type V = TranscriptView;

    closed spec fn view(&self) -> TranscriptView {
        TranscriptView {
            keys: point_encodings(self.keys@),
            generators: point_encodings(self.generators@),
            image: self.image@,
            prefix: self.prefix@,
        }
    }
}

/// `weights[0] * points[0] + ... `, over all of `points`.
fn weighted_sum(weights: &Vec<Scalar>, points: &Vec<Point>) -> (r: Point)
    requires
        points@.len() > 0,
        weights@.len() == points@.len(),
    ensures
        r@ == weighted_point_sum(
            scalar_values(weights@),
            point_encodings(points@),
            points@.len(),
        ),
{
    let mut acc = points[0].mul(&weights[0]);
    let mut j: usize = 1;
    while j < points.len()
        invariant
            1 <= j <= points@.len(),
            weights@.len() == points@.len(),
            acc@ == weighted_point_sum(
                scalar_values(weights@),
                point_encodings(points@),
                j as nat,
            ),
        decreases points@.len() - j,
    {
        let term = points[j].mul(&weights[j]);
        acc = acc.add(&term);
        j += 1;
    }
    acc
}

/// The aggregation weight of layer `j`.
fn layer_weight(keys: &Vec<PublicSet>, images: &Vec<Point>, image_bytes: &Vec<u8>, j: usize) -> (r:
    Scalar)
    requires
        forall|i: int| 0 <= i < keys@.len() ==> j < (#[trigger] keys@[i])@.len(),
        image_bytes@ == concat(point_encodings(images@)),
    ensures
        r@ == scalar_hash(
            aggregation_transcript(key_matrix(keys@), point_encodings(images@), j as int),
        ),
{
    let mut buf: Vec<u8> = Vec::new();
    append_bytes(&mut buf, AGGREGATION_DOMAIN.as_slice());
    let index = u64_to_le_bytes(j as u64);
    append_bytes(&mut buf, index.as_slice());
    let ghost head = buf@;
    let ghost column = layer_keys(key_matrix(keys@), j as int);
    let mut i: usize = 0;
    while i < keys.len()
        invariant
            i <= keys@.len(),
            forall|i: int| 0 <= i < keys@.len() ==> j < (#[trigger] keys@[i])@.len(),
            column == layer_keys(key_matrix(keys@), j as int),
            buf@ == head + concat(column.take(i as int)),
        decreases keys@.len() - i,
    {
        let key = keys[i].0[j].compress();
        append_bytes(&mut buf, key.as_bytes().as_slice());
        proof {
            lemma_concat_push(column.take(i as int), column[i as int]);
            assert(column.take(i + 1) =~= column.take(i as int).push(column[i as int]));
        }
        i += 1;
    }
    assert(column.take(keys@.len() as int) =~= column);
    append_bytes(&mut buf, image_bytes.as_slice());
    Scalar::hash_from_bytes(buf.as_slice())
}

impl Transcript {
    /// The transcript data of the ring `keys`, the key images `images` and the
    /// message `msg`.
    pub(crate) fn new(keys: &Vec<PublicSet>, images: &Vec<Point>, msg: &[u8]) -> (r: Transcript)
        requires
            is_ring_of(key_matrix(keys@), images@.len() as nat),
        ensures
            r@ == transcript_of(key_matrix(keys@), point_encodings(images@), msg@),
            r.weights() == layer_weights(key_matrix(keys@), point_encodings(images@)),
    {
        let n = keys.len();
        let k = images.len();
        let ghost matrix = key_matrix(keys@);
        let ghost image_seq = point_encodings(images@);
        let image_bytes = points_to_bytes(images);

        let mut weights: Vec<Scalar> = Vec::new();
        let mut j: usize = 0;
        while j < k
            invariant
                j <= k,
                k == images@.len(),
                is_ring_of(key_matrix(keys@), k as nat),
                matrix == key_matrix(keys@),
                image_seq == point_encodings(images@),
                image_bytes@ == concat(image_seq),
                weights@.len() == j,
                forall|x: int|
                    0 <= x < j ==> (#[trigger] weights@[x])@ == layer_weights(matrix, image_seq)[x],
            decreases k - j,
        {
            assert forall|i: int| 0 <= i < keys@.len() implies j < (#[trigger] keys@[i])@.len() by {
                assert(matrix[i].len() == k);
            }
            let w = layer_weight(keys, images, &image_bytes, j);
            weights.push(w);
            j += 1;
        }

        let mut aggregated: Vec<Point> = Vec::new();
        let mut generators: Vec<Point> = Vec::new();
        let mut i: usize = 0;
        while i < n
            invariant
                i <= n,
                n == keys@.len(),
                k == images@.len(),
                is_ring_of(key_matrix(keys@), k as nat),
                matrix == key_matrix(keys@),
                image_seq == point_encodings(images@),
                weights@.len() == k,
                scalar_values(weights@) == layer_weights(matrix, image_seq),
                aggregated@.len() == i,
                generators@.len() == i,
                forall|x: int|
                    0 <= x < i ==> (#[trigger] aggregated@[x])@ == aggregated_keys(
                        matrix,
                        image_seq,
                    )[x],
                forall|x: int|
                    0 <= x < i ==> (#[trigger] generators@[x])@ == point_hash(matrix[x][0]),
            decreases n - i,
        {
            assert(point_encodings(keys@[i as int].0@) == matrix[i as int]);
            aggregated.push(weighted_sum(&weights, &keys[i].0));
            generators.push(keys[i].hashed_pubkey());
            i += 1;
        }
        let image = weighted_sum(&weights, images);

        let mut prefix: Vec<u8> = Vec::new();
        append_bytes(&mut prefix, CHALLENGE_DOMAIN.as_slice());
        append_bytes(&mut prefix, msg);
        let key_bytes = points_to_bytes(&aggregated);
        append_bytes(&mut prefix, key_bytes.as_slice());
        append_bytes(&mut prefix, image.compress().as_bytes().as_slice());

        let r = Transcript { keys: aggregated, generators, image, prefix, weights };
        proof {
            let t = transcript_of(matrix, image_seq, msg@);
            assert(r@.keys =~= t.keys);
            assert(r@.generators =~= t.generators);
        }
        r
    }

    /// The aggregation weights of the layers.
    pub(crate) closed spec fn weights(&self) -> Seq<nat> {
        scalar_values(self.weights@)
    }

    /// The aggregation weight of layer `j`.
    pub(crate) fn weight(&self, j: usize) -> (r: Scalar)
        requires
            j < self.weights().len(),
        ensures
            r@ == self.weights()[j as int],
    {
        self.weights[j]
    }

    /// The challenge that follows member `i`, whose own challenge is `c` and
    /// whose response is `s`.
    pub(crate) fn next_challenge(&self, i: usize, c: &Scalar, s: &Scalar) -> (r: Scalar)
        requires
            i < self@.keys.len(),
            i < self@.generators.len(),
        ensures
            r@ == next_challenge(self@, i as int, c@, s@),
    {
        let left = Point::mul_base(s).add(&self.keys[i].mul(c));
        let right = self.generators[i].mul(s).add(&self.image.mul(c));
        let mut buf: Vec<u8> = Vec::new();
        append_bytes(&mut buf, self.prefix.as_slice());
        append_bytes(&mut buf, left.compress().as_bytes().as_slice());
        append_bytes(&mut buf, right.compress().as_bytes().as_slice());
        Scalar::hash_from_bytes(buf.as_slice())
    }

    /// The challenge that follows the signer, member `l`, when it commits to
    /// the nonce `alpha`.
    pub(crate) fn opening_challenge(&self, l: usize, alpha: &Scalar) -> (r: Scalar)
        requires
            l < self@.generators.len(),
        ensures
            r@ == opening_challenge(self@, l as int, alpha@),
    {
        let left = Point::mul_base(alpha);
        let right = self.generators[l].mul(alpha);
        let mut buf: Vec<u8> = Vec::new();
        append_bytes(&mut buf, self.prefix.as_slice());
        append_bytes(&mut buf, left.compress().as_bytes().as_slice());
        append_bytes(&mut buf, right.compress().as_bytes().as_slice());
        Scalar::hash_from_bytes(buf.as_slice())
    }
}

} // verus!

//! Signatures and their verification.

use vstd::prelude::*;
use crate::backend::is_point_encoding;
use crate::encoding::{
    append_bytes,
    block,
    blocks,
    concat,
    group_order,
    le_value,
    lemma_concat_blocks,
    lemma_concat_fixed_width,
    lemma_concat_push,
    read_block,
};
use crate::error::Error;
use crate::keys::{
    all_decompress,
    compressed_encodings,
    point_encodings,
    scalar_values,
    PublicSet,
};
use crate::point::{CompressedPoint, Point};
use crate::scalar::Scalar;
use crate::transcript::{
    is_ring_of,
    key_matrix,
    next_challenge,
    transcript_of,
    Transcript,
    TranscriptView,
};

verus! {

/// A ring signature: the challenge of the first ring member, one response per
/// ring member, and one key image per layer.
#[derive(Debug)]
pub struct Signature {
    /// The challenge of the member at index 0.
    pub initial_challenge: Scalar,
    /// The responses, in ring order.
    pub responses: Vec<Scalar>,
    /// The key images of the signer, in layer order.
    pub key_images: Vec<CompressedPoint>,
}

/// What a signature holds: the challenge and the responses as integers, the
/// key images as byte strings.
pub struct SignatureView {
    pub initial_challenge: nat,
    pub responses: Seq<nat>,
    pub key_images: Seq<Seq<u8>>,
}

impl View for Signature {
    type V = SignatureView;

    open spec fn view(&self) -> SignatureView {
        SignatureView {
            initial_challenge: self.initial_challenge@,
            responses: scalar_values(self.responses@),
            key_images: compressed_encodings(self.key_images@),
        }
    }
}

impl Clone for Signature {
    fn clone(&self) -> (r: Signature)
        ensures
            r@ == self@,
    {
        let mut responses: Vec<Scalar> = Vec::new();
        let mut i: usize = 0;
        while i < self.responses.len()
            invariant
                i <= self.responses@.len(),
                responses@ == self.responses@.take(i as int),
            decreases self.responses@.len() - i,
        {
            responses.push(self.responses[i]);
            i += 1;
        }
        assert(self.responses@.take(self.responses@.len() as int) =~= self.responses@);
        let mut key_images: Vec<CompressedPoint> = Vec::new();
        let mut j: usize = 0;
        while j < self.key_images.len()
            invariant
                j <= self.key_images@.len(),
                key_images@ == self.key_images@.take(j as int),
            decreases self.key_images@.len() - j,
        {
            key_images.push(self.key_images[j]);
            j += 1;
        }
        assert(self.key_images@.take(self.key_images@.len() as int) =~= self.key_images@);
        Signature { initial_challenge: self.initial_challenge, responses, key_images }
    }
}

/// The challenge of member `steps`, when member 0 has the challenge `first`
/// and each member `i` answers with `responses[i]`.
pub open spec fn chain_challenge(
    t: TranscriptView,
    first: nat,
    responses: Seq<nat>,
    steps: nat,
) -> nat
    decreases steps,
{
    if steps == 0 {
        first
    } else {
        next_challenge(
            t,
            steps - 1,
            chain_challenge(t, first, responses, (steps - 1) as nat),
            responses[steps - 1],
        )
    }
}

/// Whether the challenge chain of `sig` closes over the ring `keys` and the
/// message `msg`: whether walking the whole ring from the signature's
/// challenge leads back to that challenge.
pub open spec fn chain_closes(sig: SignatureView, keys: Seq<Seq<Seq<u8>>>, msg: Seq<u8>) -> bool {
    chain_challenge(
        transcript_of(keys, sig.key_images, msg),
        sig.initial_challenge,
        sig.responses,
        keys.len(),
    ) == sig.initial_challenge
}

/// The outcome of verifying `sig` against the ring `keys` and the message
/// `msg`. The checks are made in this order: the ring has a member; every
/// member has the same number of keys, at least one; the signature has one
/// response per member and one key image per layer; every key image encodes a
/// group element; the challenge chain closes.
pub open spec fn verify_outcome(
    sig: SignatureView,
    keys: Seq<Seq<Seq<u8>>>,
    msg: Seq<u8>,
) -> Result<(), Error> {
    if keys.len() == 0 {
        Err(Error::EmptyRing)
    } else if !is_ring_of(keys, keys[0].len()) {
        Err(Error::MismatchedKeyLength)
    } else if sig.responses.len() != keys.len() || sig.key_images.len() != keys[0].len() {
        Err(Error::LengthMismatch)
    } else if !all_decompress(sig.key_images) {
        Err(Error::InvalidEncoding)
    } else if !chain_closes(sig, keys, msg) {
        Err(Error::ChallengeMismatch)
    } else {
        Ok(())
    }
}

/// The number of keys of the first member, if the ring has a member and all
/// members have that many keys, at least one.
fn layer_count(public_keys: &Vec<PublicSet>) -> (r: Option<usize>)
    ensures
        match r {
            Some(k) => public_keys@.len() > 0 && k == public_keys@[0]@.len() && is_ring_of(
                key_matrix(public_keys@),
                k as nat,
            ),
            None => public_keys@.len() == 0 || !is_ring_of(
                key_matrix(public_keys@),
                public_keys@[0]@.len(),
            ),
        },
{
    if public_keys.len() == 0 {
        return None;
    }
    let k = public_keys[0].len();
    let ghost matrix = key_matrix(public_keys@);
    if k == 0 {
        return None;
    }
    let mut i: usize = 0;
    while i < public_keys.len()
        invariant
            i <= public_keys@.len(),
            matrix == key_matrix(public_keys@),
            k == public_keys@[0]@.len(),
            forall|x: int| 0 <= x < i ==> (#[trigger] matrix[x]).len() == k,
        decreases public_keys@.len() - i,
    {
        if public_keys[i].len() != k {
            assert(matrix[i as int].len() != k);
            return None;
        }
        i += 1;
    }
    Some(k)
}

/// The group elements that `images` encode, if every one encodes one.
fn decompress_all(images: &Vec<CompressedPoint>) -> (r: Option<Vec<Point>>)
    ensures
        r is Some <==> all_decompress(compressed_encodings(images@)),
        r is Some ==> point_encodings(r->0@) == compressed_encodings(images@),
{
    let mut points: Vec<Point> = Vec::new();
    let ghost encoded = compressed_encodings(images@);
    let mut j: usize = 0;
    while j < images.len()
        invariant
            j <= images@.len(),
            encoded == compressed_encodings(images@),
            points@.len() == j,
            forall|x: int| 0 <= x < j ==> is_point_encoding(#[trigger] encoded[x]),
            forall|x: int| 0 <= x < j ==> (#[trigger] points@[x])@ == encoded[x],
        decreases images@.len() - j,
    {
        match images[j].decompress() {
            Some(p) => {
                points.push(p);
            },
            None => {
                assert(!is_point_encoding(encoded[j as int]));
                return None;
            },
        }
        j += 1;
    }
    Some(points)
}

impl Signature {
    /// Checks the signature against the public keys of a ring, in the order
    /// in which the ring was signed, and a message.
    ///
    /// Succeeds exactly if the challenge chain closes. Whether a key image was
    /// seen before is not looked at: that is for the one who keeps the key
    /// images of earlier signatures.
    pub fn verify(&self, public_keys: &Vec<PublicSet>, msg: &[u8]) -> (r: Result<(), Error>)
        ensures
            r == verify_outcome(self@, key_matrix(public_keys@), msg@),
    {
        let n = public_keys.len();
        if n == 0 {
            return Err(Error::EmptyRing);
        }
        let k = match layer_count(public_keys) {
            Some(k) => k,
            None => {
                return Err(Error::MismatchedKeyLength);
            },
        };
        if self.responses.len() != n || self.key_images.len() != k {
            return Err(Error::LengthMismatch);
        }
        let images = match decompress_all(&self.key_images) {
            Some(images) => images,
            None => {
                return Err(Error::InvalidEncoding);
            },
        };
        let transcript = Transcript::new(public_keys, &images, msg);
        let mut c = self.initial_challenge;
        let mut i: usize = 0;
        while i < n
            invariant
                i <= n,
                n == self.responses@.len(),
                n == transcript@.keys.len(),
                n == transcript@.generators.len(),
                c@ == chain_challenge(
                    transcript@,
                    self.initial_challenge@,
                    scalar_values(self.responses@),
                    i as nat,
                ),
            decreases n - i,
        {
            c = transcript.next_challenge(i, &c, &self.responses[i]);
            i += 1;
        }
        if c == self.initial_challenge {
            Ok(())
        } else {
            Err(Error::ChallengeMismatch)
        }
    }

    /// The signature with `ring_size` responses and `layers` key images
    /// whose wire form is `bytes`. The key images are taken as they are:
    /// whether they encode group elements is found out by
    /// [`Signature::verify`].
    pub fn from_bytes(bytes: &[u8], ring_size: usize, layers: usize) -> (r: Result<
        Signature,
        Error,
    >)
        ensures
            match r {
                Ok(sig) => decoding_fault(bytes@, ring_size as nat, layers as nat) is None
                    && sig.responses@.len() == ring_size && sig.key_images@.len() == layers
                    && signature_bytes(sig) == bytes@,
                Err(e) => decoding_fault(bytes@, ring_size as nat, layers as nat) == Some(e),
            },
    {
        let len = bytes.len();
        if len % 32 != 0 {
            return Err(Error::LengthMismatch);
        }
        let count = len / 32;
        if count == 0 || count - 1 < ring_size || count - 1 - ring_size != layers {
            return Err(Error::LengthMismatch);
        }
        let initial_challenge = match Scalar::from_canonical_bytes(read_block(bytes, 0)) {
            Some(challenge) => challenge,
            None => {
                return Err(Error::InvalidEncoding);
            },
        };
        let mut responses: Vec<Scalar> = Vec::new();
        let mut i: usize = 0;
        while i < ring_size
            invariant
                i <= ring_size,
                len == bytes@.len(),
                len == 32 * (1 + ring_size + layers),
                responses@.len() == i,
                forall|x: int|
                    0 <= x < i ==> (#[trigger] responses@[x]).encoding() == block(bytes@, 1 + x),
                forall|x: int|
                    0 <= x <= i ==> le_value(#[trigger] block(bytes@, x)) < group_order(),
            decreases ring_size - i,
        {
            match Scalar::from_canonical_bytes(read_block(bytes, 1 + i)) {
                Some(response) => {
                    responses.push(response);
                },
                None => {
                    return Err(Error::InvalidEncoding);
                },
            }
            i += 1;
        }
        let mut key_images: Vec<CompressedPoint> = Vec::new();
        let mut j: usize = 0;
        while j < layers
            invariant
                j <= layers,
                len == bytes@.len(),
                len == 32 * (1 + ring_size + layers),
                key_images@.len() == j,
                forall|x: int|
                    0 <= x < j ==> (#[trigger] key_images@[x])@ == block(
                        bytes@,
                        1 + ring_size + x,
                    ),
            decreases layers - j,
        {
            key_images.push(CompressedPoint(read_block(bytes, 1 + ring_size + j)));
            j += 1;
        }
        let sig = Signature { initial_challenge, responses, key_images };
        proof {
            let n = ring_size as nat;
            let k = layers as nat;
            assert(scalar_encodings(sig.responses@) =~= blocks(bytes@, 1, n));
            assert(compressed_encodings(sig.key_images@) =~= blocks(bytes@, 1 + ring_size, k));
            lemma_concat_blocks(bytes@, 1, n);
            lemma_concat_blocks(bytes@, 1 + ring_size, k);
        }
        Ok(sig)
    }

    /// The wire form of the signature: the challenge, the responses in ring
    /// order and the key images in layer order, 32 bytes each.
    pub fn to_bytes(&self) -> (r: Vec<u8>)
        ensures
            r@ == signature_bytes(*self),
    {
        let mut out: Vec<u8> = Vec::new();
        append_bytes(&mut out, self.initial_challenge.as_bytes().as_slice());
        let ghost head = out@;
        let ghost encoded = scalar_encodings(self.responses@);
        let mut i: usize = 0;
        while i < self.responses.len()
            invariant
                i <= self.responses@.len(),
                encoded == scalar_encodings(self.responses@),
                out@ == head + concat(encoded.take(i as int)),
            decreases self.responses@.len() - i,
        {
            append_bytes(&mut out, self.responses[i].as_bytes().as_slice());
            proof {
                lemma_concat_push(encoded.take(i as int), encoded[i as int]);
                assert(encoded.take(i + 1) =~= encoded.take(i as int).push(encoded[i as int]));
            }
            i += 1;
        }
        assert(encoded.take(self.responses@.len() as int) =~= encoded);
        let ghost body = out@;
        let ghost images = compressed_encodings(self.key_images@);
        let mut j: usize = 0;
        while j < self.key_images.len()
            invariant
                j <= self.key_images@.len(),
                images == compressed_encodings(self.key_images@),
                out@ == body + concat(images.take(j as int)),
            decreases self.key_images@.len() - j,
        {
            append_bytes(&mut out, self.key_images[j].as_bytes().as_slice());
            proof {
                lemma_concat_push(images.take(j as int), images[j as int]);
                assert(images.take(j + 1) =~= images.take(j as int).push(images[j as int]));
            }
            j += 1;
        }
        assert(images.take(self.key_images@.len() as int) =~= images);
        out
    }
}

/// Why `bytes` is not the wire form of a signature with `ring_size`
/// responses and `layers` key images, if it is not: its length is not that of
/// `1 + ring_size + layers` blocks of 32 bytes, or the block of the challenge
/// or of a response does not encode an integer below the group order.
pub open spec fn decoding_fault(bytes: Seq<u8>, ring_size: nat, layers: nat) -> Option<Error> {
    if bytes.len() != 32 * (1 + ring_size + layers) {
        Some(Error::LengthMismatch)
    } else if exists|i: int|
        0 <= i <= ring_size && le_value(#[trigger] block(bytes, i)) >= group_order() {
        Some(Error::InvalidEncoding)
    } else {
        None
    }
}

/// The wire form of a signature is made of blocks of 32 bytes: the challenge
/// in block 0, response `i` in block `1 + i`, and key image `j` in block
/// `1 + n + j`, where `n` is the number of responses.
pub proof fn lemma_wire_form_blocks(sig: Signature)
    ensures
        signature_bytes(sig).len() == 32 * (1 + sig.responses@.len() + sig.key_images@.len()),
        block(signature_bytes(sig), 0) == sig.initial_challenge.encoding(),
        forall|i: int|
            0 <= i < sig.responses@.len() ==> #[trigger] block(signature_bytes(sig), 1 + i)
                == sig.responses@[i].encoding(),
        forall|j: int|
            0 <= j < sig.key_images@.len() ==> #[trigger] block(
                signature_bytes(sig),
                1 + sig.responses@.len() + j,
            ) == sig.key_images@[j]@,
{
    let n = sig.responses@.len() as int;
    let head = sig.initial_challenge.encoding();
    let responses = scalar_encodings(sig.responses@);
    let images = compressed_encodings(sig.key_images@);
    let bytes = signature_bytes(sig);
    sig.initial_challenge.lemma_encoding();
    assert forall|i: int| 0 <= i < responses.len() implies (#[trigger] responses[i]).len()
        == 32 by {
        sig.responses@[i].lemma_encoding();
    }
    lemma_concat_fixed_width(responses);
    lemma_concat_fixed_width(images);
    assert forall|i: int| 0 <= i < n implies #[trigger] block(bytes, 1 + i)
        == sig.responses@[i].encoding() by {
        assert(responses[i] == sig.responses@[i].encoding());
    }
    assert forall|j: int| 0 <= j < images.len() implies #[trigger] block(bytes, 1 + n + j)
        == sig.key_images@[j]@ by {
        assert(images[j] == sig.key_images@[j]@);
    }
}

/// The wire form of a signature decodes: it has the right length, and its
/// scalars are in range.
pub proof fn lemma_wire_form_decodes(sig: Signature)
    requires
        sig.initial_challenge.is_canonical(),
        forall|i: int|
            0 <= i < sig.responses@.len() ==> (#[trigger] sig.responses@[i]).is_canonical(),
    ensures
        decoding_fault(
            signature_bytes(sig),
            sig.responses@.len(),
            sig.key_images@.len(),
        ) is None,
{
    lemma_wire_form_blocks(sig);
    let bytes = signature_bytes(sig);
    sig.initial_challenge.lemma_encoding();
    assert forall|i: int| 0 <= i <= sig.responses@.len() implies le_value(
        #[trigger] block(bytes, i),
    ) < group_order() by {
        if i > 0 {
            assert(block(bytes, 1 + (i - 1)) == sig.responses@[i - 1].encoding());
            sig.responses@[i - 1].lemma_encoding();
        }
    }
}

/// Signatures with as many responses and key images and the same wire form
/// are the same signature.
pub proof fn lemma_wire_form_injective(a: Signature, b: Signature)
    requires
        a.responses@.len() == b.responses@.len(),
        a.key_images@.len() == b.key_images@.len(),
        signature_bytes(a) == signature_bytes(b),
    ensures
        a@ == b@,
{
    lemma_wire_form_blocks(a);
    lemma_wire_form_blocks(b);
    let bytes = signature_bytes(a);
    let n = a.responses@.len() as int;
    a.initial_challenge.lemma_encoding();
    b.initial_challenge.lemma_encoding();
    assert forall|i: int| 0 <= i < n implies a@.responses[i] == b@.responses[i] by {
        assert(block(bytes, 1 + i) == b.responses@[i].encoding());
        a.responses@[i].lemma_encoding();
        b.responses@[i].lemma_encoding();
    }
    assert(a@.responses =~= b@.responses);
    assert forall|j: int| 0 <= j < a.key_images@.len() implies a@.key_images[j]
        == b@.key_images[j] by {
        assert(block(bytes, 1 + n + j) == b.key_images@[j]@);
    }
    assert(a@.key_images =~= b@.key_images);
}

/// The encodings of a sequence of scalars.
pub open spec fn scalar_encodings(scalars: Seq<Scalar>) -> Seq<Seq<u8>> {
    Seq::new(scalars.len(), |i: int| scalars[i].encoding())
}

/// The wire form of a signature: the encoding of the challenge, then those of
/// the responses in ring order, then the key images in layer order.
pub open spec fn signature_bytes(sig: Signature) -> Seq<u8> {
    sig.initial_challenge.encoding() + concat(scalar_encodings(sig.responses@)) + concat(
        compressed_encodings(sig.key_images@),
    )
}

} // verus!

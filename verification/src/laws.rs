//! What holds of the key sets, and of signing and verifying together.
//!
//! The group operations are known to this crate by name only: what a sum or a
//! product of group elements is, is for the group backend to say. That a
//! signature verifies therefore cannot be proved outright, only from the laws
//! of the group. They are collected in [`group_laws`], and
//! [`lemma_signature_verifies`] is proved under that hypothesis: if scalar
//! multiplication makes the group a module over the integers modulo its order,
//! every signature that the signer of a well-formed ring makes is accepted.

use vstd::prelude::*;
use vstd::arithmetic::div_mod::{
    lemma_add_mod_noop_right,
    lemma_mod_add_multiples_vanish,
    lemma_mod_bound,
    lemma_small_mod,
};
use crate::backend::{base_product, is_point_encoding, point_hash, point_product, point_sum};
use crate::clsag::{
    admission,
    can_sign,
    is_signature_of,
    ring_keys,
    ring_wf,
    signature_of,
    signing_fault,
    walk_challenge,
    weighted_scalar_sum,
    RingView,
};
use crate::encoding::group_order;
use crate::error::Error;
use crate::keys::{all_canonical, all_decompress, has_duplicates, key_images_of, public_keys_of};
use crate::member::MemberView;
use crate::scalar::sub_mod;
use crate::signature::{chain_challenge, chain_closes, verify_outcome, SignatureView};
use crate::transcript::{
    layer_weights,
    next_challenge,
    opening_challenge,
    transcript_of,
    weighted_point_sum,
    TranscriptView,
};

verus! {

/// The laws of the group that the correctness of a signature rests on, over
/// scalars below the group order and encodings of group elements:
///
/// - the hash of any input and a multiple of a group element are group
///   elements;
/// - `a * B + b * B == (a + b) * B` and `a * (b * B) == (a * b) * B` for the
///   basepoint `B`;
/// - `a * P + b * P == (a + b) * P` and `a * (b * P) == (a * b) * P` for every
///   group element `P`.
#[verifier::opaque]
pub open spec fn group_laws() -> bool {
    &&& forall|input: Seq<u8>| is_point_encoding(#[trigger] point_hash(input))
    &&& forall|a: nat, p: Seq<u8>|
        a < group_order() && is_point_encoding(p) ==> is_point_encoding(
            #[trigger] point_product(a, p),
        )
    &&& forall|a: nat, b: nat|
        a < group_order() && b < group_order() ==> #[trigger] point_sum(
            base_product(a),
            base_product(b),
        ) == base_product((a + b) % group_order())
    &&& forall|a: nat, b: nat|
        a < group_order() && b < group_order() ==> #[trigger] point_product(a, base_product(b))
            == base_product((a * b) % group_order())
    &&& forall|a: nat, b: nat, p: Seq<u8>|
        a < group_order() && b < group_order() && is_point_encoding(p) ==> #[trigger] point_sum(
            point_product(a, p),
            point_product(b, p),
        ) == point_product((a + b) % group_order(), p)
    &&& forall|a: nat, b: nat, p: Seq<u8>|
        a < group_order() && b < group_order() && is_point_encoding(p) ==> #[trigger] point_product(
            a,
            point_product(b, p),
        ) == point_product((a * b) % group_order(), p)
}

/// Whether `multiple` behaves as the multiples of one group element do:
/// `a * P + b * P == (a + b) * P` and `a * (b * P) == (a * b) * P`.
spec fn is_linear(multiple: spec_fn(nat) -> Seq<u8>) -> bool {
    &&& forall|a: nat, b: nat|
        a < group_order() && b < group_order() ==> #[trigger] point_sum(multiple(a), multiple(b))
            == multiple((a + b) % group_order())
    &&& forall|a: nat, b: nat|
        a < group_order() && b < group_order() ==> #[trigger] point_product(a, multiple(b))
            == multiple((a * b) % group_order())
}

/// The multiples of the basepoint behave as multiples do.
proof fn lemma_base_multiples_linear()
    requires
        group_laws(),
    ensures
        is_linear(|a: nat| base_product(a)),
{
    reveal(group_laws);
}

/// The multiples of a group element behave as multiples do.
proof fn lemma_multiples_linear(p: Seq<u8>)
    requires
        group_laws(),
        is_point_encoding(p),
    ensures
        is_linear(|a: nat| point_product(a, p)),
{
    reveal(group_laws);
}

/// Every hash of an input is a group element.
proof fn lemma_hash_valid(input: Seq<u8>)
    requires
        group_laws(),
    ensures
        is_point_encoding(point_hash(input)),
{
    reveal(group_laws);
}

/// A multiple of a group element is a group element.
proof fn lemma_product_valid(a: nat, p: Seq<u8>)
    requires
        group_laws(),
        a < group_order(),
        is_point_encoding(p),
    ensures
        is_point_encoding(point_product(a, p)),
{
    reveal(group_laws);
}

/// The signer's response makes up for the challenge: `(alpha - y) + y` is
/// `alpha` again, modulo the group order.
proof fn lemma_response_closes(alpha: nat, y: nat)
    requires
        alpha < group_order(),
        y < group_order(),
    ensures
        sub_mod(alpha, y) < group_order(),
        (sub_mod(alpha, y) + y) % group_order() == alpha,
{
    let m = group_order() as int;
    if alpha >= y {
        lemma_small_mod((alpha - y) as nat, group_order());
        lemma_small_mod(alpha, group_order());
    } else {
        lemma_mod_add_multiples_vanish(alpha - y, m);
        lemma_small_mod((m + alpha - y) as nat, group_order());
        lemma_mod_add_multiples_vanish(alpha as int, m);
        lemma_small_mod(alpha, group_order());
    }
}

/// A weighted sum of multiples of one point is a multiple of that point:
/// `w_0 * (x_0 * P) + ... == (w_0 * x_0 + ...) * P`.
proof fn lemma_weighted_sum_of_multiples(
    weights: Seq<nat>,
    scalars: Seq<nat>,
    multiple: spec_fn(nat) -> Seq<u8>,
    multiples: Seq<Seq<u8>>,
    count: nat,
)
    requires
        is_linear(multiple),
        1 <= count <= scalars.len(),
        count <= weights.len(),
        count <= multiples.len(),
        all_canonical(weights),
        all_canonical(scalars),
        forall|j: int| 0 <= j < count ==> #[trigger] multiples[j] == multiple(scalars[j]),
    ensures
        weighted_point_sum(weights, multiples, count) == multiple(
            weighted_scalar_sum(weights, scalars, count),
        ),
        weighted_scalar_sum(weights, scalars, count) < group_order(),
    decreases count,
{
    let order = group_order() as int;
    let product = (weights[count - 1] * scalars[count - 1]) as int;
    lemma_mod_bound(product, order);
    if count > 1 {
        let before = (count - 1) as nat;
        lemma_weighted_sum_of_multiples(weights, scalars, multiple, multiples, before);
        let acc = weighted_scalar_sum(weights, scalars, before) as int;
        lemma_add_mod_noop_right(acc, product, order);
        lemma_mod_bound(acc + product, order);
    }
}

/// The aggregation weights are scalars.
proof fn lemma_weights_canonical(keys: Seq<Seq<Seq<u8>>>, images: Seq<Seq<u8>>)
    ensures
        all_canonical(layer_weights(keys, images)),
        layer_weights(keys, images).len() == images.len(),
{
    let weights = layer_weights(keys, images);
    assert forall|j: int| 0 <= j < weights.len() implies (#[trigger] weights[j])
        < group_order() by {
        lemma_mod_bound(
            crate::backend::wide_hash(crate::transcript::aggregation_transcript(keys, images, j))
                as int,
            group_order() as int,
        );
    }
}

/// The signer's own step closes the chain: with the response
/// `alpha - c * x`, the challenge that follows the signer is the one that its
/// commitment to `alpha` gave.
proof fn lemma_signer_step(ring: RingView, msg: Seq<u8>, alpha: nat, c: nat)
    requires
        group_laws(),
        can_sign(ring),
        alpha < group_order(),
        c < group_order(),
    ensures
        ({
            let l = ring.signer->0;
            let keys = ring_keys(ring);
            let private = ring.members[l].private->0;
            let images = key_images_of(private, point_hash(keys[l][0]));
            let t = transcript_of(keys, images, msg);
            let x = weighted_scalar_sum(layer_weights(keys, images), private, private.len());
            next_challenge(t, l, c, sub_mod(alpha, (c * x) % group_order())) == opening_challenge(
                t,
                l,
                alpha,
            )
        }),
{
    let order = group_order();
    let l = ring.signer->0;
    let keys = ring_keys(ring);
    let private = ring.members[l].private->0;
    let generator = point_hash(keys[l][0]);
    let images = key_images_of(private, generator);
    let weights = layer_weights(keys, images);
    let x = weighted_scalar_sum(weights, private, private.len());
    let y = (c * x) % order;
    let s = sub_mod(alpha, y);
    let of_base = |a: nat| base_product(a);
    let of_generator = |a: nat| point_product(a, generator);

    // the aggregated key is `x * B`, the aggregated key image `x * H`
    lemma_weights_canonical(keys, images);
    lemma_hash_valid(keys[l][0]);
    lemma_base_multiples_linear();
    lemma_multiples_linear(generator);
    assert forall|j: int| 0 <= j < private.len() implies #[trigger] keys[l][j] == of_base(
        private[j],
    ) by {}
    assert forall|j: int| 0 <= j < private.len() implies #[trigger] images[j] == of_generator(
        private[j],
    ) by {}
    lemma_weighted_sum_of_multiples(weights, private, of_base, keys[l], private.len());
    lemma_weighted_sum_of_multiples(weights, private, of_generator, images, private.len());

    // `s * B + c * (x * B)` is `alpha * B`, and so over `H`
    lemma_mod_bound((c * x) as int, order as int);
    lemma_response_closes(alpha, y);
    assert(point_sum(of_base(s), of_base(y)) == of_base((s + y) % order));
    assert(point_sum(of_generator(s), of_generator(y)) == of_generator((s + y) % order));
}

/// Every challenge of a walk is a scalar.
proof fn lemma_walk_canonical(
    t: TranscriptView,
    l: int,
    alpha: nat,
    responses: Seq<nat>,
    steps: nat,
)
    ensures
        walk_challenge(t, l, alpha, responses, steps) < group_order(),
{
    if steps <= 1 {
        lemma_mod_bound(
            crate::backend::wide_hash(
                t.prefix + base_product(alpha) + point_product(alpha, t.generators[l]),
            ) as int,
            group_order() as int,
        );
    } else {
        let i = (l + steps - 1) % (t.keys.len() as int);
        let c = walk_challenge(t, l, alpha, responses, (steps - 1) as nat);
        let s = responses[i];
        lemma_mod_bound(
            crate::backend::wide_hash(
                t.prefix + point_sum(base_product(s), point_product(c, t.keys[i])) + point_sum(
                    point_product(s, t.generators[i]),
                    point_product(c, t.image),
                ),
            ) as int,
            group_order() as int,
        );
    }
}

/// From member 0 up to the signer, verifying passes the challenges that
/// signing passed on the last part of its walk.
proof fn lemma_chain_up_to_signer(
    t: TranscriptView,
    l: int,
    alpha: nat,
    responses: Seq<nat>,
    own: nat,
    i: nat,
)
    requires
        0 <= l < t.keys.len(),
        responses.len() == t.keys.len(),
        i <= l,
    ensures
        chain_challenge(
            t,
            walk_challenge(t, l, alpha, responses, (t.keys.len() - l) as nat),
            responses.update(l, own),
            i,
        ) == walk_challenge(t, l, alpha, responses, (t.keys.len() - l + i) as nat),
    decreases i,
{
    let n = t.keys.len() as int;
    if i > 0 {
        lemma_chain_up_to_signer(t, l, alpha, responses, own, (i - 1) as nat);
        let steps = n - l + i;
        assert((l + steps - 1) % n == i - 1) by {
            lemma_mod_add_multiples_vanish(i - 1, n);
            lemma_small_mod((i - 1) as nat, n as nat);
        }
    }
}

/// After the signer, verifying passes the challenges that signing passed on
/// the first part of its walk.
proof fn lemma_chain_after_signer(
    t: TranscriptView,
    l: int,
    alpha: nat,
    responses: Seq<nat>,
    own: nat,
    first: nat,
    i: nat,
)
    requires
        0 <= l < t.keys.len(),
        responses.len() == t.keys.len(),
        l < i <= t.keys.len(),
        chain_challenge(t, first, responses.update(l, own), (l + 1) as nat) == opening_challenge(
            t,
            l,
            alpha,
        ),
    ensures
        chain_challenge(t, first, responses.update(l, own), i) == walk_challenge(
            t,
            l,
            alpha,
            responses,
            (i - l) as nat,
        ),
    decreases i,
{
    let n = t.keys.len() as int;
    if i > l + 1 {
        lemma_chain_after_signer(t, l, alpha, responses, own, first, (i - 1) as nat);
        let steps = i - l;
        assert((l + steps - 1) % n == i - 1) by {
            lemma_small_mod((i - 1) as nat, n as nat);
        }
    }
}

/// A signature verifies: for a ring that can sign, a nonce and one response
/// per member, all of them scalars, verifying the signature of a message
/// against the ring's public keys and the same message succeeds, whatever the
/// ring size, the number of layers and the place of the signer. It is proved
/// from the laws of the group.
pub proof fn lemma_signature_verifies(ring: RingView, msg: Seq<u8>, alpha: nat, responses: Seq<nat>)
    requires
        group_laws(),
        can_sign(ring),
        alpha < group_order(),
        responses.len() == ring.members.len(),
        all_canonical(responses),
    ensures
        verify_outcome(signature_of(ring, msg, alpha, responses), ring_keys(ring), msg) == Ok::<
            (),
            Error,
        >(()),
{
    let order = group_order();
    let n = ring.members.len();
    let l = ring.signer->0;
    let keys = ring_keys(ring);
    let private = ring.members[l].private->0;
    let generator = point_hash(keys[l][0]);
    let images = key_images_of(private, generator);
    let t = transcript_of(keys, images, msg);
    let x = weighted_scalar_sum(layer_weights(keys, images), private, private.len());
    let c = walk_challenge(t, l, alpha, responses, n);
    let own = sub_mod(alpha, (c * x) % order);
    let sig = signature_of(ring, msg, alpha, responses);
    let first = sig.initial_challenge;

    assert(all_decompress(sig.key_images)) by {
        assert forall|j: int| 0 <= j < images.len() implies is_point_encoding(
            #[trigger] images[j],
        ) by {
            lemma_hash_valid(keys[l][0]);
            lemma_product_valid(private[j], generator);
        }
    }

    lemma_walk_canonical(t, l, alpha, responses, n);
    lemma_signer_step(ring, msg, alpha, c);
    lemma_chain_up_to_signer(t, l, alpha, responses, own, l as nat);
    lemma_chain_after_signer(t, l, alpha, responses, own, first, n);
}

/// What [`crate::clsag::Clsag::sign`] returns verifies: a signature of a message by the
/// signer of a ring is accepted for the ring's public keys and that message.
/// It is proved from the laws of the group.
pub proof fn lemma_signed_message_verifies(ring: RingView, msg: Seq<u8>, sig: SignatureView)
    requires
        group_laws(),
        is_signature_of(ring, msg, sig),
    ensures
        verify_outcome(sig, ring_keys(ring), msg) == Ok::<(), Error>(()),
{
    let (alpha, responses) = choose|alpha: nat, responses: Seq<nat>|
        #![trigger signature_of(ring, msg, alpha, responses)]
        {
            &&& alpha < group_order()
            &&& responses.len() == ring.members.len()
            &&& all_canonical(responses)
            &&& sig == signature_of(ring, msg, alpha, responses)
        };
    lemma_signature_verifies(ring, msg, alpha, responses);
}

/// A signature is refused on another message only because its chain does
/// not close: verifying a signature of the ring against the ring's keys and
/// any message succeeds if the chain closes over that message, and fails with
/// `ChallengeMismatch` if it does not.
pub proof fn lemma_other_message_fails_as_mismatch(
    ring: RingView,
    msg: Seq<u8>,
    alpha: nat,
    responses: Seq<nat>,
    other: Seq<u8>,
)
    requires
        group_laws(),
        can_sign(ring),
        alpha < group_order(),
        responses.len() == ring.members.len(),
        all_canonical(responses),
    ensures
        verify_outcome(signature_of(ring, msg, alpha, responses), ring_keys(ring), other) == (
        if chain_closes(signature_of(ring, msg, alpha, responses), ring_keys(ring), other) {
            Ok::<(), Error>(())
        } else {
            Err::<(), Error>(Error::ChallengeMismatch)
        }),
{
    lemma_signature_verifies(ring, msg, alpha, responses);
}

/// Signing one message twice, with other nonces, gives two signatures that
/// both verify against that message.
pub proof fn lemma_resigned_message_verifies(
    ring: RingView,
    msg: Seq<u8>,
    alpha1: nat,
    responses1: Seq<nat>,
    alpha2: nat,
    responses2: Seq<nat>,
)
    requires
        group_laws(),
        can_sign(ring),
        alpha1 < group_order(),
        alpha2 < group_order(),
        responses1.len() == ring.members.len(),
        responses2.len() == ring.members.len(),
        all_canonical(responses1),
        all_canonical(responses2),
    ensures
        verify_outcome(signature_of(ring, msg, alpha1, responses1), ring_keys(ring), msg) == Ok::<
            (),
            Error,
        >(()),
        verify_outcome(signature_of(ring, msg, alpha2, responses2), ring_keys(ring), msg) == Ok::<
            (),
            Error,
        >(()),
{
    lemma_signature_verifies(ring, msg, alpha1, responses1);
    lemma_signature_verifies(ring, msg, alpha2, responses2);
}

/// A ring that has a signer refuses every other signer with
/// `MultipleSigners`, and a ring without members cannot sign: it fails with
/// `EmptyRing`.
pub proof fn lemma_second_signer_and_empty_ring(ring: RingView, member: MemberView)
    ensures
        ring.signer is Some && member.private is Some ==> admission(ring, member) == Err::<
            (),
            Error,
        >(Error::MultipleSigners),
        ring.members.len() == 0 ==> signing_fault(ring) == Some(Error::EmptyRing),
{
}

/// The key images of a signature do not depend on the nonce, the responses or
/// the message: they are the signer's private keys times the hash-to-point of
/// its first public key. Signing twice gives the same key images.
pub proof fn lemma_key_images_fixed(
    ring: RingView,
    msg1: Seq<u8>,
    alpha1: nat,
    responses1: Seq<nat>,
    msg2: Seq<u8>,
    alpha2: nat,
    responses2: Seq<nat>,
)
    requires
        ring_wf(ring),
        ring.signer is Some,
    ensures
        signature_of(ring, msg1, alpha1, responses1).key_images == signature_of(
            ring,
            msg2,
            alpha2,
            responses2,
        ).key_images,
        signature_of(ring, msg1, alpha1, responses1).key_images == key_images_of(
            ring.members[ring.signer->0].private->0,
            point_hash(ring.members[ring.signer->0].public[0]),
        ),
{
}

/// Public keys with distinct encodings hold no duplicate.
pub proof fn lemma_distinct_keys_have_no_duplicates(keys: Seq<Seq<u8>>)
    requires
        forall|i: int, j: int| 0 <= i < j < keys.len() ==> keys[i] != keys[j],
    ensures
        !has_duplicates(keys),
{
}

/// Putting the key of place `j` at another place `i` makes a duplicate.
pub proof fn lemma_repeated_key_is_a_duplicate(keys: Seq<Seq<u8>>, i: int, j: int)
    requires
        0 <= i < keys.len(),
        0 <= j < keys.len(),
        i != j,
    ensures
        has_duplicates(keys.update(i, keys[j])),
{
    let changed = keys.update(i, keys[j]);
    if i < j {
        assert(changed[i] == changed[j]);
    } else {
        assert(changed[j] == changed[i]);
    }
}

/// Each public key derived from private keys is its private key times the
/// basepoint.
pub proof fn lemma_public_keys_are_base_multiples(private: Seq<nat>, i: int)
    requires
        0 <= i < private.len(),
    ensures
        public_keys_of(private).len() == private.len(),
        public_keys_of(private)[i] == base_product(private[i]),
{
}

} // verus!

//! The ring: its assembly from decoys and one signer, and signing.

use vstd::prelude::*;
use vstd::arithmetic::div_mod::{
    lemma_add_mod_noop_right,
    lemma_mod_sub_multiples_vanish,
    lemma_small_mod,
};
use crate::encoding::group_order;
use crate::error::Error;
use crate::keys::{
    all_canonical,
    all_decompress,
    compress_points,
    has_duplicates,
    key_images_of,
    scalar_values,
    PrivateSet,
    PublicSet,
};
use crate::member::{owns_keys, Member, MemberView};
use crate::backend::point_hash;
use crate::scalar::{sub_mod, Scalar};
use crate::signature::{Signature, SignatureView};
use crate::transcript::{
    is_ring_of,
    key_matrix,
    layer_weights,
    next_challenge,
    opening_challenge,
    transcript_of,
    Transcript,
    TranscriptView,
};

verus! {

/// What a ring holds: its members in order, and the index of the signer if
/// one was added.
pub struct RingView {
    pub members: Seq<MemberView>,
    pub signer: Option<int>,
}

/// The key vectors of the members of `ring`, in ring order.
pub open spec fn ring_keys(ring: RingView) -> Seq<Seq<Seq<u8>>> {
    Seq::new(ring.members.len(), |i: int| ring.members[i].public)
}

/// Whether `ring` is a ring that [`Clsag::add_member`] can have built: the
/// signer index names the one member with private keys, which has one per
/// public key; all members have the same number of keys, at least one; no
/// member holds a key twice; no two members hold the same key vector.
pub open spec fn ring_wf(ring: RingView) -> bool {
    let n = ring.members.len();
    &&& match ring.signer {
        Some(l) => 0 <= l < n && ring.members[l].private is Some,
        None => true,
    }
    &&& forall|i: int|
        0 <= i < n && (#[trigger] ring.members[i]).private is Some ==> ring.signer == Some(i)
    &&& forall|i: int|
        0 <= i < n && (#[trigger] ring.members[i]).private is Some
            ==> ring.members[i].private->0.len() == ring.members[i].public.len()
    &&& n > 0 ==> is_ring_of(ring_keys(ring), ring.members[0].public.len())
    &&& forall|i: int| 0 <= i < n ==> !has_duplicates((#[trigger] ring.members[i]).public)
    &&& forall|i: int, j: int|
        0 <= i < j < n ==> (#[trigger] ring.members[i]).public
            != (#[trigger] ring.members[j]).public
}

/// Whether `member` may join `ring`, and if not, why. The checks are made in
/// this order: the member is not a second signer; it has a key, and as many as
/// the members of the ring; it holds no key twice, and its key vector is not in
/// the ring already.
pub open spec fn admission(ring: RingView, member: MemberView) -> Result<(), Error> {
    if member.private is Some && ring.signer is Some {
        Err(Error::MultipleSigners)
    } else if member.public.len() == 0 || (ring.members.len() > 0 && member.public.len()
        != ring.members[0].public.len()) {
        Err(Error::MismatchedKeyLength)
    } else if has_duplicates(member.public) || exists|i: int|
        0 <= i < ring.members.len() && (#[trigger] ring.members[i]).public == member.public {
        Err(Error::DuplicateKey)
    } else {
        Ok(())
    }
}

/// `ring` with `member` added at its end.
pub open spec fn with_member(ring: RingView, member: MemberView) -> RingView {
    RingView {
        members: ring.members.push(member),
        signer: if member.private is Some {
            Some(ring.members.len() as int)
        } else {
            ring.signer
        },
    }
}

/// `weights[0] * scalars[0] + ... + weights[count - 1] * scalars[count - 1]`
/// modulo the group order.
pub open spec fn weighted_scalar_sum(weights: Seq<nat>, scalars: Seq<nat>, count: nat) -> nat
    decreases count,
{
    if count == 0 {
        0
    } else {
        (weighted_scalar_sum(weights, scalars, (count - 1) as nat) + weights[count - 1]
            * scalars[count - 1]) % group_order()
    }
}

/// The challenge of the member that lies `steps` places after the signer,
/// member `l`, on the ring, for `steps` at least one: the signer commits to
/// `alpha`, and each member `i` that is passed answers with `responses[i]`.
pub open spec fn walk_challenge(
    t: TranscriptView,
    l: int,
    alpha: nat,
    responses: Seq<nat>,
    steps: nat,
) -> nat
    decreases steps,
{
    if steps <= 1 {
        opening_challenge(t, l, alpha)
    } else {
        let i = (l + steps - 1) % (t.keys.len() as int);
        next_challenge(
            t,
            i,
            walk_challenge(t, l, alpha, responses, (steps - 1) as nat),
            responses[i],
        )
    }
}

/// The signature of `msg` by the signer of `ring`, with the nonce `alpha` and
/// the responses `responses` of the other members.
///
/// The key images are the private keys times the hash-to-point of the signer's
/// first public key. The challenge is that of member 0. The response of the
/// signer is `alpha - c * x`, where `c` is the challenge that reaches the
/// signer after the walk round the ring and `x` the aggregated private key.
pub open spec fn signature_of(
    ring: RingView,
    msg: Seq<u8>,
    alpha: nat,
    responses: Seq<nat>,
) -> SignatureView {
    let n = ring.members.len();
    let l = ring.signer->0;
    let keys = ring_keys(ring);
    let private = ring.members[l].private->0;
    let images = key_images_of(private, point_hash(keys[l][0]));
    let t = transcript_of(keys, images, msg);
    let x = weighted_scalar_sum(layer_weights(keys, images), private, private.len());
    let c = walk_challenge(t, l, alpha, responses, n);
    SignatureView {
        initial_challenge: walk_challenge(t, l, alpha, responses, (n - l) as nat),
        responses: responses.update(l, sub_mod(alpha, (c * x) % group_order())),
        key_images: images,
    }
}

/// Whether `ring` can sign: it is well formed, it has a signer, the signer's
/// private keys are scalars, and its public keys belong to them.
pub open spec fn can_sign(ring: RingView) -> bool {
    &&& ring_wf(ring)
    &&& ring.signer is Some
    &&& owns_keys(ring.members[ring.signer->0])
    &&& all_canonical(ring.members[ring.signer->0].private->0)
}

/// Why `ring` cannot sign, if it cannot: it has no member, or no signer.
pub open spec fn signing_fault(ring: RingView) -> Option<Error> {
    if ring.members.len() == 0 {
        Some(Error::EmptyRing)
    } else if ring.signer is None {
        Some(Error::NoSigner)
    } else {
        None
    }
}

/// The outcome of signing `msg` with the nonce `alpha` and the responses
/// `responses`, of which there must be one per member.
pub open spec fn sign_outcome(
    ring: RingView,
    msg: Seq<u8>,
    alpha: nat,
    responses: Seq<nat>,
) -> Result<SignatureView, Error> {
    match signing_fault(ring) {
        Some(e) => Err(e),
        None => if responses.len() != ring.members.len() {
            Err(Error::LengthMismatch)
        } else {
            Ok(signature_of(ring, msg, alpha, responses))
        },
    }
}

/// Whether `sig` is a signature of `msg` by the signer of `ring`: the ring can
/// sign, and `sig` is what signing gives for some nonce and some responses of
/// the other members, all of them scalars.
pub open spec fn is_signature_of(ring: RingView, msg: Seq<u8>, sig: SignatureView) -> bool {
    &&& can_sign(ring)
    &&& exists|alpha: nat, responses: Seq<nat>|
        #![trigger signature_of(ring, msg, alpha, responses)]
        {
            &&& alpha < group_order()
            &&& responses.len() == ring.members.len()
            &&& all_canonical(responses)
            &&& sig == signature_of(ring, msg, alpha, responses)
        }
}

/// A ring of key vectors, of which at most one belongs to a signer. Where the
/// signer stands in the ring is kept to the ring: no function hands it out.
pub struct Clsag {
    ring: Ring,
}

/// The members of a ring and the index of the signer among them.
struct Ring {
    members: Vec<Member>,
    signer_index: Option<usize>,
}

impl View for Ring {
    type V = RingView;

    closed spec fn view(&self) -> RingView {
        RingView {
            members: Seq::new(self.members@.len(), |i: int| self.members@[i]@),
            signer: match self.signer_index {
                Some(l) => Some(l as int),
                None => None,
            },
        }
    }
}

impl View for Clsag {
    type V = RingView;

    closed spec fn view(&self) -> RingView {
        self.ring@
    }
}

/// The aggregated private key: the private keys weighted by the layers'
/// aggregation weights.
fn aggregate_private(transcript: &Transcript, private: &PrivateSet) -> (r: Scalar)
    requires
        private@.len() > 0,
        transcript.weights().len() == private@.len(),
    ensures
        r@ == weighted_scalar_sum(transcript.weights(), private@, private@.len()),
        all_canonical(private@),
{
    let k = private.len();
    let mut acc = transcript.weight(0).mul(private.key(0));
    assert(weighted_scalar_sum(transcript.weights(), private@, 0) == 0);
    let mut j: usize = 1;
    while j < k
        invariant
            1 <= j <= k,
            k == private@.len(),
            transcript.weights().len() == private@.len(),
            acc@ == weighted_scalar_sum(transcript.weights(), private@, j as nat),
            forall|i: int| 0 <= i < j ==> (#[trigger] private@[i]) < group_order(),
        decreases k - j,
    {
        let term = transcript.weight(j).mul(private.key(j));
        proof {
            lemma_add_mod_noop_right(
                acc@ as int,
                (transcript.weights()[j as int] * private@[j as int]) as int,
                group_order() as int,
            );
        }
        acc = acc.add(&term);
        j += 1;
    }
    acc
}

/// `responses` with the response at index `l` replaced by `own`.
fn with_response(responses: &Vec<Scalar>, l: usize, own: Scalar) -> (r: Vec<Scalar>)
    requires
        l < responses@.len(),
    ensures
        scalar_values(r@) == scalar_values(responses@).update(l as int, own@),
{
    let mut out: Vec<Scalar> = Vec::new();
    let mut i: usize = 0;
    while i < responses.len()
        invariant
            i <= responses@.len(),
            l < responses@.len(),
            out@.len() == i,
            forall|x: int|
                0 <= x < i ==> (#[trigger] out@[x])@ == (if x == l {
                    own@
                } else {
                    responses@[x]@
                }),
        decreases responses@.len() - i,
    {
        if i == l {
            out.push(own);
        } else {
            out.push(responses[i]);
        }
        i += 1;
    }
    out
}

impl Clsag {
    /// What holds of every ring: it is well formed.
    #[verifier::type_invariant]
    pub open spec fn wf(self) -> bool {
        ring_wf(self@)
    }

    /// A ring without members.
    pub fn new() -> (r: Clsag)
        ensures
            r@.members.len() == 0,
            r@.signer is None,
    {
        Clsag { ring: Ring { members: Vec::new(), signer_index: None } }
    }

    /// The number of members.
    pub fn len(&self) -> (r: usize)
        ensures
            r == self@.members.len(),
    {
        self.ring.members.len()
    }

    /// Adds `member` at the end of the ring, or refuses it and leaves the
    /// ring as it was.
    #[verifier::loop_isolation(false)]
    pub fn add_member(&mut self, member: Member) -> (r: Result<(), Error>)
        ensures
            r == admission(old(self)@, member@),
            r is Ok ==> final(self)@ == with_member(old(self)@, member@),
            r is Err ==> final(self)@ == old(self)@,
    {
        proof {
            use_type_invariant(&*self);
        }
        let n = self.ring.members.len();
        let k = member.len();
        let is_signer = member.is_signer();
        if is_signer && self.ring.signer_index.is_some() {
            return Err(Error::MultipleSigners);
        }
        if k == 0 || (n > 0 && self.ring.members[0].len() != k) {
            return Err(Error::MismatchedKeyLength);
        }
        if member.public_set().duplicates_exist() {
            return Err(Error::DuplicateKey);
        }
        let mut i: usize = 0;
        while i < n
            invariant
                i <= n,
                n == self.ring.members@.len(),
                *self == *old(self),
                forall|x: int|
                    0 <= x < i ==> (#[trigger] self@.members[x]).public != member@.public,
            decreases n - i,
        {
            if *self.ring.members[i].public_set() == *member.public_set() {
                assert(self@.members[i as int].public == member@.public);
                return Err(Error::DuplicateKey);
            }
            i += 1;
        }
        let ghost before = self@;
        let ghost added = member@;
        proof {
            use_type_invariant(&member);
        }
        let mut ring = Ring { members: Vec::new(), signer_index: None };
        core::mem::swap(&mut self.ring, &mut ring);
        ring.members.push(member);
        if is_signer {
            ring.signer_index = Some(n);
        }
        proof {
            let after = ring@;
            assert(after.members =~= before.members.push(added));
            assert forall|x: int| 0 <= x < after.members.len() implies (#[trigger] ring_keys(
                after,
            )[x]).len() == after.members[0].public.len() by {
                if x < n {
                    assert(ring_keys(before)[x].len() == before.members[0].public.len());
                }
            }
        }
        self.ring = ring;
        Ok(())
    }

    /// The public keys of the members, in ring order.
    pub fn public_keys(&self) -> (r: Vec<PublicSet>)
        ensures
            key_matrix(r@) == ring_keys(self@),
    {
        let mut keys: Vec<PublicSet> = Vec::new();
        let mut i: usize = 0;
        while i < self.ring.members.len()
            invariant
                i <= self.ring.members@.len(),
                keys@.len() == i,
                forall|x: int| 0 <= x < i ==> (#[trigger] keys@[x])@ == self@.members[x].public,
            decreases self.ring.members@.len() - i,
        {
            keys.push(self.ring.members[i].public_set().clone());
            i += 1;
        }
        keys
    }

    /// Signs `msg` with a given nonce and given responses for the decoys.
    ///
    /// `responses` holds one scalar per member; the one at the signer's index
    /// is not read. The nonce and the responses of one signature must never be
    /// used for another: from two signatures with the same nonce the private
    /// keys can be computed. [`Clsag::sign`] draws them afresh.
    pub fn sign_with_nonces(&self, msg: &[u8], alpha: &Scalar, responses: &Vec<Scalar>) -> (r:
        Result<Signature, Error>)
        ensures
            match r {
                Ok(sig) => can_sign(self@) && all_decompress(sig@.key_images) && sign_outcome(
                    self@,
                    msg@,
                    alpha@,
                    scalar_values(responses@),
                ) == Ok::<SignatureView, Error>(sig@),
                Err(e) => sign_outcome(self@, msg@, alpha@, scalar_values(responses@)) == Err::<
                    SignatureView,
                    Error,
                >(e),
            },
    {
        proof {
            use_type_invariant(self);
        }
        let n = self.ring.members.len();
        if n == 0 {
            return Err(Error::EmptyRing);
        }
        let l = match self.ring.signer_index {
            Some(l) => l,
            None => {
                return Err(Error::NoSigner);
            },
        };
        if responses.len() != n {
            return Err(Error::LengthMismatch);
        }
        let ghost ring = self@;
        let ghost keys = ring_keys(ring);
        let ghost answers = scalar_values(responses@);
        let signer = &self.ring.members[l];
        proof {
            use_type_invariant(signer);
        }
        let private = match signer.private_set() {
            Some(private) => private,
            None => {
                return Err(Error::NoSigner);
            },
        };
        let generator = signer.public_set().hashed_pubkey();
        let image_points = private.key_image_points(&generator);
        let key_images = compress_points(&image_points);
        let ghost images = key_images_of(private@, point_hash(keys[l as int][0]));
        let public_keys = self.public_keys();
        let transcript = Transcript::new(&public_keys, &image_points, msg);
        let ghost t = transcript_of(keys, images, msg@);
        let secret = aggregate_private(&transcript, private);

        let target = n - l;
        let mut c = transcript.opening_challenge(l, alpha);
        let mut first = c;
        let mut step: usize = 1;
        while step < n
            invariant
                1 <= step <= n,
                l < n,
                target == n - l,
                n == responses@.len(),
                answers == scalar_values(responses@),
                transcript@ == t,
                t.keys.len() == n,
                t.generators.len() == n,
                c@ == walk_challenge(t, l as int, alpha@, answers, step as nat),
                step >= target ==> first@ == walk_challenge(
                    t,
                    l as int,
                    alpha@,
                    answers,
                    target as nat,
                ),
            decreases n - step,
        {
            let i = if step >= target {
                step - target
            } else {
                l + step
            };
            assert(i == (l + step) % (n as int)) by {
                if step >= target {
                    lemma_mod_sub_multiples_vanish((l + step) as int, n as int);
                    lemma_small_mod((l + step - n) as nat, n as nat);
                } else {
                    lemma_small_mod((l + step) as nat, n as nat);
                }
            }
            c = transcript.next_challenge(i, &c, &responses[i]);
            step += 1;
            if step == target {
                first = c;
            }
        }
        let own = alpha.sub(&c.mul(&secret));
        let all_responses = with_response(responses, l, own);
        let sig = Signature { initial_challenge: first, responses: all_responses, key_images };
        Ok(sig)
    }

    /// Signs `msg`, with a nonce and decoy responses drawn from the operating
    /// system's random number generator. Which signature of `msg` comes out
    /// depends on what was drawn; its key images do not. Where the ring can
    /// sign, the only failure is that of the generator.
    pub fn sign(&self, msg: &[u8]) -> (r: Result<Signature, Error>)
        ensures
            match r {
                Ok(sig) => is_signature_of(self@, msg@, sig@) && all_decompress(sig@.key_images),
                Err(e) => e == match signing_fault(self@) {
                    Some(fault) => fault,
                    None => Error::CryptoBackendError,
                },
            },
    {
        proof {
            use_type_invariant(self);
        }
        let n = self.ring.members.len();
        if n == 0 {
            return Err(Error::EmptyRing);
        }
        if self.ring.signer_index.is_none() {
            return Err(Error::NoSigner);
        }
        let alpha = match Scalar::random() {
            Some(alpha) => alpha,
            None => {
                return Err(Error::CryptoBackendError);
            },
        };
        proof {
            use_type_invariant(&alpha);
        }
        let mut responses: Vec<Scalar> = Vec::new();
        let mut i: usize = 0;
        while i < n
            invariant
                i <= n,
                responses@.len() == i,
                signing_fault(self@) is None,
                forall|x: int| 0 <= x < i ==> (#[trigger] responses@[x])@ < group_order(),
            decreases n - i,
        {
            match Scalar::random() {
                Some(response) => {
                    proof {
                        use_type_invariant(&response);
                    }
                    responses.push(response);
                },
                None => {
                    return Err(Error::CryptoBackendError);
                },
            }
            i += 1;
        }
        let r = self.sign_with_nonces(msg, &alpha, &responses);
        proof {
            if r is Ok {
                assert(r->Ok_0@ == signature_of(self@, msg@, alpha@, scalar_values(responses@)));
            }
        }
        r
    }
}

} // verus!

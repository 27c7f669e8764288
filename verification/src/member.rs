//! Ring members: a decoy, which is a vector of public keys, or the signer,
//! which also holds the private keys.

use vstd::prelude::*;
use crate::backend::is_point_encoding;
use crate::encoding::{group_order, le_value};
use crate::error::Error;
use crate::keys::{
    all_canonical,
    all_decompress,
    has_duplicates,
    point_encodings,
    public_keys_of,
    scalar_values,
    PrivateSet,
    PublicSet,
};
use crate::point::{CompressedPoint, Point};
use crate::scalar::Scalar;

verus! {

/// What a member holds: the encodings of its public keys and, for the signer,
/// the integers of its private keys.
pub struct MemberView {
    pub public: Seq<Seq<u8>>,
    pub private: Option<Seq<nat>>,
}

/// Whether the public keys of `member` are those of its private keys, if it
/// has any.
pub open spec fn owns_keys(member: MemberView) -> bool {
    member.private is Some ==> member.public == public_keys_of(member.private->0)
}

/// Why a key vector cannot make a member, if it cannot: it is empty, or it
/// holds one key twice.
pub open spec fn key_vector_fault(public: Seq<Seq<u8>>) -> Option<Error> {
    if public.len() == 0 {
        Some(Error::MismatchedKeyLength)
    } else if has_duplicates(public) {
        Some(Error::DuplicateKey)
    } else {
        None
    }
}

/// The byte strings of a sequence of 32-byte arrays.
pub open spec fn byte_strings(arrays: Seq<[u8; 32]>) -> Seq<Seq<u8>> {
    Seq::new(arrays.len(), |i: int| arrays[i]@)
}

/// The integers that a sequence of 32-byte arrays encodes in little-endian
/// order.
pub open spec fn le_values(arrays: Seq<[u8; 32]>) -> Seq<nat> {
    Seq::new(arrays.len(), |i: int| le_value(arrays[i]@))
}

/// One member of a ring.
pub struct Member {
    public_set: PublicSet,
    private_set: Option<PrivateSet>,
}

impl View for Member {
    type V = MemberView;

    closed spec fn view(&self) -> MemberView {
        MemberView {
            public: self.public_set@,
            private: match self.private_set {
                Some(private) => Some(private@),
                None => None,
            },
        }
    }
}

impl Member {
    /// What holds of every member: if it has private keys, its public keys
    /// are theirs.
    #[verifier::type_invariant]
    pub open spec fn is_consistent(self) -> bool {
        owns_keys(self@)
    }

    /// A decoy with the public keys `public_keys`, one per layer.
    pub fn new_decoy(public_keys: Vec<Point>) -> (r: Result<Member, Error>)
        ensures
            match r {
                Ok(member) => key_vector_fault(point_encodings(public_keys@)) is None
                    && member@.public == point_encodings(public_keys@) && member@.private is None,
                Err(e) => key_vector_fault(point_encodings(public_keys@)) == Some(e),
            },
    {
        let public_set = PublicSet(public_keys);
        if public_set.is_empty() {
            return Err(Error::MismatchedKeyLength);
        }
        if public_set.duplicates_exist() {
            return Err(Error::DuplicateKey);
        }
        Ok(Member { public_set, private_set: None })
    }

    /// The signer with the private keys `private_keys`, one per layer. Its
    /// public keys are derived from them.
    pub fn new_signer(private_keys: Vec<Scalar>) -> (r: Result<Member, Error>)
        ensures
            match r {
                Ok(member) => key_vector_fault(public_keys_of(scalar_values(private_keys@)))
                    is None && member@.private == Some(scalar_values(private_keys@))
                    && member@.public == public_keys_of(scalar_values(private_keys@)),
                Err(e) => key_vector_fault(public_keys_of(scalar_values(private_keys@))) == Some(
                    e,
                ),
            },
    {
        let private_set = PrivateSet::new(private_keys);
        let public_set = private_set.to_public_set();
        if public_set.is_empty() {
            return Err(Error::MismatchedKeyLength);
        }
        if public_set.duplicates_exist() {
            return Err(Error::DuplicateKey);
        }
        Ok(Member { public_set, private_set: Some(private_set) })
    }

    /// A decoy with the public keys that `public_keys` encode, one per
    /// layer. Fails with `InvalidEncoding` if one of them is not the canonical
    /// encoding of a group element, else as [`Member::new_decoy`] does.
    pub fn decoy_from_bytes(public_keys: &Vec<[u8; 32]>) -> (r: Result<Member, Error>)
        ensures
            match r {
                Ok(member) => all_decompress(byte_strings(public_keys@)) && key_vector_fault(
                    byte_strings(public_keys@),
                ) is None && member@.public == byte_strings(public_keys@)
                    && member@.private is None,
                Err(e) => if all_decompress(byte_strings(public_keys@)) {
                    key_vector_fault(byte_strings(public_keys@)) == Some(e)
                } else {
                    e == Error::InvalidEncoding
                },
            },
    {
        let ghost encoded = byte_strings(public_keys@);
        let mut points: Vec<Point> = Vec::new();
        let mut i: usize = 0;
        while i < public_keys.len()
            invariant
                i <= public_keys@.len(),
                encoded == byte_strings(public_keys@),
                points@.len() == i,
                forall|x: int| 0 <= x < i ==> is_point_encoding(#[trigger] encoded[x]),
                forall|x: int| 0 <= x < i ==> (#[trigger] points@[x])@ == encoded[x],
            decreases public_keys@.len() - i,
        {
            match CompressedPoint(public_keys[i]).decompress() {
                Some(point) => {
                    points.push(point);
                },
                None => {
                    assert(!is_point_encoding(encoded[i as int]));
                    return Err(Error::InvalidEncoding);
                },
            }
            i += 1;
        }
        assert(point_encodings(points@) =~= encoded);
        Member::new_decoy(points)
    }

    /// The signer with the private keys that `private_keys` encode, one per
    /// layer. Fails with `InvalidEncoding` if one of them does not encode an
    /// integer below the group order, else as [`Member::new_signer`] does.
    pub fn signer_from_bytes(private_keys: &Vec<[u8; 32]>) -> (r: Result<Member, Error>)
        ensures
            match r {
                Ok(member) => all_canonical(le_values(private_keys@)) && key_vector_fault(
                    public_keys_of(le_values(private_keys@)),
                ) is None && member@.private == Some(le_values(private_keys@)) && member@.public
                    == public_keys_of(le_values(private_keys@)),
                Err(e) => if all_canonical(le_values(private_keys@)) {
                    key_vector_fault(public_keys_of(le_values(private_keys@))) == Some(e)
                } else {
                    e == Error::InvalidEncoding
                },
            },
    {
        let ghost values = le_values(private_keys@);
        let mut scalars: Vec<Scalar> = Vec::new();
        let mut i: usize = 0;
        while i < private_keys.len()
            invariant
                i <= private_keys@.len(),
                values == le_values(private_keys@),
                scalars@.len() == i,
                forall|x: int| 0 <= x < i ==> (#[trigger] values[x]) < group_order(),
                forall|x: int| 0 <= x < i ==> (#[trigger] scalars@[x])@ == values[x],
            decreases private_keys@.len() - i,
        {
            match Scalar::from_canonical_bytes(private_keys[i]) {
                Some(scalar) => {
                    scalars.push(scalar);
                },
                None => {
                    assert(values[i as int] >= group_order());
                    return Err(Error::InvalidEncoding);
                },
            }
            i += 1;
        }
        assert(scalar_values(scalars@) =~= values);
        Member::new_signer(scalars)
    }

    /// Whether the member holds private keys.
    pub fn is_signer(&self) -> (r: bool)
        ensures
            r == (self@.private is Some),
    {
        self.private_set.is_some()
    }

    /// The number of layers of the member.
    pub fn len(&self) -> (r: usize)
        ensures
            r == self@.public.len(),
    {
        self.public_set.len()
    }

    /// The public keys of the member.
    pub fn public_set(&self) -> (r: &PublicSet)
        ensures
            r@ == self@.public,
    {
        &self.public_set
    }

    /// The private keys of the member, if it is the signer.
    pub(crate) fn private_set(&self) -> (r: Option<&PrivateSet>)
        ensures
            match r {
                Some(private) => self@.private == Some(private@),
                None => self@.private is None,
            },
    {
        match &self.private_set {
            Some(private) => Some(private),
            None => None,
        }
    }
}

} // verus!

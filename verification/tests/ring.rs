use clsag::clsag::Clsag;
use clsag::error::Error;
use clsag::keys::PublicSet;
use clsag::member::Member;
use clsag::point::Point;
use clsag::scalar::Scalar;

fn scalars(num: usize) -> Vec<Scalar> {
    (0..num).map(|_| Scalar::random().unwrap()).collect()
}

fn points(num: usize) -> Vec<Point> {
    scalars(num).iter().map(Point::mul_base).collect()
}

fn decoy(num_keys: usize) -> Member {
    Member::new_decoy(points(num_keys)).unwrap()
}

fn signer(num_keys: usize) -> Member {
    Member::new_signer(scalars(num_keys)).unwrap()
}

#[test]
fn new_ring_is_empty() {
    let clsag = Clsag::new();
    assert_eq!(clsag.len(), 0);
    assert!(clsag.public_keys().is_empty());
}

#[test]
fn members_keep_their_order() {
    let sets: Vec<Vec<Point>> = (0..4).map(|_| points(2)).collect();
    let mut clsag = Clsag::new();
    for set in &sets {
        assert_eq!(clsag.add_member(Member::new_decoy(set.clone()).unwrap()), Ok(()));
    }
    assert_eq!(clsag.len(), 4);
    let keys = clsag.public_keys();
    assert_eq!(keys.len(), 4);
    for (key, set) in keys.iter().zip(sets.iter()) {
        assert!(*key == PublicSet(set.clone()));
    }
}

#[test]
fn decoy_holds_the_given_keys() {
    let keys = points(3);
    let member = Member::new_decoy(keys.clone()).unwrap();
    assert!(!member.is_signer());
    assert_eq!(member.len(), 3);
    assert!(*member.public_set() == PublicSet(keys));
}

#[test]
fn signer_holds_the_public_keys_of_its_private_keys() {
    let private = scalars(3);
    let member = Member::new_signer(private.clone()).unwrap();
    assert!(member.is_signer());
    assert_eq!(member.len(), 3);
    let expected: Vec<Point> = private.iter().map(Point::mul_base).collect();
    assert!(*member.public_set() == PublicSet(expected));
}

#[test]
fn member_without_keys_is_refused() {
    assert_eq!(Member::new_decoy(Vec::new()).err(), Some(Error::MismatchedKeyLength));
    assert_eq!(Member::new_signer(Vec::new()).err(), Some(Error::MismatchedKeyLength));
}

#[test]
fn member_with_a_key_twice_is_refused() {
    let mut keys = points(3);
    keys[2] = keys[0];
    assert_eq!(Member::new_decoy(keys).err(), Some(Error::DuplicateKey));

    let mut private = scalars(3);
    private[1] = private[2];
    assert_eq!(Member::new_signer(private).err(), Some(Error::DuplicateKey));
}

#[test]
fn second_signer_is_refused() {
    let mut clsag = Clsag::new();
    assert_eq!(clsag.add_member(decoy(2)), Ok(()));
    assert_eq!(clsag.add_member(signer(2)), Ok(()));
    assert_eq!(clsag.add_member(signer(2)), Err(Error::MultipleSigners));
    // also when its number of keys is wrong
    assert_eq!(clsag.add_member(signer(3)), Err(Error::MultipleSigners));
    assert_eq!(clsag.len(), 2);
    assert_eq!(clsag.add_member(decoy(2)), Ok(()));
    assert_eq!(clsag.len(), 3);
}

#[test]
fn member_with_another_number_of_keys_is_refused() {
    let mut clsag = Clsag::new();
    assert_eq!(clsag.add_member(decoy(2)), Ok(()));
    assert_eq!(clsag.add_member(decoy(3)), Err(Error::MismatchedKeyLength));
    assert_eq!(clsag.add_member(decoy(1)), Err(Error::MismatchedKeyLength));
    assert_eq!(clsag.add_member(signer(3)), Err(Error::MismatchedKeyLength));
    assert_eq!(clsag.len(), 1);
    assert_eq!(clsag.add_member(signer(2)), Ok(()));
}

#[test]
fn same_key_vector_twice_is_refused() {
    let keys = points(2);
    let mut clsag = Clsag::new();
    assert_eq!(clsag.add_member(decoy(2)), Ok(()));
    assert_eq!(clsag.add_member(Member::new_decoy(keys.clone()).unwrap()), Ok(()));
    assert_eq!(clsag.add_member(decoy(2)), Ok(()));
    assert_eq!(
        clsag.add_member(Member::new_decoy(keys.clone()).unwrap()),
        Err(Error::DuplicateKey)
    );
    assert_eq!(clsag.len(), 3);

    // the same keys in another order are another vector
    let swapped = vec![keys[1], keys[0]];
    assert_eq!(clsag.add_member(Member::new_decoy(swapped).unwrap()), Ok(()));
}

#[test]
fn signer_with_the_keys_of_a_decoy_is_refused() {
    let private = scalars(2);
    let public: Vec<Point> = private.iter().map(Point::mul_base).collect();
    let mut clsag = Clsag::new();
    assert_eq!(clsag.add_member(Member::new_decoy(public).unwrap()), Ok(()));
    assert_eq!(
        clsag.add_member(Member::new_signer(private).unwrap()),
        Err(Error::DuplicateKey)
    );
}

#[test]
fn empty_ring_cannot_sign() {
    let clsag = Clsag::new();
    assert_eq!(clsag.sign(b"hello world").err(), Some(Error::EmptyRing));
    assert_eq!(
        clsag.sign_with_nonces(b"hello world", &Scalar::random().unwrap(), &Vec::new()).err(),
        Some(Error::EmptyRing)
    );
}

#[test]
fn ring_without_signer_cannot_sign() {
    let mut clsag = Clsag::new();
    clsag.add_member(decoy(2)).unwrap();
    clsag.add_member(decoy(2)).unwrap();
    assert_eq!(clsag.sign(b"hello world").err(), Some(Error::NoSigner));
    assert_eq!(
        clsag.sign_with_nonces(b"hello world", &Scalar::random().unwrap(), &scalars(2)).err(),
        Some(Error::NoSigner)
    );
}

#[test]
fn signing_needs_one_response_per_member() {
    let mut clsag = Clsag::new();
    clsag.add_member(decoy(2)).unwrap();
    clsag.add_member(signer(2)).unwrap();
    let alpha = Scalar::random().unwrap();
    assert_eq!(
        clsag.sign_with_nonces(b"m", &alpha, &scalars(1)).err(),
        Some(Error::LengthMismatch)
    );
    assert_eq!(
        clsag.sign_with_nonces(b"m", &alpha, &scalars(3)).err(),
        Some(Error::LengthMismatch)
    );
    assert!(clsag.sign_with_nonces(b"m", &alpha, &scalars(2)).is_ok());
}

#[test]
fn decoy_from_bytes_takes_encodings_of_points() {
    let keys = points(2);
    let bytes: Vec<[u8; 32]> = keys.iter().map(|p| p.compress().to_bytes()).collect();
    let member = Member::decoy_from_bytes(&bytes).unwrap();
    assert!(!member.is_signer());
    assert!(*member.public_set() == PublicSet(keys));

    assert_eq!(
        Member::decoy_from_bytes(&vec![bytes[0], [0xff; 32]]).err(),
        Some(Error::InvalidEncoding)
    );
    assert_eq!(
        Member::decoy_from_bytes(&vec![bytes[0], bytes[0]]).err(),
        Some(Error::DuplicateKey)
    );
    assert_eq!(Member::decoy_from_bytes(&Vec::new()).err(), Some(Error::MismatchedKeyLength));
}

#[test]
fn signer_from_bytes_takes_canonical_scalars() {
    let private = scalars(2);
    let bytes: Vec<[u8; 32]> = private.iter().map(|s| s.to_bytes()).collect();
    let member = Member::signer_from_bytes(&bytes).unwrap();
    assert!(member.is_signer());
    let expected: Vec<Point> = private.iter().map(Point::mul_base).collect();
    assert!(*member.public_set() == PublicSet(expected));

    assert_eq!(
        Member::signer_from_bytes(&vec![bytes[0], [0xff; 32]]).err(),
        Some(Error::InvalidEncoding)
    );
    assert_eq!(
        Member::signer_from_bytes(&vec![bytes[1], bytes[1]]).err(),
        Some(Error::DuplicateKey)
    );
    assert_eq!(Member::signer_from_bytes(&Vec::new()).err(), Some(Error::MismatchedKeyLength));
}

#[test]
fn ring_built_from_bytes_signs_and_verifies() {
    let mut clsag = Clsag::new();
    for _ in 0..2 {
        let bytes: Vec<[u8; 32]> = points(2).iter().map(|p| p.compress().to_bytes()).collect();
        clsag.add_member(Member::decoy_from_bytes(&bytes).unwrap()).unwrap();
    }
    let private: Vec<[u8; 32]> = scalars(2).iter().map(|s| s.to_bytes()).collect();
    clsag.add_member(Member::signer_from_bytes(&private).unwrap()).unwrap();
    let sig = clsag.sign(b"from bytes").unwrap();
    assert_eq!(sig.verify(&clsag.public_keys(), b"from bytes"), Ok(()));
}

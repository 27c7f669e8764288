use clsag::keys::{PrivateSet, PublicSet};
use clsag::point::{CompressedPoint, Point};
use clsag::scalar::Scalar;
use curve25519_dalek::constants::RISTRETTO_BASEPOINT_POINT;
use curve25519_dalek::ristretto::{CompressedRistretto, RistrettoPoint};
use curve25519_dalek::scalar::Scalar as GroupScalar;
use rand_core::OsRng;
use sha2::Sha512;

fn lib_scalar(s: &GroupScalar) -> Scalar {
    Scalar::from_canonical_bytes(s.to_bytes()).unwrap()
}

fn group_scalar(s: &Scalar) -> GroupScalar {
    Option::<GroupScalar>::from(GroupScalar::from_canonical_bytes(s.to_bytes())).unwrap()
}

fn lib_point(p: &RistrettoPoint) -> Point {
    CompressedPoint(p.compress().to_bytes()).decompress().unwrap()
}

fn generate_rand_scalars(num: usize) -> Vec<Scalar> {
    let mut scalars = Vec::with_capacity(num);
    for _ in 0..num {
        scalars.push(lib_scalar(&GroupScalar::random(&mut OsRng)));
    }
    scalars
}

fn generate_private_set(num: usize) -> PrivateSet {
    PrivateSet::new(generate_rand_scalars(num))
}

// This test is a sanity check for private to public key sets: each public key
// is compared with the private key times the basepoint, computed by the group
// library itself.
#[test]
fn private_set_to_public_set() {
    let private_set = generate_private_set(10);
    let public_set = private_set.to_public_set();

    assert_eq!(private_set.len(), public_set.len());

    let private_keys = private_set.to_scalars();
    for i in 0..private_set.len() {
        match (private_keys.get(i), public_set.0.get(i)) {
            (Some(private_key), Some(expected_public_key)) => {
                let public_key = group_scalar(private_key) * RISTRETTO_BASEPOINT_POINT;
                assert_eq!(lib_point(&public_key), *expected_public_key);
            }
            _ => panic!("could not get the private/public key at index {} ", i),
        }
    }
}

#[test]
fn check_duplicates_exist() {
    let private_set = generate_private_set(10);
    let mut public_set = private_set.to_public_set();

    let dup_exists = public_set.duplicates_exist();
    assert!(!dup_exists);

    let last_element = public_set.0.last().unwrap().clone();
    public_set.0[0] = last_element;

    let dup_exists = public_set.duplicates_exist();
    assert!(dup_exists);
}

#[test]
fn duplicates_found_at_any_two_places() {
    let public_set = generate_private_set(5).to_public_set();
    for i in 0..5 {
        for j in 0..5 {
            if i != j {
                let mut changed = public_set.clone();
                changed.0[i] = changed.0[j];
                assert!(changed.duplicates_exist());
            }
        }
    }
}

#[test]
fn empty_and_single_sets_have_no_duplicates() {
    assert!(!PublicSet(Vec::new()).duplicates_exist());
    assert!(!generate_private_set(1).to_public_set().duplicates_exist());
}

#[test]
fn lengths_and_emptiness() {
    let empty = PrivateSet::new(Vec::new());
    assert_eq!(empty.len(), 0);
    assert!(empty.is_empty());
    assert!(empty.to_public_set().is_empty());
    assert_eq!(empty.to_public_set().len(), 0);

    let three = generate_private_set(3);
    assert_eq!(three.len(), 3);
    assert!(!three.is_empty());
    assert_eq!(three.to_public_set().len(), 3);
    assert!(!three.to_public_set().is_empty());
}

#[test]
fn public_key_of_one_is_the_basepoint() {
    let mut one = [0u8; 32];
    one[0] = 1;
    let private_set = PrivateSet::new(vec![Scalar::from_canonical_bytes(one).unwrap()]);
    let public_set = private_set.to_public_set();
    let expected: [u8; 32] = [
        0xe2, 0xf2, 0xae, 0x0a, 0x6a, 0xbc, 0x4e, 0x71, 0xa8, 0x84, 0xa9, 0x61, 0xc5, 0x00, 0x51,
        0x5f, 0x58, 0xe3, 0x0b, 0x6a, 0xa5, 0x82, 0xdd, 0x8d, 0xb6, 0xa6, 0x59, 0x45, 0xe0, 0x8d,
        0x2d, 0x76,
    ];
    assert_eq!(public_set.0[0].compress().to_bytes(), expected);
    assert_eq!(public_set.to_bytes(), expected.to_vec());
}

#[test]
fn to_bytes_concatenates_the_encodings_in_order() {
    let public_set = generate_private_set(4).to_public_set();
    let bytes = public_set.to_bytes();
    assert_eq!(bytes.len(), 4 * 32);
    for (i, point) in public_set.0.iter().enumerate() {
        assert_eq!(&bytes[32 * i..32 * (i + 1)], &point.compress().to_bytes()[..]);
    }
    assert_eq!(PublicSet(Vec::new()).to_bytes(), Vec::<u8>::new());
}

#[test]
fn to_keys_compresses_each_key() {
    let public_set = generate_private_set(4).to_public_set();
    let keys = public_set.to_keys();
    assert_eq!(keys.len(), 4);
    for (key, point) in keys.iter().zip(public_set.0.iter()) {
        assert_eq!(*key, point.compress());
        assert_eq!(key.decompress().unwrap(), *point);
    }
}

#[test]
fn hashed_pubkey_is_the_hash_to_point_of_the_first_key() {
    let public_set = generate_private_set(3).to_public_set();
    let first = public_set.0[0].compress().to_bytes();
    let expected = RistrettoPoint::hash_from_bytes::<Sha512>(&first);
    assert_eq!(public_set.hashed_pubkey(), lib_point(&expected));
    assert_ne!(public_set.hashed_pubkey(), public_set.0[0]);
}

#[test]
fn key_images_are_private_keys_times_the_generator() {
    let private_set = generate_private_set(3);
    let public_set = private_set.to_public_set();
    let generator = public_set.hashed_pubkey();
    let images = private_set.compute_key_images(&generator);
    let points = private_set.key_image_points(&generator);
    assert_eq!(images.len(), 3);
    assert_eq!(points.len(), 3);

    let base = CompressedRistretto(generator.compress().to_bytes()).decompress().unwrap();
    for (i, x) in private_set.to_scalars().iter().enumerate() {
        let expected = (group_scalar(x) * base).compress().to_bytes();
        assert_eq!(images[i].to_bytes(), expected);
        assert_eq!(points[i].compress().to_bytes(), expected);
    }
}

#[test]
fn equal_key_vectors_compare_equal() {
    let private_set = generate_private_set(3);
    let a = private_set.to_public_set();
    let b = private_set.to_public_set();
    assert!(a == b);
    assert!(a == a.clone());
    let mut c = a.clone();
    c.0.swap(0, 1);
    assert!(a != c);
    let mut d = a.clone();
    d.0.pop();
    assert!(a != d);
}

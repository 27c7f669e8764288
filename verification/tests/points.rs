use clsag::point::{CompressedPoint, Point};
use clsag::scalar::Scalar;
use curve25519_dalek::constants::{RISTRETTO_BASEPOINT_COMPRESSED, RISTRETTO_BASEPOINT_POINT};
use curve25519_dalek::ristretto::{CompressedRistretto, RistrettoPoint};
use curve25519_dalek::scalar::Scalar as GroupScalar;
use sha2::Sha512;

fn small(value: u8) -> Scalar {
    let mut bytes = [0u8; 32];
    bytes[0] = value;
    Scalar::from_canonical_bytes(bytes).unwrap()
}

fn group_scalar(s: &Scalar) -> GroupScalar {
    Option::<GroupScalar>::from(GroupScalar::from_canonical_bytes(s.to_bytes())).unwrap()
}

fn group_point(p: &Point) -> RistrettoPoint {
    CompressedRistretto(p.compress().to_bytes()).decompress().unwrap()
}

#[test]
fn basepoint_is_one_times_the_base() {
    let base = Point::mul_base(&small(1));
    assert_eq!(base.compress().to_bytes(), RISTRETTO_BASEPOINT_COMPRESSED.to_bytes());
}

#[test]
fn zero_times_the_base_is_the_identity() {
    let identity = Point::mul_base(&small(0));
    assert_eq!(identity.compress().to_bytes(), [0u8; 32]);
    let p = Point::mul_base(&small(9));
    assert_eq!(p.add(&identity), p);
}

#[test]
fn decompression_accepts_encodings_of_points_only() {
    let base = CompressedPoint(RISTRETTO_BASEPOINT_COMPRESSED.to_bytes());
    let point = base.decompress().unwrap();
    assert_eq!(point.compress(), base);
    assert_eq!(point.compress().as_bytes(), base.as_bytes());

    assert!(CompressedPoint([0u8; 32]).decompress().is_some());
    assert!(CompressedPoint([0xff; 32]).decompress().is_none());
    let mut one = [0u8; 32];
    one[0] = 1;
    // 1 is a negative field element: not a canonical encoding
    assert!(CompressedPoint(one).decompress().is_none());
    assert!(CompressedRistretto(one).decompress().is_none());
}

#[test]
fn addition_agrees_with_the_group_library() {
    let p = Point::mul_base(&Scalar::random().unwrap());
    let q = Point::mul_base(&Scalar::random().unwrap());
    let sum = p.add(&q);
    assert_eq!(
        sum.compress().to_bytes(),
        (group_point(&p) + group_point(&q)).compress().to_bytes()
    );
    assert_ne!(sum, p);
    assert_ne!(sum, q);
    assert_eq!(sum, q.add(&p));
}

#[test]
fn small_multiples_add_up() {
    let two = Point::mul_base(&small(2));
    let three = Point::mul_base(&small(3));
    let five = Point::mul_base(&small(5));
    assert_eq!(two.add(&three), five);
    assert_eq!(two.mul(&small(3)), Point::mul_base(&small(6)));
    assert_eq!(five.mul(&small(1)), five);
}

#[test]
fn multiplication_agrees_with_the_group_library() {
    let s = Scalar::random().unwrap();
    let p = Point::hash_from_bytes(b"some generator");
    let product = p.mul(&s);
    assert_eq!(
        product.compress().to_bytes(),
        (group_scalar(&s) * group_point(&p)).compress().to_bytes()
    );
    assert_ne!(product, p);
}

#[test]
fn base_multiplication_agrees_with_the_group_library() {
    let s = Scalar::random().unwrap();
    assert_eq!(
        Point::mul_base(&s).compress().to_bytes(),
        (group_scalar(&s) * RISTRETTO_BASEPOINT_POINT).compress().to_bytes()
    );
    assert_eq!(
        Point::mul_base(&s).compress().to_bytes(),
        RistrettoPoint::mul_base(&group_scalar(&s)).compress().to_bytes()
    );
}

#[test]
fn hash_to_point_agrees_with_the_group_library() {
    let input = b"hash me to a point";
    let p = Point::hash_from_bytes(input);
    assert_eq!(
        p.compress().to_bytes(),
        RistrettoPoint::hash_from_bytes::<Sha512>(input).compress().to_bytes()
    );
    assert_eq!(p, Point::hash_from_bytes(input));
    assert_ne!(p, Point::hash_from_bytes(b"hash me to another point"));
}

#[test]
fn equal_points_compare_equal() {
    let p = Point::mul_base(&small(4));
    let q = Point::mul_base(&small(4));
    assert!(p == q);
    assert!(p != Point::mul_base(&small(5)));
    assert!(p.compress() == q.compress());
    assert!(p.compress() != CompressedPoint([0u8; 32]));
    assert_eq!(p.clone(), q);
}

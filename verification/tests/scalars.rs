use clsag::scalar::Scalar;
use curve25519_dalek::scalar::Scalar as GroupScalar;
use sha2::Sha512;

// The group order, 2^252 + 27742317777372353535851937790883648493, in
// little-endian bytes.
const ORDER: [u8; 32] = [
    0xed, 0xd3, 0xf5, 0x5c, 0x1a, 0x63, 0x12, 0x58, 0xd6, 0x9c, 0xf7, 0xa2, 0xde, 0xf9, 0xde, 0x14,
    0x00, 0x00, 0x00, 0x00, 0x00, 0x00, 0x00, 0x00, 0x00, 0x00, 0x00, 0x00, 0x00, 0x00, 0x00, 0x10,
];

fn small(value: u8) -> Scalar {
    let mut bytes = [0u8; 32];
    bytes[0] = value;
    Scalar::from_canonical_bytes(bytes).unwrap()
}

fn order_minus(value: u8) -> [u8; 32] {
    let mut bytes = ORDER;
    bytes[0] -= value;
    bytes
}

fn group_scalar(s: &Scalar) -> GroupScalar {
    Option::<GroupScalar>::from(GroupScalar::from_canonical_bytes(s.to_bytes())).unwrap()
}

#[test]
fn canonical_bytes_are_those_below_the_order() {
    assert!(Scalar::from_canonical_bytes([0u8; 32]).is_some());
    assert!(Scalar::from_canonical_bytes(order_minus(1)).is_some());
    assert!(Scalar::from_canonical_bytes(ORDER).is_none());
    assert!(Scalar::from_canonical_bytes([0xff; 32]).is_none());
    let mut above = ORDER;
    above[0] += 2;
    assert!(Scalar::from_canonical_bytes(above).is_none());
}

#[test]
fn canonical_bytes_come_back_unchanged() {
    let bytes = order_minus(1);
    let s = Scalar::from_canonical_bytes(bytes).unwrap();
    assert_eq!(s.to_bytes(), bytes);
    assert_eq!(*s.as_bytes(), bytes);
}

#[test]
fn reduction_modulo_the_order() {
    assert_eq!(Scalar::from_bytes_mod_order(ORDER), small(0));
    let mut above = ORDER;
    above[0] += 2;
    assert_eq!(Scalar::from_bytes_mod_order(above), small(2));
    assert_eq!(Scalar::from_bytes_mod_order(order_minus(1)).to_bytes(), order_minus(1));
    let all_ones = Scalar::from_bytes_mod_order([0xff; 32]);
    assert_ne!(all_ones.to_bytes(), [0xff; 32]);
    assert_eq!(all_ones.to_bytes(), GroupScalar::from_bytes_mod_order([0xff; 32]).to_bytes());
}

#[test]
fn wide_reduction_modulo_the_order() {
    let mut wide = [0u8; 64];
    wide[..32].copy_from_slice(&ORDER);
    assert_eq!(Scalar::from_bytes_mod_order_wide(&wide), small(0));
    wide[0] += 5;
    assert_eq!(Scalar::from_bytes_mod_order_wide(&wide), small(5));
    let all_ones = [0xff; 64];
    assert_eq!(
        Scalar::from_bytes_mod_order_wide(&all_ones).to_bytes(),
        GroupScalar::from_bytes_mod_order_wide(&all_ones).to_bytes()
    );
    // 2^256 is not a multiple of the order: the upper half counts
    let mut high = [0u8; 64];
    high[32] = 1;
    assert_ne!(Scalar::from_bytes_mod_order_wide(&high), small(0));
    assert_eq!(
        Scalar::from_bytes_mod_order_wide(&high).to_bytes(),
        GroupScalar::from_bytes_mod_order_wide(&high).to_bytes()
    );
}

#[test]
fn addition_modulo_the_order() {
    assert_eq!(small(2).add(&small(3)), small(5));
    let top = Scalar::from_canonical_bytes(order_minus(1)).unwrap();
    assert_eq!(top.add(&small(1)), small(0));
    assert_eq!(top.add(&small(3)), small(2));
}

#[test]
fn subtraction_modulo_the_order() {
    assert_eq!(small(5).sub(&small(3)), small(2));
    assert_eq!(small(0).sub(&small(1)).to_bytes(), order_minus(1));
    assert_eq!(small(3).sub(&small(5)).to_bytes(), order_minus(2));
}

#[test]
fn multiplication_modulo_the_order() {
    assert_eq!(small(3).mul(&small(4)), small(12));
    let top = Scalar::from_canonical_bytes(order_minus(1)).unwrap();
    // (-1) * (-1) = 1 and (-1) * 2 = -2
    assert_eq!(top.mul(&top), small(1));
    assert_eq!(top.mul(&small(2)).to_bytes(), order_minus(2));
}

#[test]
fn arithmetic_agrees_with_the_group_library() {
    for _ in 0..20 {
        let a = Scalar::random().unwrap();
        let b = Scalar::random().unwrap();
        let (x, y) = (group_scalar(&a), group_scalar(&b));
        assert_eq!(a.add(&b).to_bytes(), (x + y).to_bytes());
        assert_eq!(a.sub(&b).to_bytes(), (x - y).to_bytes());
        assert_eq!(a.mul(&b).to_bytes(), (x * y).to_bytes());
    }
}

#[test]
fn random_scalars_are_canonical_and_differ() {
    let a = Scalar::random().unwrap();
    let b = Scalar::random().unwrap();
    assert!(Scalar::from_canonical_bytes(a.to_bytes()).is_some());
    assert!(Scalar::from_canonical_bytes(b.to_bytes()).is_some());
    assert_ne!(a, b);
}

#[test]
fn hash_to_scalar_is_the_reduced_digest() {
    let msg = b"To really appreciate architecture, you may even need to commit a murder";
    let s = Scalar::hash_from_bytes(msg);
    assert_eq!(s.to_bytes(), GroupScalar::hash_from_bytes::<Sha512>(msg).to_bytes());
    assert!(Scalar::from_canonical_bytes(s.to_bytes()).is_some());
    assert_ne!(s, Scalar::hash_from_bytes(b"another input"));
    assert_eq!(s, Scalar::hash_from_bytes(msg));
    assert_eq!(
        Scalar::hash_from_bytes(b"").to_bytes(),
        GroupScalar::hash_from_bytes::<Sha512>(b"").to_bytes()
    );
}

#[test]
fn equal_scalars_compare_equal() {
    assert!(small(7) == small(7));
    assert!(small(7) != small(8));
    let copy = small(7);
    assert_eq!(copy.clone(), small(7));
}

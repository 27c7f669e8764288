use clsag::clsag::Clsag;
use clsag::error::Error;
use clsag::member::Member;
use clsag::point::Point;
use clsag::scalar::Scalar;

fn generate_rand_scalars(num: usize) -> Vec<Scalar> {
    let mut scalars = Vec::with_capacity(num);
    for _ in 0..num {
        scalars.push(Scalar::random().unwrap());
    }
    scalars
}

fn generate_rand_points(num: usize) -> Vec<Point> {
    generate_rand_scalars(num).iter().map(Point::mul_base).collect()
}

fn generate_decoys(num_decoys: usize, num_keys: usize) -> Vec<Member> {
    let mut decoys = Vec::with_capacity(num_decoys);
    for _ in 0..num_decoys {
        decoys.push(Member::new_decoy(generate_rand_points(num_keys)).unwrap());
    }
    decoys
}

fn generate_signer(num_keys: usize) -> Member {
    Member::new_signer(generate_rand_scalars(num_keys)).unwrap()
}

fn ring_with_signer_at(position: usize, size: usize, num_keys: usize) -> Clsag {
    let mut clsag = Clsag::new();
    for i in 0..size {
        if i == position {
            clsag.add_member(generate_signer(num_keys)).unwrap();
        } else {
            clsag.add_member(generate_decoys(1, num_keys).pop().unwrap()).unwrap();
        }
    }
    clsag
}

#[test]
fn test_protocol() {
    // Define setup parameters
    let num_keys = 2;
    let num_decoys = 11;
    let msg = b"hello world";

    // Define a clsag object which will be used to create a signature
    let mut clsag = Clsag::new();

    // Generate and add decoys
    let decoys = generate_decoys(num_decoys, num_keys);
    for decoy in decoys {
        clsag.add_member(decoy).unwrap();
    }

    // Generate and add signer
    let signer = generate_signer(num_keys);
    clsag.add_member(signer).unwrap();

    let signature = clsag.sign(msg).unwrap();
    let res = signature.verify(&mut clsag.public_keys(), msg);

    assert!(res.is_ok());

    // This test will fail since the challenge is different and thus the verification fails.
    // However if the message doesn't change and it is signed again, the verification passes.
    let msg2 = b"hello world2";
    let signature2 = clsag.sign(msg2).unwrap();
    let res2 = signature2.verify(&mut clsag.public_keys(), msg);

    assert!(res2.is_err())
}

#[test]
fn twelve_members_two_layers() {
    let mut clsag = Clsag::new();
    for decoy in generate_decoys(11, 2) {
        assert_eq!(clsag.add_member(decoy), Ok(()));
    }
    assert_eq!(clsag.add_member(generate_signer(2)), Ok(()));
    assert_eq!(clsag.len(), 12);

    let signature = clsag.sign(b"hello world").unwrap();
    assert_eq!(signature.responses.len(), 12);
    assert_eq!(signature.key_images.len(), 2);
    assert_eq!(signature.verify(&clsag.public_keys(), b"hello world"), Ok(()));
    assert_eq!(
        signature.verify(&clsag.public_keys(), b"hello world2"),
        Err(Error::ChallengeMismatch)
    );

    let signature2 = clsag.sign(b"hello world2").unwrap();
    assert_eq!(signature2.verify(&clsag.public_keys(), b"hello world2"), Ok(()));
}

fn round_trip_at_every_position(size: usize, num_keys: usize) {
    for position in 0..size {
        let clsag = ring_with_signer_at(position, size, num_keys);
        let signature = clsag.sign(b"any message").unwrap();
        assert_eq!(signature.responses.len(), size);
        assert_eq!(signature.key_images.len(), num_keys);
        assert_eq!(signature.verify(&clsag.public_keys(), b"any message"), Ok(()));
    }
}

#[test]
fn ring_of_two_verifies_wherever_the_signer_stands() {
    round_trip_at_every_position(2, 2);
}

#[test]
fn ring_of_three_verifies_wherever_the_signer_stands() {
    round_trip_at_every_position(3, 1);
}

#[test]
fn ring_of_four_verifies_wherever_the_signer_stands() {
    round_trip_at_every_position(4, 3);
}

#[test]
fn ring_of_the_signer_alone() {
    let mut clsag = Clsag::new();
    clsag.add_member(generate_signer(2)).unwrap();
    let signature = clsag.sign(b"alone").unwrap();
    assert_eq!(signature.responses.len(), 1);
    assert_eq!(signature.verify(&clsag.public_keys(), b"alone"), Ok(()));
    assert_eq!(signature.verify(&clsag.public_keys(), b"alonf"), Err(Error::ChallengeMismatch));
}

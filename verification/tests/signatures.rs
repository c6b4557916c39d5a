use cube::bytes::bytes_eq;
use cube::curve::{generator_times, point_multiple, point_signed, point_sum, Point, Residue, Scalar};
use cube::hash::{ripemd160, sha256, tagged_hash};
use cube::musig::{MusigKeyAggCtx, MusigSessionCtx};
use cube::projector::{key_projector_agg, project_public_key, project_secret_key, projection_tweak};
use cube::schnorr::{challenge, sign, verify_xonly};

fn array(text: &str) -> [u8; 32] {
    hex::decode(text).unwrap().try_into().unwrap()
}

fn scalar(n: u8) -> Scalar {
    let mut bytes = [0u8; 32];
    bytes[31] = n;
    Scalar::from_slice(&bytes).unwrap()
}

fn outside_verifies(key_x: [u8; 32], message: [u8; 32], signature: [u8; 64]) -> bool {
    let secp = bitcoin::secp256k1::Secp256k1::verification_only();
    let key = bitcoin::XOnlyPublicKey::from_slice(&key_x).unwrap();
    let sig = bitcoin::secp256k1::schnorr::Signature::from_slice(&signature).unwrap();
    let msg = bitcoin::secp256k1::Message::from_digest(message);
    secp.verify_schnorr(&sig, &msg, &key).is_ok()
}

#[test]
fn hash_vectors() {
    assert_eq!(
        hex::encode(sha256(b"abc")),
        "ba7816bf8f01cfea414140de5dae2223b00361a396177a9cb410ff61f20015ad"
    );
    assert_eq!(hex::encode(ripemd160(b"abc")), "8eb208f7e05d987a9b044a8e98c6b087f15a0bfc");
    let tag = sha256(b"TapLeaf");
    let mut preimage = tag.to_vec();
    preimage.extend_from_slice(&tag);
    preimage.extend_from_slice(b"abc");
    assert_eq!(tagged_hash("TapLeaf", b"abc"), sha256(&preimage));
}

#[test]
fn scalars_and_points_are_those_of_the_curve() {
    let g = scalar(1).base_point_mul();
    assert_eq!(
        hex::encode(g.serialize()),
        "0279be667ef9dcbbac55a06295ce870b07029bfcdb2dce28d959f2815b16f81798"
    );
    assert!(g.has_even_y());
    let two = point_sum(&Some(g), &Some(g)).unwrap();
    assert_eq!(
        hex::encode(two.serialize()),
        "02c6047f9441ed7d6d3045406e95c07cd85c778e4b8cef3ca7abac09b95c709ee5"
    );
    assert!(two.same(&scalar(2).base_point_mul()));
    assert!(point_sum(&Some(g), &Some(g.negate())).is_none());
    assert!(point_multiple(&Some(two), &scalar(3).residue()).unwrap().same(&scalar(6).base_point_mul()));
    assert!(point_multiple(&Some(two), &Residue::zero()).is_none());
    assert!(point_multiple(&None, &Residue::one()).is_none());
    assert!(generator_times(&Residue::zero()).is_none());
    assert!(generator_times(&Residue::one()).unwrap().same(&g));
    assert!(point_signed(&Some(g), true).unwrap().same(&g.negate()));
    assert!(point_signed(&None, true).is_none());
    assert!(g.negate().to_even_y().same(&g));
}

#[test]
fn residues_wrap_at_the_group_order() {
    let order = array("fffffffffffffffffffffffffffffffebaaedce6af48a03bbfd25e8cd0364141");
    assert!(Residue::from_slice(&order).is_none());
    assert!(Scalar::from_slice(&order).is_none());
    assert!(Scalar::from_slice(&[0u8; 32]).is_none());
    assert!(Scalar::from_slice(&[1u8; 31]).is_none());
    assert_eq!(Residue::reduce(&order).serialize(), [0u8; 32]);
    assert!(Residue::reduce(&order).nonzero().is_none());
    let minus_one = Residue::one().negate();
    assert_eq!(
        minus_one.serialize(),
        array("fffffffffffffffffffffffffffffffebaaedce6af48a03bbfd25e8cd0364140")
    );
    assert_eq!(minus_one.plus(&Residue::one()).serialize(), [0u8; 32]);
    assert_eq!(minus_one.times(&minus_one).serialize(), Residue::one().serialize());
    assert_eq!(scalar(5).residue().signed(true).plus(&scalar(7).residue()).serialize(), scalar(2).serialize());
}

#[test]
fn points_are_read_compressed() {
    let g = scalar(1).base_point_mul();
    assert!(Point::from_compressed(&g.serialize()).unwrap().same(&g));
    let uncompressed = secp::Point::from_slice(&g.serialize()).unwrap().serialize_uncompressed();
    assert!(Point::from_compressed(&uncompressed).is_none());
    assert!(Point::from_compressed(&[2u8; 32]).is_none());
    assert!(Point::from_compressed(&[0u8; 33]).is_none());
    assert!(Point::lift_x(&g.serialize_xonly()).unwrap().same(&g));
    // No point has this X coordinate.
    assert!(Point::lift_x(&array("eefdea4cdb677750a420fee807eacf21eb9898ae79b9768766e4faa04a2d4a34")).is_none());
}

#[test]
fn bip340_vectors() {
    // The first vectors of BIP-340: valid, and one with a key that is not on the curve.
    let secret = array("0000000000000000000000000000000000000000000000000000000000000003");
    let key = array("f9308a019258c31049344f85f89d5229b531c845836f99b08601f113bce036f9");
    let sig: [u8; 64] = hex::decode("e907831f80848d1069a5371b402410364bdf1c5f8307b0084c55f1ce2dca821525f66a4a85ea8b71e482a74f382d2ce5ebeee8fdb2172f477df4900d310536c0").unwrap().try_into().unwrap();
    assert_eq!(sign(secret, [0; 32]), Some(sig));
    assert!(verify_xonly(key, [0; 32], sig));
    let mut other = sig;
    other[63] ^= 1;
    assert!(!verify_xonly(key, [0; 32], other));
    assert!(!verify_xonly(key, [1; 32], sig));
    let off_curve = array("eefdea4cdb677750a420fee807eacf21eb9898ae79b9768766e4faa04a2d4a34");
    assert!(!verify_xonly(off_curve, [0; 32], sig));
    // `s` is the group order.
    let mut large = sig;
    large[32..].copy_from_slice(&array("fffffffffffffffffffffffffffffffebaaedce6af48a03bbfd25e8cd0364141"));
    assert!(!verify_xonly(key, [0; 32], large));
    assert_eq!(sign([0; 32], [0; 32]), None);
}

#[test]
fn signatures_verify_outside_and_inside() {
    for n in 1u8..20 {
        let secret = scalar(n);
        let message = sha256(&[n]);
        let sig = sign(secret.serialize(), message).unwrap();
        let key = secret.base_point_mul().serialize_xonly();
        assert!(verify_xonly(key, message, sig));
        assert!(outside_verifies(key, message, sig));
    }
}

#[test]
fn challenge_is_the_tagged_hash() {
    let e = challenge(&[1; 32], &[2; 32], &[3; 32]);
    let mut preimage = vec![1u8; 32];
    preimage.extend_from_slice(&[2u8; 32]);
    preimage.extend_from_slice(&[3u8; 32]);
    let h = tagged_hash("BIP0340/challenge", &preimage);
    assert_eq!(e.serialize(), Residue::reduce(&h).serialize());
}

#[test]
fn key_aggregation_vectors() {
    // Key aggregation vectors of BIP-327.
    let x1 = Point::from_compressed(&hex::decode("02f9308a019258c31049344f85f89d5229b531c845836f99b08601f113bce036f9").unwrap()).unwrap();
    let x2 = Point::from_compressed(&hex::decode("03dff1d77f2a671c5f36183726db2341be58feae1da2deced843240f7b502ba659").unwrap()).unwrap();
    let x3 = Point::from_compressed(&hex::decode("023590a94e768f8e1815c2f24b4d80a8e3149316c3518ce7b7ad338368d038ca66").unwrap()).unwrap();
    let agg = |keys: &[Point]| hex::encode(MusigKeyAggCtx::new(keys, None).unwrap().agg_key().serialize_xonly());
    assert_eq!(agg(&[x1, x2, x3]), "90539eede565f5d054f32cc0c220126889ed1e5d193baf15aef344fe59d4610c");
    assert_eq!(agg(&[x3, x2, x1]), "6204de8b083426dc6eaf9502d27024d53fc826bf7d2012148a0575435df54b2b");
    assert_eq!(agg(&[x1, x1, x1]), "b436e3bad62b8cd409969a224731c193d051162d8c5ae8b109306127da3aa935");
    assert_eq!(agg(&[x1, x1, x2, x2]), "69bc22bfa5d106306e48a20679de1d7389386124d07571d0d872686028c26a3e");
    assert!(MusigKeyAggCtx::new(&[], None).is_none());
}

#[test]
fn tweaked_aggregate_is_the_even_key_plus_tweak() {
    let keys = [scalar(5).base_point_mul(), scalar(9).base_point_mul()];
    let plain = MusigKeyAggCtx::new(&keys, None).unwrap();
    assert!(plain.agg_key().same(&plain.agg_inner_key()));
    let tweaked = MusigKeyAggCtx::new(&keys, Some(scalar(77))).unwrap();
    assert!(tweaked.agg_inner_key().same(&plain.agg_inner_key()));
    let expected = point_sum(&Some(plain.agg_key().to_even_y()), &Some(scalar(77).base_point_mul())).unwrap();
    assert!(tweaked.agg_key().same(&expected));
}

fn run_session(secrets: &[Scalar], tweak: Option<Scalar>, message: [u8; 32]) -> ([u8; 32], [u8; 64]) {
    let keys: Vec<Point> = secrets.iter().map(|s| s.base_point_mul()).collect();
    let keyagg = MusigKeyAggCtx::new(&keys, tweak).unwrap();
    let mut session = MusigSessionCtx::new(&keyagg, message).unwrap();
    let nonces: Vec<(Scalar, Scalar)> =
        (0..secrets.len()).map(|i| (scalar(100 + i as u8), scalar(150 + i as u8))).collect();
    for (key, (k1, k2)) in keys.iter().zip(nonces.iter()) {
        // No partial signature before all nonces are there.
        assert!(session.partial_sign(secrets[0], nonces[0].0, nonces[0].1).is_none());
        assert!(session.insert_nonce(*key, k1.base_point_mul(), k2.base_point_mul()));
    }
    assert!(session.full_agg_sig().is_none());
    for (i, secret) in secrets.iter().enumerate() {
        let partial = session.partial_sign(*secret, nonces[i].0, nonces[i].1).unwrap();
        // Another signer's partial signature is refused.
        if secrets.len() > 1 && !keys[i].same(&keys[(i + 1) % keys.len()]) {
            assert!(!session.insert_partial_sig(keys[(i + 1) % keys.len()], partial));
        }
        assert!(session.insert_partial_sig(keys[i], partial));
        assert!(!session.insert_partial_sig(keys[i], partial) || secrets.len() > 1);
    }
    (keyagg.agg_key().serialize_xonly(), session.full_agg_sig().unwrap())
}

#[test]
fn sessions_give_valid_signatures() {
    let mut seen_odd = false;
    for n in 1u8..25 {
        let secrets = [scalar(n), scalar(n + 1), scalar(n + 50)];
        for tweak in [None, Some(scalar(n + 3))] {
            let (key, sig) = run_session(&secrets, tweak, sha256(&[n]));
            assert!(verify_xonly(key, sha256(&[n]), sig));
            assert!(outside_verifies(key, sha256(&[n]), sig));
            seen_odd |= n % 2 == 1;
        }
    }
    assert!(seen_odd);
    let (key, sig) = run_session(&[scalar(4)], Some(scalar(8)), [9; 32]);
    assert!(outside_verifies(key, [9; 32], sig));
}

#[test]
fn session_refuses_strangers_and_repeats() {
    let keys = [scalar(5).base_point_mul(), scalar(9).base_point_mul()];
    let keyagg = MusigKeyAggCtx::new(&keys, None).unwrap();
    let mut session = MusigSessionCtx::new(&keyagg, [1; 32]).unwrap();
    let (h, b) = (scalar(20).base_point_mul(), scalar(21).base_point_mul());
    assert!(!session.insert_nonce(scalar(6).base_point_mul(), h, b));
    assert!(session.insert_nonce(keys[0], h, b));
    assert!(!session.insert_nonce(keys[0], h, b));
    assert!(!session.insert_partial_sig(keys[0], scalar(1)));
    assert!(session.insert_nonce(keys[1], h.negate(), b.negate()));
    // The nonces cancel out.
    assert!(session.partial_sign(scalar(5), scalar(20), scalar(21)).is_none());
    assert!(!session.insert_partial_sig(keys[0], scalar(1)));
}

#[test]
fn session_asks_for_the_right_secrets() {
    let keys = [scalar(5).base_point_mul(), scalar(9).base_point_mul()];
    let keyagg = MusigKeyAggCtx::new(&keys, None).unwrap();
    let mut session = MusigSessionCtx::new(&keyagg, [1; 32]).unwrap();
    assert!(session.insert_nonce(keys[0], scalar(20).base_point_mul(), scalar(21).base_point_mul()));
    assert!(session.insert_nonce(keys[1], scalar(22).base_point_mul(), scalar(23).base_point_mul()));
    assert!(session.partial_sign(scalar(6), scalar(20), scalar(21)).is_none());
    assert!(session.partial_sign(scalar(5), scalar(20), scalar(22)).is_none());
    let partial = session.partial_sign(scalar(5), scalar(20), scalar(21)).unwrap();
    let wrong = partial.residue().plus(&Residue::one()).nonzero().unwrap();
    assert!(!session.insert_partial_sig(keys[0], wrong));
    assert!(session.insert_partial_sig(keys[0], partial));
}

#[test]
fn equal_keys_sign_in_turn() {
    let (key, sig) = run_session(&[scalar(7), scalar(7)], Some(scalar(3)), [2; 32]);
    assert!(outside_verifies(key, [2; 32], sig));
}

#[test]
fn projected_secret_opens_projected_key() {
    let secret = scalar(33);
    for (value, index) in [(0u64, 0u32), (1_000, 1), (u64::MAX, u32::MAX)] {
        let tweak = projection_tweak(value, index).unwrap();
        let mut preimage = value.to_be_bytes().to_vec();
        preimage.extend_from_slice(&index.to_be_bytes());
        assert_eq!(
            tweak.serialize(),
            Residue::reduce(&tagged_hash("CubeProjector", &preimage)).serialize()
        );
        let public = project_public_key(secret.base_point_mul(), value, index).unwrap();
        let projected = project_secret_key(secret, value, index).unwrap();
        assert!(public.same(&projected.base_point_mul()));
    }
    // The inverse of the tweak cannot be projected.
    let minus = projection_tweak(5, 2).unwrap().residue().negate().nonzero().unwrap();
    assert!(project_secret_key(minus, 5, 2).is_none());
    assert!(project_public_key(minus.base_point_mul(), 5, 2).is_none());
    assert!(key_projector_agg(&[(minus.base_point_mul(), 5)], None).is_some());
}

#[test]
fn projector_key_is_bound_to_values() {
    let (a, b) = (scalar(11).base_point_mul(), scalar(12).base_point_mul());
    let key = |x: u64, y: u64| key_projector_agg(&[(a, x), (b, y)], None).unwrap().agg_key().serialize();
    assert_ne!(key(10, 20), key(20, 10));
    assert_ne!(key(10, 20), key(10, 21));
    let by_hand = MusigKeyAggCtx::new(
        &[project_public_key(a, 10, 0).unwrap(), project_public_key(b, 20, 1).unwrap()],
        None,
    )
    .unwrap();
    assert_eq!(key(10, 20), by_hand.agg_key().serialize());
    assert!(key_projector_agg(&[], None).is_none());
    assert!(bytes_eq(&key(1, 2), &key(1, 2)));
}

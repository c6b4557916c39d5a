use bitcoin::secp256k1::Secp256k1;
use bitcoin::taproot::{ControlBlock, LeafVersion, TaprootBuilder};
use bitcoin::{ScriptBuf, XOnlyPublicKey};
use cube::curve::{Point, Scalar};
use cube::hash::sha256;
use cube::liftv2::{liftv2_keyagg, return_liftv2_taproot, ClientCosigner, EngineCosigner};
use cube::musig::{MusigKeyAggCtx, MusigSessionCtx};
use cube::refresh::{
    covenant_scriptpubkey, engine_projected_pubkey, engine_projected_secret, engine_signer_index,
    participant_projected_pubkey, participant_projected_secret, refresh_keyagg,
};
use cube::schnorr::verify_xonly;
use cube::script::{disprove_script, exit_script, expiry_script, xonly};
use cube::taproot::{TapLeaf, TapRoot};
use cube::timeout_tree::{funding_keys_and_values, funding_taproot, total_of, TimeoutTree, VtxoLeaf};
use cube::varint::encode_varint;

fn scalar(n: u8) -> Scalar {
    let mut bytes = [0u8; 32];
    bytes[31] = n;
    Scalar::from_slice(&bytes).unwrap()
}

/// The even-Y secret of a number and its X-only key.
fn account(n: u8) -> (Scalar, [u8; 32]) {
    let s = scalar(n).even_secret();
    (s, s.base_point_mul().serialize_xonly())
}

const OFF_CURVE: &str = "eefdea4cdb677750a420fee807eacf21eb9898ae79b9768766e4faa04a2d4a34";

fn off_curve() -> [u8; 32] {
    hex::decode(OFF_CURVE).unwrap().try_into().unwrap()
}

#[test]
fn varints_have_four_widths() {
    assert_eq!(encode_varint(0), [0]);
    assert_eq!(encode_varint(0xfc), [0xfc]);
    assert_eq!(encode_varint(0xfd), [0xfd, 0xfd, 0x00]);
    assert_eq!(encode_varint(0xffff), [0xfd, 0xff, 0xff]);
    assert_eq!(encode_varint(0x1_0000), [0xfe, 0, 0, 1, 0]);
    assert_eq!(encode_varint(0x1_0000_0000), [0xff, 0, 0, 0, 0, 1, 0, 0, 0]);
    for n in [0u64, 252, 253, 65535, 65536, u32::MAX as u64, 1 << 32, u64::MAX] {
        assert_eq!(encode_varint(n), bitcoin::consensus::serialize(&bitcoin::VarInt(n)));
    }
}

#[test]
fn clauses_are_the_documented_scripts() {
    let (_, key) = account(3);
    let hex_key = hex::encode(key);
    assert_eq!(hex::encode(expiry_script(0, &key)), format!("00b17520{hex_key}ac"));
    assert_eq!(hex::encode(expiry_script(16, &key)), format!("60b17520{hex_key}ac"));
    assert_eq!(hex::encode(expiry_script(17, &key)), format!("0111b17520{hex_key}ac"));
    assert_eq!(hex::encode(expiry_script(127, &key)), format!("017fb17520{hex_key}ac"));
    assert_eq!(hex::encode(expiry_script(128, &key)), format!("028000b17520{hex_key}ac"));
    assert_eq!(hex::encode(expiry_script(850_000, &key)), format!("0350f80cb17520{hex_key}ac"));
    assert_eq!(
        hex::encode(expiry_script(499_999_999, &key)),
        format!("04ff64cd1db17520{hex_key}ac")
    );
    assert_eq!(hex::encode(exit_script(144, &key)), format!("029000b27520{hex_key}ac"));
    assert_eq!(hex::encode(exit_script(1, &key)), format!("51b27520{hex_key}ac"));
    let digest = cube::hash::ripemd160(&[5; 32]);
    assert_eq!(
        hex::encode(disprove_script(&[5; 32], &key)),
        format!("a914{}8820{hex_key}ac", hex::encode(digest))
    );
    assert!(xonly(&key));
    assert!(!xonly(&off_curve()));
}

fn outside_root(inner: &Point, scripts: &[Vec<u8>], depths: &[u8]) -> bitcoin::taproot::TaprootSpendInfo {
    let secp = Secp256k1::verification_only();
    let mut builder = TaprootBuilder::new();
    for (script, depth) in scripts.iter().zip(depths) {
        builder = builder.add_leaf(*depth, ScriptBuf::from(script.clone())).unwrap();
    }
    builder.finalize(&secp, XOnlyPublicKey::from_slice(&inner.serialize_xonly()).unwrap()).unwrap()
}

fn check_tree(inner: Point, scripts: Vec<Vec<u8>>, depths: &[u8]) {
    let secp = Secp256k1::verification_only();
    let expected = outside_root(&inner, &scripts, depths);
    let leaves: Vec<TapLeaf> = scripts.iter().map(|s| TapLeaf::new(s.clone())).collect();
    let root = TapRoot::key_and_script_path_multi(inner, leaves);
    let output = root.tweaked_key().unwrap();
    assert_eq!(output.serialize_xonly(), expected.output_key().serialize());
    let mut spk = vec![0x51, 0x20];
    spk.extend_from_slice(&output.serialize_xonly());
    assert_eq!(root.spk().unwrap(), spk);
    for (i, script) in scripts.iter().enumerate() {
        let block = root.control_block(i).unwrap();
        let buf = ScriptBuf::from(script.clone());
        let theirs = expected.control_block(&(buf.clone(), LeafVersion::TapScript)).unwrap();
        assert_eq!(block, theirs.serialize());
        let parsed = ControlBlock::decode(&block).unwrap();
        let key = XOnlyPublicKey::from_slice(&output.serialize_xonly()).unwrap();
        assert!(parsed.verify_taproot_commitment(&secp, key, &buf));
        assert_eq!(root.leaf(i).unwrap().tap_script(), *script);
    }
    assert!(root.control_block(scripts.len()).is_none());
    assert!(root.leaf(scripts.len()).is_none());
}

#[test]
fn trees_match_the_taproot_rules() {
    for n in 1u8..12 {
        let inner = scalar(n).base_point_mul();
        check_tree(inner, vec![vec![n; 3]], &[0]);
        check_tree(inner, vec![vec![n; 3], vec![n; 300]], &[1, 1]);
        check_tree(inner, vec![vec![n; 3], vec![n; 4], vec![n; 5]], &[2, 2, 1]);
        check_tree(inner, vec![vec![1], vec![2], vec![3], vec![4, n]], &[2, 2, 2, 2]);
        check_tree(inner, vec![vec![1], vec![2], vec![3], vec![4], vec![5, n]], &[3, 3, 3, 3, 1]);
    }
}

#[test]
fn single_leaf_and_key_only_outputs() {
    let inner = scalar(8).base_point_mul();
    let single = TapRoot::key_and_script_path_single(inner, TapLeaf::new(vec![0x51]));
    let multi = TapRoot::key_and_script_path_multi(inner, vec![TapLeaf::new(vec![0x51])]);
    assert_eq!(single.spk(), multi.spk());
    assert_eq!(single.tap_tweak(), multi.tap_tweak());
    let key_only = TapRoot::key_and_script_path_multi(inner, Vec::new());
    let secp = Secp256k1::verification_only();
    let key = XOnlyPublicKey::from_slice(&inner.serialize_xonly()).unwrap();
    let expected = ScriptBuf::new_p2tr(&secp, key, None);
    assert_eq!(key_only.spk().unwrap(), expected.into_bytes());
}

#[test]
fn tree_renders_allocations() {
    let (_, engine) = account(2);
    let (_, a) = account(3);
    let (_, b) = account(4);
    let allocations = [(a, 1_000u64), (b, 2_500)];
    let tree = TimeoutTree::build(engine, &allocations, 850_000, 144, Some(&[[7; 32], [8; 32]])).unwrap();
    assert_eq!(tree.total_value_in_satoshis, 3_500);
    assert_eq!(tree.leaves_value_sum(), 3_500);
    assert_eq!(total_of(&allocations), 3_500);
    assert_eq!(tree.leaves.len(), 2);
    assert_eq!(tree.leaves[1].account_key, b);
    assert_eq!(tree.leaves[1].disprove_hash, Some([8; 32]));
    let leaf = &tree.leaves[0];
    let (hash, script, block) = leaf.exit_spend_elements().unwrap();
    assert_eq!(script, exit_script(144, &a));
    assert_eq!(hash, TapLeaf::new(script.clone()).tapleaf_hash());
    assert_eq!(block, leaf.taproot.control_block(1).unwrap());
    assert_eq!(leaf.expiry_spend_elements().unwrap().1, expiry_script(850_000, &engine));
    assert_eq!(leaf.disprove_spend_elements().unwrap().1, disprove_script(&[7; 32], &a));
    assert_eq!(leaf.scriptpubkey(), leaf.taproot.spk());
    assert_eq!(tree.funding_scriptpubkey(), covenant_scriptpubkey(engine, &allocations, 850_000));
    // A holder's leaf spends against its own output.
    let parsed = ControlBlock::decode(&block).unwrap();
    let spk = leaf.scriptpubkey().unwrap();
    let key = XOnlyPublicKey::from_slice(&spk[2..]).unwrap();
    assert!(parsed.verify_taproot_commitment(&Secp256k1::verification_only(), key, &ScriptBuf::from(script)));
}

#[test]
fn leaves_without_disprove_hash_have_no_disprove_path() {
    let (_, engine) = account(2);
    let (_, a) = account(3);
    let leaf = VtxoLeaf::build(a, engine, 5, 100, 10, None).unwrap();
    assert!(leaf.disprove_spend_elements().is_none());
    assert!(leaf.exit_spend_elements().is_some());
    // Another value is another output.
    let other = VtxoLeaf::build(a, engine, 6, 100, 10, None).unwrap();
    assert_ne!(leaf.scriptpubkey(), other.scriptpubkey());
    assert!(VtxoLeaf::build(off_curve(), engine, 5, 100, 10, None).is_none());
    assert!(VtxoLeaf::build(a, off_curve(), 5, 100, 10, None).is_none());
}

#[test]
fn trees_that_cannot_be_built() {
    let (_, engine) = account(2);
    let (_, a) = account(3);
    assert!(TimeoutTree::build(engine, &[], 100, 10, None).is_none());
    assert!(TimeoutTree::build(engine, &[(a, 1)], 100, 10, Some(&[])).is_none());
    assert!(TimeoutTree::build(engine, &[(off_curve(), 1)], 100, 10, None).is_none());
    assert!(TimeoutTree::build(off_curve(), &[(a, 1)], 100, 10, None).is_none());
    // Refused before heights and totals are looked at.
    let too_much = [(a, u64::MAX), (a, 1)];
    assert!(TimeoutTree::build(engine, &[], u32::MAX, 10, None).is_none());
    assert!(TimeoutTree::build(engine, &too_much, u32::MAX, 10, Some(&[])).is_none());
    assert!(TimeoutTree::build(off_curve(), &[(a, 1)], u32::MAX, 10, None).is_none());
    assert!(VtxoLeaf::build(off_curve(), engine, 1, u32::MAX, 10, None).is_none());
    assert!(funding_taproot(off_curve(), &too_much, u32::MAX).is_none());
    assert!(refresh_keyagg(off_curve(), &[(a, 1)], u32::MAX).is_none());
    assert!(covenant_scriptpubkey(off_curve(), &[(a, 1)], u32::MAX).is_none());
    assert!(funding_taproot(off_curve(), &[(a, 1)], 100).is_none());
    assert!(funding_keys_and_values(engine, &[(off_curve(), 1)]).is_none());
    // A pot without participants is the engine's alone.
    assert_eq!(funding_keys_and_values(engine, &[]).unwrap().len(), 1);
    assert!(covenant_scriptpubkey(engine, &[], 100).is_some());
}

#[test]
fn funding_keys_end_with_the_engine_and_total() {
    let (_, engine) = account(2);
    let (_, a) = account(3);
    let (_, b) = account(4);
    let keys = funding_keys_and_values(engine, &[(a, 10), (b, 20)]).unwrap();
    assert_eq!(keys.iter().map(|(_, v)| *v).collect::<Vec<u64>>(), vec![10, 20, 30]);
    assert_eq!(keys[2].0.serialize_xonly(), engine);
}

#[test]
fn refresh_signs_under_the_covenant_key() {
    let (engine_secret, engine) = account(21);
    for n in 30u8..40 {
        let (secret_a, a) = account(n);
        let (secret_b, b) = account(n + 20);
        let allocations = [(a, 1_000 + n as u64), (b, 7)];
        let keyagg = refresh_keyagg(engine, &allocations, 1_000).unwrap();
        let spk = covenant_scriptpubkey(engine, &allocations, 1_000).unwrap();
        assert_eq!(spk[2..], keyagg.agg_key().serialize_xonly()[..]);
        assert_eq!(engine_signer_index(&allocations), 2);

        let secrets = [
            participant_projected_secret(secret_a, allocations[0].1, 0).unwrap(),
            participant_projected_secret(secret_b, allocations[1].1, 1).unwrap(),
            engine_projected_secret(engine_secret, &allocations).unwrap(),
        ];
        let keys = [
            participant_projected_pubkey(secret_a.base_point_mul(), allocations[0].1, 0).unwrap(),
            participant_projected_pubkey(secret_b.base_point_mul(), allocations[1].1, 1).unwrap(),
            engine_projected_pubkey(engine_secret.base_point_mul(), &allocations).unwrap(),
        ];
        let mut session = MusigSessionCtx::new(&keyagg, [n; 32]).unwrap();
        for (i, key) in keys.iter().enumerate() {
            let (h, b) = (scalar(60 + i as u8), scalar(70 + i as u8));
            assert!(session.insert_nonce(*key, h.base_point_mul(), b.base_point_mul()));
        }
        for (i, key) in keys.iter().enumerate() {
            let partial = session
                .partial_sign(secrets[i], scalar(60 + i as u8), scalar(70 + i as u8))
                .unwrap();
            assert!(session.insert_partial_sig(*key, partial));
        }
        let sig = session.full_agg_sig().unwrap();
        assert!(verify_xonly(spk[2..].try_into().unwrap(), [n; 32], sig));
    }
    assert!(refresh_keyagg(off_curve(), &[], 5).is_none());
    assert!(covenant_scriptpubkey(off_curve(), &[], 5).is_none());
}

#[test]
fn covenant_depends_on_values_and_expiry() {
    let (_, engine) = account(2);
    let (_, a) = account(3);
    let base = covenant_scriptpubkey(engine, &[(a, 10)], 100);
    assert_ne!(base, covenant_scriptpubkey(engine, &[(a, 11)], 100));
    assert_ne!(base, covenant_scriptpubkey(engine, &[(a, 10)], 101));
    assert_eq!(base, covenant_scriptpubkey(engine, &[(a, 10)], 100));
}

#[test]
fn deposit_is_cosigned_under_its_output_key() {
    let (engine_secret, engine) = account(41);
    let scripts = vec![vec![0x51u8], vec![0x52, 0x53]];
    for n in 42u8..60 {
        let (secret, key) = account(n);
        let sighash = sha256(&[n]);
        let output = return_liftv2_taproot(key, engine, &scripts).unwrap();
        let keyagg = liftv2_keyagg(key, engine, &scripts).unwrap();
        assert!(keyagg.agg_key().same(&output.tweaked_key().unwrap()));

        let client = ClientCosigner::new(secret, scalar(n + 1), scalar(n + 2));
        let (ch, cb) = client.public_nonces();
        let begun = EngineCosigner::begin(
            key, engine, &scripts, engine_secret, scalar(n + 3), scalar(n + 4), ch, cb, sighash,
        )
        .unwrap();
        let (eh, eb) = begun.engine_public_nonces();
        assert!(eh.same(&scalar(n + 3).base_point_mul()));
        assert!(eb.same(&scalar(n + 4).base_point_mul()));
        let partial = client.partial_sign(key, engine, &scripts, eh, eb, sighash).unwrap();
        let sig = begun.complete(partial).unwrap();
        assert!(verify_xonly(output.tweaked_key().unwrap().serialize_xonly(), sighash, sig));
    }
}

#[test]
fn cosigning_refuses_wrong_secrets_and_partials() {
    let (engine_secret, engine) = account(41);
    let (secret, key) = account(42);
    let scripts: Vec<Vec<u8>> = Vec::new();
    let client = ClientCosigner::new(secret, scalar(1), scalar(2));
    let (ch, cb) = client.public_nonces();
    let begin = |s: Scalar, k: [u8; 32]| {
        EngineCosigner::begin(k, engine, &scripts, s, scalar(3), scalar(4), ch, cb, [1; 32])
    };
    assert!(begin(engine_secret, off_curve()).is_none());
    assert!(begin(secret, key).is_none());
    let begun = begin(engine_secret, key).unwrap();
    let (eh, eb) = begun.engine_public_nonces();
    // A stranger cannot sign for the account, and a partial of another message is refused.
    let stranger = ClientCosigner::new(scalar(50), scalar(1), scalar(2));
    assert!(stranger.partial_sign(key, engine, &scripts, eh, eb, [1; 32]).is_none());
    let other = client.partial_sign(key, engine, &scripts, eh, eb, [2; 32]).unwrap();
    assert!(begun.complete(other).is_none());
    assert!(client.partial_sign(off_curve(), engine, &scripts, eh, eb, [1; 32]).is_none());
    assert!(return_liftv2_taproot(key, off_curve(), &scripts).is_none());
    assert!(liftv2_keyagg(key, off_curve(), &scripts).is_none());
}

#[test]
fn account_and_engine_may_share_a_key() {
    let (secret, key) = account(43);
    let scripts = vec![vec![0x51u8]];
    let client = ClientCosigner::new(secret, scalar(1), scalar(2));
    let (ch, cb) = client.public_nonces();
    let begun = EngineCosigner::begin(key, key, &scripts, secret, scalar(3), scalar(4), ch, cb, [1; 32]).unwrap();
    let (eh, eb) = begun.engine_public_nonces();
    let partial = client.partial_sign(key, key, &scripts, eh, eb, [1; 32]).unwrap();
    let sig = begun.complete(partial).unwrap();
    let output = return_liftv2_taproot(key, key, &scripts).unwrap().tweaked_key().unwrap();
    assert!(verify_xonly(output.serialize_xonly(), [1; 32], sig));
    assert!(MusigKeyAggCtx::new(&[output], None).is_some());
}

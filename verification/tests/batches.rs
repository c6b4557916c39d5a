use bitcoin::absolute::LockTime;
use bitcoin::hashes::Hash as _;
use bitcoin::sighash::{Prevouts, SighashCache, TapSighashType};
use bitcoin::transaction::Version;
use bitcoin::{Amount, ScriptBuf, Sequence, TapLeafHash, Transaction, TxIn, Txid, Witness};
use cube::batch_txn::{
    Payload, Projector, SignedBatchTxn, SignedBatchTxnConstructError, UnsignedBatchTxnConstructError,
};
use cube::curve::Scalar;
use cube::entry::{Entry, Lift, LiftV1, LiftV2, Liftup, RootAccount, SpendElements, Swapout, Target};
use cube::liftv2::{return_liftv2_taproot, ClientCosigner, EngineCosigner};
use cube::outpoint_map::OutPointMap;
use cube::schnorr::{sign, verify_xonly};
use cube::txn::{OutPoint, TxOut, UnsignedBatchTxn};

fn scalar(n: u8) -> Scalar {
    let mut bytes = [0u8; 32];
    bytes[31] = n;
    Scalar::from_slice(&bytes).unwrap()
}

fn account(n: u8) -> (Scalar, [u8; 32]) {
    let s = scalar(n).even_secret();
    (s, s.base_point_mul().serialize_xonly())
}

fn outpoint(n: u8) -> OutPoint {
    OutPoint { txid: [n; 32], vout: n as u32 }
}

fn txout(value: u64, script_pubkey: Vec<u8>) -> TxOut {
    TxOut { value, script_pubkey }
}

fn spend(n: u8) -> SpendElements {
    SpendElements { leaf_hash: [n; 32], script: vec![n, 1], control_block: vec![n, 2, 3] }
}

fn payload(n: u8) -> Payload {
    Payload {
        location: Some((outpoint(n), txout(1_000, vec![0x51, n]))),
        spend: spend(n),
        scriptpubkey: Some(vec![0x51, 0x20, n]),
    }
}

/// A projector under a plain key, which one signer can refresh.
fn projector(n: u8) -> Projector {
    let mut spk = vec![0x51, 0x20];
    spk.extend_from_slice(&scalar(n).base_point_mul().serialize_xonly());
    Projector {
        location: Some((outpoint(n), txout(500, spk.clone()))),
        satoshi_amount: 500,
        scriptpubkey: spk,
    }
}

fn liftv1(n: u8) -> Lift {
    Lift::LiftV1(LiftV1 { outpoint: outpoint(n), txout: txout(77, vec![0x51, n]), spend: spend(n) })
}

const ENGINE: u8 = 90;

fn liftv2(n: u8) -> LiftV2 {
    let (_, account_key) = account(n);
    let (_, engine_key) = account(ENGINE);
    let scripts = vec![vec![0x51u8, n]];
    let spk = return_liftv2_taproot(account_key, engine_key, &scripts).unwrap().spk().unwrap();
    LiftV2 { outpoint: outpoint(n), txout: txout(88, spk), account_key, engine_key, scripts }
}

fn liftup(lifts: Vec<Lift>) -> Entry {
    Entry::Liftup(Liftup {
        account: RootAccount::UnregisteredRootAccount { account_key: [1; 32], bls_key: [2; 48] },
        target: Target { targeted_at_batch_height: 5 },
        lift_tx_inputs: lifts,
    })
}

fn settled() -> Result<Vec<TxOut>, UnsignedBatchTxnConstructError> {
    Ok(vec![txout(1_234, vec![0x51, 0x20, 9]), txout(5, vec![0x6a])])
}

/// The same transaction in the terms of the outside library.
fn outside(inputs: &[OutPoint], outputs: &[TxOut], witnesses: &[Vec<Vec<u8>>]) -> Transaction {
    Transaction {
        version: Version::TWO,
        lock_time: LockTime::ZERO,
        input: inputs
            .iter()
            .enumerate()
            .map(|(i, o)| TxIn {
                previous_output: bitcoin::OutPoint { txid: Txid::from_byte_array(o.txid), vout: o.vout },
                script_sig: ScriptBuf::new(),
                sequence: Sequence::MAX,
                witness: Witness::from_slice(witnesses.get(i).map(|w| &w[..]).unwrap_or(&[])),
            })
            .collect(),
        output: outputs.iter().map(outside_txout).collect(),
    }
}

fn outside_txout(o: &TxOut) -> bitcoin::TxOut {
    bitcoin::TxOut {
        value: Amount::from_sat(o.value),
        script_pubkey: ScriptBuf::from(o.script_pubkey.clone()),
    }
}

#[test]
fn sighashes_match_the_outside_library() {
    let tx_inputs = vec![
        (outpoint(1), txout(5, vec![0x51])),
        (outpoint(2), txout(6, vec![0x51; 300])),
        (outpoint(3), txout(7, vec![])),
    ];
    let txn = UnsignedBatchTxn { tx_inputs, tx_outputs: settled().ok().unwrap() };
    let inputs: Vec<OutPoint> = txn.tx_inputs.iter().map(|(o, _)| *o).collect();
    let tx = outside(&inputs, &txn.tx_outputs, &[]);
    let prevouts: Vec<bitcoin::TxOut> = txn.tx_inputs.iter().map(|(_, t)| outside_txout(t)).collect();
    for index in 0..3u32 {
        let mut cache = SighashCache::new(&tx);
        let key = cache
            .taproot_key_spend_signature_hash(index as usize, &Prevouts::All(&prevouts), TapSighashType::Default)
            .unwrap();
        assert_eq!(txn.taproot_sighash(index, None), Some(key.to_byte_array()));
        let leaf = TapLeafHash::from_byte_array([4; 32]);
        let script = cache
            .taproot_script_spend_signature_hash(
                index as usize,
                &Prevouts::All(&prevouts),
                leaf,
                TapSighashType::Default,
            )
            .unwrap();
        assert_eq!(txn.taproot_sighash(index, Some([4; 32])), Some(script.to_byte_array()));
    }
    assert_eq!(txn.taproot_sighash(3, None), None);
}

struct Batch {
    prev_payload: Payload,
    prev_projectors: Vec<Projector>,
    entries: Vec<Entry>,
    new_payload: Payload,
    new_projectors: Vec<Projector>,
}

fn batch() -> Batch {
    Batch {
        prev_payload: payload(1),
        prev_projectors: vec![projector(11), projector(12)],
        entries: vec![
            Entry::Other,
            liftup(vec![liftv1(21), Lift::LiftV2(liftv2(22))]),
            Entry::Swapout(Swapout { amount: 333, scriptpubkey: Some(vec![0x6a, 1]) }),
            liftup(vec![Lift::LiftV2(liftv2(23))]),
        ],
        new_payload: payload(2),
        new_projectors: vec![projector(13)],
    }
}

impl Batch {
    fn construct(
        &self,
        lifts: &OutPointMap<[u8; 64]>,
        refreshes: &OutPointMap<[u8; 64]>,
    ) -> Result<SignedBatchTxn, SignedBatchTxnConstructError> {
        SignedBatchTxn::construct(
            &self.prev_payload,
            &self.prev_projectors,
            &self.entries,
            &self.new_payload,
            &self.new_projectors,
            settled(),
            scalar(ENGINE).serialize(),
            lifts,
            refreshes,
        )
    }

    fn lift_sighashes(&self) -> OutPointMap<[u8; 32]> {
        SignedBatchTxn::liftv2_keypath_sighashes(
            &self.prev_payload,
            &self.prev_projectors,
            &self.entries,
            &self.new_payload,
            &self.new_projectors,
            settled(),
        )
        .ok()
        .unwrap()
    }

    fn refresh_sighashes(&self) -> OutPointMap<[u8; 32]> {
        SignedBatchTxn::projector_refresh_keypath_sighashes(
            &self.prev_payload,
            &self.prev_projectors,
            &self.entries,
            &self.new_payload,
            &self.new_projectors,
            settled(),
        )
        .ok()
        .unwrap()
    }

    fn cosign(&self) -> (OutPointMap<[u8; 64]>, OutPointMap<[u8; 64]>) {
        let mut lifts = OutPointMap::new();
        let sighashes = self.lift_sighashes();
        for n in [22u8, 23] {
            let lift = liftv2(n);
            let sighash = sighashes.get(&outpoint(n)).unwrap();
            let client = ClientCosigner::new(account(n).0, scalar(70), scalar(71));
            let (ch, cb) = client.public_nonces();
            let engine = EngineCosigner::begin(
                lift.account_key, lift.engine_key, &lift.scripts, account(ENGINE).0, scalar(72),
                scalar(73), ch, cb, sighash,
            )
            .unwrap();
            let (eh, eb) = engine.engine_public_nonces();
            let partial = client
                .partial_sign(lift.account_key, lift.engine_key, &lift.scripts, eh, eb, sighash)
                .unwrap();
            lifts.insert(outpoint(n), engine.complete(partial).unwrap());
        }
        let mut refreshes = OutPointMap::new();
        let sighashes = self.refresh_sighashes();
        for n in [11u8, 12] {
            let sighash = sighashes.get(&outpoint(n)).unwrap();
            refreshes.insert(outpoint(n), sign(scalar(n).serialize(), sighash).unwrap());
        }
        (lifts, refreshes)
    }
}

#[test]
fn batch_is_assembled_in_order() {
    let b = batch();
    let parts = SignedBatchTxn::assemble_unsigned_batch_txn(
        &b.prev_payload, &b.prev_projectors, &b.entries, &b.new_payload, &b.new_projectors,
    )
    .ok()
    .unwrap();
    let vouts: Vec<u32> = parts.tx_inputs.iter().map(|(o, _)| o.vout).collect();
    assert_eq!(vouts, vec![1, 11, 12, 21, 22, 23]);
    assert_eq!(parts.new_payload_txout.value, 0);
    assert_eq!(parts.new_payload_txout.script_pubkey, vec![0x51, 0x20, 2]);
    assert_eq!(parts.new_projector_txouts.len(), 1);
    assert_eq!(parts.new_projector_txouts[0].value, 500);
    assert_eq!(parts.swapout_tx_outputs.len(), 1);
    assert_eq!(parts.swapout_tx_outputs[0].value, 333);
    assert_eq!(parts.swapout_tx_outputs[0].script_pubkey, vec![0x6a, 1]);
}

#[test]
fn batch_is_signed_and_encoded() {
    let b = batch();
    let (lifts, refreshes) = b.cosign();
    let signed = b.construct(&lifts, &refreshes).ok().unwrap();
    assert_eq!(signed.tx_inputs.len(), 6);
    // Payload: signature, selector, script, control block.
    assert_eq!(signed.tx_inputs[0].2.len(), 4);
    assert_eq!(signed.tx_inputs[0].2[1], vec![1]);
    assert_eq!(signed.tx_inputs[0].2[2], vec![1, 1]);
    assert_eq!(signed.tx_inputs[0].2[3], vec![1, 2, 3]);
    // Projectors: the cosignature alone.
    assert_eq!(signed.tx_inputs[1].2, vec![refreshes.get(&outpoint(11)).unwrap().to_vec()]);
    // A deposit that the engine lifts alone: signature, script, control block.
    assert_eq!(signed.tx_inputs[3].2.len(), 3);
    assert_eq!(signed.tx_inputs[3].2[1], vec![21, 1]);
    assert_eq!(signed.tx_inputs[4].2, vec![lifts.get(&outpoint(22)).unwrap().to_vec()]);
    assert_eq!(signed.tx_inputs[5].2, vec![lifts.get(&outpoint(23)).unwrap().to_vec()]);

    let tx_inputs: Vec<(OutPoint, TxOut)> =
        signed.tx_inputs.iter().map(|(o, t, _)| (*o, t.copy())).collect();
    let unsigned = UnsignedBatchTxn { tx_inputs, tx_outputs: signed.tx_outputs() };
    let engine_x = scalar(ENGINE).base_point_mul().serialize_xonly();
    let sig = |i: usize| -> [u8; 64] { signed.tx_inputs[i].2[0].clone().try_into().unwrap() };
    assert!(verify_xonly(engine_x, unsigned.taproot_sighash(0, Some([1; 32])).unwrap(), sig(0)));
    assert!(verify_xonly(engine_x, unsigned.taproot_sighash(3, Some([21; 32])).unwrap(), sig(3)));
    // Key paths are signed under the keys of the outputs that they spend.
    for i in [1usize, 2, 4, 5] {
        let key: [u8; 32] = signed.tx_inputs[i].1.script_pubkey[2..34].try_into().unwrap();
        assert!(verify_xonly(key, unsigned.taproot_sighash(i as u32, None).unwrap(), sig(i)));
    }
    // What was cosigned is what is checked.
    assert_eq!(b.lift_sighashes().get(&outpoint(22)), unsigned.taproot_sighash(4, None));
    assert_eq!(b.lift_sighashes().get(&outpoint(23)), unsigned.taproot_sighash(5, None));
    assert_eq!(b.lift_sighashes().get(&outpoint(21)), None);
    assert_eq!(b.refresh_sighashes().get(&outpoint(12)), unsigned.taproot_sighash(2, None));

    let outpoints = signed.tx_input_outpoints();
    let witnesses: Vec<Vec<Vec<u8>>> = signed.tx_inputs.iter().map(|(_, _, w)| w.clone()).collect();
    let tx = outside(&outpoints, &signed.tx_outputs(), &witnesses);
    assert_eq!(signed.serialize_bytes(), bitcoin::consensus::serialize(&tx));
    assert_eq!(signed.txid(), tx.compute_txid().to_byte_array());
    let bare = outside(&outpoints, &signed.tx_outputs(), &[]);
    assert_eq!(signed.serialize_bytes_for_txid(), bitcoin::consensus::serialize(&bare));
}

#[test]
fn missing_locations_and_scripts_are_reported() {
    let (none_lift, none_refresh) = (OutPointMap::new(), OutPointMap::new());
    let mut b = batch();
    b.prev_payload.location = None;
    assert!(matches!(
        b.construct(&none_lift, &none_refresh),
        Err(SignedBatchTxnConstructError::PayloadLocationNotFoundError)
    ));
    let mut b = batch();
    b.prev_projectors[1].location = None;
    assert!(matches!(
        b.construct(&none_lift, &none_refresh),
        Err(SignedBatchTxnConstructError::ProjectorLocationNotFoundError)
    ));
    let mut b = batch();
    b.entries.push(Entry::Swapout(Swapout { amount: 1, scriptpubkey: None }));
    assert!(matches!(
        b.construct(&none_lift, &none_refresh),
        Err(SignedBatchTxnConstructError::SwapoutPinlessSelfCalculatedScriptpubkeyError)
    ));
    let mut b = batch();
    b.new_payload.scriptpubkey = None;
    assert!(matches!(
        b.construct(&none_lift, &none_refresh),
        Err(SignedBatchTxnConstructError::UnsignedBatchTxnConstructError(
            UnsignedBatchTxnConstructError::NewPayloadScriptpubkeyError
        ))
    ));
    let b = batch();
    let unsettled = SignedBatchTxn::liftv2_keypath_sighashes(
        &b.prev_payload, &b.prev_projectors, &b.entries, &b.new_payload, &b.new_projectors,
        Err(UnsignedBatchTxnConstructError::InsufficientInputValueError),
    );
    assert!(matches!(
        unsettled,
        Err(SignedBatchTxnConstructError::UnsignedBatchTxnConstructError(
            UnsignedBatchTxnConstructError::InsufficientInputValueError
        ))
    ));
}

#[test]
fn cosignatures_are_checked() {
    let b = batch();
    let (lifts, refreshes) = b.cosign();
    let none = OutPointMap::new();
    match b.construct(&lifts, &none) {
        Err(SignedBatchTxnConstructError::ProjectorRefreshCosignMissingError(o)) => {
            assert!(o.same(&outpoint(11)))
        }
        _ => panic!("missing refresh cosignature"),
    }
    match b.construct(&none, &refreshes) {
        Err(SignedBatchTxnConstructError::LiftV2CosignMissingError(l)) => {
            assert!(l.outpoint.same(&outpoint(22)))
        }
        _ => panic!("missing deposit cosignature"),
    }
    let mut bad = OutPointMap::new();
    bad.insert(outpoint(11), refreshes.get(&outpoint(12)).unwrap());
    bad.insert(outpoint(12), refreshes.get(&outpoint(12)).unwrap());
    assert!(matches!(
        b.construct(&lifts, &bad),
        Err(SignedBatchTxnConstructError::ProjectorRefreshCosignInvalidError(_))
    ));
    let mut bad = OutPointMap::new();
    bad.insert(outpoint(22), lifts.get(&outpoint(22)).unwrap());
    bad.insert(outpoint(23), lifts.get(&outpoint(22)).unwrap());
    match b.construct(&bad, &refreshes) {
        Err(SignedBatchTxnConstructError::LiftV2CosignInvalidError(l)) => {
            assert!(l.outpoint.same(&outpoint(23)))
        }
        _ => panic!("invalid deposit cosignature"),
    }
    let mut b = batch();
    b.prev_projectors[0].scriptpubkey = vec![0x00, 0x14];
    assert!(matches!(
        b.construct(&lifts, &refreshes),
        Err(SignedBatchTxnConstructError::ProjectorRefreshCosignInvalidError(_))
    ));
}

#[test]
fn unknown_lifts_and_bad_secrets_are_refused() {
    let empty = OutPointMap::new();
    let mut b = batch();
    b.prev_projectors = Vec::new();
    b.entries = vec![liftup(vec![Lift::Unknown { outpoint: outpoint(9), txout: txout(1, vec![]) }])];
    assert!(matches!(
        b.construct(&empty, &empty),
        Err(SignedBatchTxnConstructError::UnknownLiftNotSupportedError)
    ));
    b.entries = vec![liftup(vec![Lift::LiftV2(LiftV2 {
        outpoint: outpoint(9),
        txout: txout(1, vec![]),
        account_key: [0; 32],
        engine_key: [0; 32],
        scripts: Vec::new(),
    })])];
    let mut sigs = OutPointMap::new();
    sigs.insert(outpoint(9), [1; 64]);
    assert!(matches!(
        b.construct(&sigs, &empty),
        Err(SignedBatchTxnConstructError::LiftV2CosignInvalidError(_))
    ));
    let unsigned = SignedBatchTxn::construct(
        &b.prev_payload, &[], &[], &b.new_payload, &[], settled(), [0; 32], &empty, &empty,
    );
    assert!(matches!(unsigned, Err(SignedBatchTxnConstructError::PrevPayloadTaprootSignError)));
}

#[test]
fn smallest_batch_spends_the_payload_alone() {
    let empty = OutPointMap::new();
    let signed = SignedBatchTxn::construct(
        &payload(1), &[], &[], &payload(2), &[], Ok(Vec::new()), scalar(ENGINE).serialize(), &empty, &empty,
    )
    .ok()
    .unwrap();
    assert_eq!(signed.tx_inputs.len(), 1);
    let bytes = signed.serialize_bytes_for_txid();
    assert_eq!(&bytes[..5], &[2, 0, 0, 0, 1]);
    assert_eq!(&bytes[5..37], &[1u8; 32]);
    assert_eq!(&bytes[37..], &[1, 0, 0, 0, 0, 0xff, 0xff, 0xff, 0xff, 0, 0, 0, 0, 0]);
    // The witness does not change the id.
    let mut other = SignedBatchTxn {
        tx_inputs: vec![(outpoint(1), txout(0, vec![]), vec![vec![7; 9]])],
        tx_outputs: Vec::new(),
    };
    assert_eq!(other.txid(), signed.txid());
    other.tx_inputs[0].0.vout = 2;
    assert_ne!(other.txid(), signed.txid());
}

#[test]
fn outpoint_maps_keep_one_value_per_outpoint() {
    let mut m: OutPointMap<u64> = OutPointMap::new();
    assert_eq!(m.get(&outpoint(1)), None);
    m.insert(outpoint(1), 5);
    m.insert(outpoint(2), 6);
    m.insert(outpoint(1), 7);
    assert_eq!(m.get(&outpoint(1)), Some(7));
    assert_eq!(m.get(&outpoint(2)), Some(6));
    assert_eq!(m.len(), 2);
    assert!(m.key_at(0).unwrap().same(&outpoint(1)));
    assert!(m.key_at(1).unwrap().same(&outpoint(2)));
    assert!(m.key_at(2).is_none());
    let near = OutPoint { txid: [1; 32], vout: 2 };
    assert_eq!(m.get(&near), None);
}

#[test]
fn later_lift_of_an_outpoint_counts() {
    let mut b = batch();
    b.entries = vec![liftup(vec![Lift::LiftV2(liftv2(22)), Lift::LiftV2(liftv2(22))])];
    let sighashes = b.lift_sighashes();
    assert_eq!(sighashes.len(), 1);
    let parts = SignedBatchTxn::assemble_unsigned_batch_txn(
        &b.prev_payload, &b.prev_projectors, &b.entries, &b.new_payload, &b.new_projectors,
    )
    .ok()
    .unwrap();
    let unsigned = UnsignedBatchTxn { tx_inputs: parts.tx_inputs, tx_outputs: settled().ok().unwrap() };
    assert_eq!(sighashes.get(&outpoint(22)), unsigned.taproot_sighash(4, None));
}

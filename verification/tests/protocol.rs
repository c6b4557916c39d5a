use cube::admission::{
    after_call_attempt, after_failure, unreadable_call, AfterFailure, CallResponseBody,
    CallResponseError, CallStep, ExecCallInPoolError, MAX_EXEC_ATTEMPTS,
};
use cube::curve::{Point, Scalar};
use cube::entry::{Entry, Lift, LiftV1, LiftV2, Liftup, RootAccount, SpendElements, Target};
use cube::json::{JsonLeaf, JsonObject};
use cube::liftup_client::{
    after_draw, after_register, after_submit, even_account_secret, index_deposits, liftup_route,
    nonce_from_bytes, prepare_deposits, random_nonce_scalar, AfterRegister, CosignFailure,
    CosignStep, LiftupRoute, NonceDraw, RegisterFailure,
};
use cube::liftup_v2::{
    after_register_attempt, cosign_fetch_response, cosign_request_action, cosign_submit_response,
    join_bls_signature, register_v2_inputs, response_body, split_bls_signature, CosignRequestAction,
    ExecLiftupInPoolError, LiftupV2CosignRequestBody, LiftupV2CosignResponseBody,
    LiftupV2CosignResponseError, LiftupV2Nonce, LiftupV2RegisterRequestBody,
    LiftupV2RegisterResponseBody, LiftupV2RegisterResponseError, RegisterStep, RequestError,
};
use cube::liftv2::EngineCosigner;
use cube::txn::{OutPoint, TxOut};

fn scalar(n: u8) -> Scalar {
    let mut bytes = [0u8; 32];
    bytes[31] = n;
    Scalar::from_slice(&bytes).unwrap()
}

fn account(n: u8) -> (Scalar, [u8; 32]) {
    let s = scalar(n).even_secret();
    (s, s.base_point_mul().serialize_xonly())
}

fn outpoint(n: u8) -> OutPoint {
    OutPoint { txid: [n; 32], vout: n as u32 }
}

fn v2(n: u8) -> Lift {
    Lift::LiftV2(LiftV2 {
        outpoint: outpoint(n),
        txout: TxOut { value: 9, script_pubkey: vec![] },
        account_key: account(n).1,
        engine_key: account(99).1,
        scripts: vec![vec![0x51, n]],
    })
}

fn v1(n: u8) -> Lift {
    Lift::LiftV1(LiftV1 {
        outpoint: outpoint(n),
        txout: TxOut { value: 9, script_pubkey: vec![] },
        spend: SpendElements { leaf_hash: [0; 32], script: vec![], control_block: vec![] },
    })
}

fn liftup(lifts: Vec<Lift>) -> Liftup {
    Liftup {
        account: RootAccount::UnregisteredRootAccount { account_key: [1; 32], bls_key: [2; 48] },
        target: Target { targeted_at_batch_height: 7 },
        lift_tx_inputs: lifts,
    }
}

fn nonce(n: u8, hiding: Vec<u8>, binding: Vec<u8>) -> LiftupV2Nonce {
    LiftupV2Nonce { outpoint: outpoint(n), client_hiding_nonce: hiding, client_binding_nonce: binding }
}

fn point_bytes(n: u8) -> Vec<u8> {
    scalar(n).base_point_mul().serialize().to_vec()
}

fn uncompressed(n: u8) -> Vec<u8> {
    secp::Point::from_slice(&point_bytes(n)).unwrap().serialize_uncompressed().to_vec()
}

fn flat(object: &JsonObject<u8>) -> Vec<(String, String)> {
    object
        .fields
        .iter()
        .map(|(k, v)| {
            let v = match v {
                JsonLeaf::Text(t) => t.clone(),
                JsonLeaf::Number(n) => format!("{n}"),
                JsonLeaf::Flag(b) => format!("{b}"),
                JsonLeaf::Null => "null".to_string(),
                JsonLeaf::Inner(t) => format!("inner {t}"),
            };
            (k.clone(), v)
        })
        .collect()
}

fn pairs(expected: &[(&str, &str)]) -> Vec<(String, String)> {
    expected.iter().map(|(k, v)| (k.to_string(), v.to_string())).collect()
}

#[test]
fn cosign_responses_as_json() {
    let material = LiftupV2CosignResponseBody::Material {
        sighash: [0xab; 32],
        engine_hiding_nonce: vec![0x02, 0x0f],
        engine_binding_nonce: vec![],
    };
    assert_eq!(
        flat(&material.json()),
        pairs(&[
            ("status", "material"),
            ("sighash", &"ab".repeat(32)),
            ("engine_hiding_nonce", "020f"),
            ("engine_binding_nonce", ""),
        ])
    );
    assert_eq!(flat(&LiftupV2CosignResponseBody::NotReady.json()), pairs(&[("status", "not_ready")]));
    assert_eq!(flat(&LiftupV2CosignResponseBody::Submitted.json()), pairs(&[("status", "submitted")]));
    for (error, name) in [
        (LiftupV2CosignResponseError::DeserializeRequestError, "DeserializeRequestError"),
        (LiftupV2CosignResponseError::UnknownOutpointError, "UnknownOutpointError"),
        (LiftupV2CosignResponseError::InvalidPartialSigError, "InvalidPartialSigError"),
    ] {
        assert_eq!(format!("{error:?}"), name);
        assert_eq!(
            flat(&LiftupV2CosignResponseBody::Refused(error).json()),
            pairs(&[("status", "err"), ("error", name)])
        );
    }
}

#[test]
fn register_responses_as_json() {
    let ok = LiftupV2RegisterResponseBody::ok([0x01; 32], 5, 6, Entry::Other);
    let json = ok.json(77u8);
    assert_eq!(json.fields.len(), 2);
    assert!(matches!(&json.fields[0], (k, JsonLeaf::Text(t)) if k == "status" && t == "ok"));
    match &json.fields[1] {
        (k, JsonLeaf::Inner(inner)) => {
            assert_eq!(k, "result");
            assert_eq!(
                flat(inner),
                pairs(&[
                    ("entry_id", &"01".repeat(32)),
                    ("batch_height", "5"),
                    ("batch_timestamp", "6"),
                    ("entry", "inner 77"),
                ])
            );
        }
        _ => panic!("a nested result"),
    }
    let kinds = [
        (LiftupV2RegisterResponseError::DeserializeRequestError, "deserialize_request_error"),
        (LiftupV2RegisterResponseError::MissingNonceError, "missing_nonce_error"),
        (LiftupV2RegisterResponseError::InvalidNonceError, "invalid_nonce_error"),
    ];
    for (error, kind) in kinds {
        assert_eq!(flat(&error.json(0u8)), pairs(&[("kind", kind)]));
        let json = LiftupV2RegisterResponseBody::err(error).json(0u8);
        assert!(matches!(&json.fields[0], (k, JsonLeaf::Text(t)) if k == "status" && t == "err"));
        assert!(matches!(&json.fields[1], (k, JsonLeaf::Inner(e)) if k == "error" && flat(e).len() == 1));
    }
    for error in [
        ExecLiftupInPoolError::SessionInactiveError,
        ExecLiftupInPoolError::SessionBreakError,
        ExecLiftupInPoolError::OtherError("full".to_string()),
    ] {
        let expected = pairs(&[("kind", "exec_liftup_in_pool_error"), ("error", "inner 55")]);
        let error = LiftupV2RegisterResponseError::ExecLiftupInPoolError(error);
        assert_eq!(flat(&error.json(55u8)), expected);
        let json = LiftupV2RegisterResponseBody::err(error).json(55u8);
        assert!(matches!(&json.fields[1], (_, JsonLeaf::Inner(e)) if flat(e) == expected));
    }
}

#[test]
fn bls_signatures_split_and_join() {
    let mut sig = [0u8; 96];
    for (i, b) in sig.iter_mut().enumerate() {
        *b = i as u8;
    }
    let (a, b, c) = split_bls_signature(&sig);
    assert_eq!(a[0], 0);
    assert_eq!(b[0], 32);
    assert_eq!(c[31], 95);
    assert_eq!(join_bls_signature(&a, &b, &c), sig);
}

#[test]
fn registered_deposits_get_their_nonces() {
    let request = LiftupV2RegisterRequestBody::new(
        liftup(vec![v1(5), v2(6), v2(7)]),
        [3; 96],
        vec![
            nonce(6, point_bytes(1), point_bytes(2)),
            nonce(7, point_bytes(3), point_bytes(4)),
            // A later pair for the same outpoint counts.
            nonce(6, point_bytes(8), point_bytes(9)),
        ],
    );
    let inputs = register_v2_inputs(&request.liftup, &request.nonces).ok().unwrap();
    assert_eq!(inputs.len(), 2);
    assert!(inputs[0].outpoint.same(&outpoint(6)));
    assert_eq!(inputs[0].account_key, account(6).1);
    assert_eq!(inputs[0].engine_key, account(99).1);
    assert!(inputs[0].hiding.same(&scalar(8).base_point_mul()));
    assert!(inputs[0].binding.same(&scalar(9).base_point_mul()));
    assert!(inputs[1].hiding.same(&scalar(3).base_point_mul()));
    assert_eq!(request.liftup_bls_signature, [3; 96]);
}

#[test]
fn register_refusals() {
    let good = || nonce(6, point_bytes(1), point_bytes(2));
    let refusal = |lifts: Vec<Lift>, nonces: Vec<LiftupV2Nonce>| register_v2_inputs(&liftup(lifts), &nonces).err().unwrap();
    assert!(matches!(
        refusal(vec![v2(6)], vec![good(), nonce(1, vec![2; 33], vec![])]),
        LiftupV2RegisterResponseError::InvalidNonceError
    ));
    assert!(matches!(
        refusal(vec![v2(6)], vec![nonce(6, vec![], point_bytes(2))]),
        LiftupV2RegisterResponseError::InvalidNonceError
    ));
    // The uncompressed form of a point is no nonce.
    assert!(matches!(
        refusal(vec![v2(6)], vec![nonce(6, uncompressed(1), point_bytes(2))]),
        LiftupV2RegisterResponseError::InvalidNonceError
    ));
    assert!(matches!(
        refusal(vec![v2(6)], vec![nonce(6, point_bytes(1), uncompressed(2))]),
        LiftupV2RegisterResponseError::InvalidNonceError
    ));
    assert!(matches!(
        refusal(vec![v2(6), v2(7)], vec![good()]),
        LiftupV2RegisterResponseError::MissingNonceError
    ));
    // Nothing to cosign.
    assert!(matches!(refusal(vec![v1(5)], vec![good()]), LiftupV2RegisterResponseError::MissingNonceError));
    assert!(matches!(refusal(vec![], vec![]), LiftupV2RegisterResponseError::MissingNonceError));
}

#[test]
fn entries_are_tried_four_times() {
    assert_eq!(MAX_EXEC_ATTEMPTS, 4);
    for attempt in 1..4 {
        assert_eq!(after_failure(attempt, true), AfterFailure::RetryAfter(500));
        assert_eq!(after_failure(attempt, false), AfterFailure::GiveUp);
    }
    assert_eq!(after_failure(4, true), AfterFailure::GiveUp);
}

#[test]
fn call_attempts() {
    let ok = after_call_attempt(1, Ok(([4; 32], 9u8, 10, 11)));
    match ok {
        CallStep::Respond(CallResponseBody::Executed(body)) => {
            assert_eq!(body.entry_id, [4; 32]);
            assert_eq!(body.entry, 9);
            assert_eq!(body.batch_height, 10);
            assert_eq!(body.batch_timestamp, 11);
        }
        _ => panic!("an executed call"),
    }
    let retry = |attempt: u32, e: ExecCallInPoolError| matches!(after_call_attempt::<u8>(attempt, Err(e)), CallStep::RetryAfter(500));
    assert!(retry(1, ExecCallInPoolError::SessionInactiveError));
    assert!(retry(3, ExecCallInPoolError::SessionBreakError));
    assert!(!retry(4, ExecCallInPoolError::SessionBreakError));
    assert!(!retry(1, ExecCallInPoolError::SessionSuspendedError));
    assert!(!retry(1, ExecCallInPoolError::PoolOverloadedError));
    assert!(!retry(1, ExecCallInPoolError::BatchInfoNotFoundError));
    assert!(!retry(1, ExecCallInPoolError::CallBLSVerifyError("x".to_string())));
    assert!(!retry(1, ExecCallInPoolError::CallValidateRootAccountError("x".to_string())));
    assert!(!retry(
        1,
        ExecCallInPoolError::CallValidateTargetError { targeted_at_batch_height: 1, execution_batch_height: 2 }
    ));
    assert!(!retry(1, ExecCallInPoolError::EntryIdDerivationError));
    match after_call_attempt::<u8>(2, Err(ExecCallInPoolError::CallExecutionError("boom".to_string()))) {
        CallStep::Respond(CallResponseBody::Refused(CallResponseError::ExecCallInPoolError(
            ExecCallInPoolError::CallExecutionError(text),
        ))) => assert_eq!(text, "boom"),
        _ => panic!("a refused call"),
    }
    assert!(matches!(
        unreadable_call::<u8>(),
        CallResponseBody::Refused(CallResponseError::DeserializeCallRequestError)
    ));
}

#[test]
fn register_attempts() {
    match after_register_attempt(1, Ok(([4; 32], Entry::Other, 10, 11))) {
        RegisterStep::CommitAndRespond(LiftupV2RegisterResponseBody::Admitted(body)) => {
            assert_eq!((body.entry_id, body.batch_height, body.batch_timestamp), ([4; 32], 10, 11));
        }
        _ => panic!("an admitted liftup"),
    }
    assert!(matches!(
        after_register_attempt(3, Err(ExecLiftupInPoolError::SessionInactiveError)),
        RegisterStep::RetryAfter(500)
    ));
    assert!(matches!(
        after_register_attempt(4, Err(ExecLiftupInPoolError::SessionInactiveError)),
        RegisterStep::Respond(LiftupV2RegisterResponseBody::Refused(
            LiftupV2RegisterResponseError::ExecLiftupInPoolError(ExecLiftupInPoolError::SessionInactiveError)
        ))
    ));
    assert!(matches!(
        after_register_attempt(1, Err(ExecLiftupInPoolError::OtherError("x".to_string()))),
        RegisterStep::Respond(LiftupV2RegisterResponseBody::Refused(_))
    ));
}

#[test]
fn cosign_requests_are_dispatched() {
    assert!(matches!(
        cosign_request_action(None),
        CosignRequestAction::Respond(LiftupV2CosignResponseBody::Refused(
            LiftupV2CosignResponseError::DeserializeRequestError
        ))
    ));
    match cosign_request_action(Some(LiftupV2CosignRequestBody::fetch(outpoint(3)))) {
        CosignRequestAction::LookUp(o) => assert!(o.same(&outpoint(3))),
        _ => panic!("a look-up"),
    }
    match cosign_request_action(Some(LiftupV2CosignRequestBody::submit(outpoint(3), scalar(8).serialize()))) {
        CosignRequestAction::Submit(o, s) => {
            assert!(o.same(&outpoint(3)));
            assert_eq!(s.serialize(), scalar(8).serialize());
        }
        _ => panic!("a submission"),
    }
    assert!(matches!(
        cosign_request_action(Some(LiftupV2CosignRequestBody::submit(outpoint(3), [0; 32]))),
        CosignRequestAction::Respond(LiftupV2CosignResponseBody::Refused(
            LiftupV2CosignResponseError::InvalidPartialSigError
        ))
    ));
}

#[test]
fn cosign_answers() {
    let (h, b) = (scalar(1).base_point_mul(), scalar(2).base_point_mul());
    assert!(matches!(
        cosign_fetch_response(false, Some(([1; 32], h, b))),
        LiftupV2CosignResponseBody::Refused(LiftupV2CosignResponseError::UnknownOutpointError)
    ));
    assert!(matches!(cosign_fetch_response(true, None), LiftupV2CosignResponseBody::NotReady));
    match cosign_fetch_response(true, Some(([1; 32], h, b))) {
        LiftupV2CosignResponseBody::Material { sighash, engine_hiding_nonce, engine_binding_nonce } => {
            assert_eq!(sighash, [1; 32]);
            assert_eq!(engine_hiding_nonce, point_bytes(1));
            assert_eq!(engine_binding_nonce, point_bytes(2));
        }
        _ => panic!("material"),
    }
    assert!(matches!(cosign_submit_response(true, true), LiftupV2CosignResponseBody::Submitted));
    assert!(matches!(
        cosign_submit_response(true, false),
        LiftupV2CosignResponseBody::Refused(LiftupV2CosignResponseError::InvalidPartialSigError)
    ));
    assert!(matches!(
        cosign_submit_response(false, true),
        LiftupV2CosignResponseBody::Refused(LiftupV2CosignResponseError::UnknownOutpointError)
    ));
}

#[test]
fn liftups_are_routed() {
    assert_eq!(liftup_route(&[]), LiftupRoute::Nothing);
    assert_eq!(liftup_route(&[v1(1), v1(2)]), LiftupRoute::Legacy);
    assert_eq!(liftup_route(&[v1(1), v2(2)]), LiftupRoute::Cosigned);
}

#[test]
fn liftups_are_for_the_next_batch() {
    let (_, key) = account(6);
    let account = RootAccount::UnregisteredRootAccount { account_key: [1; 32], bls_key: [2; 48] };
    let entry = Liftup::for_next_batch(account, &[v1(5), v2(6)], 41);
    assert_eq!(entry.account.account_key(), [1; 32]);
    assert_eq!(entry.target.targeted_at_batch_height, 42);
    assert_eq!(entry.lift_tx_inputs.len(), 2);
    assert!(entry.lift_tx_inputs[0].outpoint().same(&outpoint(5)));
    assert!(matches!(&entry.lift_tx_inputs[1], Lift::LiftV2(l) if l.account_key == key));
}

#[test]
fn deposits_are_cosigned_only_after_registration() {
    let ok = LiftupV2RegisterResponseBody::ok([4; 32], 10, 11, Entry::Other);
    match after_register(Ok(ok)) {
        AfterRegister::Cosign(body) => assert_eq!((body.entry_id, body.batch_height), ([4; 32], 10)),
        _ => panic!("a registered liftup"),
    }
    let refused = LiftupV2RegisterResponseBody::err(LiftupV2RegisterResponseError::MissingNonceError);
    assert!(matches!(
        after_register(Ok(refused)),
        AfterRegister::Stop(RegisterFailure::Refused(LiftupV2RegisterResponseError::MissingNonceError))
    ));
    assert!(matches!(
        after_register(Err(RequestError::EmptyResponse)),
        AfterRegister::Stop(RegisterFailure::RequestFailed(RequestError::EmptyResponse))
    ));
}

#[test]
fn account_secrets_are_made_even() {
    for n in 1u8..20 {
        let secret = even_account_secret(&scalar(n).serialize()).unwrap();
        let point = secret.base_point_mul();
        assert!(point.has_even_y());
        assert_eq!(point.serialize_xonly(), scalar(n).base_point_mul().serialize_xonly());
    }
    assert!(even_account_secret(&[0; 32]).is_none());
}

#[test]
fn random_nonces_differ() {
    let drawn = || match random_nonce_scalar() {
        NonceDraw::Drawn(s) => s.serialize(),
        _ => panic!("a nonce"),
    };
    assert_ne!(drawn(), drawn());
    assert!(nonce_from_bytes(&[0xff; 32]).is_none());
    assert!(nonce_from_bytes(&[0x7f; 32]).is_some());
}

#[test]
fn first_scalar_drawn_is_the_nonce() {
    match after_draw(Some([0x7f; 32])) {
        NonceDraw::Drawn(s) => assert_eq!(s.serialize(), [0x7f; 32]),
        _ => panic!("a scalar is kept"),
    }
    assert!(matches!(after_draw(Some([0xff; 32])), NonceDraw::Again));
    assert!(matches!(after_draw(Some([0; 32])), NonceDraw::Again));
    assert!(matches!(after_draw(None), NonceDraw::NoRandomness));
}

#[test]
fn depositor_runs_both_rounds() {
    let lifts = [v1(5), v2(6), v2(7), v2(6)];
    let (secret, _) = account(6);
    let secrets = [
        (scalar(31), scalar(32)),
        (scalar(33), scalar(34)),
        (scalar(35), scalar(36)),
    ];
    let (deposits, nonces) = prepare_deposits(&lifts, secret, &secrets);
    assert_eq!(deposits.len(), 3);
    assert_eq!(nonces[1].client_hiding_nonce, point_bytes(33));
    assert_eq!(nonces[1].client_binding_nonce, point_bytes(34));
    let index = index_deposits(&deposits);
    assert_eq!(index.len(), 2);
    assert_eq!(index.get(&outpoint(6)), Some(2));
    assert_eq!(index.get(&outpoint(7)), Some(1));
    assert!(index.key_at(0).unwrap().same(&outpoint(6)));
    assert!(index.key_at(1).unwrap().same(&outpoint(7)));

    // The engine reads the nonces that the depositor commits.
    let inputs = register_v2_inputs(&liftup(vec![v2(6)]), &nonces).ok().unwrap();
    assert!(inputs[0].hiding.same(&scalar(35).base_point_mul()));

    let deposit = &deposits[2];
    let sighash = [9u8; 32];
    let engine = EngineCosigner::begin(
        deposit.account_key, deposit.engine_key, &deposit.scripts, account(99).0, scalar(51), scalar(52),
        inputs[0].hiding, inputs[0].binding, sighash,
    )
    .unwrap();
    let (eh, eb) = engine.engine_public_nonces();
    let answer = cosign_fetch_response(true, Some((sighash, eh, eb)));
    let partial = match deposit.after_fetch(1, Some(answer)) {
        CosignStep::Submit(partial) => partial,
        _ => panic!("a partial signature"),
    };
    let accepted = match cosign_request_action(Some(LiftupV2CosignRequestBody::submit(outpoint(6), partial))) {
        CosignRequestAction::Submit(_, s) => engine.complete(s).is_some(),
        _ => panic!("a submission"),
    };
    assert!(accepted);
    assert!(matches!(after_submit(Some(cosign_submit_response(true, accepted))), CosignStep::Cosigned));
}

#[test]
fn depositor_polls_and_gives_up() {
    let (deposits, _) = prepare_deposits(&[v2(6)], account(6).0, &[(scalar(31), scalar(32))]);
    let d = &deposits[0];
    assert!(matches!(d.after_fetch(1, Some(LiftupV2CosignResponseBody::NotReady)), CosignStep::AskAgainAfter(500)));
    assert!(matches!(d.after_fetch(239, Some(LiftupV2CosignResponseBody::NotReady)), CosignStep::AskAgainAfter(500)));
    assert!(matches!(d.after_fetch(240, Some(LiftupV2CosignResponseBody::NotReady)), CosignStep::GiveUpAfter(500)));
    assert!(matches!(d.after_fetch(1, None), CosignStep::GiveUp(CosignFailure::FetchFailed)));
    assert!(matches!(
        d.after_fetch(1, Some(LiftupV2CosignResponseBody::Submitted)),
        CosignStep::GiveUp(CosignFailure::FetchRefused(LiftupV2CosignResponseBody::Submitted))
    ));
    let material = |h: Vec<u8>, b: Vec<u8>| {
        Some(LiftupV2CosignResponseBody::Material { sighash: [1; 32], engine_hiding_nonce: h, engine_binding_nonce: b })
    };
    assert!(matches!(
        d.after_fetch(1, material(vec![], point_bytes(2))),
        CosignStep::GiveUp(CosignFailure::InvalidHidingNonce)
    ));
    assert!(matches!(
        d.after_fetch(1, material(point_bytes(2), vec![1])),
        CosignStep::GiveUp(CosignFailure::InvalidBindingNonce)
    ));
    assert!(matches!(
        d.after_fetch(1, material(uncompressed(2), point_bytes(2))),
        CosignStep::GiveUp(CosignFailure::InvalidHidingNonce)
    ));
    assert!(matches!(
        d.after_fetch(1, material(point_bytes(2), uncompressed(2))),
        CosignStep::GiveUp(CosignFailure::InvalidBindingNonce)
    ));
    // Nonces that cancel the depositor's out cannot be signed under.
    let minus = |n: u8| scalar(n).base_point_mul().negate().serialize().to_vec();
    assert!(matches!(
        d.after_fetch(1, material(minus(31), minus(32))),
        CosignStep::GiveUp(CosignFailure::PartialSignFailed)
    ));
    assert!(matches!(after_submit(None), CosignStep::GiveUp(CosignFailure::SubmitFailed)));
    assert!(matches!(
        after_submit(Some(LiftupV2CosignResponseBody::NotReady)),
        CosignStep::GiveUp(CosignFailure::SubmitRefused(LiftupV2CosignResponseBody::NotReady))
    ));
    assert!(Point::from_compressed(&point_bytes(3)).is_some());
    assert!(Point::from_compressed(&uncompressed(3)).is_none());
}

#[test]
fn responses_must_have_a_body() {
    assert!(matches!(response_body(&[], Some(1u8)), Err(RequestError::EmptyResponse)));
    assert!(matches!(response_body::<u8>(&[1], None), Err(RequestError::ResponseDeserializationError)));
    assert!(matches!(response_body(&[1], Some(4u8)), Ok(4)));
}

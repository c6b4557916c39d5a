use cube::arcade::{
    account_json, admit_call, after_execution, arcade_address, drawn_entry, faucet_grant,
    faucet_json, faucet_keys, le_uint, mined_json, minimal_le, outcome_json, payable_calldata,
    read_call, read_stored, refusal_json, state_json, winner_slot_key, AccountStatus,
    AfterExecution, CallOutcome, CallRefusal, CallReq, CallReqError, CalldataEl, FaucetGrant,
    LotteryStatus,
};
use cube::call::{
    begin_call, effective_ops_budget, nominal_fee, AccountChecks, Call, CallBLSSignError,
    CallBLSVerifyError, CallExecutionError, CallSighashError, CalldataElement, Contract, EntryFees,
    ExemptionSubsidyBreakdown, Subsidy,
};
use cube::chain::Chain;
use cube::engine_session::{Phase, SessionEvent, SessionTerms};
use cube::entry::RootAccount;
use cube::hexcodec::{hex_encode, parse_hex};
use cube::hook::{engine_hook, set_engine_hook, HookSlot};
use cube::json::{JsonLeaf, JsonObject};
use cube::stack::{StackError, StackHolder, StackItem, OP_BLOCKHASH, OP_SWAP};

#[test]
fn chains_have_names() {
    assert_eq!(Chain::Testbed.to_string(), "testbed");
    assert_eq!(Chain::Signet.to_string(), "signet");
    assert_eq!(Chain::Mainnet.to_string(), "mainnet");
    assert_eq!(Chain::Regtest.to_string(), "regtest");
}

fn stack(items: &[u8], capacity: usize, budget: u32) -> StackHolder {
    let mut holder = StackHolder::new(capacity, budget, true, [0xbb; 32]);
    for n in items {
        assert!(holder.push(StackItem::new(vec![*n])).is_ok());
    }
    holder
}

#[test]
fn swap_exchanges_the_top_two() {
    assert_eq!(OP_SWAP::bytecode(), vec![0x7c]);
    let mut s = stack(&[1, 2, 3], 3, 10);
    assert_eq!(OP_SWAP::execute(&mut s), Ok(()));
    assert_eq!(s.item_from_top(0), Some(vec![2]));
    assert_eq!(s.item_from_top(1), Some(vec![3]));
    assert_eq!(s.item_from_top(2), Some(vec![1]));
    assert_eq!(s.item_from_top(3), None);
    assert_eq!(s.ops_counter(), 1);
    assert_eq!(OP_SWAP::execute(&mut s), Ok(()));
    assert_eq!(s.item_from_top(0), Some(vec![3]));
}

#[test]
fn swap_fails_on_short_stacks_and_small_budgets() {
    let mut s = stack(&[], 3, 10);
    assert_eq!(OP_SWAP::execute(&mut s), Err(StackError::EmptyStackError));
    let mut s = stack(&[1], 3, 10);
    assert_eq!(OP_SWAP::execute(&mut s), Err(StackError::EmptyStackError));
    assert_eq!(s.item_from_top(0), None);
    let mut s = stack(&[1, 2], 3, 0);
    assert_eq!(OP_SWAP::execute(&mut s), Err(StackError::OpsBudgetExceededError));
    assert_eq!(s.item_from_top(0), Some(vec![1]));
    let mut skipped = StackHolder::new(3, 0, false, [0; 32]);
    assert_eq!(OP_SWAP::execute(&mut skipped), Ok(()));
    assert_eq!(OP_BLOCKHASH::execute(&mut skipped), Ok(()));
    assert_eq!(skipped.item_from_top(0), None);
}

#[test]
fn blockhash_is_pushed() {
    assert_eq!(OP_BLOCKHASH::bytecode(), vec![0xd3]);
    let mut s = stack(&[1], 2, 1);
    assert_eq!(OP_BLOCKHASH::execute(&mut s), Ok(()));
    assert_eq!(s.item_from_top(0), Some(vec![0xbb; 32]));
    assert_eq!(s.item_from_top(1), Some(vec![1]));
    assert_eq!(OP_BLOCKHASH::execute(&mut s), Err(StackError::StackOverflowError));
    let mut s = stack(&[], 2, 0);
    assert_eq!(OP_BLOCKHASH::execute(&mut s), Err(StackError::OpsBudgetExceededError));
    let mut s = stack(&[7], 2, 0);
    assert_eq!(s.pop().ok().unwrap().bytes(), &[7]);
    assert!(matches!(s.pop(), Err(StackError::EmptyStackError)));
}

fn configured() -> RootAccount {
    RootAccount::RegisteredAndConfiguredRootAccount { account_key: [1; 32], registery_index: 3, bls_key: [2; 48] }
}

fn unconfigured() -> RootAccount {
    RootAccount::RegisteredButUnconfiguredRootAccount { account_key: [1; 32], registery_index: 3, bls_key: [2; 48] }
}

fn call(account: RootAccount) -> Call {
    Call::for_next_batch(account, [5; 32], Some(8), 2, vec![CalldataElement::Payable(4)], 99)
}

#[test]
fn calls_target_the_next_batch() {
    let c = call(configured());
    assert_eq!(c.contract.contract_id, [5; 32]);
    assert_eq!(c.contract.registery_index, 8);
    assert_eq!(c.target.targeted_at_batch_height, 100);
    assert_eq!(c.ops_price, 0);
    assert_eq!(effective_ops_budget(&c), u32::MAX);
    let unranked = Call::for_next_batch(configured(), [5; 32], None, 2, vec![], 99);
    assert_eq!(unranked.contract.registery_index, 0);
    assert_eq!(unranked.account.account_key(), [1; 32]);
}

#[test]
fn calls_are_signed_over_their_sighash() {
    let c = call(configured());
    let signed = c.bls_sign(Ok([9; 32]), |h| {
        let mut s = [0; 96];
        s[..32].copy_from_slice(&h);
        s
    });
    assert_eq!(signed.ok().unwrap()[..32], [9; 32]);
    let failed = c.bls_sign(Err(CallSighashError { reason: "no".to_string() }), |_| [0; 96]);
    match failed {
        Err(CallBLSSignError::SighashError(e)) => assert_eq!(e.reason, "no"),
        Ok(_) => panic!("no sighash"),
    }
}

#[test]
fn calls_are_verified_under_the_account_key() {
    let c = call(configured());
    let verify = |key: [u8; 48], h: [u8; 32], s: [u8; 96]| key == [2; 48] && h == [9; 32] && s == [4; 96];
    assert!(c.bls_verify([4; 96], Ok([9; 32]), verify).is_ok());
    assert!(matches!(
        c.bls_verify([5; 96], Ok([9; 32]), verify),
        Err(CallBLSVerifyError::InvalidBLSSignatureError)
    ));
    assert!(matches!(
        c.bls_verify([4; 96], Err(CallSighashError { reason: String::new() }), verify),
        Err(CallBLSVerifyError::SighashError(_))
    ));
}

fn args(sizes: &[usize]) -> Vec<StackItem> {
    sizes.iter().map(|n| StackItem::new(vec![0; *n])).collect()
}

#[test]
fn call_fees() {
    assert_eq!(nominal_fee(100, 2_000_000, &args(&[3, 4])).ok(), Some(114));
    assert_eq!(nominal_fee(100, 999_999, &args(&[1])).ok(), Some(100));
    assert_eq!(nominal_fee(100, 1_000_000, &args(&[])).ok(), Some(100));
    // The product is capped before the division.
    assert_eq!(nominal_fee(0, u64::MAX, &args(&[2])).ok(), Some(18_446_744_073_709));
    assert!(matches!(nominal_fee(u64::MAX, 1_000_000, &args(&[1])), Err(CallExecutionError::CallFeeOverflow)));
    assert_eq!(nominal_fee(u64::MAX - 1, 1_000_000, &args(&[1])).ok(), Some(u64::MAX));
}

const VALID: AccountChecks = AccountChecks { bls_key_valid: true, authorization_valid: true };

#[test]
fn call_is_executed_step_by_step() {
    let begun = begin_call(&call(configured()), &args(&[10]), 100, 1_000_000, VALID).ok().unwrap();
    let subsidise = begun.synced(Ok(())).ok().unwrap();
    assert_eq!(subsidise.terms.fees_pre_subsidy, 110);
    let charge = subsidise.subsidised(Subsidy::NoExemptions).ok().unwrap();
    assert_eq!(charge.fees_after_subsidy, 110);
    let run = charge.charged(Ok(())).ok().unwrap();
    assert_eq!(
        run.ran(Ok(())).ok(),
        Some(EntryFees::Call {
            base_fee: 100,
            total_pre_subsidy: 110,
            subsidy_breakdown: ExemptionSubsidyBreakdown {
                post_periodic_credit_leftover: 110,
                post_direct_credit_leftover: 110,
                post_discount_leftover: 110,
            },
        })
    );
}

#[test]
fn exempt_accounts_pay_the_leftover() {
    let breakdown = ExemptionSubsidyBreakdown {
        post_periodic_credit_leftover: 90,
        post_direct_credit_leftover: 60,
        post_discount_leftover: 30,
    };
    let begun = begin_call(&call(unconfigured()), &args(&[]), 100, 0, VALID).ok().unwrap();
    let charge = begun.synced(Ok(())).ok().unwrap().subsidised(Subsidy::Applied(breakdown)).ok().unwrap();
    assert_eq!(charge.fees_after_subsidy, 30);
    let fees = charge.charged(Ok(())).ok().unwrap().ran(Ok(())).ok().unwrap();
    assert_eq!(fees, EntryFees::Call { base_fee: 100, total_pre_subsidy: 100, subsidy_breakdown: breakdown });
}

#[test]
fn call_execution_errors() {
    let begin = |account: RootAccount, bls_key_valid: bool, authorization_valid: bool| {
        begin_call(&call(account), &args(&[]), 1, 1, AccountChecks { bls_key_valid, authorization_valid })
    };
    let unregistered = RootAccount::UnregisteredRootAccount { account_key: [1; 32], bls_key: [2; 48] };
    assert!(matches!(
        begin(unregistered, true, true),
        Err(CallExecutionError::UnexpectedUnregisteredRootAccountError)
    ));
    assert!(matches!(
        begin(unconfigured(), false, false),
        Err(CallExecutionError::RegisteredButUnconfiguredRootAccountValidateBLSKeyError)
    ));
    assert!(matches!(
        begin(unconfigured(), true, false),
        Err(CallExecutionError::RegisteredButUnconfiguredRootAccountInvalidAuthorizationSignatureError)
    ));
    assert!(begin(configured(), false, false).is_ok());
    assert!(matches!(
        begin_call(&call(unregistered), &args(&[1]), u64::MAX, 1_000_000, VALID),
        Err(CallExecutionError::CallFeeOverflow)
    ));
    assert!(matches!(
        begin(unconfigured(), true, true).ok().unwrap().synced(Err("a".to_string())),
        Err(CallExecutionError::RegisteredButUnconfiguredRootAccountSyncWithRegisteryError(_))
    ));
    assert!(matches!(
        begin(configured(), true, true).ok().unwrap().synced(Err("a".to_string())),
        Err(CallExecutionError::RegisteredAndConfiguredRootAccountSyncWithRegisteryError(_))
    ));
    let subsidise = || begin(configured(), true, true).ok().unwrap().synced(Ok(())).ok().unwrap();
    assert!(matches!(
        subsidise().subsidised(Subsidy::Failed),
        Err(CallExecutionError::FailedToApplyFeesSubsidy)
    ));
    let charge = || subsidise().subsidised(Subsidy::NoExemptions).ok().unwrap();
    assert!(matches!(
        charge().charged(Err("poor".to_string())),
        Err(CallExecutionError::CoinManagerAccountBalanceDownError(_))
    ));
    assert!(matches!(
        charge().charged(Ok(())).ok().unwrap().ran(Err("vm".to_string())),
        Err(CallExecutionError::VMExecutionError(_))
    ));
}

fn terms() -> SessionTerms {
    SessionTerms { batch_height: 8, timestamp: 1_060, feerate: 3 }
}

fn run(mut phase: Phase, events: &[SessionEvent]) -> Phase {
    for event in events {
        phase = phase.after(*event).unwrap();
    }
    phase
}

#[test]
fn session_becomes_a_batch() {
    let opened = [
        SessionEvent::Tip { batch_height: 7, now_seconds: 1_000 },
        SessionEvent::Feerate(3),
        SessionEvent::Done,
    ];
    let admitting = run(Phase::AskingTip, &opened);
    assert_eq!(admitting, Phase::Admitting(terms()));
    assert_eq!(admitting.wait_ms(), 60_000);
    let asking = run(admitting, &[SessionEvent::Done, SessionEvent::Done]);
    assert_eq!(asking, Phase::AskingPending(terms()));
    let counting = run(asking, &[SessionEvent::Pending(false)]);
    assert_eq!(counting, Phase::Counting(terms()));
    let done = run(
        counting,
        &[SessionEvent::Entries(2), SessionEvent::Done, SessionEvent::Done, SessionEvent::Done],
    );
    assert_eq!(done, Phase::Executing(terms()));
    assert_eq!(done.after(SessionEvent::Done), Some(Phase::AskingTip));
    assert_eq!(done.after(SessionEvent::Failed), Some(Phase::AskingTip));
    assert_eq!(done.after(SessionEvent::Pending(true)), None);
}

#[test]
fn session_waits_for_cosignatures() {
    let preparing = run(Phase::AskingPending(terms()), &[SessionEvent::Pending(true)]);
    assert_eq!(preparing.after(SessionEvent::Failed), Some(Phase::Aborting(terms())));
    let polling = run(preparing, &[SessionEvent::Prepared { now_ms: 500 }]);
    assert_eq!(polling, Phase::Polling { terms: terms(), deadline_ms: 30_500 });
    let waiting = run(polling, &[SessionEvent::Cosigned { all: false, now_ms: 30_499 }]);
    assert_eq!(waiting, Phase::PollWaiting { terms: terms(), deadline_ms: 30_500 });
    assert_eq!(waiting.wait_ms(), 250);
    assert_eq!(run(waiting, &[SessionEvent::Done]), polling);
    let late = run(polling, &[SessionEvent::Cosigned { all: false, now_ms: 30_500 }]);
    assert_eq!(late, Phase::CheckingCosigns(terms()));
    assert_eq!(
        run(late, &[SessionEvent::Cosigned { all: false, now_ms: 30_501 }]),
        Phase::Aborting(terms())
    );
    assert_eq!(
        run(late, &[SessionEvent::Cosigned { all: true, now_ms: 30_501 }]),
        Phase::Counting(terms())
    );
    let early = run(polling, &[SessionEvent::Cosigned { all: true, now_ms: 600 }]);
    assert_eq!(early, Phase::CheckingCosigns(terms()));
}

#[test]
fn session_is_aborted_without_a_batch() {
    assert_eq!(run(Phase::Counting(terms()), &[SessionEvent::Entries(0)]), Phase::Aborting(terms()));
    assert_eq!(run(Phase::Building(terms()), &[SessionEvent::Failed]), Phase::Aborting(terms()));
    assert_eq!(run(Phase::Aborting(terms()), &[SessionEvent::Done]), Phase::AskingTip);
    assert_eq!(run(Phase::Broadcasting(terms()), &[SessionEvent::Failed]), Phase::AskingTip);
    let retry = run(
        Phase::AskingTip,
        &[SessionEvent::Tip { batch_height: 0, now_seconds: 0 }, SessionEvent::FeerateUnavailable],
    );
    assert_eq!(retry, Phase::WaitingForFeerate);
    assert_eq!(retry.wait_ms(), 5_000);
    assert_eq!(run(retry, &[SessionEvent::Done]), Phase::AskingTip);
    assert_eq!(Phase::AskingTip.wait_ms(), 0);
}

#[test]
fn hex_text() {
    assert_eq!(hex_encode(&[0x00, 0x9a, 0xff]), "009aff");
    assert_eq!(parse_hex("009aFF", 3), Some(vec![0x00, 0x9a, 0xff]));
    assert_eq!(parse_hex("0x009aff", 3), Some(vec![0x00, 0x9a, 0xff]));
    assert_eq!(parse_hex("0x0x009aff", 3), Some(vec![0x00, 0x9a, 0xff]));
    assert_eq!(parse_hex("009aff", 2), None);
    assert_eq!(parse_hex("009af", 3), None);
    assert_eq!(parse_hex("zz9aff", 3), None);
    assert_eq!(parse_hex("é9aff", 3), None);
    assert_eq!(parse_hex("", 0), Some(vec![]));
    assert_eq!(parse_hex("0x", 0), Some(vec![]));
}

#[test]
fn stored_numbers() {
    assert_eq!(le_uint(&[]), 0);
    assert_eq!(le_uint(&[0x34, 0x12]), 0x1234);
    assert_eq!(le_uint(&[0xff; 8]), u64::MAX);
    assert_eq!(le_uint(&[1, 0, 0, 0, 0, 0, 0, 0, 9]), 1);
    assert_eq!(minimal_le(0), Vec::<u8>::new());
    assert_eq!(minimal_le(0x1234), vec![0x34, 0x12]);
    for n in [1u64, 255, 256, 65_536, u64::MAX] {
        assert_eq!(le_uint(&minimal_le(n)), n);
    }
    assert_eq!(read_stored(&None), 0);
    assert_eq!(read_stored(&Some(vec![7])), 7);
}

#[test]
fn faucet_fills_low_balances() {
    assert_eq!(faucet_grant(None), FaucetGrant::Open(100_000));
    assert_eq!(faucet_grant(Some(0)), FaucetGrant::TopUp(100_000));
    assert_eq!(faucet_grant(Some(29_999)), FaucetGrant::TopUp(70_001));
    assert_eq!(faucet_grant(Some(30_000)), FaucetGrant::Nothing);
    let keys = faucet_keys(&"0x01".repeat(1), &"02".repeat(48));
    assert!(keys.is_none());
    let keys = faucet_keys(&"01".repeat(32), &"02".repeat(48)).unwrap();
    assert_eq!(keys, ([1; 32], [2; 48]));
    assert!(faucet_keys(&"01".repeat(32), &"02".repeat(47)).is_none());
}

#[test]
fn payables_are_filtered_and_truncated() {
    let el = |kind: &str, value: u64| CalldataEl { kind: kind.to_string(), value };
    let elements = payable_calldata(&[el("payable", 5), el("u8", 6), el("payable", 0x1_0000_0007)]);
    assert_eq!(elements.len(), 2);
    assert!(matches!(elements[0], CalldataElement::Payable(5)));
    assert!(matches!(elements[1], CalldataElement::Payable(7)));
}

fn request() -> CallReq {
    CallReq {
        account_key: "0a".repeat(32),
        registery_index: 12,
        bls_key: "0b".repeat(48),
        method_index: 1,
        calldata: vec![CalldataEl { kind: "payable".to_string(), value: 10_000 }],
        ops_price: 2,
        target: 77,
        bls_signature: "0c".repeat(96),
    }
}

#[test]
fn player_calls_are_read_as_signed() {
    let (call, signature) = read_call(&request(), [5; 32], None).ok().unwrap();
    assert_eq!(call.account.account_key(), [0x0a; 32]);
    assert_eq!(call.account.bls_key(), [0x0b; 48]);
    assert!(matches!(
        call.account,
        RootAccount::RegisteredAndConfiguredRootAccount { registery_index: 12, .. }
    ));
    assert_eq!(call.contract.registery_index, 0);
    assert_eq!(call.contract.contract_id, [5; 32]);
    assert_eq!(call.method_index, 1);
    assert_eq!(call.ops_price, 2);
    assert_eq!(call.target.targeted_at_batch_height, 77);
    assert_eq!(signature, [0x0c; 96]);
    assert!(matches!(call.calldata_elements[0], CalldataElement::Payable(10_000)));
    let known = Contract { contract_id: [6; 32], registery_index: 4 };
    let (call, _) = read_call(&request(), [5; 32], Some(known)).ok().unwrap();
    assert_eq!(call.contract.registery_index, 4);
}

#[test]
fn player_calls_that_cannot_be_read() {
    let mut bad = request();
    bad.account_key = "x".to_string();
    bad.bls_key = String::new();
    assert_eq!(read_call(&bad, [5; 32], None).err(), Some(CallReqError::BadAccountKey));
    let mut bad = request();
    bad.bls_key = String::new();
    bad.bls_signature = String::new();
    assert_eq!(read_call(&bad, [5; 32], None).err(), Some(CallReqError::BadBlsKey));
    let mut bad = request();
    bad.bls_signature = String::new();
    assert_eq!(read_call(&bad, [5; 32], None).err(), Some(CallReqError::BadSignature));
    assert_eq!(CallReqError::BadAccountKey.message(), "bad account key");
    assert_eq!(CallReqError::BadBlsKey.message(), "bad bls key");
    assert_eq!(CallReqError::BadSignature.message(), "bad signature");
}

#[test]
fn calls_are_verified_before_they_run() {
    let verify = |key: [u8; 48], message: [u8; 32], signature: [u8; 96]| {
        key == [0x0b; 48] && message == [77; 32] && signature == [0x0c; 96]
    };
    let sighash = |call: &Call| Ok([call.target.targeted_at_batch_height as u8; 32]);
    let call = admit_call(&request(), [5; 32], None, sighash, verify).ok().unwrap();
    assert_eq!(call.account.account_key(), [0x0a; 32]);
    assert_eq!(call.contract.contract_id, [5; 32]);
    let rejected = Some(CallRefusal::SignatureRejected);
    let other = |_: &Call| Ok([0; 32]);
    assert_eq!(admit_call(&request(), [5; 32], None, other, verify).err(), rejected);
    let none = |_: &Call| Err(CallSighashError { reason: String::new() });
    assert_eq!(admit_call(&request(), [5; 32], None, none, |_, _, _| true).err(), rejected);
    let mut bad = request();
    bad.bls_signature = String::new();
    assert_eq!(
        admit_call(&bad, [5; 32], None, sighash, |_, _, _| true).err(),
        Some(CallRefusal::BadRequest(CallReqError::BadSignature))
    );
    assert_eq!(CallRefusal::SignatureRejected.message(), "signature verification failed");
    assert_eq!(CallRefusal::BadRequest(CallReqError::BadBlsKey).message(), "bad bls key");
}

#[test]
fn failed_executions_are_discarded() {
    let mut move_only = request();
    move_only.method_index = 0;
    assert!(matches!(after_execution::<u8>(&request(), Ok(())), AfterExecution::Commit { draw: true }));
    assert!(matches!(after_execution::<u8>(&move_only, Ok(())), AfterExecution::Commit { draw: false }));
    match after_execution(&request(), Err("boom".to_string())) {
        AfterExecution::Discard(answer) => assert_eq!(flat(&answer), vec!["ok=false", "error=boom"]),
        _ => panic!("a discarded execution"),
    }
}

#[test]
fn arcade_is_served_locally() {
    assert_eq!(arcade_address(8080), ([127, 0, 0, 1], 8080));
}

#[test]
fn draws_pick_a_slot() {
    let mut hash = [0u8; 32];
    hash[0] = 200;
    hash[31] = 57; // 257 mod 3 == 2
    assert_eq!(winner_slot_key(1, &hash), vec![0x73, 2]);
    assert_eq!(winner_slot_key(0, &hash), vec![0x73, 2]);
    assert_eq!(winner_slot_key(0, &[0; 32]), vec![0x73]);
    assert_eq!(winner_slot_key(255, &hash), vec![0x73, 0x00, 0x01]);
    // The last round can be drawn as far as its entries have numbers.
    let mut one = [0u8; 32];
    one[0] = 1;
    assert_eq!(winner_slot_key(u64::MAX, &one), [vec![0x73], vec![0xff; 8]].concat());
    assert_eq!(drawn_entry(u64::MAX, &[0; 32]), Some(u64::MAX - 1));
    assert_eq!(drawn_entry(u64::MAX, &hash), None);
}

fn flat(object: &JsonObject<u8>) -> Vec<String> {
    object
        .fields
        .iter()
        .map(|(k, v)| match v {
            JsonLeaf::Text(t) => format!("{k}={t}"),
            JsonLeaf::Number(n) => format!("{k}={n}"),
            JsonLeaf::Flag(b) => format!("{k}={b}"),
            JsonLeaf::Null => format!("{k}=null"),
            JsonLeaf::Inner(t) => format!("{k}=({t})"),
        })
        .collect()
}

#[test]
fn arcade_answers() {
    let status = AccountStatus { registery_index: Some(4), balance: None };
    assert_eq!(flat(&account_json(status)), vec!["registered=true", "registery_index=4", "balance=0"]);
    assert_eq!(flat(&faucet_json(status)), vec!["registery_index=4", "balance=0"]);
    assert_eq!(flat(&refusal_json("bad keys")), vec!["ok=false", "error=bad keys"]);
    assert_eq!(flat(&mined_json(&[0xee; 32])), vec!["ok=true".to_string(), format!("tip={}", "ee".repeat(32))]);
    let outcome = CallOutcome { balance_before: Some(5), balance_after: Some(6), treasury: Some(9) };
    assert_eq!(
        flat(&outcome_json(outcome, &Some("ff".to_string()))),
        vec!["ok=true", "balance=6", "won=true", "payout=27000", "treasury=9", "winner=ff"]
    );
    let outcome = CallOutcome { balance_before: Some(5), balance_after: Some(5), treasury: None };
    assert_eq!(
        flat(&outcome_json(outcome, &None)),
        vec!["ok=true", "balance=5", "won=false", "payout=27000", "treasury=0", "winner=null"]
    );
}

#[test]
fn lottery_state() {
    let status = LotteryStatus {
        contract_id: [1; 32],
        contract_registery_index: None,
        batch_height_tip: 9,
        n: Some(vec![2]),
        armed: None,
        treasury: Some(30_000),
        last_winner: None,
    };
    let bare: JsonObject<JsonObject<u8>> = state_json(&status, None);
    assert_eq!(bare.fields.len(), 10);
    let names: Vec<&str> = bare.fields.iter().map(|(k, _)| k.as_str()).collect();
    assert_eq!(
        names,
        vec![
            "contract_id", "contract_registery_index", "batch_height_tip", "n", "treasury", "armed",
            "round_size", "entry_cost", "payout", "last_winner",
        ]
    );
    assert!(matches!(bare.fields[3].1, JsonLeaf::Number(2)));
    assert!(matches!(bare.fields[5].1, JsonLeaf::Number(0)));
    assert!(matches!(bare.fields[7].1, JsonLeaf::Number(10_000)));
    assert!(matches!(bare.fields[9].1, JsonLeaf::Null));
    let account = AccountStatus { registery_index: None, balance: Some(8) };
    let full: JsonObject<JsonObject<u8>> = state_json(&status, Some(account));
    match &full.fields[10] {
        (k, JsonLeaf::Inner(inner)) => {
            assert_eq!(k, "account");
            assert_eq!(flat(inner), vec!["registered=false", "registery_index=0", "balance=8"]);
        }
        _ => panic!("an account"),
    }
}

#[test]
fn only_the_first_hook_counts() {
    let mut slot: HookSlot<u8> = HookSlot::new();
    assert_eq!(engine_hook(&slot), None);
    set_engine_hook(&mut slot, 1);
    set_engine_hook(&mut slot, 2);
    assert_eq!(engine_hook(&slot), Some(&1));
}

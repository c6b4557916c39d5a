//! The lottery arcade: requests of players and what they are answered.
use vstd::prelude::*;
use crate::bytes::{array32, le_nat, push_slice};
use crate::call::{Call, CallSighashError, CalldataElement, Contract};
use crate::entry::{RootAccount, Target};
use crate::hexcodec::{hex_encode, hex_of, parse_hex, parsed_hex};
use crate::json::{text, JsonLeaf, JsonObject, LeafModel};

verus! {

/// State keys of the lottery contract.
pub const KEY_N: u8 = 0x6e;

pub const KEY_S: u8 = 0x73;

pub const KEY_A: u8 = 0x61;

pub const KEY_R: u8 = 0x72;

/// The number of entries of a round.
pub const ROUND: u64 = 3;

pub const ENTRY_COST: u64 = 10_000;

pub const PAYOUT: u64 = 27_000;

/// The faucet fills balances up to this.
pub const FAUCET_TOPUP_TO: u64 = 100_000;

/// The faucet fills balances below this.
pub const FAUCET_TOPUP_BELOW: u64 = 30_000;

/// The method that draws a winner.
pub const DRAW_METHOD: u16 = 1;

/// The first bytes, eight at most.
pub open spec fn first_eight(bytes: Seq<u8>) -> Seq<u8> {
    if bytes.len() <= 8 {
        bytes
    } else {
        bytes.take(8)
    }
}

/// A power of 256.
pub open spec fn power256(n: nat) -> nat
    decreases n,
{
    if n == 0 {
        1
    } else {
        256 * power256((n - 1) as nat)
    }
}

proof fn lemma_le_nat_push(s: Seq<u8>, b: u8)
    ensures
        le_nat(s.push(b)) == le_nat(s) + power256(s.len()) * b,
    decreases s.len(),
{
    let t = s.push(b);
    if s.len() == 0 {
        assert(t.drop_first() =~= Seq::empty());
        assert(le_nat(t) == b as nat + 256 * le_nat(t.drop_first()));
        assert(power256(0) * b == b) by (nonlinear_arith)
            requires
                power256(0) == 1,
        ;
    } else {
        lemma_le_nat_push(s.drop_first(), b);
        assert(t.drop_first() =~= s.drop_first().push(b));
        let p = power256((s.len() - 1) as nat);
        assert(256 * (p * b) == (256 * p) * b) by (nonlinear_arith);
        assert(power256(s.len()) == 256 * p);
    }
}

proof fn lemma_le_nat_bound(s: Seq<u8>)
    ensures
        le_nat(s) < power256(s.len()),
    decreases s.len(),
{
    if s.len() > 0 {
        lemma_le_nat_bound(s.drop_first());
    }
}

/// The number that the first eight bytes spell in little-endian order.
pub fn le_uint(bytes: &[u8]) -> (r: u64)
    ensures
        r == le_nat(first_eight(bytes@)),
{
    let count: usize = if bytes.len() < 8 {
        bytes.len()
    } else {
        8
    };
    let ghost used = first_eight(bytes@);
    let mut x: u64 = 0;
    let mut place: u64 = 1;
    let mut i: usize = 0;
    assert(used.take(0) =~= Seq::empty());
    while i < count
        invariant
            i <= count,
            count <= 8,
            count == used.len(),
            used == first_eight(bytes@),
            x == le_nat(used.take(i as int)),
            i < 8 ==> place == power256(i as nat),
        decreases count - i,
    {
        let ghost before = used.take(i as int);
        proof {
            reveal_with_fuel(power256, 9);
            lemma_le_nat_push(before, used[i as int]);
            assert(used.take(i + 1) =~= before.push(used[i as int]));
            lemma_le_nat_bound(used.take(i + 1));
            lemma_le_nat_bound(before);
            assert(power256(8) == 0x1_0000_0000_0000_0000);
            assert(le_nat(used.take(i + 1)) < power256((i + 1) as nat) <= power256(8));
            let p = place as int;
            let b = used[i as int] as int;
            assert(0 <= p * b) by (nonlinear_arith)
                requires
                    0 <= p,
                    0 <= b,
            ;
        }
        x = x + place * bytes[i] as u64;
        if i < 7 {
            place = place * 256;
        }
        i = i + 1;
    }
    assert(used.take(i as int) =~= used);
    x
}

/// The shortest little-endian encoding of a number; none for zero.
pub open spec fn minimal_le_of(n: nat) -> Seq<u8>
    decreases n,
{
    if n == 0 {
        Seq::empty()
    } else {
        seq![(n % 256) as u8] + minimal_le_of(n / 256)
    }
}

/// The shortest little-endian encoding of a number.
pub fn minimal_le(n: u64) -> (r: Vec<u8>)
    ensures
        r@ == minimal_le_of(n as nat),
{
    let mut out: Vec<u8> = Vec::new();
    let mut rest: u64 = n;
    while rest > 0
        invariant
            out@ + minimal_le_of(rest as nat) == minimal_le_of(n as nat),
        decreases rest,
    {
        let ghost before = out@;
        out.push((rest % 256) as u8);
        proof {
            let tail = minimal_le_of((rest / 256) as nat);
            assert(out@ + tail =~= before + (seq![(rest as nat % 256) as u8] + tail));
        }
        rest = rest / 256;
    }
    assert(out@ =~= out@ + minimal_le_of(0));
    out
}

proof fn lemma_minimal_le_len(n: nat, k: nat)
    requires
        n < power256(k),
    ensures
        minimal_le_of(n).len() <= k,
    decreases k,
{
    if k > 0 && n > 0 {
        lemma_minimal_le_len(n / 256, (k - 1) as nat);
    }
}

proof fn lemma_minimal_le_value(n: nat)
    ensures
        le_nat(minimal_le_of(n)) == n,
    decreases n,
{
    if n > 0 {
        lemma_minimal_le_value(n / 256);
        assert(minimal_le_of(n).drop_first() =~= minimal_le_of(n / 256));
    }
}

/// Reading the shortest encoding of a number gives the number back.
pub proof fn theorem_minimal_le_round_trip(n: u64)
    ensures
        le_nat(first_eight(minimal_le_of(n as nat))) == n,
{
    assert(power256(8) == 0x1_0000_0000_0000_0000) by {
        reveal_with_fuel(power256, 9);
    }
    lemma_minimal_le_len(n as nat, 8);
    lemma_minimal_le_value(n as nat);
}

/// What the faucet does for an account.
#[derive(Clone, Copy, PartialEq, Eq, Structural, Debug)]
pub enum FaucetGrant {
    /// Open a balance of this amount.
    Open(u64),
    /// Add this amount to the balance.
    TopUp(u64),
    Nothing,
}

/// What the faucet does for an account with a balance, or without one.
pub fn faucet_grant(balance: Option<u64>) -> (r: FaucetGrant)
    ensures
        r == match balance {
            None => FaucetGrant::Open(FAUCET_TOPUP_TO),
            Some(b) => if b < FAUCET_TOPUP_BELOW {
                FaucetGrant::TopUp((FAUCET_TOPUP_TO - b) as u64)
            } else {
                FaucetGrant::Nothing
            },
        },
        balance_after(balance, r) >= FAUCET_TOPUP_BELOW,
{
    match balance {
        None => FaucetGrant::Open(FAUCET_TOPUP_TO),
        Some(b) => {
            if b < FAUCET_TOPUP_BELOW {
                FaucetGrant::TopUp(FAUCET_TOPUP_TO - b)
            } else {
                FaucetGrant::Nothing
            }
        },
    }
}

/// The balance of an account after a grant.
pub open spec fn balance_after(balance: Option<u64>, grant: FaucetGrant) -> int {
    match grant {
        FaucetGrant::Open(amount) => amount as int,
        FaucetGrant::TopUp(amount) => balance->0 + amount,
        FaucetGrant::Nothing => balance->0 as int,
    }
}

/// An argument of a call as a player sends it.
pub struct CalldataEl {
    pub kind: String,
    pub value: u64,
}

/// A call as a player sends it.
pub struct CallReq {
    pub account_key: String,
    pub registery_index: u64,
    pub bls_key: String,
    pub method_index: u16,
    pub calldata: Vec<CalldataEl>,
    pub ops_price: u64,
    pub target: u64,
    pub bls_signature: String,
}

/// The amounts among arguments, each by its low 32 bits.
pub open spec fn payables(calldata: Seq<CalldataEl>) -> Seq<u32>
    decreases calldata.len(),
{
    if calldata.len() == 0 {
        Seq::empty()
    } else if calldata.last().kind@ == "payable"@ {
        payables(calldata.drop_last()).push((calldata.last().value % 0x1_0000_0000) as u32)
    } else {
        payables(calldata.drop_last())
    }
}

/// Amounts as arguments.
pub open spec fn are_payables(elements: Seq<CalldataElement>, amounts: Seq<u32>) -> bool {
    &&& elements.len() == amounts.len()
    &&& forall|i: int|
        0 <= i < elements.len() ==> #[trigger] elements[i] == CalldataElement::Payable(amounts[i])
}

/// The amounts among arguments; any other argument is dropped.
pub fn payable_calldata(calldata: &[CalldataEl]) -> (r: Vec<CalldataElement>)
    ensures
        are_payables(r@, payables(calldata@)),
{
    let payable: String = "payable".to_owned();
    let mut r: Vec<CalldataElement> = Vec::new();
    let mut i: usize = 0;
    assert(calldata@.take(0) =~= Seq::empty());
    while i < calldata.len()
        invariant
            i <= calldata@.len(),
            payable@ == "payable"@,
            are_payables(r@, payables(calldata@.take(i as int))),
        decreases calldata@.len() - i,
    {
        proof {
            assert(calldata@.take(i + 1).drop_last() =~= calldata@.take(i as int));
        }
        let el = &calldata[i];
        if el.kind == payable {
            let value: u64 = el.value;
            assert(value as u32 == value % 0x1_0000_0000) by (bit_vector);
            r.push(CalldataElement::Payable(value as u32));
        }
        i = i + 1;
    }
    assert(calldata@.take(i as int) =~= calldata@);
    r
}

/// Why a player's call is not read.
#[derive(Clone, Copy, PartialEq, Eq, Structural, Debug)]
pub enum CallReqError {
    BadAccountKey,
    BadBlsKey,
    BadSignature,
}

impl CallReqError {
    /// What the player is told.
    pub fn message(&self) -> (r: &'static str)
        ensures
            r@ == match self {
                CallReqError::BadAccountKey => "bad account key"@,
                CallReqError::BadBlsKey => "bad bls key"@,
                CallReqError::BadSignature => "bad signature"@,
            },
    {
        match self {
            CallReqError::BadAccountKey => "bad account key",
            CallReqError::BadBlsKey => "bad bls key",
            CallReqError::BadSignature => "bad signature",
        }
    }
}

/// Bytes as an array.
pub fn array48(bytes: &Vec<u8>) -> (r: [u8; 48])
    requires
        bytes@.len() == 48,
    ensures
        r@ == bytes@,
{
    let mut r: [u8; 48] = [0u8; 48];
    let mut i: usize = 0;
    while i < 48
        invariant
            i <= 48,
            bytes@.len() == 48,
            forall|j: int| 0 <= j < i ==> r@[j] == bytes@[j],
        decreases 48 - i,
    {
        r[i] = bytes[i];
        i = i + 1;
    }
    assert(r@ =~= bytes@);
    r
}

/// Bytes as an array.
pub fn array96(bytes: &Vec<u8>) -> (r: [u8; 96])
    requires
        bytes@.len() == 96,
    ensures
        r@ == bytes@,
{
    let mut r: [u8; 96] = [0u8; 96];
    let mut i: usize = 0;
    while i < 96
        invariant
            i <= 96,
            bytes@.len() == 96,
            forall|j: int| 0 <= j < i ==> r@[j] == bytes@[j],
        decreases 96 - i,
    {
        r[i] = bytes[i];
        i = i + 1;
    }
    assert(r@ =~= bytes@);
    r
}

/// The text of a string in bytes.
pub open spec fn string_bytes(s: String) -> Seq<u8> {
    vstd::utf8::encode_utf8(s@)
}

/// The two keys of a faucet request. Fails where one is not read.
pub fn faucet_keys(account_key: &String, bls_key: &String) -> (r: Option<([u8; 32], [u8; 48])>)
    ensures
        match r {
            None => parsed_hex(string_bytes(*account_key), 32) is None || parsed_hex(
                string_bytes(*bls_key),
                48,
            ) is None,
            Some(keys) => {
                &&& parsed_hex(string_bytes(*account_key), 32) == Some(keys.0@)
                &&& parsed_hex(string_bytes(*bls_key), 48) == Some(keys.1@)
            },
        },
{
    match (parse_hex(account_key.as_str(), 32), parse_hex(bls_key.as_str(), 48)) {
        (Some(a), Some(b)) => {
            let account = array32(&a, 0);
            assert(account@ =~= a@);
            Some((account, array48(&b)))
        },
        _ => None,
    }
}

/// Why a player's call cannot be read, where it cannot.
pub open spec fn request_error(body: CallReq) -> Option<CallReqError> {
    if parsed_hex(string_bytes(body.account_key), 32) is None {
        Some(CallReqError::BadAccountKey)
    } else if parsed_hex(string_bytes(body.bls_key), 48) is None {
        Some(CallReqError::BadBlsKey)
    } else if parsed_hex(string_bytes(body.bls_signature), 96) is None {
        Some(CallReqError::BadSignature)
    } else {
        None
    }
}

/// Whether a call and a signature are what a player sent. `contract` is the contract as
/// the registery has it; one that it does not have gets index zero.
pub open spec fn reads_as(
    body: CallReq,
    contract_id: [u8; 32],
    contract: Option<Contract>,
    call: Call,
    signature: [u8; 96],
) -> bool {
    &&& call.account is RegisteredAndConfiguredRootAccount
    &&& parsed_hex(string_bytes(body.account_key), 32) == Some(call.account.spec_account_key()@)
    &&& call.account->RegisteredAndConfiguredRootAccount_registery_index == body.registery_index
    &&& parsed_hex(string_bytes(body.bls_key), 48) == Some(call.account.spec_bls_key()@)
    &&& call.contract == match contract {
        None => (Contract { contract_id, registery_index: 0 }),
        Some(c) => c,
    }
    &&& call.method_index == body.method_index
    &&& are_payables(call.calldata_elements@, payables(body.calldata@))
    &&& call.ops_budget is None
    &&& call.ops_price == body.ops_price
    &&& call.target.targeted_at_batch_height == body.target
    &&& parsed_hex(string_bytes(body.bls_signature), 96) == Some(signature@)
}

/// Reads a player's call and its signature: the call exactly as the player signed it.
/// `contract` is the contract as the registery has it; one that it does not have gets
/// index zero.
pub fn read_call(
    body: &CallReq,
    contract_id: [u8; 32],
    contract: Option<Contract>,
) -> (r: Result<(Call, [u8; 96]), CallReqError>)
    ensures
        match request_error(*body) {
            Some(e) => r == Err::<(Call, [u8; 96]), CallReqError>(e),
            None => match r {
                Err(_) => false,
                Ok((call, signature)) => reads_as(*body, contract_id, contract, call, signature),
            },
        },
{
    let account_key = match parse_hex(body.account_key.as_str(), 32) {
        None => {
            return Err(CallReqError::BadAccountKey);
        },
        Some(b) => array32(&b, 0),
    };
    assert(account_key@ =~= parsed_hex(string_bytes(body.account_key), 32)->0);
    let bls_key = match parse_hex(body.bls_key.as_str(), 48) {
        None => {
            return Err(CallReqError::BadBlsKey);
        },
        Some(b) => array48(&b),
    };
    let signature = match parse_hex(body.bls_signature.as_str(), 96) {
        None => {
            return Err(CallReqError::BadSignature);
        },
        Some(b) => array96(&b),
    };
    let contract = match contract {
        None => Contract { contract_id, registery_index: 0 },
        Some(c) => c,
    };
    let call = Call {
        account: RootAccount::RegisteredAndConfiguredRootAccount {
            account_key,
            registery_index: body.registery_index,
            bls_key,
        },
        contract,
        method_index: body.method_index,
        calldata_elements: payable_calldata(&body.calldata),
        ops_budget: None,
        ops_price: body.ops_price,
        target: Target { targeted_at_batch_height: body.target },
    };
    Ok((call, signature))
}

/// Why a player's call is refused before it runs.
#[derive(Clone, Copy, PartialEq, Eq, Structural, Debug)]
pub enum CallRefusal {
    BadRequest(CallReqError),
    SignatureRejected,
}

impl CallRefusal {
    /// What the player is told.
    pub fn message(&self) -> (r: &'static str)
        ensures
            r@ == match self {
                CallRefusal::BadRequest(CallReqError::BadAccountKey) => "bad account key"@,
                CallRefusal::BadRequest(CallReqError::BadBlsKey) => "bad bls key"@,
                CallRefusal::BadRequest(CallReqError::BadSignature) => "bad signature"@,
                CallRefusal::SignatureRejected => "signature verification failed"@,
            },
    {
        match self {
            CallRefusal::BadRequest(e) => e.message(),
            CallRefusal::SignatureRejected => "signature verification failed",
        }
    }
}

/// Whether verifying a signature of a call can end as given: it is accepted where the
/// call has a signature message and the signature of that message under the BLS key of
/// the account verifies.
pub open spec fn verifies_as<
    S: FnOnce(&Call) -> Result<[u8; 32], CallSighashError>,
    F: FnOnce([u8; 48], [u8; 32], [u8; 96]) -> bool,
>(call: Call, signature: [u8; 96], sighash: S, verify: F, accepted: bool) -> bool {
    exists|message: Result<[u8; 32], CallSighashError>|
        {
            &&& #[trigger] call_ensures(sighash, (&call,), message)
            &&& match message {
                Err(_) => !accepted,
                Ok(h) => call_ensures(
                    verify,
                    (call.account.spec_bls_key(), h, signature),
                    accepted,
                ),
            }
        }
}

/// Admits a player's call to execution: it is read, and its signature is verified.
/// `sighash` gives the signature message of the call, `verify` is the BLS verification of
/// key, message and signature. There is a call to execute if and only if the request can
/// be read and the signature is accepted.
pub fn admit_call<
    S: FnOnce(&Call) -> Result<[u8; 32], CallSighashError>,
    F: FnOnce([u8; 48], [u8; 32], [u8; 96]) -> bool,
>(
    body: &CallReq,
    contract_id: [u8; 32],
    contract: Option<Contract>,
    sighash: S,
    verify: F,
) -> (r: Result<Call, CallRefusal>)
    requires
        forall|call: Call| #[trigger] call_requires(sighash, (&call,)),
        forall|key: [u8; 48], message: [u8; 32], signature: [u8; 96]| #[trigger]
            call_requires(verify, (key, message, signature)),
    ensures
        match request_error(*body) {
            Some(e) => r == Err::<Call, CallRefusal>(CallRefusal::BadRequest(e)),
            None => exists|call: Call, signature: [u8; 96], accepted: bool|
                {
                    &&& reads_as(*body, contract_id, contract, call, signature)
                    &&& #[trigger] verifies_as(call, signature, sighash, verify, accepted)
                    &&& r == if accepted {
                        Ok::<Call, CallRefusal>(call)
                    } else {
                        Err(CallRefusal::SignatureRejected)
                    }
                },
        },
{
    let (call, signature) = match read_call(body, contract_id, contract) {
        Err(e) => {
            return Err(CallRefusal::BadRequest(e));
        },
        Ok(read) => read,
    };
    let message = sighash(&call);
    let accepted: bool = call.bls_verify(signature, message, verify).is_ok();
    assert(verifies_as(call, signature, sighash, verify, accepted)) by {
        assert(call_ensures(sighash, (&call,), message));
    }
    if accepted {
        Ok(call)
    } else {
        Err(CallRefusal::SignatureRejected)
    }
}

/// What follows the execution of a player's call.
pub enum AfterExecution<T> {
    /// Commit the changes; where the call drew a winner, look the winner up.
    Commit { draw: bool },
    /// Discard the changes and answer this.
    Discard(JsonObject<T>),
}

/// What follows the execution of a player's call, which went through or failed with the
/// described error.
pub fn after_execution<T>(body: &CallReq, result: Result<(), String>) -> (r: AfterExecution<T>)
    ensures
        match result {
            Ok(_) => r == (AfterExecution::<T>::Commit { draw: body.method_index == DRAW_METHOD }),
            Err(e) => match r {
                AfterExecution::Discard(answer) => answer@ == refusal_fields::<T>(e@),
                _ => false,
            },
        },
{
    match result {
        Ok(_) => AfterExecution::Commit { draw: is_draw(body) },
        Err(e) => AfterExecution::Discard(refusal_json(e.as_str())),
    }
}

/// Where the arcade is served: on this machine alone, as a version 4 address and a port.
pub fn arcade_address(port: u16) -> (r: ([u8; 4], u16))
    ensures
        r.0@ == seq![127u8, 0u8, 0u8, 1u8],
        r.1 == port,
{
    let host: [u8; 4] = [127, 0, 0, 1];
    assert(host@ =~= seq![127u8, 0u8, 0u8, 1u8]);
    (host, port)
}

/// The sum of bytes.
pub open spec fn byte_sum(bytes: Seq<u8>) -> nat
    decreases bytes.len(),
{
    if bytes.len() == 0 {
        0
    } else {
        byte_sum(bytes.drop_last()) + bytes.last() as nat
    }
}

/// The entry that a draw picks: an offset into the round that was drawn, whose start is
/// stored plus one.
pub open spec fn winner_index(round_stored: u64, block_hash: Seq<u8>) -> nat {
    (if round_stored == 0 {
        0
    } else {
        (round_stored - 1) as nat
    }) + byte_sum(block_hash) % (ROUND as nat)
}

/// The entry that a draw picks, where its number fits.
pub fn drawn_entry(round_stored: u64, block_hash: &[u8; 32]) -> (r: Option<u64>)
    ensures
        match r {
            None => winner_index(round_stored, block_hash@) > u64::MAX,
            Some(index) => index == winner_index(round_stored, block_hash@),
        },
{
    let mut sum: u64 = 0;
    let mut i: usize = 0;
    assert(block_hash@.take(0) =~= Seq::empty());
    while i < 32
        invariant
            i <= 32,
            sum == byte_sum(block_hash@.take(i as int)),
            sum <= 255 * i,
        decreases 32 - i,
    {
        assert(block_hash@.take(i + 1).drop_last() =~= block_hash@.take(i as int));
        sum = sum + block_hash[i] as u64;
        i = i + 1;
    }
    assert(block_hash@.take(i as int) =~= block_hash@);
    let start: u64 = if round_stored == 0 {
        0
    } else {
        round_stored - 1
    };
    start.checked_add(sum % ROUND)
}

/// The state key of the entry that a draw picks.
pub fn winner_slot_key(round_stored: u64, block_hash: &[u8; 32]) -> (r: Vec<u8>)
    requires
        winner_index(round_stored, block_hash@) <= u64::MAX,
    ensures
        r@ == seq![KEY_S] + minimal_le_of(winner_index(round_stored, block_hash@)),
{
    let index: u64 = drawn_entry(round_stored, block_hash).unwrap();
    let mut key: Vec<u8> = Vec::new();
    key.push(KEY_S);
    let tail = minimal_le(index);
    push_slice(&mut key, &tail);
    assert(key@ =~= seq![KEY_S] + minimal_le_of(index as nat));
    key
}

/// Whether a call draws a winner, which is then looked up and shown.
pub fn is_draw(body: &CallReq) -> (r: bool)
    ensures
        r == (body.method_index == DRAW_METHOD),
{
    body.method_index == DRAW_METHOD
}

/// What is known of an account.
#[derive(Clone, Copy)]
pub struct AccountStatus {
    pub registery_index: Option<u64>,
    pub balance: Option<u64>,
}

/// A number, zero where there is none.
pub open spec fn or_zero(n: Option<u64>) -> u64 {
    match n {
        None => 0,
        Some(v) => v,
    }
}

fn number_or_zero(n: Option<u64>) -> (r: u64)
    ensures
        r == or_zero(n),
{
    match n {
        None => 0,
        Some(v) => v,
    }
}

/// A text value, or none.
pub open spec fn text_or_null<T>(s: Option<String>) -> LeafModel<T> {
    match s {
        None => LeafModel::Null,
        Some(t) => LeafModel::Text(t@),
    }
}

/// The answer to a request for an account: whether it is registered, its index and its
/// balance.
pub fn account_json<T>(status: AccountStatus) -> (r: JsonObject<T>)
    ensures
        r@ == seq![
            ("registered"@, LeafModel::<T>::Flag(status.registery_index is Some)),
            ("registery_index"@, LeafModel::Number(or_zero(status.registery_index))),
            ("balance"@, LeafModel::Number(or_zero(status.balance))),
        ],
{
    let r = JsonObject::new().with(
        "registered",
        JsonLeaf::Flag(status.registery_index.is_some()),
    ).with("registery_index", JsonLeaf::Number(number_or_zero(status.registery_index))).with(
        "balance",
        JsonLeaf::Number(number_or_zero(status.balance)),
    );
    assert(r@ =~= seq![
        ("registered"@, LeafModel::<T>::Flag(status.registery_index is Some)),
        ("registery_index"@, LeafModel::Number(or_zero(status.registery_index))),
        ("balance"@, LeafModel::Number(or_zero(status.balance))),
    ]);
    r
}

/// What is known of the lottery.
pub struct LotteryStatus {
    pub contract_id: [u8; 32],
    pub contract_registery_index: Option<u64>,
    pub batch_height_tip: u64,
    /// The stored values of the number of entries and of the armed flag.
    pub n: Option<Vec<u8>>,
    pub armed: Option<Vec<u8>>,
    pub treasury: Option<u64>,
    pub last_winner: Option<String>,
}

/// A stored number, zero where nothing is stored.
pub open spec fn stored_number(value: Option<Vec<u8>>) -> nat {
    match value {
        None => 0,
        Some(v) => le_nat(first_eight(v@)),
    }
}

/// A stored number, zero where nothing is stored.
pub fn read_stored(value: &Option<Vec<u8>>) -> (r: u64)
    ensures
        r == stored_number(*value),
{
    match value {
        None => 0,
        Some(v) => le_uint(v),
    }
}

/// The fields of the state of the lottery.
pub open spec fn state_fields<T>(s: LotteryStatus) -> Seq<(Seq<char>, LeafModel<T>)> {
    seq![
        ("contract_id"@, LeafModel::Text(hex_of(s.contract_id@))),
        ("contract_registery_index"@, LeafModel::Number(or_zero(s.contract_registery_index))),
        ("batch_height_tip"@, LeafModel::Number(s.batch_height_tip)),
        ("n"@, LeafModel::Number(stored_number(s.n) as u64)),
        ("treasury"@, LeafModel::Number(or_zero(s.treasury))),
        ("armed"@, LeafModel::Number(stored_number(s.armed) as u64)),
        ("round_size"@, LeafModel::Number(ROUND)),
        ("entry_cost"@, LeafModel::Number(ENTRY_COST)),
        ("payout"@, LeafModel::Number(PAYOUT)),
        ("last_winner"@, text_or_null(s.last_winner)),
    ]
}

fn text_leaf<T>(s: &Option<String>) -> (r: JsonLeaf<T>)
    ensures
        r@ == text_or_null::<T>(*s),
{
    match s {
        None => JsonLeaf::Null,
        Some(t) => text(t.as_str()),
    }
}

/// The state of the lottery, and of an account where one is asked for.
pub fn state_json<T>(s: &LotteryStatus, account: Option<AccountStatus>) -> (r: JsonObject<
    JsonObject<T>,
>)
    ensures
        match account {
            None => r@ == state_fields::<JsonObject<T>>(*s),
            Some(status) => {
                &&& r@.len() == 11
                &&& r@.drop_last() == state_fields::<JsonObject<T>>(*s)
                &&& r@.last().0 == "account"@
                &&& match r@.last().1 {
                    LeafModel::Inner(inner) => inner@ == seq![
                        ("registered"@, LeafModel::<T>::Flag(status.registery_index is Some)),
                        ("registery_index"@, LeafModel::Number(or_zero(status.registery_index))),
                        ("balance"@, LeafModel::Number(or_zero(status.balance))),
                    ],
                    _ => false,
                }
            },
        },
{
    let base = JsonObject::new().with(
        "contract_id",
        JsonLeaf::Text(hex_encode(&s.contract_id)),
    ).with(
        "contract_registery_index",
        JsonLeaf::Number(number_or_zero(s.contract_registery_index)),
    ).with("batch_height_tip", JsonLeaf::Number(s.batch_height_tip)).with(
        "n",
        JsonLeaf::Number(read_stored(&s.n)),
    ).with("treasury", JsonLeaf::Number(number_or_zero(s.treasury))).with(
        "armed",
        JsonLeaf::Number(read_stored(&s.armed)),
    ).with("round_size", JsonLeaf::Number(ROUND)).with(
        "entry_cost",
        JsonLeaf::Number(ENTRY_COST),
    ).with("payout", JsonLeaf::Number(PAYOUT)).with("last_winner", text_leaf(&s.last_winner));
    assert(base@ =~= state_fields::<JsonObject<T>>(*s));
    match account {
        None => base,
        Some(status) => {
            let r = base.with("account", JsonLeaf::Inner(account_json(status)));
            assert(r@.drop_last() =~= state_fields::<JsonObject<T>>(*s));
            r
        },
    }
}

/// The answer to a faucet request.
pub fn faucet_json<T>(status: AccountStatus) -> (r: JsonObject<T>)
    ensures
        r@ == seq![
            ("registery_index"@, LeafModel::<T>::Number(or_zero(status.registery_index))),
            ("balance"@, LeafModel::Number(or_zero(status.balance))),
        ],
{
    let r = JsonObject::new().with(
        "registery_index",
        JsonLeaf::Number(number_or_zero(status.registery_index)),
    ).with("balance", JsonLeaf::Number(number_or_zero(status.balance)));
    assert(r@ =~= seq![
        ("registery_index"@, LeafModel::<T>::Number(or_zero(status.registery_index))),
        ("balance"@, LeafModel::Number(or_zero(status.balance))),
    ]);
    r
}

/// The fields of the answer to a call that is refused.
pub open spec fn refusal_fields<T>(message: Seq<char>) -> Seq<(Seq<char>, LeafModel<T>)> {
    seq![("ok"@, LeafModel::Flag(false)), ("error"@, LeafModel::Text(message))]
}

/// The answer to a call that is refused.
pub fn refusal_json<T>(message: &str) -> (r: JsonObject<T>)
    ensures
        r@ == refusal_fields::<T>(message@),
{
    let r = JsonObject::new().with("ok", JsonLeaf::Flag(false)).with("error", text(message));
    assert(r@ =~= refusal_fields::<T>(message@));
    r
}

/// What a call did to balances.
#[derive(Clone, Copy)]
pub struct CallOutcome {
    pub balance_before: Option<u64>,
    pub balance_after: Option<u64>,
    pub treasury: Option<u64>,
}

/// The answer to an executed call. It was won if the balance grew; `winner` is the entry
/// that a draw picked, if the call was one.
pub fn outcome_json<T>(o: CallOutcome, winner: &Option<String>) -> (r: JsonObject<T>)
    ensures
        r@ == seq![
            ("ok"@, LeafModel::<T>::Flag(true)),
            ("balance"@, LeafModel::Number(or_zero(o.balance_after))),
            ("won"@, LeafModel::Flag(or_zero(o.balance_after) > or_zero(o.balance_before))),
            ("payout"@, LeafModel::Number(PAYOUT)),
            ("treasury"@, LeafModel::Number(or_zero(o.treasury))),
            ("winner"@, text_or_null(*winner)),
        ],
{
    let after = number_or_zero(o.balance_after);
    let won: bool = after > number_or_zero(o.balance_before);
    let r = JsonObject::new().with("ok", JsonLeaf::Flag(true)).with(
        "balance",
        JsonLeaf::Number(after),
    ).with("won", JsonLeaf::Flag(won)).with("payout", JsonLeaf::Number(PAYOUT)).with(
        "treasury",
        JsonLeaf::Number(number_or_zero(o.treasury)),
    ).with("winner", text_leaf(winner));
    assert(r@ =~= seq![
        ("ok"@, LeafModel::<T>::Flag(true)),
        ("balance"@, LeafModel::Number(or_zero(o.balance_after))),
        ("won"@, LeafModel::Flag(or_zero(o.balance_after) > or_zero(o.balance_before))),
        ("payout"@, LeafModel::Number(PAYOUT)),
        ("treasury"@, LeafModel::Number(or_zero(o.treasury))),
        ("winner"@, text_or_null(*winner)),
    ]);
    r
}

/// The answer to a request to mine: the new tip.
pub fn mined_json<T>(tip: &[u8; 32]) -> (r: JsonObject<T>)
    ensures
        r@ == seq![
            ("ok"@, LeafModel::<T>::Flag(true)),
            ("tip"@, LeafModel::Text(hex_of(tip@))),
        ],
{
    let r = JsonObject::new().with("ok", JsonLeaf::Flag(true)).with(
        "tip",
        JsonLeaf::Text(hex_encode(tip)),
    );
    assert(r@ =~= seq![
        ("ok"@, LeafModel::<T>::Flag(true)),
        ("tip"@, LeafModel::Text(hex_of(tip@))),
    ]);
    r
}

/// A stored number is read from all its bytes, up to eight of them; further bytes do not
/// count.
pub proof fn theorem_numbers_are_read(bytes: &[u8], r: u64)
    requires
        call_ensures(le_uint, (bytes,), r),
    ensures
        bytes@.len() <= 8 ==> r == le_nat(bytes@),
        bytes@.len() >= 8 ==> r == le_nat(bytes@.take(8)),
{
    if bytes@.len() == 8 {
        assert(bytes@.take(8) =~= bytes@);
    }
}

/// The encoding of a number gives the number back when it is read, takes at most eight
/// bytes and does not end in a zero, so that no shorter one spells the number.
pub proof fn theorem_encodings_are_minimal(n: u64, encoded: Vec<u8>, bytes: &[u8], read: u64)
    requires
        call_ensures(minimal_le, (n,), encoded),
        bytes@ == encoded@,
        call_ensures(le_uint, (bytes,), read),
    ensures
        read == n,
        encoded@.len() <= 8,
        le_nat(encoded@) == n,
        n > 0 ==> encoded@.len() > 0 && encoded@.last() != 0,
        n == 0 ==> encoded@.len() == 0,
{
    assert(power256(8) == 0x1_0000_0000_0000_0000) by {
        reveal_with_fuel(power256, 9);
    }
    theorem_minimal_le_round_trip(n);
    lemma_minimal_le_len(n as nat, 8);
    lemma_minimal_le_value(n as nat);
    lemma_minimal_le_last(n as nat);
}

proof fn lemma_minimal_le_last(n: nat)
    ensures
        n > 0 ==> minimal_le_of(n).len() > 0 && minimal_le_of(n).last() != 0,
    decreases n,
{
    if n > 0 {
        let rest = minimal_le_of(n / 256);
        if n / 256 > 0 {
            lemma_minimal_le_last(n / 256);
            assert(minimal_le_of(n).last() == rest.last());
        } else {
            assert(rest.len() == 0);
            assert(minimal_le_of(n) =~= seq![(n % 256) as u8]);
        }
    }
}

/// The faucet opens a balance of 100,000, fills one below 30,000 up to 100,000, and does
/// nothing for any other.
pub proof fn theorem_faucet_fills_up(balance: Option<u64>, r: FaucetGrant)
    requires
        call_ensures(faucet_grant, (balance,), r),
    ensures
        r is Open <==> balance is None,
        r is Open ==> r->Open_0 == 100_000,
        r is TopUp <==> balance is Some && balance->0 < 30_000,
        r is TopUp ==> balance->0 + r->TopUp_0 == 100_000,
{
}

/// The amounts of two lists of arguments are those of the one and then those of the other.
/// An argument is an amount if and only if it says so, and then by its low 32 bits.
pub proof fn theorem_payables_add_up(
    a: &[CalldataEl],
    b: &[CalldataEl],
    both: &[CalldataEl],
    one: &[CalldataEl],
    of_a: Vec<CalldataElement>,
    of_b: Vec<CalldataElement>,
    of_both: Vec<CalldataElement>,
    of_one: Vec<CalldataElement>,
)
    requires
        both@ == a@ + b@,
        one@.len() == 1,
        call_ensures(payable_calldata, (a,), of_a),
        call_ensures(payable_calldata, (b,), of_b),
        call_ensures(payable_calldata, (both,), of_both),
        call_ensures(payable_calldata, (one,), of_one),
    ensures
        of_both@ == of_a@ + of_b@,
        one@[0].kind@ != "payable"@ ==> of_one@.len() == 0,
        one@[0].kind@ == "payable"@ ==> {
            &&& of_one@.len() == 1
            &&& of_one@[0] is Payable
            &&& of_one@[0]->Payable_0 == one@[0].value % 0x1_0000_0000
        },
{
    reveal_with_fuel(payables, 2);
    lemma_payables_join(a@, b@);
    assert(of_both@ =~= of_a@ + of_b@) by {
        assert forall|i: int| 0 <= i < of_both@.len() implies of_both@[i] == (of_a@ + of_b@)[i] by {
            assert(of_both@[i] == CalldataElement::Payable(payables(both@)[i]));
            if i < of_a@.len() {
                assert(of_a@[i] == CalldataElement::Payable(payables(a@)[i]));
            } else {
                let j = i - of_a@.len();
                assert(of_b@[j] == CalldataElement::Payable(payables(b@)[j]));
            }
        }
    }
    assert(one@.drop_last() =~= Seq::empty());
    assert(payables(one@.drop_last()) =~= Seq::empty());
    assert(one@.last() == one@[0]);
    if one@[0].kind@ == "payable"@ {
        assert(of_one@[0] == CalldataElement::Payable(payables(one@)[0]));
    }
}

proof fn lemma_payables_join(a: Seq<CalldataEl>, b: Seq<CalldataEl>)
    ensures
        payables(a + b) == payables(a) + payables(b),
    decreases b.len(),
{
    if b.len() == 0 {
        assert(a + b =~= a);
        assert(payables(a) + payables(b) =~= payables(a));
    } else {
        lemma_payables_join(a, b.drop_last());
        assert((a + b).drop_last() =~= a + b.drop_last());
        assert((a + b).last() == b.last());
        assert(payables(a + b) =~= payables(a) + payables(b));
    }
}

/// What is read of a player's call is what the player sent, field by field; a contract
/// that the registery has is the one that is called, else the given one with index zero.
pub proof fn theorem_calls_are_read_as_sent(
    body: &CallReq,
    contract_id: [u8; 32],
    contract: Option<Contract>,
    call: Call,
    signature: [u8; 96],
    calldata: &[CalldataEl],
    elements: Vec<CalldataElement>,
)
    requires
        call_ensures(
            read_call,
            (body, contract_id, contract),
            Ok::<(Call, [u8; 96]), CallReqError>((call, signature)),
        ),
        calldata@ == body.calldata@,
        call_ensures(payable_calldata, (calldata,), elements),
    ensures
        call.account is RegisteredAndConfiguredRootAccount,
        parsed_hex(vstd::utf8::encode_utf8(body.account_key@), 32) == Some(
            call.account->RegisteredAndConfiguredRootAccount_account_key@,
        ),
        parsed_hex(vstd::utf8::encode_utf8(body.bls_key@), 48) == Some(
            call.account->RegisteredAndConfiguredRootAccount_bls_key@,
        ),
        parsed_hex(vstd::utf8::encode_utf8(body.bls_signature@), 96) == Some(signature@),
        call.account->RegisteredAndConfiguredRootAccount_registery_index == body.registery_index,
        contract is Some ==> call.contract == contract->0,
        contract is None ==> call.contract.contract_id == contract_id
            && call.contract.registery_index == 0,
        call.method_index == body.method_index,
        call.calldata_elements@ == elements@,
        call.ops_budget is None,
        call.ops_price == body.ops_price,
        call.target.targeted_at_batch_height == body.target,
{
    assert(call.calldata_elements@ =~= elements@) by {
        assert forall|i: int| 0 <= i < elements@.len() implies call.calldata_elements@[i]
            == elements@[i] by {
            assert(elements@[i] == CalldataElement::Payable(payables(calldata@)[i]));
            assert(call.calldata_elements@[i] == CalldataElement::Payable(payables(calldata@)[i]));
        }
    }
}

/// A player's call is read if and only if account key, BLS key and signature are; the
/// first of them that is not, in this order, is what the player is told of.
pub proof fn theorem_unreadable_requests_are_refused(
    body: &CallReq,
    contract_id: [u8; 32],
    contract: Option<Contract>,
    r: Result<(Call, [u8; 96]), CallReqError>,
)
    requires
        call_ensures(read_call, (body, contract_id, contract), r),
    ensures
        ({
            let account = parsed_hex(vstd::utf8::encode_utf8(body.account_key@), 32) is Some;
            let bls = parsed_hex(vstd::utf8::encode_utf8(body.bls_key@), 48) is Some;
            let signed = parsed_hex(vstd::utf8::encode_utf8(body.bls_signature@), 96) is Some;
            &&& r is Ok <==> account && bls && signed
            &&& r is Err && r->Err_0 is BadAccountKey <==> !account
            &&& r is Err && r->Err_0 is BadBlsKey <==> account && !bls
            &&& r is Err && r->Err_0 is BadSignature <==> account && bls && !signed
        }),
{
}

/// A faucet request is read if and only if both its keys are, and gives these keys.
pub proof fn theorem_faucet_keys_are_read(
    account_key: &String,
    bls_key: &String,
    r: Option<([u8; 32], [u8; 48])>,
)
    requires
        call_ensures(faucet_keys, (account_key, bls_key), r),
    ensures
        r is Some <==> parsed_hex(vstd::utf8::encode_utf8(account_key@), 32) is Some && parsed_hex(
            vstd::utf8::encode_utf8(bls_key@),
            48,
        ) is Some,
        r is Some ==> {
            &&& parsed_hex(vstd::utf8::encode_utf8(account_key@), 32) == Some((r->0).0@)
            &&& parsed_hex(vstd::utf8::encode_utf8(bls_key@), 48) == Some((r->0).1@)
        },
{
}

/// Only a call whose signature verifies is executed: it is the call that was read, it has
/// a signature message, and the signature that was sent with it is accepted for that
/// message under the BLS key that was sent.
pub proof fn theorem_only_signed_calls_are_admitted<
    S: FnOnce(&Call) -> Result<[u8; 32], CallSighashError>,
    F: FnOnce([u8; 48], [u8; 32], [u8; 96]) -> bool,
>(
    body: &CallReq,
    contract_id: [u8; 32],
    contract: Option<Contract>,
    sighash: S,
    verify: F,
    r: Result<Call, CallRefusal>,
)
    requires
        call_ensures(
            admit_call::<S, F>,
            (body, contract_id, contract, sighash, verify),
            r,
        ),
    ensures
        r is Ok ==> exists|message: [u8; 32], signature: [u8; 96]|
            {
                &&& call_ensures(sighash, (&r->Ok_0,), Ok::<[u8; 32], CallSighashError>(message))
                &&& #[trigger] call_ensures(
                    verify,
                    (
                        r->Ok_0.account->RegisteredAndConfiguredRootAccount_bls_key,
                        message,
                        signature,
                    ),
                    true,
                )
                &&& parsed_hex(vstd::utf8::encode_utf8(body.bls_signature@), 96) == Some(
                    signature@,
                )
            },
        r is Ok ==> {
            &&& r->Ok_0.account is RegisteredAndConfiguredRootAccount
            &&& parsed_hex(vstd::utf8::encode_utf8(body.bls_key@), 48) == Some(
                r->Ok_0.account->RegisteredAndConfiguredRootAccount_bls_key@,
            )
            &&& r->Ok_0.method_index == body.method_index
        },
        r is Err && r->Err_0 is BadRequest ==> {
            ||| parsed_hex(vstd::utf8::encode_utf8(body.account_key@), 32) is None
            ||| parsed_hex(vstd::utf8::encode_utf8(body.bls_key@), 48) is None
            ||| parsed_hex(vstd::utf8::encode_utf8(body.bls_signature@), 96) is None
        },
        r is Err && r->Err_0 is SignatureRejected ==> exists|call: Call, signature: [u8; 96]|
            reads_as(*body, contract_id, contract, call, signature) && #[trigger] verifies_as(
                call,
                signature,
                sighash,
                verify,
                false,
            ),
{
    if request_error(*body) is None {
        let (call, signature, accepted) = choose|
            call: Call,
            signature: [u8; 96],
            accepted: bool,
        |
            {
                &&& reads_as(*body, contract_id, contract, call, signature)
                &&& #[trigger] verifies_as(call, signature, sighash, verify, accepted)
                &&& r == if accepted {
                    Ok::<Call, CallRefusal>(call)
                } else {
                    Err(CallRefusal::SignatureRejected)
                }
            };
        let message = choose|message: Result<[u8; 32], CallSighashError>|
            {
                &&& #[trigger] call_ensures(sighash, (&call,), message)
                &&& match message {
                    Err(_) => !accepted,
                    Ok(h) => call_ensures(
                        verify,
                        (call.account.spec_bls_key(), h, signature),
                        accepted,
                    ),
                }
            };
        match message {
            Err(e) => {
                assert(call_ensures(sighash, (&call,), Err::<[u8; 32], CallSighashError>(e)));
            },
            Ok(h) => {
                assert(call_ensures(
                    verify,
                    (call.account.spec_bls_key(), h, signature),
                    accepted,
                ));
            },
        }
    }
}

/// What a player is told, by reason.
pub proof fn theorem_refusals_are_told_apart(
    a: CallRefusal,
    b: CallRefusal,
    told_a: &'static str,
    told_b: &'static str,
)
    requires
        call_ensures(CallRefusal::message, (&a,), told_a),
        call_ensures(CallRefusal::message, (&b,), told_b),
    ensures
        a != b ==> told_a@ != told_b@,
        a == CallRefusal::BadRequest(CallReqError::BadAccountKey) ==> told_a@
            == "bad account key"@,
        a == CallRefusal::BadRequest(CallReqError::BadBlsKey) ==> told_a@ == "bad bls key"@,
        a == CallRefusal::BadRequest(CallReqError::BadSignature) ==> told_a@ == "bad signature"@,
        a == CallRefusal::SignatureRejected ==> told_a@ == "signature verification failed"@,
{
    reveal_strlit("bad account key");
    reveal_strlit("bad bls key");
    reveal_strlit("bad signature");
    reveal_strlit("signature verification failed");
    assert("bad account key"@[4] == 'a');
    assert("bad bls key"@[4] == 'b');
    assert("bad signature"@[4] == 's');
    assert("signature verification failed"@[4] == 'a');
    assert("bad account key"@[0] == 'b');
    assert("signature verification failed"@[0] == 's');
}

/// Changes are committed if and only if the call went through, and a winner is looked up
/// if and only if it was the draw; a failed call is answered with its error.
pub proof fn theorem_only_good_calls_are_committed<T>(
    body: &CallReq,
    result: Result<(), String>,
    r: AfterExecution<T>,
)
    requires
        call_ensures(after_execution::<T>, (body, result), r),
    ensures
        r is Commit <==> result is Ok,
        r is Commit ==> (r->draw <==> body.method_index == 1),
        r is Discard ==> {
            &&& r->Discard_0@.len() == 2
            &&& r->Discard_0@[0] == ("ok"@, LeafModel::<T>::Flag(false))
            &&& r->Discard_0@[1] == ("error"@, LeafModel::<T>::Text(result->Err_0@))
        },
{
}

/// The arcade is served on this machine alone, at the given port.
pub proof fn theorem_arcade_is_local(port: u16, r: ([u8; 4], u16))
    requires
        call_ensures(arcade_address, (port,), r),
    ensures
        r.0@[0] == 127 && r.0@[1] == 0 && r.0@[2] == 0 && r.0@[3] == 1,
        r.1 == port,
{
}

/// The bytes of two strings add up, and one byte counts its value.
pub proof fn theorem_byte_sums_add_up(a: Seq<u8>, b: Seq<u8>, one: u8)
    ensures
        byte_sum(a + b) == byte_sum(a) + byte_sum(b),
        byte_sum(seq![one]) == one,
    decreases b.len(),
{
    reveal_with_fuel(byte_sum, 2);
    assert(seq![one].drop_last() =~= Seq::empty());
    if b.len() == 0 {
        assert(a + b =~= a);
    } else {
        theorem_byte_sums_add_up(a, b.drop_last(), one);
        assert((a + b).drop_last() =~= a + b.drop_last());
        assert((a + b).last() == b.last());
    }
}

/// The entry that a draw picks is one of the three of its round: the start of the round,
/// which is stored plus one, and the sum of the bytes of the block hash modulo three.
pub proof fn theorem_draw_stays_in_round(round_stored: u64, block_hash: [u8; 32], r: Option<u64>)
    requires
        call_ensures(drawn_entry, (round_stored, &block_hash), r),
    ensures
        ({
            let start = if round_stored == 0 {
                0
            } else {
                round_stored - 1
            };
            &&& r is Some ==> start <= r->0 < start + 3 && (byte_sum(block_hash@) - (r->0 - start))
                % 3 == 0
            &&& start <= u64::MAX - 2 ==> r is Some
        }),
{
}

/// The state key of a drawn entry is the letter of the entries, then the number of the
/// entry in its shortest encoding.
pub proof fn theorem_winner_key_names_entry(
    round_stored: u64,
    block_hash: [u8; 32],
    entry: u64,
    encoded: Vec<u8>,
    r: Vec<u8>,
)
    requires
        call_ensures(drawn_entry, (round_stored, &block_hash), Some(entry)),
        call_ensures(minimal_le, (entry,), encoded),
        call_ensures(winner_slot_key, (round_stored, &block_hash), r),
    ensures
        r@.len() == encoded@.len() + 1,
        r@[0] == 0x73,
        r@.skip(1) == encoded@,
{
    assert(r@.skip(1) =~= encoded@);
}

/// A call is the draw by its method alone.
pub proof fn theorem_draw_is_method_one(body: &CallReq, r: bool)
    requires
        call_ensures(is_draw, (body,), r),
    ensures
        r <==> body.method_index == 1,
{
}

/// A stored number is zero where nothing is stored, else the number that is spelled.
pub proof fn theorem_stored_numbers(value: Option<Vec<u8>>, bytes: &[u8], number: u64, r: u64)
    requires
        call_ensures(read_stored, (&value,), r),
        call_ensures(le_uint, (bytes,), number),
        value is Some ==> bytes@ == value->0@,
    ensures
        value is None ==> r == 0,
        value is Some ==> r == number,
{
}

/// The state of the lottery as JSON: what is known of it, the size of a round, the cost of
/// an entry and the payout, each under its name and in this order; the account comes last,
/// where one is asked for.
pub proof fn theorem_state_json<T>(
    s: LotteryStatus,
    account: Option<AccountStatus>,
    n: u64,
    armed: u64,
    r: JsonObject<JsonObject<T>>,
)
    requires
        call_ensures(state_json::<T>, (&s, account), r),
        call_ensures(read_stored, (&s.n,), n),
        call_ensures(read_stored, (&s.armed,), armed),
    ensures
        r@.len() == if account is Some {
            11int
        } else {
            10
        },
        r@[0] == ("contract_id"@, LeafModel::<JsonObject<T>>::Text(hex_of(s.contract_id@))),
        r@[1].0 == "contract_registery_index"@,
        s.contract_registery_index is Some ==> r@[1].1 == LeafModel::<JsonObject<T>>::Number(
            s.contract_registery_index->0,
        ),
        s.contract_registery_index is None ==> r@[1].1 == LeafModel::<JsonObject<T>>::Number(0),
        r@[2] == ("batch_height_tip"@, LeafModel::<JsonObject<T>>::Number(s.batch_height_tip)),
        r@[3] == ("n"@, LeafModel::<JsonObject<T>>::Number(n)),
        r@[4].0 == "treasury"@,
        s.treasury is Some ==> r@[4].1 == LeafModel::<JsonObject<T>>::Number(s.treasury->0),
        s.treasury is None ==> r@[4].1 == LeafModel::<JsonObject<T>>::Number(0),
        r@[5] == ("armed"@, LeafModel::<JsonObject<T>>::Number(armed)),
        r@[6] == ("round_size"@, LeafModel::<JsonObject<T>>::Number(3)),
        r@[7] == ("entry_cost"@, LeafModel::<JsonObject<T>>::Number(10_000)),
        r@[8] == ("payout"@, LeafModel::<JsonObject<T>>::Number(27_000)),
        r@[9].0 == "last_winner"@,
        s.last_winner is Some ==> r@[9].1 == LeafModel::<JsonObject<T>>::Text(s.last_winner->0@),
        s.last_winner is None ==> r@[9].1 == LeafModel::<JsonObject<T>>::Null,
        account is Some ==> {
            let inner = r@[10].1->Inner_0@;
            &&& r@[10].0 == "account"@
            &&& r@[10].1 is Inner
            &&& inner.len() == 3
            &&& inner[0] == (
                "registered"@,
                LeafModel::<T>::Flag(account->0.registery_index is Some),
            )
            &&& inner[1].0 == "registery_index"@
            &&& inner[2].0 == "balance"@
            &&& account->0.registery_index is Some ==> inner[1].1 == LeafModel::<T>::Number(
                account->0.registery_index->0,
            )
            &&& account->0.balance is Some ==> inner[2].1 == LeafModel::<T>::Number(
                account->0.balance->0,
            )
            &&& account->0.balance is None ==> inner[2].1 == LeafModel::<T>::Number(0)
        },
{
    let fields = state_fields::<JsonObject<T>>(s);
    if account is Some {
        assert forall|i: int| 0 <= i < 10 implies r@[i] == #[trigger] fields[i] by {
            assert(r@.drop_last()[i] == r@[i]);
        }
        assert(r@[10] == r@.last());
    }
}

/// The answer to an executed call: it is won if and only if the balance grew, a balance
/// that is not there counting as zero.
pub proof fn theorem_outcome_json<T>(o: CallOutcome, winner: Option<String>, r: JsonObject<T>)
    requires
        call_ensures(outcome_json::<T>, (o, &winner), r),
    ensures
        ({
            let before = if o.balance_before is Some {
                o.balance_before->0
            } else {
                0
            };
            let after = if o.balance_after is Some {
                o.balance_after->0
            } else {
                0
            };
            &&& r@.len() == 6
            &&& r@[0] == ("ok"@, LeafModel::<T>::Flag(true))
            &&& r@[1] == ("balance"@, LeafModel::<T>::Number(after))
            &&& r@[2] == ("won"@, LeafModel::<T>::Flag(before < after))
            &&& r@[3] == ("payout"@, LeafModel::<T>::Number(27_000))
            &&& r@[4].0 == "treasury"@
            &&& o.treasury is Some ==> r@[4].1 == LeafModel::<T>::Number(o.treasury->0)
            &&& o.treasury is None ==> r@[4].1 == LeafModel::<T>::Number(0)
            &&& r@[5].0 == "winner"@
            &&& winner is Some ==> r@[5].1 == LeafModel::<T>::Text(winner->0@)
            &&& winner is None ==> r@[5].1 == LeafModel::<T>::Null
        }),
{
}

/// The answers to a faucet request, to a refused call and to a request to mine.
pub proof fn theorem_short_answers<T>(
    status: AccountStatus,
    message: &str,
    tip: [u8; 32],
    faucet: JsonObject<T>,
    refusal: JsonObject<T>,
    mined: JsonObject<T>,
)
    requires
        call_ensures(faucet_json::<T>, (status,), faucet),
        call_ensures(refusal_json::<T>, (message,), refusal),
        call_ensures(mined_json::<T>, (&tip,), mined),
    ensures
        faucet@.len() == 2,
        faucet@[0].0 == "registery_index"@,
        faucet@[1].0 == "balance"@,
        status.registery_index is Some ==> faucet@[0].1 == LeafModel::<T>::Number(
            status.registery_index->0,
        ),
        status.registery_index is None ==> faucet@[0].1 == LeafModel::<T>::Number(0),
        status.balance is Some ==> faucet@[1].1 == LeafModel::<T>::Number(status.balance->0),
        status.balance is None ==> faucet@[1].1 == LeafModel::<T>::Number(0),
        refusal@.len() == 2,
        refusal@[0] == ("ok"@, LeafModel::<T>::Flag(false)),
        refusal@[1] == ("error"@, LeafModel::<T>::Text(message@)),
        mined@.len() == 2,
        mined@[0] == ("ok"@, LeafModel::<T>::Flag(true)),
        mined@[1] == ("tip"@, LeafModel::<T>::Text(hex_of(tip@))),
{
}

} // verus!

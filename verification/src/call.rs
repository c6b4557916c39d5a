//! Calls: entries that run a method of a contract.
use vstd::prelude::*;
use crate::entry::{RootAccount, Target};
use crate::stack::{items_view, StackItem};

verus! {

/// A contract, by its id and its index in the registery.
#[derive(Clone, Copy)]
pub struct Contract {
    pub contract_id: [u8; 32],
    pub registery_index: u64,
}

/// An argument of a call: an amount that the caller pays, or any other argument by the
/// bytes of its stack item.
pub enum CalldataElement {
    Payable(u32),
    Encoded(Vec<u8>),
}

/// A call.
pub struct Call {
    pub account: RootAccount,
    pub contract: Contract,
    pub method_index: u16,
    pub calldata_elements: Vec<CalldataElement>,
    pub ops_budget: Option<u32>,
    pub ops_price: u64,
    pub target: Target,
}

/// Why the message that a call is signed by could not be made.
pub struct CallSighashError {
    pub reason: String,
}

/// Why a call could not be signed.
pub enum CallBLSSignError {
    SighashError(CallSighashError),
}

/// Why the signature of a call is refused.
pub enum CallBLSVerifyError {
    SighashError(CallSighashError),
    InvalidBLSSignatureError,
}

impl Call {
    /// A call of a method by an account, for the batch after the tip, with the default
    /// budget and price. A contract that the registery does not rank gets index zero.
    pub fn for_next_batch(
        account: RootAccount,
        contract_id: [u8; 32],
        rank: Option<u64>,
        method_index: u16,
        calldata_elements: Vec<CalldataElement>,
        batch_height_tip: u64,
    ) -> (r: Call)
        requires
            batch_height_tip < u64::MAX,
        ensures
            r.account == account,
            r.contract.contract_id == contract_id,
            r.contract.registery_index == match rank {
                None => 0,
                Some(i) => i,
            },
            r.method_index == method_index,
            r.calldata_elements == calldata_elements,
            r.ops_budget is None,
            r.ops_price == 0,
            r.target.targeted_at_batch_height == batch_height_tip + 1,
    {
        let registery_index: u64 = match rank {
            None => 0,
            Some(i) => i,
        };
        Call {
            account,
            contract: Contract { contract_id, registery_index },
            method_index,
            calldata_elements,
            ops_budget: None,
            ops_price: 0,
            target: Target { targeted_at_batch_height: batch_height_tip + 1 },
        }
    }

    /// Signs the call: `sighash` is its signature message, `sign` the BLS signature under
    /// the caller's key.
    pub fn bls_sign<F: FnOnce([u8; 32]) -> [u8; 96]>(
        &self,
        sighash: Result<[u8; 32], CallSighashError>,
        sign: F,
    ) -> (r: Result<[u8; 96], CallBLSSignError>)
        requires
            match sighash {
                Err(_) => true,
                Ok(h) => call_requires(sign, (h,)),
            },
        ensures
            match sighash {
                Err(e) => r == Err::<[u8; 96], CallBLSSignError>(CallBLSSignError::SighashError(e)),
                Ok(h) => match r {
                    Err(_) => false,
                    Ok(signature) => call_ensures(sign, (h,), signature),
                },
            },
    {
        match sighash {
            Err(e) => Err(CallBLSSignError::SighashError(e)),
            Ok(h) => Ok(sign(h)),
        }
    }

    /// Verifies a signature of the call under the BLS key of its account: `sighash` is
    /// its signature message, `verify` the BLS verification of key, message and
    /// signature.
    pub fn bls_verify<F: FnOnce([u8; 48], [u8; 32], [u8; 96]) -> bool>(
        &self,
        bls_signature: [u8; 96],
        sighash: Result<[u8; 32], CallSighashError>,
        verify: F,
    ) -> (r: Result<(), CallBLSVerifyError>)
        requires
            match sighash {
                Err(_) => true,
                Ok(h) => call_requires(verify, (self.account.spec_bls_key(), h, bls_signature)),
            },
        ensures
            match sighash {
                Err(e) => r == Err::<(), CallBLSVerifyError>(CallBLSVerifyError::SighashError(e)),
                Ok(h) => exists|valid: bool|
                    {
                        &&& #[trigger] call_ensures(
                            verify,
                            (self.account.spec_bls_key(), h, bls_signature),
                            valid,
                        )
                        &&& r == if valid {
                            Ok::<(), CallBLSVerifyError>(())
                        } else {
                            Err(CallBLSVerifyError::InvalidBLSSignatureError)
                        }
                    },
            },
    {
        match sighash {
            Err(e) => Err(CallBLSVerifyError::SighashError(e)),
            Ok(h) => {
                let key = self.account.bls_key();
                let valid: bool = verify(key, h, bls_signature);
                if valid {
                    Ok(())
                } else {
                    Err(CallBLSVerifyError::InvalidBLSSignatureError)
                }
            },
        }
    }
}

/// Why a call could not be executed.
pub enum CallExecutionError {
    UnexpectedUnregisteredRootAccountError,
    RegisteredButUnconfiguredRootAccountValidateBLSKeyError,
    RegisteredButUnconfiguredRootAccountInvalidAuthorizationSignatureError,
    RegisteredButUnconfiguredRootAccountSyncWithRegisteryError(String),
    RegisteredAndConfiguredRootAccountSyncWithRegisteryError(String),
    CoinManagerAccountBalanceDownError(String),
    FailedToApplyFeesSubsidy,
    CallFeeOverflow,
    VMExecutionError(String),
}

/// What is left of a fee after each stage of the subsidy.
#[derive(Clone, Copy, PartialEq, Eq, Structural, Debug)]
pub struct ExemptionSubsidyBreakdown {
    pub post_periodic_credit_leftover: u64,
    pub post_direct_credit_leftover: u64,
    pub post_discount_leftover: u64,
}

/// The fees of an executed entry.
#[derive(Clone, Copy, PartialEq, Eq, Structural, Debug)]
pub enum EntryFees {
    Call { base_fee: u64, total_pre_subsidy: u64, subsidy_breakdown: ExemptionSubsidyBreakdown },
}

/// The bytes of all items together.
pub open spec fn total_len(items: Seq<Seq<u8>>) -> nat
    decreases items.len(),
{
    if items.len() == 0 {
        0
    } else {
        total_len(items.drop_last()) + items.last().len()
    }
}

/// The fee of calldata: a number of millionths per byte, capped before the division at
/// what 64 bits hold.
pub open spec fn calldata_fee(bytes: nat, ppm: nat) -> nat {
    if bytes * ppm > u64::MAX {
        u64::MAX as nat / 1_000_000
    } else {
        (bytes * ppm) / 1_000_000
    }
}

/// The fee of a call before subsidy; `None` where 64 bits do not hold it.
pub open spec fn nominal_fee_of(base_fee: nat, bytes: nat, ppm: nat) -> Option<nat> {
    if base_fee + calldata_fee(bytes, ppm) > u64::MAX {
        None
    } else {
        Some(base_fee + calldata_fee(bytes, ppm))
    }
}

proof fn lemma_total_len_prefix(items: Seq<Seq<u8>>, i: int)
    requires
        0 <= i <= items.len(),
    ensures
        total_len(items.take(i)) <= total_len(items),
    decreases items.len() - i,
{
    if i < items.len() {
        lemma_total_len_prefix(items, i + 1);
        assert(items.take(i + 1).drop_last() =~= items.take(i));
    } else {
        assert(items.take(i) =~= items);
    }
}

fn calldata_bytesize(args: &[StackItem]) -> (r: u64)
    requires
        total_len(items_view(args@)) <= u64::MAX,
    ensures
        r == total_len(items_view(args@)),
{
    let ghost items = items_view(args@);
    let mut total: u64 = 0;
    let mut i: usize = 0;
    assert(items.take(0) =~= Seq::empty());
    while i < args.len()
        invariant
            i <= args@.len(),
            items == items_view(args@),
            total_len(items) <= u64::MAX,
            total == total_len(items.take(i as int)),
        decreases args@.len() - i,
    {
        proof {
            lemma_total_len_prefix(items, i + 1);
            assert(items.take(i + 1).drop_last() =~= items.take(i as int));
        }
        total = total + args[i].bytes().len() as u64;
        i = i + 1;
    }
    assert(items.take(i as int) =~= items);
    total
}

/// The fee of a call before subsidy: the base fee plus the fee of its calldata.
pub fn nominal_fee(base_fee: u64, ppm: u64, args: &[StackItem]) -> (r: Result<
    u64,
    CallExecutionError,
>)
    requires
        total_len(items_view(args@)) <= u64::MAX,
    ensures
        match nominal_fee_of(base_fee as nat, total_len(items_view(args@)), ppm as nat) {
            None => r == Err::<u64, CallExecutionError>(CallExecutionError::CallFeeOverflow),
            Some(fee) => match r {
                Err(_) => false,
                Ok(f) => f == fee,
            },
        },
{
    let bytes = calldata_bytesize(args);
    let product: u64 = match bytes.checked_mul(ppm) {
        None => u64::MAX,
        Some(p) => p,
    };
    let fee: u64 = product / 1_000_000;
    match base_fee.checked_add(fee) {
        None => Err(CallExecutionError::CallFeeOverflow),
        Some(total) => Ok(total),
    }
}

/// What a call was found to be worth when its execution began.
#[derive(Clone, Copy)]
pub struct CallTerms {
    pub account_key: [u8; 32],
    pub configured: bool,
    pub base_fee: u64,
    pub fees_pre_subsidy: u64,
}

/// What the account of a call was checked for.
#[derive(Clone, Copy)]
pub struct AccountChecks {
    pub bls_key_valid: bool,
    pub authorization_valid: bool,
}

/// A call whose account is to be synced with the registery.
pub struct CallToSync {
    pub terms: CallTerms,
}

/// A call whose fee is to be subsidised.
pub struct CallToSubsidise {
    pub terms: CallTerms,
}

/// A call whose fee is to be charged.
pub struct CallToCharge {
    pub terms: CallTerms,
    pub fees_after_subsidy: u64,
    pub breakdown: ExemptionSubsidyBreakdown,
}

/// A call that is to be run on the virtual machine.
pub struct CallToRun {
    pub terms: CallTerms,
    pub breakdown: ExemptionSubsidyBreakdown,
}

/// Why the account of a call is refused, if it is: it must be registered, and one that is
/// not configured yet must come with a valid key and authorization.
pub open spec fn account_refusal(account: RootAccount, checks: AccountChecks) -> Option<
    CallExecutionError,
> {
    match account {
        RootAccount::UnregisteredRootAccount { .. } => Some(
            CallExecutionError::UnexpectedUnregisteredRootAccountError,
        ),
        RootAccount::RegisteredButUnconfiguredRootAccount { .. } => if !checks.bls_key_valid {
            Some(CallExecutionError::RegisteredButUnconfiguredRootAccountValidateBLSKeyError)
        } else if !checks.authorization_valid {
            Some(
                CallExecutionError::RegisteredButUnconfiguredRootAccountInvalidAuthorizationSignatureError,
            )
        } else {
            None
        },
        RootAccount::RegisteredAndConfiguredRootAccount { .. } => None,
    }
}

/// Begins the execution of a call: computes its fee and checks its account.
pub fn begin_call(
    call: &Call,
    args: &[StackItem],
    base_fee: u64,
    ppm: u64,
    checks: AccountChecks,
) -> (r: Result<CallToSync, CallExecutionError>)
    requires
        total_len(items_view(args@)) <= u64::MAX,
    ensures
        match nominal_fee_of(base_fee as nat, total_len(items_view(args@)), ppm as nat) {
            None => r == Err::<CallToSync, CallExecutionError>(CallExecutionError::CallFeeOverflow),
            Some(fee) => match account_refusal(call.account, checks) {
                Some(e) => r == Err::<CallToSync, CallExecutionError>(e),
                None => match r {
                    Err(_) => false,
                    Ok(c) => {
                        &&& c.terms.account_key == call.account.spec_account_key()
                        &&& c.terms.configured
                            == (call.account is RegisteredAndConfiguredRootAccount)
                        &&& c.terms.base_fee == base_fee
                        &&& c.terms.fees_pre_subsidy == fee
                    },
                },
            },
        },
{
    let fees_pre_subsidy = match nominal_fee(base_fee, ppm, args) {
        Err(e) => {
            return Err(e);
        },
        Ok(f) => f,
    };
    let configured: bool = match &call.account {
        RootAccount::UnregisteredRootAccount { .. } => {
            return Err(CallExecutionError::UnexpectedUnregisteredRootAccountError);
        },
        RootAccount::RegisteredButUnconfiguredRootAccount { .. } => {
            if !checks.bls_key_valid {
                return Err(
                    CallExecutionError::RegisteredButUnconfiguredRootAccountValidateBLSKeyError,
                );
            }
            if !checks.authorization_valid {
                return Err(
                    CallExecutionError::RegisteredButUnconfiguredRootAccountInvalidAuthorizationSignatureError,
                );
            }
            false
        },
        RootAccount::RegisteredAndConfiguredRootAccount { .. } => true,
    };
    Ok(
        CallToSync {
            terms: CallTerms {
                account_key: call.account.account_key(),
                configured,
                base_fee,
                fees_pre_subsidy,
            },
        },
    )
}

impl CallToSync {
    /// Goes on after the registery was synced, or reports why it was not.
    pub fn synced(self, result: Result<(), String>) -> (r: Result<
        CallToSubsidise,
        CallExecutionError,
    >)
        ensures
            match result {
                Err(e) => r == Err::<CallToSubsidise, CallExecutionError>(
                    if self.terms.configured {
                        CallExecutionError::RegisteredAndConfiguredRootAccountSyncWithRegisteryError(
                            e,
                        )
                    } else {
                        CallExecutionError::RegisteredButUnconfiguredRootAccountSyncWithRegisteryError(
                            e,
                        )
                    },
                ),
                Ok(_) => match r {
                    Err(_) => false,
                    Ok(c) => c.terms == self.terms,
                },
            },
    {
        match result {
            Err(e) => Err(
                if self.terms.configured {
                    CallExecutionError::RegisteredAndConfiguredRootAccountSyncWithRegisteryError(e)
                } else {
                    CallExecutionError::RegisteredButUnconfiguredRootAccountSyncWithRegisteryError(e)
                },
            ),
            Ok(()) => Ok(CallToSubsidise { terms: self.terms }),
        }
    }
}

/// What the exemptions of an account made of a fee.
pub enum Subsidy {
    /// The account has no exemptions.
    NoExemptions,
    /// The exemptions could not be applied.
    Failed,
    Applied(ExemptionSubsidyBreakdown),
}

impl CallToSubsidise {
    /// Applies the subsidy. Without exemptions the full fee is owed at every stage; with
    /// them, what is left after the discount.
    pub fn subsidised(self, subsidy: Subsidy) -> (r: Result<CallToCharge, CallExecutionError>)
        ensures
            match subsidy {
                Subsidy::NoExemptions => match r {
                    Err(_) => false,
                    Ok(c) => {
                        let fee = self.terms.fees_pre_subsidy;
                        &&& c.terms == self.terms
                        &&& c.fees_after_subsidy == fee
                        &&& c.breakdown == (ExemptionSubsidyBreakdown {
                            post_periodic_credit_leftover: fee,
                            post_direct_credit_leftover: fee,
                            post_discount_leftover: fee,
                        })
                    },
                },
                Subsidy::Failed => r == Err::<CallToCharge, CallExecutionError>(
                    CallExecutionError::FailedToApplyFeesSubsidy,
                ),
                Subsidy::Applied(b) => match r {
                    Err(_) => false,
                    Ok(c) => {
                        &&& c.terms == self.terms
                        &&& c.fees_after_subsidy == b.post_discount_leftover
                        &&& c.breakdown == b
                    },
                },
            },
    {
        let fee = self.terms.fees_pre_subsidy;
        match subsidy {
            Subsidy::NoExemptions => Ok(
                CallToCharge {
                    terms: self.terms,
                    fees_after_subsidy: fee,
                    breakdown: ExemptionSubsidyBreakdown {
                        post_periodic_credit_leftover: fee,
                        post_direct_credit_leftover: fee,
                        post_discount_leftover: fee,
                    },
                },
            ),
            Subsidy::Failed => Err(CallExecutionError::FailedToApplyFeesSubsidy),
            Subsidy::Applied(breakdown) => Ok(
                CallToCharge {
                    terms: self.terms,
                    fees_after_subsidy: breakdown.post_discount_leftover,
                    breakdown,
                },
            ),
        }
    }
}

impl CallToCharge {
    /// Goes on after the fee was charged, or reports why it was not.
    pub fn charged(self, result: Result<(), String>) -> (r: Result<CallToRun, CallExecutionError>)
        ensures
            match result {
                Err(e) => r == Err::<CallToRun, CallExecutionError>(
                    CallExecutionError::CoinManagerAccountBalanceDownError(e),
                ),
                Ok(_) => match r {
                    Err(_) => false,
                    Ok(c) => c.terms == self.terms && c.breakdown == self.breakdown,
                },
            },
    {
        match result {
            Err(e) => Err(CallExecutionError::CoinManagerAccountBalanceDownError(e)),
            Ok(()) => Ok(CallToRun { terms: self.terms, breakdown: self.breakdown }),
        }
    }
}

impl CallToRun {
    /// The fees of the call after it was run, or why it could not be.
    pub fn ran(self, result: Result<(), String>) -> (r: Result<EntryFees, CallExecutionError>)
        ensures
            match result {
                Err(e) => r == Err::<EntryFees, CallExecutionError>(
                    CallExecutionError::VMExecutionError(e),
                ),
                Ok(_) => r == Ok::<EntryFees, CallExecutionError>(
                    EntryFees::Call {
                        base_fee: self.terms.base_fee,
                        total_pre_subsidy: self.terms.fees_pre_subsidy,
                        subsidy_breakdown: self.breakdown,
                    },
                ),
            },
    {
        match result {
            Err(e) => Err(CallExecutionError::VMExecutionError(e)),
            Ok(()) => Ok(
                EntryFees::Call {
                    base_fee: self.terms.base_fee,
                    total_pre_subsidy: self.terms.fees_pre_subsidy,
                    subsidy_breakdown: self.breakdown,
                },
            ),
        }
    }
}

/// The ops that a call may use: all that 32 bits hold where it sets no budget.
pub fn effective_ops_budget(call: &Call) -> (r: u32)
    ensures
        r == match call.ops_budget {
            None => u32::MAX,
            Some(b) => b,
        },
{
    match call.ops_budget {
        None => u32::MAX,
        Some(b) => b,
    }
}

/// A longer calldata never costs less, and neither does a higher base fee.
pub proof fn theorem_fee_grows(base1: nat, bytes1: nat, base2: nat, bytes2: nat, ppm: nat)
    requires
        base1 <= base2,
        bytes1 <= bytes2,
        nominal_fee_of(base2, bytes2, ppm) is Some,
    ensures
        nominal_fee_of(base1, bytes1, ppm) is Some,
        nominal_fee_of(base1, bytes1, ppm)->0 <= nominal_fee_of(base2, bytes2, ppm)->0,
{
    assert(bytes1 * ppm <= bytes2 * ppm) by (nonlinear_arith)
        requires
            bytes1 <= bytes2,
    ;
}

/// The bytes of two lists of items add up, and an item counts all its bytes.
pub proof fn theorem_calldata_adds_up(a: Seq<Seq<u8>>, b: Seq<Seq<u8>>, item: Seq<u8>)
    ensures
        total_len(a + b) == total_len(a) + total_len(b),
        total_len(seq![item]) == item.len(),
        total_len(a.push(item)) == total_len(a) + item.len(),
    decreases b.len(),
{
    reveal_with_fuel(total_len, 2);
    assert(a.push(item).drop_last() =~= a);
    assert(seq![item].drop_last() =~= Seq::empty());
    if b.len() == 0 {
        assert(a + b =~= a);
    } else {
        theorem_calldata_adds_up(a, b.drop_last(), item);
        assert((a + b).drop_last() =~= a + b.drop_last());
        assert((a + b).last() == b.last());
    }
}

/// The fee of a call before subsidy is its base fee and the millionths of its calldata,
/// rounded down: however long the calldata is, while 64 bits hold the millionths.
pub proof fn theorem_fee_is_proportional(
    base_fee: u64,
    ppm: u64,
    args: &[StackItem],
    r: Result<u64, CallExecutionError>,
)
    requires
        total_len(items_view(args@)) * ppm <= u64::MAX,
        call_ensures(nominal_fee, (base_fee, ppm, args), r),
    ensures
        match r {
            Ok(fee) => {
                let f = fee - base_fee;
                &&& 0 <= f
                &&& f * 1_000_000 <= total_len(items_view(args@)) * ppm < (f + 1) * 1_000_000
            },
            Err(e) => {
                &&& e is CallFeeOverflow
                &&& (base_fee + total_len(items_view(args@)) * ppm / 1_000_000) > u64::MAX
            },
        },
{
}

/// At a million millionths per byte each byte of calldata costs one.
pub proof fn theorem_fee_per_byte(base_fee: u64, args: &[StackItem], r: Result<u64, CallExecutionError>)
    requires
        base_fee + total_len(items_view(args@)) <= u64::MAX,
        total_len(items_view(args@)) * 1_000_000 <= u64::MAX,
        call_ensures(nominal_fee, (base_fee, 1_000_000, args), r),
    ensures
        r is Ok,
        r->Ok_0 == base_fee + total_len(items_view(args@)),
{
}

/// Where 64 bits do not hold the millionths, the calldata costs what 64 bits of them make.
pub proof fn theorem_fee_is_capped(
    base_fee: u64,
    ppm: u64,
    args: &[StackItem],
    r: Result<u64, CallExecutionError>,
)
    requires
        total_len(items_view(args@)) * ppm > u64::MAX,
        call_ensures(nominal_fee, (base_fee, ppm, args), r),
    ensures
        base_fee <= u64::MAX - 18_446_744_073_709 ==> r is Ok && r->Ok_0 == base_fee
            + 18_446_744_073_709,
        base_fee > u64::MAX - 18_446_744_073_709 ==> r == Err::<u64, CallExecutionError>(
            CallExecutionError::CallFeeOverflow,
        ),
{
}

/// A call begins if and only if its fee can be computed and its account may call: a
/// registered and configured account always, an unconfigured one with a valid key and a
/// valid authorization, an unregistered one never.
pub proof fn theorem_only_registered_accounts_call(
    call: &Call,
    args: &[StackItem],
    base_fee: u64,
    ppm: u64,
    checks: AccountChecks,
    fee: Result<u64, CallExecutionError>,
    r: Result<CallToSync, CallExecutionError>,
)
    requires
        call_ensures(nominal_fee, (base_fee, ppm, args), fee),
        call_ensures(begin_call, (call, args, base_fee, ppm, checks), r),
    ensures
        fee is Err ==> r is Err && r->Err_0 is CallFeeOverflow,
        fee is Ok ==> (r is Ok <==> call.account is RegisteredAndConfiguredRootAccount || (
        call.account is RegisteredButUnconfiguredRootAccount && checks.bls_key_valid
            && checks.authorization_valid)),
        fee is Ok && call.account is UnregisteredRootAccount ==> r->Err_0
            is UnexpectedUnregisteredRootAccountError,
        fee is Ok && call.account is RegisteredButUnconfiguredRootAccount && !checks.bls_key_valid
            ==> r->Err_0 is RegisteredButUnconfiguredRootAccountValidateBLSKeyError,
        fee is Ok && call.account is RegisteredButUnconfiguredRootAccount && checks.bls_key_valid
            && !checks.authorization_valid ==> r->Err_0
            is RegisteredButUnconfiguredRootAccountInvalidAuthorizationSignatureError,
{
}

/// The fees of an executed call: what the account is charged is the fee before subsidy
/// where it has no exemptions, and what they leave of it where it has; what is reported
/// is the fee that was computed and the subsidy that was applied, unchanged on the way.
pub proof fn theorem_fees_are_carried_through(
    call: &Call,
    args: &[StackItem],
    base_fee: u64,
    ppm: u64,
    checks: AccountChecks,
    subsidy: Subsidy,
    fee: Result<u64, CallExecutionError>,
    begun: CallToSync,
    synced: CallToSubsidise,
    subsidised: CallToCharge,
    charged: CallToRun,
    ran: EntryFees,
)
    requires
        call_ensures(nominal_fee, (base_fee, ppm, args), fee),
        call_ensures(begin_call, (call, args, base_fee, ppm, checks), Ok(begun)),
        call_ensures(CallToSync::synced, (begun, Ok::<(), String>(())), Ok(synced)),
        call_ensures(CallToSubsidise::subsidised, (synced, subsidy), Ok(subsidised)),
        call_ensures(CallToCharge::charged, (subsidised, Ok::<(), String>(())), Ok(charged)),
        call_ensures(CallToRun::ran, (charged, Ok::<(), String>(())), Ok(ran)),
    ensures
        fee is Ok,
        ran->total_pre_subsidy == fee->Ok_0,
        ran->base_fee == base_fee,
        subsidy !is Failed,
        match subsidy {
            Subsidy::Applied(left) => {
                &&& subsidised.fees_after_subsidy == left.post_discount_leftover
                &&& ran->subsidy_breakdown == left
            },
            _ => {
                &&& subsidised.fees_after_subsidy == fee->Ok_0
                &&& ran->subsidy_breakdown.post_periodic_credit_leftover == fee->Ok_0
                &&& ran->subsidy_breakdown.post_direct_credit_leftover == fee->Ok_0
                &&& ran->subsidy_breakdown.post_discount_leftover == fee->Ok_0
            },
        },
{
}

/// No step of an execution goes on after a failure: a registery that is not synced, a
/// subsidy that fails, a charge that fails and a method that fails each end the call with
/// their error.
pub proof fn theorem_failed_steps_end_the_call(
    begun: CallToSync,
    synced: Result<CallToSubsidise, CallExecutionError>,
    to_subsidise: CallToSubsidise,
    subsidised: Result<CallToCharge, CallExecutionError>,
    to_charge: CallToCharge,
    charged: Result<CallToRun, CallExecutionError>,
    to_run: CallToRun,
    ran: Result<EntryFees, CallExecutionError>,
    reason: String,
)
    requires
        call_ensures(CallToSync::synced, (begun, Err::<(), String>(reason)), synced),
        call_ensures(CallToSubsidise::subsidised, (to_subsidise, Subsidy::Failed), subsidised),
        call_ensures(CallToCharge::charged, (to_charge, Err::<(), String>(reason)), charged),
        call_ensures(CallToRun::ran, (to_run, Err::<(), String>(reason)), ran),
    ensures
        synced is Err,
        subsidised is Err && subsidised->Err_0 is FailedToApplyFeesSubsidy,
        charged is Err && charged->Err_0 == CallExecutionError::CoinManagerAccountBalanceDownError(
            reason,
        ),
        ran is Err && ran->Err_0 == CallExecutionError::VMExecutionError(reason),
{
}

/// The ops that a call may use are its budget, and without one all that 32 bits hold.
pub proof fn theorem_ops_budget(call: &Call, r: u32)
    requires
        call_ensures(effective_ops_budget, (call,), r),
    ensures
        call.ops_budget == Some(r) || (call.ops_budget is None && r == 0xffff_ffff),
{
}

/// A call for the next batch is for the one above the tip, with the default budget and
/// price, and carries its calldata as given.
pub proof fn theorem_calls_target_next_batch(
    account: RootAccount,
    contract_id: [u8; 32],
    rank: Option<u64>,
    method_index: u16,
    calldata: Vec<CalldataElement>,
    tip: u64,
    r: Call,
)
    requires
        call_ensures(
            Call::for_next_batch,
            (account, contract_id, rank, method_index, calldata, tip),
            r,
        ),
    ensures
        r.target.targeted_at_batch_height - tip == 1,
        r.calldata_elements@ == calldata@,
        r.account == account,
        r.contract.contract_id == contract_id,
        rank is Some ==> r.contract.registery_index == rank->0,
        rank is None ==> r.contract.registery_index == 0,
        r.method_index == method_index,
        r.ops_budget is None,
        r.ops_price == 0,
{
}

/// A call that begins is charged to its own account, and a registery that cannot be synced
/// is reported for a configured and for an unconfigured account each in its own way.
pub proof fn theorem_calls_stay_with_their_account(
    call: &Call,
    args: &[StackItem],
    base_fee: u64,
    ppm: u64,
    checks: AccountChecks,
    begun: CallToSync,
    synced: Result<CallToSubsidise, CallExecutionError>,
    reason: String,
)
    requires
        call_ensures(begin_call, (call, args, base_fee, ppm, checks), Ok(begun)),
        call_ensures(CallToSync::synced, (begun, Err::<(), String>(reason)), synced),
    ensures
        call.account is RegisteredAndConfiguredRootAccount ==> {
            &&& begun.terms.account_key
                == call.account->RegisteredAndConfiguredRootAccount_account_key
            &&& synced->Err_0
                == CallExecutionError::RegisteredAndConfiguredRootAccountSyncWithRegisteryError(
                reason,
            )
        },
        call.account is RegisteredButUnconfiguredRootAccount ==> {
            &&& begun.terms.account_key
                == call.account->RegisteredButUnconfiguredRootAccount_account_key
            &&& synced->Err_0
                == CallExecutionError::RegisteredButUnconfiguredRootAccountSyncWithRegisteryError(
                reason,
            )
        },
        synced is Err,
        begun.terms.base_fee == base_fee,
{
}

/// What is signed is the signature message of the call; without one there is no
/// signature. A signature is accepted if and only if the verification of it, under the key
/// of the account and for that message, accepts it.
pub proof fn theorem_calls_are_signed_for_their_message<
    S: FnOnce([u8; 32]) -> [u8; 96],
    F: FnOnce([u8; 48], [u8; 32], [u8; 96]) -> bool,
>(
    call: Call,
    sighash: Result<[u8; 32], CallSighashError>,
    sign: S,
    verify: F,
    signature: [u8; 96],
    key: [u8; 48],
    signed: Result<[u8; 96], CallBLSSignError>,
    verified: Result<(), CallBLSVerifyError>,
)
    requires
        call_ensures(Call::bls_sign::<S>, (&call, sighash, sign), signed),
        call_ensures(RootAccount::bls_key, (&call.account,), key),
        call_ensures(Call::bls_verify::<F>, (&call, signature, sighash, verify), verified),
    ensures
        signed is Ok <==> sighash is Ok,
        signed is Ok ==> call_ensures(sign, (sighash->Ok_0,), signed->Ok_0),
        signed is Err ==> signed->Err_0 == CallBLSSignError::SighashError(sighash->Err_0),
        sighash is Err ==> verified == Err::<(), CallBLSVerifyError>(
            CallBLSVerifyError::SighashError(sighash->Err_0),
        ),
        verified is Ok ==> sighash is Ok && call_ensures(
            verify,
            (key, sighash->Ok_0, signature),
            true,
        ),
        sighash is Ok && verified is Err ==> {
            &&& verified->Err_0 is InvalidBLSSignatureError
            &&& call_ensures(verify, (key, sighash->Ok_0, signature), false)
        },
{
}

} // verus!

//! Batch transactions: assembling, signing and encoding.
//!
//! A batch spends the previous payload output, the projector outputs that it refreshes
//! and the deposits that it lifts, in that order.
use vstd::prelude::*;
use crate::bytes::{
    array32, be_nat, joined, lemma_joined_step, push_slice, theorem_joined_parts, to_vec,
};
use crate::curve::{generator_multiple, is_scalar, names_point, x_of};
use crate::entry::{
    bytes_option, collect_lifts, lemma_lifts_at, lift_count, lifts_of, lifts_view, Entry, Lift,
    LiftModel, LiftV1, LiftV1Model, LiftV2, LiftV2Model, SpendElements, SpendModel,
};
use crate::hash::{sha256, sha256_of};
use crate::liftv2::{deposit_key, return_liftv2_taproot};
use crate::musig::SessionModel;
use crate::outpoint_map::OutPointMap;
use crate::schnorr::{sign, signature_of, signature_valid, verify_xonly};
use crate::txn::{
    copy_outputs, inputs_view, outputs_bytes, outputs_view, push_legacy_txin, push_outputs,
    push_witness, theorem_outpoints_are_read_back, theorem_output_lists_are_read_back,
    theorem_witnesses_are_read_back, txin_bytes, witness_bytes, witness_view, OutPoint,
    OutPointModel, TxInModel, TxOut, TxOutModel, UnsignedBatchTxn, UnsignedModel, N_LOCKTIME,
    N_VERSION,
};
use crate::varint::{push_varint, theorem_varint_unambiguous, varint};

verus! {

/// Marker and flag of a transaction with witnesses (BIP-141).
pub const SEGWIT_MARKER: u8 = 0x00;

pub const SEGWIT_FLAG: u8 = 0x01;

/// The payload output of a batch: where it is, how it is spent, and its scriptpubkey
/// where that can be calculated.
pub struct Payload {
    pub location: Option<(OutPoint, TxOut)>,
    pub spend: SpendElements,
    pub scriptpubkey: Option<Vec<u8>>,
}

/// A projector output: where it is, its value and its scriptpubkey.
pub struct Projector {
    pub location: Option<(OutPoint, TxOut)>,
    pub satoshi_amount: u64,
    pub scriptpubkey: Vec<u8>,
}

/// A located output as an input.
pub open spec fn located(location: Option<(OutPoint, TxOut)>) -> Option<TxInModel> {
    match location {
        None => None,
        Some(l) => Some(TxInModel { outpoint: l.0@, txout: l.1@ }),
    }
}

/// Why the outputs of a batch could not be settled.
#[derive(Clone, Copy)]
pub enum UnsignedBatchTxnConstructError {
    NewPayloadScriptpubkeyError,
    /// The inputs do not pay for the outputs and the fee.
    InsufficientInputValueError,
}

/// Why a batch transaction could not be constructed.
pub enum SignedBatchTxnConstructError {
    PrevProjectorsNotSupportedError,
    PayloadLocationNotFoundError,
    ProjectorLocationNotFoundError,
    UnsignedBatchTxnConstructError(UnsignedBatchTxnConstructError),
    PrevPayloadTaprootSighashConstructionError,
    PrevPayloadTaprootSignError,
    PrevLiftV1TaprootSighashConstructionError(LiftV1),
    PrevLiftV1TaprootSignError(LiftV1),
    LiftV2NotSupportedError(LiftV2),
    /// There is no cosignature for the key-path spend of this deposit.
    LiftV2CosignMissingError(LiftV2),
    /// The key-path sighash of this deposit could not be computed.
    LiftV2TaprootSighashConstructionError(LiftV2),
    /// The cosignature is not a valid key-path spend of this deposit.
    LiftV2CosignInvalidError(LiftV2),
    UnknownLiftNotSupportedError,
    SwapoutPinlessSelfCalculatedScriptpubkeyError,
    /// There is no cosignature for the refresh of this projector.
    ProjectorRefreshCosignMissingError(OutPoint),
    /// The key-path sighash of this projector could not be computed.
    ProjectorRefreshSighashConstructionError(OutPoint),
    /// The cosignature is not a valid key-path spend of this projector.
    ProjectorRefreshCosignInvalidError(OutPoint),
}

/// Why a batch transaction could not be constructed, over models.
pub enum ConstructErrorModel {
    PrevProjectorsNotSupportedError,
    PayloadLocationNotFoundError,
    ProjectorLocationNotFoundError,
    UnsignedBatchTxnConstructError(UnsignedBatchTxnConstructError),
    PrevPayloadTaprootSighashConstructionError,
    PrevPayloadTaprootSignError,
    PrevLiftV1TaprootSighashConstructionError(LiftV1Model),
    PrevLiftV1TaprootSignError(LiftV1Model),
    LiftV2NotSupportedError(LiftV2Model),
    LiftV2CosignMissingError(LiftV2Model),
    LiftV2TaprootSighashConstructionError(LiftV2Model),
    LiftV2CosignInvalidError(LiftV2Model),
    UnknownLiftNotSupportedError,
    SwapoutPinlessSelfCalculatedScriptpubkeyError,
    ProjectorRefreshCosignMissingError(OutPointModel),
    ProjectorRefreshSighashConstructionError(OutPointModel),
    ProjectorRefreshCosignInvalidError(OutPointModel),
}

impl View for SignedBatchTxnConstructError {
    type V = ConstructErrorModel;

    open spec fn view(&self) -> ConstructErrorModel {
        match self {
            SignedBatchTxnConstructError::PrevProjectorsNotSupportedError =>
                ConstructErrorModel::PrevProjectorsNotSupportedError,
            SignedBatchTxnConstructError::PayloadLocationNotFoundError =>
                ConstructErrorModel::PayloadLocationNotFoundError,
            SignedBatchTxnConstructError::ProjectorLocationNotFoundError =>
                ConstructErrorModel::ProjectorLocationNotFoundError,
            SignedBatchTxnConstructError::UnsignedBatchTxnConstructError(e) =>
                ConstructErrorModel::UnsignedBatchTxnConstructError(*e),
            SignedBatchTxnConstructError::PrevPayloadTaprootSighashConstructionError =>
                ConstructErrorModel::PrevPayloadTaprootSighashConstructionError,
            SignedBatchTxnConstructError::PrevPayloadTaprootSignError =>
                ConstructErrorModel::PrevPayloadTaprootSignError,
            SignedBatchTxnConstructError::PrevLiftV1TaprootSighashConstructionError(l) =>
                ConstructErrorModel::PrevLiftV1TaprootSighashConstructionError(l@),
            SignedBatchTxnConstructError::PrevLiftV1TaprootSignError(l) =>
                ConstructErrorModel::PrevLiftV1TaprootSignError(l@),
            SignedBatchTxnConstructError::LiftV2NotSupportedError(l) =>
                ConstructErrorModel::LiftV2NotSupportedError(l@),
            SignedBatchTxnConstructError::LiftV2CosignMissingError(l) =>
                ConstructErrorModel::LiftV2CosignMissingError(l@),
            SignedBatchTxnConstructError::LiftV2TaprootSighashConstructionError(l) =>
                ConstructErrorModel::LiftV2TaprootSighashConstructionError(l@),
            SignedBatchTxnConstructError::LiftV2CosignInvalidError(l) =>
                ConstructErrorModel::LiftV2CosignInvalidError(l@),
            SignedBatchTxnConstructError::UnknownLiftNotSupportedError =>
                ConstructErrorModel::UnknownLiftNotSupportedError,
            SignedBatchTxnConstructError::SwapoutPinlessSelfCalculatedScriptpubkeyError =>
                ConstructErrorModel::SwapoutPinlessSelfCalculatedScriptpubkeyError,
            SignedBatchTxnConstructError::ProjectorRefreshCosignMissingError(o) =>
                ConstructErrorModel::ProjectorRefreshCosignMissingError(o@),
            SignedBatchTxnConstructError::ProjectorRefreshSighashConstructionError(o) =>
                ConstructErrorModel::ProjectorRefreshSighashConstructionError(o@),
            SignedBatchTxnConstructError::ProjectorRefreshCosignInvalidError(o) =>
                ConstructErrorModel::ProjectorRefreshCosignInvalidError(o@),
        }
    }
}

/// What a batch transaction is assembled from: its inputs in order, and the outputs
/// that the entries and the new state ask for.
pub struct PartsModel {
    pub inputs: Seq<TxInModel>,
    pub new_payload: TxOutModel,
    pub new_projectors: Seq<TxOutModel>,
    pub swapouts: Seq<TxOutModel>,
}

/// What a batch transaction is assembled from.
pub struct BatchParts {
    pub tx_inputs: Vec<(OutPoint, TxOut)>,
    pub new_payload_txout: TxOut,
    pub new_projector_txouts: Vec<TxOut>,
    pub swapout_tx_outputs: Vec<TxOut>,
}

impl View for BatchParts {
    type V = PartsModel;

    open spec fn view(&self) -> PartsModel {
        PartsModel {
            inputs: inputs_view(self.tx_inputs@),
            new_payload: self.new_payload_txout@,
            new_projectors: outputs_view(self.new_projector_txouts@),
            swapouts: outputs_view(self.swapout_tx_outputs@),
        }
    }
}

/// Whether every projector has a location.
pub open spec fn all_located(projectors: Seq<Projector>) -> bool {
    forall|i: int| 0 <= i < projectors.len() ==> (#[trigger] projectors[i]).location is Some
}

/// The inputs of a batch: the payload, the projectors, the lifted deposits.
pub open spec fn batch_inputs(
    payload: Payload,
    projectors: Seq<Projector>,
    lifts: Seq<LiftModel>,
) -> Seq<TxInModel> {
    seq![located(payload.location)->0] + Seq::new(
        projectors.len(),
        |i: int| located(projectors[i].location)->0,
    ) + Seq::new(lifts.len(), |i: int| lifts[i].input())
}

/// The outputs of the swapouts among entries; `None` where a scriptpubkey is missing.
pub open spec fn swapouts_of(entries: Seq<Entry>) -> Option<Seq<TxOutModel>>
    decreases entries.len(),
{
    if entries.len() == 0 {
        Some(Seq::empty())
    } else {
        match swapouts_of(entries.drop_last()) {
            None => None,
            Some(outputs) => match entries.last() {
                Entry::Swapout(s) => match bytes_option(s.scriptpubkey) {
                    None => None,
                    Some(spk) => Some(
                        outputs.push(TxOutModel { value: s.amount as u64, script_pubkey: spk }),
                    ),
                },
                _ => Some(outputs),
            },
        }
    }
}

/// The output of a projector.
pub open spec fn projector_txout(p: Projector) -> TxOutModel {
    TxOutModel { value: p.satoshi_amount, script_pubkey: p.scriptpubkey@ }
}

/// What a batch is assembled from, or why it cannot be.
pub open spec fn assembled(
    prev_payload: Payload,
    prev_projectors: Seq<Projector>,
    entries: Seq<Entry>,
    new_payload: Payload,
    new_projectors: Seq<Projector>,
) -> Result<PartsModel, ConstructErrorModel> {
    if prev_payload.location is None {
        Err(ConstructErrorModel::PayloadLocationNotFoundError)
    } else if !all_located(prev_projectors) {
        Err(ConstructErrorModel::ProjectorLocationNotFoundError)
    } else if swapouts_of(entries) is None {
        Err(ConstructErrorModel::SwapoutPinlessSelfCalculatedScriptpubkeyError)
    } else {
        match bytes_option(new_payload.scriptpubkey) {
            None => Err(
                ConstructErrorModel::UnsignedBatchTxnConstructError(
                    UnsignedBatchTxnConstructError::NewPayloadScriptpubkeyError,
                ),
            ),
            Some(spk) => Ok(
                PartsModel {
                    inputs: batch_inputs(prev_payload, prev_projectors, lifts_of(entries)),
                    new_payload: TxOutModel { value: 0, script_pubkey: spk },
                    new_projectors: Seq::new(
                        new_projectors.len(),
                        |i: int| projector_txout(new_projectors[i]),
                    ),
                    swapouts: swapouts_of(entries)->0,
                },
            ),
        }
    }
}

/// The outputs of a batch as they were settled, by their models.
pub open spec fn settled_view(
    settled: Result<Vec<TxOut>, UnsignedBatchTxnConstructError>,
) -> Result<Seq<TxOutModel>, UnsignedBatchTxnConstructError> {
    match settled {
        Err(e) => Err(e),
        Ok(outputs) => Ok(outputs_view(outputs@)),
    }
}

/// The unsigned transaction of a batch, or why there is none.
pub open spec fn unsigned_of(
    parts: Result<PartsModel, ConstructErrorModel>,
    settled: Result<Seq<TxOutModel>, UnsignedBatchTxnConstructError>,
) -> Result<UnsignedModel, ConstructErrorModel> {
    match parts {
        Err(e) => Err(e),
        Ok(p) => match settled {
            Err(e) => Err(ConstructErrorModel::UnsignedBatchTxnConstructError(e)),
            Ok(outputs) => Ok(UnsignedModel { inputs: p.inputs, outputs }),
        },
    }
}

/// How an input is signed.
pub enum SpendPlan {
    Payload(SpendModel),
    Projector { outpoint: OutPointModel, script_pubkey: Seq<u8> },
    Lift(LiftModel),
}

/// How a projector is signed.
pub open spec fn projector_plan(projector: Projector) -> SpendPlan {
    SpendPlan::Projector {
        outpoint: (located(projector.location)->0).outpoint,
        script_pubkey: projector.scriptpubkey@,
    }
}

/// How the inputs of a batch are signed, in order.
pub open spec fn spend_plans(
    payload: Payload,
    projectors: Seq<Projector>,
    lifts: Seq<LiftModel>,
) -> Seq<SpendPlan> {
    seq![SpendPlan::Payload(payload.spend@)] + Seq::new(
        projectors.len(),
        |i: int| projector_plan(projectors[i]),
    ) + Seq::new(lifts.len(), |i: int| SpendPlan::Lift(lifts[i]))
}

/// The key in a taproot scriptpubkey; `None` for any other scriptpubkey.
pub open spec fn taproot_key(script_pubkey: Seq<u8>) -> Option<Seq<u8>> {
    if script_pubkey.len() == 34 && script_pubkey[0] == 0x51 && script_pubkey[1] == 0x20 {
        Some(script_pubkey.subrange(2, 34))
    } else {
        None
    }
}

/// The engine's signature of a message; `None` where its secret is not a scalar.
pub open spec fn engine_signature(secret: Seq<u8>, message: Seq<u8>) -> Option<Seq<u8>> {
    if is_scalar(secret) {
        signature_of(be_nat(secret), message)
    } else {
        None
    }
}

/// What an engine and its cosigners sign a batch with.
pub struct Signers {
    pub engine_secret: Seq<u8>,
    pub liftv2_sigs: Map<OutPointModel, [u8; 64]>,
    pub refresh_sigs: Map<OutPointModel, [u8; 64]>,
}

/// The witness of an input, or why there is none. The payload and the deposits that
/// the engine lifts alone are spent with its signature by a script path; projectors and
/// the other deposits with a cosignature by the key path, which must be valid.
pub open spec fn witness_for(
    plan: SpendPlan,
    index: u32,
    txn: UnsignedModel,
    signers: Signers,
) -> Result<Seq<Seq<u8>>, ConstructErrorModel> {
    match plan {
        SpendPlan::Payload(spend) => match txn.taproot_sighash(index, Some(spend.leaf_hash)) {
            None => Err(ConstructErrorModel::PrevPayloadTaprootSighashConstructionError),
            Some(sighash) => match engine_signature(signers.engine_secret, sighash) {
                None => Err(ConstructErrorModel::PrevPayloadTaprootSignError),
                Some(sig) => Ok(seq![sig, seq![1u8], spend.script, spend.control_block]),
            },
        },
        SpendPlan::Projector { outpoint, script_pubkey } => if !signers.refresh_sigs.dom().contains(
            outpoint,
        ) {
            Err(ConstructErrorModel::ProjectorRefreshCosignMissingError(outpoint))
        } else {
            let sig = signers.refresh_sigs[outpoint]@;
            match txn.taproot_sighash(index, None) {
                None => Err(ConstructErrorModel::ProjectorRefreshSighashConstructionError(outpoint)),
                Some(sighash) => match taproot_key(script_pubkey) {
                    None => Err(ConstructErrorModel::ProjectorRefreshCosignInvalidError(outpoint)),
                    Some(key) => if signature_valid(key, sighash, sig) {
                        Ok(seq![sig])
                    } else {
                        Err(ConstructErrorModel::ProjectorRefreshCosignInvalidError(outpoint))
                    },
                },
            }
        },
        SpendPlan::Lift(LiftModel::LiftV1(lift)) => match txn.taproot_sighash(
            index,
            Some(lift.spend.leaf_hash),
        ) {
            None => Err(ConstructErrorModel::PrevLiftV1TaprootSighashConstructionError(lift)),
            Some(sighash) => match engine_signature(signers.engine_secret, sighash) {
                None => Err(ConstructErrorModel::PrevLiftV1TaprootSignError(lift)),
                Some(sig) => Ok(seq![sig, lift.spend.script, lift.spend.control_block]),
            },
        },
        SpendPlan::Lift(LiftModel::LiftV2(lift)) => if !signers.liftv2_sigs.dom().contains(
            lift.outpoint,
        ) {
            Err(ConstructErrorModel::LiftV2CosignMissingError(lift))
        } else {
            let sig = signers.liftv2_sigs[lift.outpoint]@;
            match txn.taproot_sighash(index, None) {
                None => Err(ConstructErrorModel::LiftV2TaprootSighashConstructionError(lift)),
                Some(sighash) => match deposit_key(lift.account_key, lift.engine_key, lift.scripts) {
                    None => Err(ConstructErrorModel::LiftV2CosignInvalidError(lift)),
                    Some(key) => if signature_valid(x_of(key), sighash, sig) {
                        Ok(seq![sig])
                    } else {
                        Err(ConstructErrorModel::LiftV2CosignInvalidError(lift))
                    },
                },
            }
        },
        SpendPlan::Lift(LiftModel::Unknown { input }) => Err(
            ConstructErrorModel::UnknownLiftNotSupportedError,
        ),
    }
}

/// The witnesses of the first `n` inputs, or the error of the first that has none.
pub open spec fn witnesses_for(
    plans: Seq<SpendPlan>,
    n: nat,
    txn: UnsignedModel,
    signers: Signers,
) -> Result<Seq<Seq<Seq<u8>>>, ConstructErrorModel>
    decreases n,
{
    if n == 0 {
        Ok(Seq::empty())
    } else {
        match witnesses_for(plans, (n - 1) as nat, txn, signers) {
            Err(e) => Err(e),
            Ok(done) => match witness_for(plans[n - 1], (n - 1) as u32, txn, signers) {
                Err(e) => Err(e),
                Ok(w) => Ok(done.push(w)),
            },
        }
    }
}

/// The key that the signature of a key-path spend is checked under: the key in the
/// scriptpubkey of a projector, or the key of a deposit.
pub open spec fn keypath_key(plan: SpendPlan) -> Option<Seq<u8>> {
    match plan {
        SpendPlan::Projector { outpoint, script_pubkey } => taproot_key(script_pubkey),
        SpendPlan::Lift(LiftModel::LiftV2(lift)) => match deposit_key(
            lift.account_key,
            lift.engine_key,
            lift.scripts,
        ) {
            None => None,
            Some(key) => Some(x_of(key)),
        },
        _ => None,
    }
}

/// Whether the signature in a witness is valid for the sighash of its input: under the
/// engine's key for a script path, and for a key path under the key in the projector's
/// scriptpubkey or the key of the deposit.
pub open spec fn witness_signed(
    plan: SpendPlan,
    index: u32,
    txn: UnsignedModel,
    engine_secret: Seq<u8>,
    witness: Seq<Seq<u8>>,
) -> bool {
    let engine_x = x_of(generator_multiple(be_nat(engine_secret)));
    match plan {
        SpendPlan::Payload(spend) => signature_valid(
            engine_x,
            txn.taproot_sighash(index, Some(spend.leaf_hash))->0,
            witness[0],
        ),
        SpendPlan::Projector { outpoint, script_pubkey } => signature_valid(
            script_pubkey.subrange(2, 34),
            txn.taproot_sighash(index, None)->0,
            witness[0],
        ),
        SpendPlan::Lift(LiftModel::LiftV1(lift)) => signature_valid(
            engine_x,
            txn.taproot_sighash(index, Some(lift.spend.leaf_hash))->0,
            witness[0],
        ),
        SpendPlan::Lift(LiftModel::LiftV2(lift)) => signature_valid(
            x_of(deposit_key(lift.account_key, lift.engine_key, lift.scripts)->0),
            txn.taproot_sighash(index, None)->0,
            witness[0],
        ),
        SpendPlan::Lift(LiftModel::Unknown { input }) => false,
    }
}

proof fn lemma_first_error(
    plans: Seq<SpendPlan>,
    i: nat,
    n: nat,
    txn: UnsignedModel,
    signers: Signers,
)
    requires
        i <= n,
        witnesses_for(plans, i, txn, signers) is Err,
    ensures
        witnesses_for(plans, n, txn, signers) == witnesses_for(plans, i, txn, signers),
    decreases n,
{
    if i < n {
        lemma_first_error(plans, i, (n - 1) as nat, txn, signers);
    }
}

/// Whether these are the witnesses of the first `n` inputs, each with a valid
/// signature.
pub open spec fn signs(
    plans: Seq<SpendPlan>,
    n: nat,
    txn: UnsignedModel,
    signers: Signers,
    witnesses: Seq<Seq<Seq<u8>>>,
) -> bool {
    &&& witnesses.len() == n
    &&& witnesses_for(plans, n, txn, signers) == Ok::<Seq<Seq<Seq<u8>>>, ConstructErrorModel>(
        witnesses,
    )
    &&& forall|i: int|
        0 <= i < n ==> witness_signed(
            plans[i],
            i as u32,
            txn,
            signers.engine_secret,
            #[trigger] witnesses[i],
        )
}

/// Whether signing ends in this error.
pub open spec fn fails(
    plans: Seq<SpendPlan>,
    txn: UnsignedModel,
    signers: Signers,
    error: ConstructErrorModel,
) -> bool {
    witnesses_for(plans, plans.len(), txn, signers) == Err::<
        Seq<Seq<Seq<u8>>>,
        ConstructErrorModel,
    >(error)
}

proof fn lemma_signs_none(plans: Seq<SpendPlan>, txn: UnsignedModel, signers: Signers)
    ensures
        signs(plans, 0, txn, signers, Seq::empty()),
{
}

proof fn lemma_signs_step(
    plans: Seq<SpendPlan>,
    n: nat,
    txn: UnsignedModel,
    signers: Signers,
    done: Seq<Seq<Seq<u8>>>,
    witness: Seq<Seq<u8>>,
)
    requires
        n < plans.len(),
        signs(plans, n, txn, signers, done),
        witness_for(plans[n as int], n as u32, txn, signers) == Ok::<
            Seq<Seq<u8>>,
            ConstructErrorModel,
        >(witness),
        witness_signed(plans[n as int], n as u32, txn, signers.engine_secret, witness),
    ensures
        signs(plans, n + 1, txn, signers, done.push(witness)),
{
}

proof fn lemma_fails(
    plans: Seq<SpendPlan>,
    n: nat,
    txn: UnsignedModel,
    signers: Signers,
    done: Seq<Seq<Seq<u8>>>,
)
    requires
        n < plans.len(),
        signs(plans, n, txn, signers, done),
        witness_for(plans[n as int], n as u32, txn, signers) is Err,
    ensures
        fails(
            plans,
            txn,
            signers,
            witness_for(plans[n as int], n as u32, txn, signers)->Err_0,
        ),
{
    lemma_first_error(plans, n + 1, plans.len(), txn, signers);
}

/// A signed input.
pub struct SignedInModel {
    pub outpoint: OutPointModel,
    pub txout: TxOutModel,
    pub witness: Seq<Seq<u8>>,
}

/// A signed transaction.
pub struct SignedModel {
    pub inputs: Seq<SignedInModel>,
    pub outputs: Seq<TxOutModel>,
}

/// A transaction with its witnesses.
pub open spec fn with_witnesses(txn: UnsignedModel, witnesses: Seq<Seq<Seq<u8>>>) -> SignedModel {
    SignedModel {
        inputs: Seq::new(
            txn.inputs.len(),
            |i: int|
                SignedInModel {
                    outpoint: txn.inputs[i].outpoint,
                    txout: txn.inputs[i].txout,
                    witness: witnesses[i],
                },
        ),
        outputs: txn.outputs,
    }
}

/// The signed transaction of a batch, or why there is none.
pub open spec fn signed_of(
    txn: Result<UnsignedModel, ConstructErrorModel>,
    plans: Seq<SpendPlan>,
    signers: Signers,
) -> Result<SignedModel, ConstructErrorModel> {
    match txn {
        Err(e) => Err(e),
        Ok(t) => match witnesses_for(plans, plans.len(), t, signers) {
            Err(e) => Err(e),
            Ok(witnesses) => Ok(with_witnesses(t, witnesses)),
        },
    }
}

/// A signed batch transaction.
pub struct SignedBatchTxn {
    /// The inputs: outpoint, the output there, and the witness.
    pub tx_inputs: Vec<(OutPoint, TxOut, Vec<Vec<u8>>)>,
    /// The outputs.
    pub tx_outputs: Vec<TxOut>,
}

impl View for SignedBatchTxn {
    type V = SignedModel;

    open spec fn view(&self) -> SignedModel {
        SignedModel {
            inputs: Seq::new(
                self.tx_inputs@.len(),
                |i: int|
                    SignedInModel {
                        outpoint: self.tx_inputs@[i].0@,
                        txout: self.tx_inputs@[i].1@,
                        witness: witness_view(self.tx_inputs@[i].2@),
                    },
            ),
            outputs: outputs_view(self.tx_outputs@),
        }
    }
}

/// A result by its models.
pub open spec fn parts_result(
    r: Result<BatchParts, SignedBatchTxnConstructError>,
) -> Result<PartsModel, ConstructErrorModel> {
    match r {
        Err(e) => Err(e@),
        Ok(p) => Ok(p@),
    }
}

/// A result by its models.
pub open spec fn unsigned_result(
    r: Result<UnsignedBatchTxn, SignedBatchTxnConstructError>,
) -> Result<UnsignedModel, ConstructErrorModel> {
    match r {
        Err(e) => Err(e@),
        Ok(t) => Ok(t@),
    }
}

/// A result by its models.
pub open spec fn signed_result(
    r: Result<SignedBatchTxn, SignedBatchTxnConstructError>,
) -> Result<SignedModel, ConstructErrorModel> {
    match r {
        Err(e) => Err(e@),
        Ok(t) => Ok(t@),
    }
}

/// A witness result by its models.
pub open spec fn witness_result(
    r: Result<Vec<Vec<u8>>, SignedBatchTxnConstructError>,
) -> Result<Seq<Seq<u8>>, ConstructErrorModel> {
    match r {
        Err(e) => Err(e@),
        Ok(w) => Ok(witness_view(w@)),
    }
}

fn swapout_outputs(entries: &[Entry]) -> (r: Option<Vec<TxOut>>)
    ensures
        match r {
            None => swapouts_of(entries@) is None,
            Some(outputs) => swapouts_of(entries@) == Some(outputs_view(outputs@)),
        },
{
    let mut outputs: Vec<TxOut> = Vec::new();
    let mut i: usize = 0;
    assert(outputs_view(outputs@) =~= Seq::empty());
    assert(entries@.take(0) =~= Seq::empty());
    while i < entries.len()
        invariant
            i <= entries@.len(),
            swapouts_of(entries@.take(i as int)) == Some(outputs_view(outputs@)),
        decreases entries@.len() - i,
    {
        assert(entries@.take(i + 1).drop_last() =~= entries@.take(i as int));
        match &entries[i] {
            Entry::Swapout(s) => {
                match &s.scriptpubkey {
                    None => {
                        proof {
                            lemma_swapouts_missing(entries@, i + 1);
                        }
                        return None;
                    },
                    Some(spk) => {
                        let ghost before = outputs@;
                        outputs.push(TxOut { value: s.amount as u64, script_pubkey: to_vec(spk) });
                        assert(outputs_view(outputs@) =~= outputs_view(before).push(
                            TxOutModel { value: s.amount as u64, script_pubkey: spk@ },
                        ));
                    },
                }
            },
            _ => {},
        }
        i = i + 1;
    }
    assert(entries@.take(i as int) =~= entries@);
    Some(outputs)
}

proof fn lemma_swapouts_missing(entries: Seq<Entry>, i: int)
    requires
        0 <= i <= entries.len(),
        swapouts_of(entries.take(i)) is None,
    ensures
        swapouts_of(entries) is None,
    decreases entries.len() - i,
{
    if i < entries.len() {
        assert(entries.take(i + 1).drop_last() =~= entries.take(i));
        lemma_swapouts_missing(entries, i + 1);
    } else {
        assert(entries.take(i) =~= entries);
    }
}

/// The witness of the previous payload.
fn payload_witness(
    spend: &SpendElements,
    index: u32,
    txn: &UnsignedBatchTxn,
    engine_secret: [u8; 32],
    signers: Ghost<Signers>,
) -> (r: Result<Vec<Vec<u8>>, SignedBatchTxnConstructError>)
    requires
        signers@.engine_secret == engine_secret@,
    ensures
        witness_result(r) == witness_for(SpendPlan::Payload(spend@), index, txn@, signers@),
        match r {
            Err(_) => true,
            Ok(w) => witness_signed(
                SpendPlan::Payload(spend@),
                index,
                txn@,
                engine_secret@,
                witness_view(w@),
            ),
        },
{
    let sighash = match txn.taproot_sighash(index, Some(spend.leaf_hash)) {
        None => {
            return Err(SignedBatchTxnConstructError::PrevPayloadTaprootSighashConstructionError);
        },
        Some(h) => h,
    };
    let signature = match sign(engine_secret, sighash) {
        None => {
            return Err(SignedBatchTxnConstructError::PrevPayloadTaprootSignError);
        },
        Some(s) => s,
    };
    let mut witness: Vec<Vec<u8>> = Vec::new();
    let mut selector: Vec<u8> = Vec::new();
    selector.push(0x01);
    witness.push(to_vec(&signature));
    witness.push(selector);
    witness.push(to_vec(&spend.script));
    witness.push(to_vec(&spend.control_block));
    assert(selector@ =~= seq![1u8]);
    assert(witness_view(witness@) =~= seq![
        signature@,
        seq![1u8],
        spend@.script,
        spend@.control_block,
    ]);
    Ok(witness)
}

/// The witness of a deposit that the engine lifts alone.
fn liftv1_witness(
    lift: &LiftV1,
    index: u32,
    txn: &UnsignedBatchTxn,
    engine_secret: [u8; 32],
    signers: Ghost<Signers>,
) -> (r: Result<Vec<Vec<u8>>, SignedBatchTxnConstructError>)
    requires
        signers@.engine_secret == engine_secret@,
    ensures
        witness_result(r) == witness_for(
            SpendPlan::Lift(LiftModel::LiftV1(lift@)),
            index,
            txn@,
            signers@,
        ),
        match r {
            Err(_) => true,
            Ok(w) => witness_signed(
                SpendPlan::Lift(LiftModel::LiftV1(lift@)),
                index,
                txn@,
                engine_secret@,
                witness_view(w@),
            ),
        },
{
    let sighash = match txn.taproot_sighash(index, Some(lift.spend.leaf_hash)) {
        None => {
            return Err(
                SignedBatchTxnConstructError::PrevLiftV1TaprootSighashConstructionError(
                    lift.copy(),
                ),
            );
        },
        Some(h) => h,
    };
    let signature = match sign(engine_secret, sighash) {
        None => {
            return Err(SignedBatchTxnConstructError::PrevLiftV1TaprootSignError(lift.copy()));
        },
        Some(s) => s,
    };
    let mut witness: Vec<Vec<u8>> = Vec::new();
    witness.push(to_vec(&signature));
    witness.push(to_vec(&lift.spend.script));
    witness.push(to_vec(&lift.spend.control_block));
    assert(witness_view(witness@) =~= seq![
        signature@,
        lift@.spend.script,
        lift@.spend.control_block,
    ]);
    Ok(witness)
}

/// A key-path witness.
fn key_path_witness(signature: &[u8; 64]) -> (r: Vec<Vec<u8>>)
    ensures
        witness_view(r@) == seq![signature@],
{
    let mut witness: Vec<Vec<u8>> = Vec::new();
    witness.push(to_vec(signature));
    assert(witness_view(witness@) =~= seq![signature@]);
    witness
}

/// The witness of a projector that is refreshed.
fn projector_witness(
    outpoint: OutPoint,
    script_pubkey: &Vec<u8>,
    index: u32,
    txn: &UnsignedBatchTxn,
    refresh_sigs: &OutPointMap<[u8; 64]>,
    signers: Ghost<Signers>,
) -> (r: Result<Vec<Vec<u8>>, SignedBatchTxnConstructError>)
    requires
        signers@.refresh_sigs == refresh_sigs@,
    ensures
        witness_result(r) == witness_for(
            SpendPlan::Projector { outpoint: outpoint@, script_pubkey: script_pubkey@ },
            index,
            txn@,
            signers@,
        ),
{
    let cosig = match refresh_sigs.get(&outpoint) {
        None => {
            return Err(
                SignedBatchTxnConstructError::ProjectorRefreshCosignMissingError(outpoint),
            );
        },
        Some(s) => s,
    };
    let sighash = match txn.taproot_sighash(index, None) {
        None => {
            return Err(
                SignedBatchTxnConstructError::ProjectorRefreshSighashConstructionError(outpoint),
            );
        },
        Some(h) => h,
    };
    if script_pubkey.len() != 34 || script_pubkey[0] != 0x51 || script_pubkey[1] != 0x20 {
        return Err(SignedBatchTxnConstructError::ProjectorRefreshCosignInvalidError(outpoint));
    }
    let output_key = array32(script_pubkey, 2);
    if !verify_xonly(output_key, sighash, cosig) {
        return Err(SignedBatchTxnConstructError::ProjectorRefreshCosignInvalidError(outpoint));
    }
    Ok(key_path_witness(&cosig))
}

/// The witness of a deposit that the depositor cosigns.
fn liftv2_witness(
    lift: &LiftV2,
    index: u32,
    txn: &UnsignedBatchTxn,
    liftv2_sigs: &OutPointMap<[u8; 64]>,
    signers: Ghost<Signers>,
) -> (r: Result<Vec<Vec<u8>>, SignedBatchTxnConstructError>)
    requires
        signers@.liftv2_sigs == liftv2_sigs@,
    ensures
        witness_result(r) == witness_for(
            SpendPlan::Lift(LiftModel::LiftV2(lift@)),
            index,
            txn@,
            signers@,
        ),
{
    let cosig = match liftv2_sigs.get(&lift.outpoint) {
        None => {
            return Err(SignedBatchTxnConstructError::LiftV2CosignMissingError(lift.copy()));
        },
        Some(s) => s,
    };
    let sighash = match txn.taproot_sighash(index, None) {
        None => {
            return Err(
                SignedBatchTxnConstructError::LiftV2TaprootSighashConstructionError(lift.copy()),
            );
        },
        Some(h) => h,
    };
    let output_key = match return_liftv2_taproot(lift.account_key, lift.engine_key, &lift.scripts) {
        None => {
            return Err(SignedBatchTxnConstructError::LiftV2CosignInvalidError(lift.copy()));
        },
        Some(t) => match t.tweaked_key() {
            None => {
                return Err(SignedBatchTxnConstructError::LiftV2CosignInvalidError(lift.copy()));
            },
            Some(q) => q.serialize_xonly(),
        },
    };
    if !verify_xonly(output_key, sighash, cosig) {
        return Err(SignedBatchTxnConstructError::LiftV2CosignInvalidError(lift.copy()));
    }
    Ok(key_path_witness(&cosig))
}

/// Witnesses by their items.
pub open spec fn witnesses_view(witnesses: Seq<Vec<Vec<u8>>>) -> Seq<Seq<Seq<u8>>> {
    Seq::new(witnesses.len(), |i: int| witness_view(witnesses[i]@))
}

/// The number of inputs of a batch.
pub open spec fn input_count(projectors: Seq<Projector>, entries: Seq<Entry>) -> nat {
    1 + projectors.len() + lifts_of(entries).len()
}

/// The key-path sighashes of the cosigned deposits among the first `n`, by outpoint.
/// `base` is the index of the first deposit among the inputs.
pub open spec fn lift_sighashes(
    txn: UnsignedModel,
    base: nat,
    lifts: Seq<LiftModel>,
    n: nat,
) -> Map<OutPointModel, Seq<u8>>
    decreases n,
{
    if n == 0 {
        Map::empty()
    } else {
        let before = lift_sighashes(txn, base, lifts, (n - 1) as nat);
        match lifts[n - 1] {
            LiftModel::LiftV2(lift) => before.insert(
                lift.outpoint,
                txn.taproot_sighash((base + n - 1) as u32, None)->0,
            ),
            _ => before,
        }
    }
}

/// The key-path sighashes of the first `n` projectors, by outpoint.
pub open spec fn projector_sighashes(
    txn: UnsignedModel,
    projectors: Seq<Projector>,
    n: nat,
) -> Map<OutPointModel, Seq<u8>>
    decreases n,
{
    if n == 0 {
        Map::empty()
    } else {
        projector_sighashes(txn, projectors, (n - 1) as nat).insert(
            (located(projectors[n - 1].location)->0).outpoint,
            txn.taproot_sighash(n as u32, None)->0,
        )
    }
}

/// A map of hashes by their bytes.
pub open spec fn hashes_by_bytes(m: Map<OutPointModel, [u8; 32]>) -> Map<OutPointModel, Seq<u8>> {
    Map::new(|k: OutPointModel| m.dom().contains(k), |k: OutPointModel| m[k]@)
}

impl SignedBatchTxn {
    /// Assembles the inputs of a batch and the outputs that it asks for.
    pub fn assemble_unsigned_batch_txn(
        prev_payload: &Payload,
        prev_projectors: &[Projector],
        entries: &[Entry],
        new_payload: &Payload,
        new_projectors: &[Projector],
    ) -> (r: Result<BatchParts, SignedBatchTxnConstructError>)
        ensures
            parts_result(r) == assembled(
                *prev_payload,
                prev_projectors@,
                entries@,
                *new_payload,
                new_projectors@,
            ),
    {
        let mut tx_inputs: Vec<(OutPoint, TxOut)> = Vec::new();
        match &prev_payload.location {
            None => {
                return Err(SignedBatchTxnConstructError::PayloadLocationNotFoundError);
            },
            Some(location) => {
                tx_inputs.push((location.0, location.1.copy()));
            },
        }
        let lifts = collect_lifts(entries);
        let ghost all = batch_inputs(*prev_payload, prev_projectors@, lifts_view(lifts@));
        let mut i: usize = 0;
        while i < prev_projectors.len()
            invariant
                i <= prev_projectors@.len(),
                prev_payload.location is Some,
                all == batch_inputs(*prev_payload, prev_projectors@, lifts_view(lifts@)),
                tx_inputs@.len() == 1 + i,
                forall|j: int| 0 <= j < 1 + i ==> inputs_view(tx_inputs@)[j] == #[trigger] all[j],
                forall|j: int|
                    0 <= j < i ==> (#[trigger] prev_projectors@[j]).location is Some,
            decreases prev_projectors@.len() - i,
        {
            match &prev_projectors[i].location {
                None => {
                    assert(prev_projectors@[i as int].location is None);
                    return Err(SignedBatchTxnConstructError::ProjectorLocationNotFoundError);
                },
                Some(location) => {
                    let ghost before = tx_inputs@;
                    tx_inputs.push((location.0, location.1.copy()));
                    assert(inputs_view(tx_inputs@) =~= inputs_view(before).push(all[1 + i]));
                },
            }
            i = i + 1;
        }
        let mut k: usize = 0;
        while k < lifts.len()
            invariant
                k <= lifts@.len(),
                all == batch_inputs(*prev_payload, prev_projectors@, lifts_view(lifts@)),
                tx_inputs@.len() == 1 + prev_projectors@.len() + k,
                forall|j: int|
                    0 <= j < 1 + prev_projectors@.len() + k ==> inputs_view(tx_inputs@)[j]
                        == #[trigger] all[j],
            decreases lifts@.len() - k,
        {
            let ghost before = tx_inputs@;
            tx_inputs.push((lifts[k].outpoint(), lifts[k].txout()));
            assert(inputs_view(tx_inputs@) =~= inputs_view(before).push(
                all[1 + prev_projectors@.len() + k],
            ));
            k = k + 1;
        }
        assert(inputs_view(tx_inputs@) =~= all);
        let swapout_tx_outputs = match swapout_outputs(entries) {
            None => {
                return Err(
                    SignedBatchTxnConstructError::SwapoutPinlessSelfCalculatedScriptpubkeyError,
                );
            },
            Some(outputs) => outputs,
        };
        let new_payload_txout = match &new_payload.scriptpubkey {
            None => {
                return Err(
                    SignedBatchTxnConstructError::UnsignedBatchTxnConstructError(
                        UnsignedBatchTxnConstructError::NewPayloadScriptpubkeyError,
                    ),
                );
            },
            Some(spk) => TxOut { value: 0, script_pubkey: to_vec(spk) },
        };
        let mut new_projector_txouts: Vec<TxOut> = Vec::new();
        let mut p: usize = 0;
        while p < new_projectors.len()
            invariant
                p <= new_projectors@.len(),
                new_projector_txouts@.len() == p,
                forall|j: int|
                    0 <= j < p ==> (#[trigger] new_projector_txouts@[j])@ == projector_txout(
                        new_projectors@[j],
                    ),
            decreases new_projectors@.len() - p,
        {
            let projector = &new_projectors[p];
            new_projector_txouts.push(
                TxOut {
                    value: projector.satoshi_amount,
                    script_pubkey: to_vec(&projector.scriptpubkey),
                },
            );
            p = p + 1;
        }
        assert(outputs_view(new_projector_txouts@) =~= Seq::new(
            new_projectors@.len(),
            |i: int| projector_txout(new_projectors@[i]),
        ));
        Ok(BatchParts { tx_inputs, new_payload_txout, new_projector_txouts, swapout_tx_outputs })
    }

    /// The unsigned transaction of a batch, given its settled outputs.
    fn unsigned(
        prev_payload: &Payload,
        prev_projectors: &[Projector],
        entries: &[Entry],
        new_payload: &Payload,
        new_projectors: &[Projector],
        settled: Result<Vec<TxOut>, UnsignedBatchTxnConstructError>,
    ) -> (r: Result<UnsignedBatchTxn, SignedBatchTxnConstructError>)
        ensures
            unsigned_result(r) == unsigned_of(
                assembled(
                    *prev_payload,
                    prev_projectors@,
                    entries@,
                    *new_payload,
                    new_projectors@,
                ),
                settled_view(settled),
            ),
    {
        match Self::assemble_unsigned_batch_txn(
            prev_payload,
            prev_projectors,
            entries,
            new_payload,
            new_projectors,
        ) {
            Err(e) => Err(e),
            Ok(parts) => match settled {
                Err(e) => Err(SignedBatchTxnConstructError::UnsignedBatchTxnConstructError(e)),
                Ok(tx_outputs) => Ok(UnsignedBatchTxn { tx_inputs: parts.tx_inputs, tx_outputs }),
            },
        }
    }

    /// The witnesses of the payload and the projectors.
    fn sign_projectors(
        prev_payload: &Payload,
        prev_projectors: &[Projector],
        txn: &UnsignedBatchTxn,
        engine_secret: [u8; 32],
        projector_refresh_keypath_sigs: &OutPointMap<[u8; 64]>,
        plans: Ghost<Seq<SpendPlan>>,
        signers: Ghost<Signers>,
    ) -> (r: Result<Vec<Vec<Vec<u8>>>, SignedBatchTxnConstructError>)
        requires
            1 + prev_projectors@.len() <= plans@.len() <= u32::MAX,
            all_located(prev_projectors@),
            signers@.engine_secret == engine_secret@,
            signers@.refresh_sigs == projector_refresh_keypath_sigs@,
            plans@[0] == SpendPlan::Payload(prev_payload.spend@),
            forall|i: int|
                0 <= i < prev_projectors@.len() ==> plans@[1 + i] == projector_plan(
                    #[trigger] prev_projectors@[i],
                ),
        ensures
            match r {
                Err(e) => fails(plans@, txn@, signers@, e@),
                Ok(w) => signs(
                    plans@,
                    (1 + prev_projectors@.len()) as nat,
                    txn@,
                    signers@,
                    witnesses_view(w@),
                ),
            },
    {
        let mut witnesses: Vec<Vec<Vec<u8>>> = Vec::new();
        assert(witnesses_view(witnesses@) =~= Seq::empty());
        match payload_witness(&prev_payload.spend, 0, txn, engine_secret, signers) {
            Err(e) => {
                proof {
                    lemma_signs_none(plans@, txn@, signers@);
                    lemma_fails(plans@, 0, txn@, signers@, Seq::empty());
                }
                return Err(e);
            },
            Ok(w) => {
                proof {
                    lemma_signs_none(plans@, txn@, signers@);
                    lemma_signs_step(plans@, 0, txn@, signers@, Seq::empty(), witness_view(w@));
                }
                witnesses.push(w);
                assert(witnesses_view(witnesses@) =~= Seq::empty().push(witness_view(w@)));
            },
        }
        let mut i: usize = 0;
        while i < prev_projectors.len()
            invariant
                i <= prev_projectors@.len(),
                1 + prev_projectors@.len() <= plans@.len() <= u32::MAX,
                all_located(prev_projectors@),
                signers@.refresh_sigs == projector_refresh_keypath_sigs@,
                forall|i: int|
                    0 <= i < prev_projectors@.len() ==> plans@[1 + i] == projector_plan(
                        #[trigger] prev_projectors@[i],
                    ),
                signs(plans@, (1 + i) as nat, txn@, signers@, witnesses_view(witnesses@)),
            decreases prev_projectors@.len() - i,
        {
            let projector = &prev_projectors[i];
            assert(prev_projectors@[i as int].location is Some);
            assert(plans@[1 + i] == projector_plan(prev_projectors@[i as int]));
            let outpoint = match &projector.location {
                None => {
                    return Err(SignedBatchTxnConstructError::ProjectorLocationNotFoundError);
                },
                Some(location) => location.0,
            };
            let ghost done = witnesses_view(witnesses@);
            match projector_witness(
                outpoint,
                &projector.scriptpubkey,
                1 + i as u32,
                txn,
                projector_refresh_keypath_sigs,
                signers,
            ) {
                Err(e) => {
                    proof {
                        lemma_fails(plans@, (1 + i) as nat, txn@, signers@, done);
                    }
                    return Err(e);
                },
                Ok(w) => {
                    proof {
                        lemma_signs_step(
                            plans@,
                            (1 + i) as nat,
                            txn@,
                            signers@,
                            done,
                            witness_view(w@),
                        );
                    }
                    witnesses.push(w);
                    assert(witnesses_view(witnesses@) =~= done.push(witness_view(w@)));
                },
            }
            i = i + 1;
        }
        Ok(witnesses)
    }

    /// The witnesses of the deposits, behind those of the inputs before them.
    fn sign_lifts(
        before: Vec<Vec<Vec<u8>>>,
        first: u32,
        lifts: &Vec<Lift>,
        txn: &UnsignedBatchTxn,
        engine_secret: [u8; 32],
        liftv2_keypath_sigs: &OutPointMap<[u8; 64]>,
        plans: Ghost<Seq<SpendPlan>>,
        signers: Ghost<Signers>,
    ) -> (r: Result<Vec<Vec<Vec<u8>>>, SignedBatchTxnConstructError>)
        requires
            first + lifts@.len() == plans@.len(),
            plans@.len() <= u32::MAX,
            signers@.engine_secret == engine_secret@,
            signers@.liftv2_sigs == liftv2_keypath_sigs@,
            forall|i: int|
                0 <= i < lifts@.len() ==> plans@[first + i] == SpendPlan::Lift(
                    (#[trigger] lifts@[i])@,
                ),
            signs(plans@, first as nat, txn@, signers@, witnesses_view(before@)),
        ensures
            match r {
                Err(e) => fails(plans@, txn@, signers@, e@),
                Ok(w) => signs(plans@, plans@.len(), txn@, signers@, witnesses_view(w@)),
            },
    {
        let mut witnesses: Vec<Vec<Vec<u8>>> = before;
        let mut k: usize = 0;
        while k < lifts.len()
            invariant
                k <= lifts@.len(),
                first + lifts@.len() == plans@.len(),
                plans@.len() <= u32::MAX,
                signers@.engine_secret == engine_secret@,
                signers@.liftv2_sigs == liftv2_keypath_sigs@,
                forall|i: int|
                    0 <= i < lifts@.len() ==> plans@[first + i] == SpendPlan::Lift(
                        (#[trigger] lifts@[i])@,
                    ),
                signs(plans@, (first + k) as nat, txn@, signers@, witnesses_view(witnesses@)),
            decreases lifts@.len() - k,
        {
            let index: u32 = first + k as u32;
            assert(plans@[first + k] == SpendPlan::Lift(lifts@[k as int]@));
            let ghost done = witnesses_view(witnesses@);
            let result = match &lifts[k] {
                Lift::LiftV1(lift) => liftv1_witness(lift, index, txn, engine_secret, signers),
                Lift::LiftV2(lift) => liftv2_witness(
                    lift,
                    index,
                    txn,
                    liftv2_keypath_sigs,
                    signers,
                ),
                Lift::Unknown { outpoint, txout } => Err(
                    SignedBatchTxnConstructError::UnknownLiftNotSupportedError,
                ),
            };
            match result {
                Err(e) => {
                    proof {
                        lemma_fails(plans@, (first + k) as nat, txn@, signers@, done);
                    }
                    return Err(e);
                },
                Ok(w) => {
                    proof {
                        lemma_signs_step(
                            plans@,
                            (first + k) as nat,
                            txn@,
                            signers@,
                            done,
                            witness_view(w@),
                        );
                    }
                    witnesses.push(w);
                    assert(witnesses_view(witnesses@) =~= done.push(witness_view(w@)));
                },
            }
            k = k + 1;
        }
        Ok(witnesses)
    }

    /// Constructs a signed batch transaction. `settled` are the outputs of the batch
    /// after fees, or why there are none; the two maps hold the cosignatures of
    /// deposits and of refreshed projectors, by outpoint. Every signature in the result
    /// is valid for the sighash of its input: on a script path under the engine's key, on
    /// a key path under the key of the deposit or of the projector.
    pub fn construct(
        prev_payload: &Payload,
        prev_projectors: &[Projector],
        entries: &[Entry],
        new_payload: &Payload,
        new_projectors: &[Projector],
        settled: Result<Vec<TxOut>, UnsignedBatchTxnConstructError>,
        engine_secret: [u8; 32],
        liftv2_keypath_sigs: &OutPointMap<[u8; 64]>,
        projector_refresh_keypath_sigs: &OutPointMap<[u8; 64]>,
    ) -> (r: Result<SignedBatchTxn, SignedBatchTxnConstructError>)
        requires
            input_count(prev_projectors@, entries@) <= u32::MAX,
        ensures
            ({
                let txn = unsigned_of(
                    assembled(
                        *prev_payload,
                        prev_projectors@,
                        entries@,
                        *new_payload,
                        new_projectors@,
                    ),
                    settled_view(settled),
                );
                let plans = spend_plans(*prev_payload, prev_projectors@, lifts_of(entries@));
                let signers = Signers {
                    engine_secret: engine_secret@,
                    liftv2_sigs: liftv2_keypath_sigs@,
                    refresh_sigs: projector_refresh_keypath_sigs@,
                };
                &&& signed_result(r) == signed_of(txn, plans, signers)
                &&& match r {
                    Err(_) => true,
                    Ok(t) => forall|i: int|
                        0 <= i < plans.len() ==> witness_signed(
                            plans[i],
                            i as u32,
                            txn->Ok_0,
                            engine_secret@,
                            (#[trigger] t@.inputs[i]).witness,
                        ),
                }
            }),
    {
        let txn = match Self::unsigned(
            prev_payload,
            prev_projectors,
            entries,
            new_payload,
            new_projectors,
            settled,
        ) {
            Err(e) => {
                return Err(e);
            },
            Ok(t) => t,
        };
        let lifts = collect_lifts(entries);
        let signers: Ghost<Signers> = Ghost(
            Signers {
                engine_secret: engine_secret@,
                liftv2_sigs: liftv2_keypath_sigs@,
                refresh_sigs: projector_refresh_keypath_sigs@,
            },
        );
        let plans: Ghost<Seq<SpendPlan>> = Ghost(
            spend_plans(*prev_payload, prev_projectors@, lifts_of(entries@)),
        );
        assert(lifts_view(lifts@).len() == lifts@.len());
        let before = match Self::sign_projectors(
            prev_payload,
            prev_projectors,
            &txn,
            engine_secret,
            projector_refresh_keypath_sigs,
            plans,
            signers,
        ) {
            Err(e) => {
                return Err(e);
            },
            Ok(w) => w,
        };
        let first: u32 = 1 + prev_projectors.len() as u32;
        assert forall|i: int| 0 <= i < lifts@.len() implies plans@[first + i] == SpendPlan::Lift(
            (#[trigger] lifts@[i])@,
        ) by {
            assert(lifts_view(lifts@)[i] == lifts@[i]@);
        }
        let witnesses = match Self::sign_lifts(
            before,
            first,
            &lifts,
            &txn,
            engine_secret,
            liftv2_keypath_sigs,
            plans,
            signers,
        ) {
            Err(e) => {
                return Err(e);
            },
            Ok(w) => w,
        };
        proof {
            assert(witnesses_view(witnesses@).len() == witnesses@.len());
        }
        let ghost expected = with_witnesses(txn@, witnesses_view(witnesses@));
        let mut tx_inputs: Vec<(OutPoint, TxOut, Vec<Vec<u8>>)> = Vec::new();
        let mut i: usize = 0;
        while i < txn.tx_inputs.len()
            invariant
                i <= txn.tx_inputs@.len(),
                txn.tx_inputs@.len() == witnesses@.len(),
                expected == with_witnesses(txn@, witnesses_view(witnesses@)),
                tx_inputs@.len() == i,
                forall|j: int|
                    0 <= j < i ==> {
                        &&& (#[trigger] tx_inputs@[j]).0@ == expected.inputs[j].outpoint
                        &&& tx_inputs@[j].1@ == expected.inputs[j].txout
                        &&& witness_view(tx_inputs@[j].2@) == expected.inputs[j].witness
                    },
            decreases txn.tx_inputs@.len() - i,
        {
            let input = &txn.tx_inputs[i];
            let witness = copy_witness(&witnesses[i]);
            tx_inputs.push((input.0, input.1.copy(), witness));
            i = i + 1;
        }
        let signed = SignedBatchTxn { tx_inputs, tx_outputs: txn.tx_outputs };
        assert(signed@.inputs =~= expected.inputs);
        assert forall|i: int| 0 <= i < plans@.len() implies witness_signed(
            plans@[i],
            i as u32,
            txn@,
            engine_secret@,
            (#[trigger] signed@.inputs[i]).witness,
        ) by {
            assert(signed@.inputs[i].witness == witnesses_view(witnesses@)[i]);
        }
        Ok(signed)
    }

    /// The key-path sighash of each deposit that needs a cosignature, by outpoint.
    pub fn liftv2_keypath_sighashes(
        prev_payload: &Payload,
        prev_projectors: &[Projector],
        entries: &[Entry],
        new_payload: &Payload,
        new_projectors: &[Projector],
        settled: Result<Vec<TxOut>, UnsignedBatchTxnConstructError>,
    ) -> (r: Result<OutPointMap<[u8; 32]>, SignedBatchTxnConstructError>)
        requires
            input_count(prev_projectors@, entries@) <= u32::MAX,
        ensures
            match unsigned_of(
                assembled(
                    *prev_payload,
                    prev_projectors@,
                    entries@,
                    *new_payload,
                    new_projectors@,
                ),
                settled_view(settled),
            ) {
                Err(e) => match r {
                    Err(error) => error@ == e,
                    Ok(_) => false,
                },
                Ok(txn) => match r {
                    Err(_) => false,
                    Ok(m) => hashes_by_bytes(m@) == lift_sighashes(
                        txn,
                        (1 + prev_projectors@.len()) as nat,
                        lifts_of(entries@),
                        lifts_of(entries@).len(),
                    ),
                },
            },
    {
        let txn = match Self::unsigned(
            prev_payload,
            prev_projectors,
            entries,
            new_payload,
            new_projectors,
            settled,
        ) {
            Err(e) => {
                return Err(e);
            },
            Ok(t) => t,
        };
        let lifts = collect_lifts(entries);
        let ghost all = lifts_view(lifts@);
        let ghost base = (1 + prev_projectors@.len()) as nat;
        assert(all.len() == lifts@.len());
        let first: u32 = 1 + prev_projectors.len() as u32;
        let mut sighashes: OutPointMap<[u8; 32]> = OutPointMap::new();
        let mut k: usize = 0;
        assert(hashes_by_bytes(sighashes@) =~= Map::empty());
        while k < lifts.len()
            invariant
                k <= lifts@.len(),
                all == lifts_view(lifts@),
                base == first,
                base + all.len() <= u32::MAX,
                txn@.inputs.len() == base + all.len(),
                hashes_by_bytes(sighashes@) == lift_sighashes(txn@, base, all, k as nat),
            decreases lifts@.len() - k,
        {
            assert(all[k as int] == lifts@[k as int]@);
            match &lifts[k] {
                Lift::LiftV2(lift) => {
                    match txn.taproot_sighash(first + k as u32, None) {
                        None => {
                            return Err(
                                SignedBatchTxnConstructError::LiftV2TaprootSighashConstructionError(
                                    lift.copy(),
                                ),
                            );
                        },
                        Some(h) => {
                            let ghost before = sighashes@;
                            sighashes.insert(lift.outpoint, h);
                            assert(hashes_by_bytes(sighashes@) =~= hashes_by_bytes(before).insert(
                                lift.outpoint@,
                                h@,
                            ));
                        },
                    }
                },
                _ => {},
            }
            k = k + 1;
        }
        Ok(sighashes)
    }

    /// The key-path sighash of each projector that is refreshed, by outpoint.
    pub fn projector_refresh_keypath_sighashes(
        prev_payload: &Payload,
        prev_projectors: &[Projector],
        entries: &[Entry],
        new_payload: &Payload,
        new_projectors: &[Projector],
        settled: Result<Vec<TxOut>, UnsignedBatchTxnConstructError>,
    ) -> (r: Result<OutPointMap<[u8; 32]>, SignedBatchTxnConstructError>)
        requires
            input_count(prev_projectors@, entries@) <= u32::MAX,
        ensures
            match unsigned_of(
                assembled(
                    *prev_payload,
                    prev_projectors@,
                    entries@,
                    *new_payload,
                    new_projectors@,
                ),
                settled_view(settled),
            ) {
                Err(e) => match r {
                    Err(error) => error@ == e,
                    Ok(_) => false,
                },
                Ok(txn) => match r {
                    Err(_) => false,
                    Ok(m) => hashes_by_bytes(m@) == projector_sighashes(
                        txn,
                        prev_projectors@,
                        prev_projectors@.len(),
                    ),
                },
            },
    {
        let txn = match Self::unsigned(
            prev_payload,
            prev_projectors,
            entries,
            new_payload,
            new_projectors,
            settled,
        ) {
            Err(e) => {
                return Err(e);
            },
            Ok(t) => t,
        };
        let mut sighashes: OutPointMap<[u8; 32]> = OutPointMap::new();
        let mut i: usize = 0;
        assert(hashes_by_bytes(sighashes@) =~= Map::empty());
        while i < prev_projectors.len()
            invariant
                i <= prev_projectors@.len(),
                all_located(prev_projectors@),
                1 + prev_projectors@.len() <= u32::MAX,
                1 + prev_projectors@.len() <= txn@.inputs.len(),
                hashes_by_bytes(sighashes@) == projector_sighashes(
                    txn@,
                    prev_projectors@,
                    i as nat,
                ),
            decreases prev_projectors@.len() - i,
        {
            assert(prev_projectors@[i as int].location is Some);
            let outpoint = match &prev_projectors[i].location {
                None => {
                    return Err(SignedBatchTxnConstructError::ProjectorLocationNotFoundError);
                },
                Some(location) => location.0,
            };
            let index: u32 = 1 + i as u32;
            match txn.taproot_sighash(index, None) {
                None => {
                    return Err(
                        SignedBatchTxnConstructError::ProjectorRefreshSighashConstructionError(
                            outpoint,
                        ),
                    );
                },
                Some(h) => {
                    let ghost before = sighashes@;
                    sighashes.insert(outpoint, h);
                    assert(hashes_by_bytes(sighashes@) =~= hashes_by_bytes(before).insert(
                        outpoint@,
                        h@,
                    ));
                },
            }
            i = i + 1;
        }
        Ok(sighashes)
    }
}

/// A copy of a witness stack.
pub fn copy_witness(witness: &Vec<Vec<u8>>) -> (r: Vec<Vec<u8>>)
    ensures
        witness_view(r@) == witness_view(witness@),
{
    let mut r: Vec<Vec<u8>> = Vec::new();
    let mut i: usize = 0;
    while i < witness.len()
        invariant
            i <= witness@.len(),
            r@.len() == i,
            forall|j: int| 0 <= j < i ==> (#[trigger] r@[j])@ == witness@[j]@,
        decreases witness@.len() - i,
    {
        r.push(to_vec(&witness[i]));
        i = i + 1;
    }
    assert(witness_view(r@) =~= witness_view(witness@));
    r
}

/// The encoded inputs, without witnesses.
pub open spec fn inputs_bytes(inputs: Seq<SignedInModel>) -> Seq<u8> {
    joined(Seq::new(inputs.len(), |i: int| txin_bytes(inputs[i].outpoint)))
}

/// The encoded witnesses.
pub open spec fn witnesses_bytes(inputs: Seq<SignedInModel>) -> Seq<u8> {
    joined(Seq::new(inputs.len(), |i: int| witness_bytes(inputs[i].witness)))
}

impl SignedModel {
    /// Inputs and outputs, each behind their number.
    pub open spec fn body(self) -> Seq<u8> {
        varint(self.inputs.len()) + inputs_bytes(self.inputs) + varint(self.outputs.len())
            + outputs_bytes(self.outputs)
    }

    /// The encoding of the transaction with its witnesses.
    pub open spec fn encoded(self) -> Seq<u8> {
        N_VERSION@ + seq![SEGWIT_MARKER, SEGWIT_FLAG] + self.body() + witnesses_bytes(self.inputs)
            + N_LOCKTIME@
    }

    /// The encoding without witnesses, which the transaction id is taken of.
    pub open spec fn encoded_for_txid(self) -> Seq<u8> {
        N_VERSION@ + self.body() + N_LOCKTIME@
    }
}

impl SignedBatchTxn {
    /// The outpoints of the inputs.
    pub fn tx_input_outpoints(&self) -> (r: Vec<OutPoint>)
        ensures
            r@.len() == self@.inputs.len(),
            forall|i: int| 0 <= i < r@.len() ==> (#[trigger] r@[i])@ == self@.inputs[i].outpoint,
    {
        let mut r: Vec<OutPoint> = Vec::new();
        let mut i: usize = 0;
        while i < self.tx_inputs.len()
            invariant
                i <= self.tx_inputs@.len(),
                r@.len() == i,
                forall|j: int| 0 <= j < i ==> (#[trigger] r@[j])@ == self@.inputs[j].outpoint,
            decreases self.tx_inputs@.len() - i,
        {
            r.push(self.tx_inputs[i].0);
            i = i + 1;
        }
        r
    }

    /// The outputs.
    pub fn tx_outputs(&self) -> (r: Vec<TxOut>)
        ensures
            outputs_view(r@) == self@.outputs,
    {
        copy_outputs(&self.tx_outputs)
    }

    fn push_body(&self, buf: &mut Vec<u8>)
        ensures
            final(buf)@ == old(buf)@ + self@.body(),
    {
        let ghost inputs = self@.inputs;
        let ghost parts = Seq::new(inputs.len(), |i: int| txin_bytes(inputs[i].outpoint));
        push_varint(buf, self.tx_inputs.len() as u64);
        let ghost start = buf@;
        let mut i: usize = 0;
        assert(buf@ =~= start + joined(parts.take(0)));
        while i < self.tx_inputs.len()
            invariant
                i <= self.tx_inputs@.len(),
                inputs == self@.inputs,
                parts == Seq::new(inputs.len(), |i: int| txin_bytes(inputs[i].outpoint)),
                buf@ == start + joined(parts.take(i as int)),
            decreases self.tx_inputs@.len() - i,
        {
            push_legacy_txin(buf, &self.tx_inputs[i].0);
            proof {
                lemma_joined_step(parts, i as int);
            }
            i = i + 1;
            assert(buf@ =~= start + joined(parts.take(i as int)));
        }
        assert(parts.take(i as int) =~= parts);
        push_varint(buf, self.tx_outputs.len() as u64);
        push_outputs(buf, &self.tx_outputs);
        assert(buf@ =~= old(buf)@ + self@.body());
    }

    /// Encodes the transaction with its witnesses.
    pub fn serialize_bytes(&self) -> (r: Vec<u8>)
        ensures
            r@ == self@.encoded(),
    {
        let mut buf: Vec<u8> = Vec::new();
        push_slice(&mut buf, &N_VERSION);
        buf.push(SEGWIT_MARKER);
        buf.push(SEGWIT_FLAG);
        self.push_body(&mut buf);
        let ghost start = buf@;
        let ghost inputs = self@.inputs;
        let ghost parts = Seq::new(inputs.len(), |i: int| witness_bytes(inputs[i].witness));
        let mut i: usize = 0;
        assert(buf@ =~= start + joined(parts.take(0)));
        while i < self.tx_inputs.len()
            invariant
                i <= self.tx_inputs@.len(),
                inputs == self@.inputs,
                parts == Seq::new(inputs.len(), |i: int| witness_bytes(inputs[i].witness)),
                buf@ == start + joined(parts.take(i as int)),
            decreases self.tx_inputs@.len() - i,
        {
            push_witness(&mut buf, &self.tx_inputs[i].2);
            proof {
                lemma_joined_step(parts, i as int);
            }
            i = i + 1;
            assert(buf@ =~= start + joined(parts.take(i as int)));
        }
        assert(parts.take(i as int) =~= parts);
        push_slice(&mut buf, &N_LOCKTIME);
        assert(buf@ =~= self@.encoded());
        buf
    }

    /// Encodes the transaction without its witnesses.
    pub fn serialize_bytes_for_txid(&self) -> (r: Vec<u8>)
        ensures
            r@ == self@.encoded_for_txid(),
    {
        let mut buf: Vec<u8> = Vec::new();
        push_slice(&mut buf, &N_VERSION);
        self.push_body(&mut buf);
        push_slice(&mut buf, &N_LOCKTIME);
        assert(buf@ =~= self@.encoded_for_txid());
        buf
    }

    /// The transaction id, in the byte order of the wire.
    pub fn txid(&self) -> (r: [u8; 32])
        ensures
            r@ == sha256_of(sha256_of(self@.encoded_for_txid())),
    {
        let first = sha256(&self.serialize_bytes_for_txid());
        sha256(&first)
    }
}

/// Witnesses do not change the transaction id: two transactions that differ in their
/// witnesses alone have the same encoding for it.
pub proof fn theorem_txid_ignores_witnesses(a: SignedModel, b: SignedModel)
    requires
        a.outputs == b.outputs,
        a.inputs.len() == b.inputs.len(),
        forall|i: int|
            0 <= i < a.inputs.len() ==> (#[trigger] a.inputs[i]).outpoint == b.inputs[i].outpoint,
    ensures
        a.encoded_for_txid() == b.encoded_for_txid(),
{
    assert(Seq::new(a.inputs.len(), |i: int| txin_bytes(a.inputs[i].outpoint)) =~= Seq::new(
        b.inputs.len(),
        |i: int| txin_bytes(b.inputs[i].outpoint),
    ));
}

/// The message that a depositor is given to cosign is the message that the batch
/// checks the cosignature against, where no outpoint is lifted twice.
pub proof fn theorem_lift_sighash_is_checked(
    txn: UnsignedModel,
    base: nat,
    lifts: Seq<LiftModel>,
    n: nat,
    k: int,
)
    requires
        0 <= k < n <= lifts.len(),
        lifts[k] is LiftV2,
        forall|i: int, j: int|
            0 <= i < j < lifts.len() ==> (#[trigger] lifts[i]).input().outpoint != (
            #[trigger] lifts[j]).input().outpoint,
    ensures
        lift_sighashes(txn, base, lifts, n).dom().contains(lifts[k].input().outpoint),
        lift_sighashes(txn, base, lifts, n)[lifts[k].input().outpoint] == txn.taproot_sighash(
            (base + k) as u32,
            None,
        )->0,
    decreases n,
{
    if k < n - 1 {
        theorem_lift_sighash_is_checked(txn, base, lifts, (n - 1) as nat, k);
        assert(lifts[k].input().outpoint != lifts[n - 1].input().outpoint);
    }
}

/// The message that the signers of a refresh are given to cosign is the message that
/// the batch checks the cosignature against, where no projector is spent twice.
pub proof fn theorem_projector_sighash_is_checked(
    txn: UnsignedModel,
    projectors: Seq<Projector>,
    n: nat,
    k: int,
)
    requires
        0 <= k < n <= projectors.len(),
        forall|i: int, j: int|
            0 <= i < j < projectors.len() ==> (located((#[trigger] projectors[i]).location)->0).outpoint
                != (located((#[trigger] projectors[j]).location)->0).outpoint,
    ensures
        projector_sighashes(txn, projectors, n).dom().contains(
            (located(projectors[k].location)->0).outpoint,
        ),
        projector_sighashes(txn, projectors, n)[(located(projectors[k].location)->0).outpoint]
            == txn.taproot_sighash((1 + k) as u32, None)->0,
    decreases n,
{
    if k < n - 1 {
        theorem_projector_sighash_is_checked(txn, projectors, (n - 1) as nat, k);
        let a = projectors[k];
        let b = projectors[n - 1];
        assert((located(a.location)->0).outpoint != (located(b.location)->0).outpoint);
    }
}

/// The signature of a key-path spend is valid under the key of the output that it spends,
/// where that is the key of the deposit or of the projector.
pub proof fn theorem_keypath_signature_spends_output(
    plan: SpendPlan,
    index: u32,
    txn: UnsignedModel,
    engine_secret: Seq<u8>,
    witness: Seq<Seq<u8>>,
)
    requires
        index < txn.inputs.len(),
        witness_signed(plan, index, txn, engine_secret, witness),
        keypath_key(plan) is Some,
        taproot_key(txn.inputs[index as int].txout.script_pubkey) == keypath_key(plan),
    ensures
        signature_valid(
            taproot_key(txn.inputs[index as int].txout.script_pubkey)->0,
            txn.taproot_sighash(index, None)->0,
            witness[0],
        ),
{
}

/// A completed cosignature is accepted: where a session signs the key-path sighash of a
/// deposit under its output key, the batch takes the signature as the witness.
pub proof fn theorem_deposit_cosignature_is_accepted(
    lift: LiftV2Model,
    index: u32,
    txn: UnsignedModel,
    signers: Signers,
    session: SessionModel,
)
    requires
        index < txn.inputs.len(),
        deposit_key(lift.account_key, lift.engine_key, lift.scripts) == Some(
            generator_multiple(session.key_exponent()),
        ),
        txn.taproot_sighash(index, None) == Some(session.message),
        signers.liftv2_sigs.dom().contains(lift.outpoint),
        signature_valid(
            session.key_x(),
            session.message,
            signers.liftv2_sigs[lift.outpoint]@,
        ),
    ensures
        witness_for(SpendPlan::Lift(LiftModel::LiftV2(lift)), index, txn, signers) == Ok::<
            Seq<Seq<u8>>,
            ConstructErrorModel,
        >(seq![signers.liftv2_sigs[lift.outpoint]@]),
{
}

/// A completed refresh is accepted: where a session signs the key-path sighash of a
/// projector under the key in its scriptpubkey, the batch takes the signature as the
/// witness.
pub proof fn theorem_refresh_cosignature_is_accepted(
    outpoint: OutPointModel,
    script_pubkey: Seq<u8>,
    index: u32,
    txn: UnsignedModel,
    signers: Signers,
    session: SessionModel,
)
    requires
        index < txn.inputs.len(),
        names_point(session.key_exponent()),
        script_pubkey == seq![0x51u8, 0x20u8] + session.key_x(),
        txn.taproot_sighash(index, None) == Some(session.message),
        signers.refresh_sigs.dom().contains(outpoint),
        signature_valid(session.key_x(), session.message, signers.refresh_sigs[outpoint]@),
    ensures
        witness_for(SpendPlan::Projector { outpoint, script_pubkey }, index, txn, signers) == Ok::<
            Seq<Seq<u8>>,
            ConstructErrorModel,
        >(seq![signers.refresh_sigs[outpoint]@]),
{
    assert(script_pubkey.subrange(2, 34) =~= session.key_x());
}

/// The number of swapouts among entries.
pub open spec fn swapout_count(entries: Seq<Entry>) -> nat
    decreases entries.len(),
{
    if entries.len() == 0 {
        0
    } else {
        swapout_count(entries.drop_last()) + if entries.last() is Swapout {
            1nat
        } else {
            0
        }
    }
}

proof fn lemma_swapouts_at(entries: Seq<Entry>, i: int)
    ensures
        swapouts_of(entries) is Some <==> forall|j: int|
            0 <= j < entries.len() && #[trigger] entries[j] is Swapout
                ==> entries[j]->Swapout_0.scriptpubkey is Some,
        swapouts_of(entries) is Some ==> {
            &&& swapouts_of(entries)->0.len() == swapout_count(entries)
            &&& 0 <= i < entries.len() && entries[i] is Swapout ==> {
                let at = swapout_count(entries.take(i)) as int;
                &&& at < swapouts_of(entries)->0.len()
                &&& swapouts_of(entries)->0[at].value == entries[i]->Swapout_0.amount
                &&& swapouts_of(entries)->0[at].script_pubkey
                    == entries[i]->Swapout_0.scriptpubkey->0@
            }
        },
    decreases entries.len(),
{
    if entries.len() > 0 {
        let before = entries.drop_last();
        let n = before.len() as int;
        lemma_swapouts_at(before, i);
        assert(forall|j: int| 0 <= j < n ==> #[trigger] before[j] == entries[j]);
        assert(entries[n] == entries.last());
        if 0 <= i < n {
            assert(before.take(i) =~= entries.take(i));
        } else if i == n {
            assert(entries.take(i) =~= before);
        }
        assert(swapouts_of(before) is Some <==> forall|j: int|
            0 <= j < n && #[trigger] entries[j] is Swapout
                ==> entries[j]->Swapout_0.scriptpubkey is Some) by {
            if swapouts_of(before) is Some {
                assert forall|j: int| 0 <= j < n && #[trigger] entries[j] is Swapout implies
                    entries[j]->Swapout_0.scriptpubkey is Some by {
                    assert(before[j] is Swapout);
                }
            } else {
                let j = choose|j: int|
                    0 <= j < before.len() && #[trigger] before[j] is Swapout
                        && !(before[j]->Swapout_0.scriptpubkey is Some);
                assert(entries[j] is Swapout);
            }
        }
    }
}

/// Every withdrawal is paid: an assembled batch has one output for each swapout entry, in
/// the order of the entries, with the amount and the scriptpubkey of the entry.
pub proof fn theorem_every_swapout_is_paid(
    prev_payload: &Payload,
    prev_projectors: &[Projector],
    entries: &[Entry],
    new_payload: &Payload,
    new_projectors: &[Projector],
    parts: BatchParts,
    i: int,
)
    requires
        call_ensures(
            SignedBatchTxn::assemble_unsigned_batch_txn,
            (prev_payload, prev_projectors, entries, new_payload, new_projectors),
            Ok(parts),
        ),
    ensures
        parts.swapout_tx_outputs@.len() == swapout_count(entries@),
        0 <= i < entries@.len() && entries@[i] is Swapout ==> {
            let at = swapout_count(entries@.take(i)) as int;
            &&& at < parts.swapout_tx_outputs@.len()
            &&& parts.swapout_tx_outputs@[at].value == entries@[i]->Swapout_0.amount
            &&& entries@[i]->Swapout_0.scriptpubkey is Some
            &&& parts.swapout_tx_outputs@[at].script_pubkey@
                == entries@[i]->Swapout_0.scriptpubkey->0@
        },
{
    lemma_swapouts_at(entries@, i);
    let paid = outputs_view(parts.swapout_tx_outputs@);
    assert(parts@.swapouts == paid);
    if 0 <= i < entries@.len() && entries@[i] is Swapout {
        let at = swapout_count(entries@.take(i)) as int;
        assert(paid[at] == parts.swapout_tx_outputs@[at]@);
    }
}

/// What a batch spends: the previous payload, every previous projector and every deposit
/// of its entries, each once, in this order, at the place where it is.
pub proof fn theorem_batch_spends_in_order(
    prev_payload: &Payload,
    prev_projectors: &[Projector],
    entries: &[Entry],
    new_payload: &Payload,
    new_projectors: &[Projector],
    parts: BatchParts,
    p: int,
    i: int,
    j: int,
)
    requires
        call_ensures(
            SignedBatchTxn::assemble_unsigned_batch_txn,
            (prev_payload, prev_projectors, entries, new_payload, new_projectors),
            Ok(parts),
        ),
    ensures
        parts.tx_inputs@.len() == 1 + prev_projectors@.len() + lift_count(entries@),
        prev_payload.location is Some,
        parts.tx_inputs@[0].0@ == (prev_payload.location->0).0@,
        parts.tx_inputs@[0].1@ == (prev_payload.location->0).1@,
        0 <= p < prev_projectors@.len() ==> {
            &&& prev_projectors@[p].location is Some
            &&& parts.tx_inputs@[1 + p].0@ == (prev_projectors@[p].location->0).0@
            &&& parts.tx_inputs@[1 + p].1@ == (prev_projectors@[p].location->0).1@
        },
        0 <= i < entries@.len() && entries@[i] is Liftup && 0 <= j
            < entries@[i]->Liftup_0.lift_tx_inputs@.len() ==> {
            let at = 1 + prev_projectors@.len() + lift_count(entries@.take(i)) + j;
            let lift = entries@[i]->Liftup_0.lift_tx_inputs@[j];
            &&& at < parts.tx_inputs@.len()
            &&& parts.tx_inputs@[at].0@ == lift@.input().outpoint
            &&& parts.tx_inputs@[at].1@ == lift@.input().txout
        },
{
    lemma_lifts_at(entries@, i, j);
    let spent = inputs_view(parts.tx_inputs@);
    assert(parts@.inputs == spent);
    assert(spent[0] == located(prev_payload.location)->0);
    if 0 <= p < prev_projectors@.len() {
        assert(spent[1 + p] == located(prev_projectors@[p].location)->0);
    }
    if 0 <= i < entries@.len() && entries@[i] is Liftup && 0 <= j
        < entries@[i]->Liftup_0.lift_tx_inputs@.len() {
        let k = lift_count(entries@.take(i)) + j;
        assert(spent[1 + prev_projectors@.len() + k] == lifts_of(entries@)[k].input());
    }
}

/// What a batch renews: a payload output without value, and every new projector with its
/// amount, in order.
pub proof fn theorem_batch_renews_outputs(
    prev_payload: &Payload,
    prev_projectors: &[Projector],
    entries: &[Entry],
    new_payload: &Payload,
    new_projectors: &[Projector],
    parts: BatchParts,
    i: int,
)
    requires
        call_ensures(
            SignedBatchTxn::assemble_unsigned_batch_txn,
            (prev_payload, prev_projectors, entries, new_payload, new_projectors),
            Ok(parts),
        ),
    ensures
        new_payload.scriptpubkey is Some,
        parts.new_payload_txout.value == 0,
        parts.new_payload_txout.script_pubkey@ == new_payload.scriptpubkey->0@,
        parts.new_projector_txouts@.len() == new_projectors@.len(),
        0 <= i < new_projectors@.len() ==> {
            &&& parts.new_projector_txouts@[i].value == new_projectors@[i].satoshi_amount
            &&& parts.new_projector_txouts@[i].script_pubkey@ == new_projectors@[i].scriptpubkey@
        },
{
    let renewed = outputs_view(parts.new_projector_txouts@);
    assert(parts@.new_projectors == renewed);
    assert(parts@.new_payload == parts.new_payload_txout@);
    if 0 <= i < new_projectors@.len() {
        assert(renewed[i] == parts.new_projector_txouts@[i]@);
    }
}

/// A batch is assembled if and only if everything that it spends has a place and
/// everything that it pays has a scriptpubkey; the first that is missing is reported.
pub proof fn theorem_assembly_is_owed(
    prev_payload: &Payload,
    prev_projectors: &[Projector],
    entries: &[Entry],
    new_payload: &Payload,
    new_projectors: &[Projector],
    r: Result<BatchParts, SignedBatchTxnConstructError>,
)
    requires
        call_ensures(
            SignedBatchTxn::assemble_unsigned_batch_txn,
            (prev_payload, prev_projectors, entries, new_payload, new_projectors),
            r,
        ),
    ensures
        ({
            let located = forall|i: int|
                0 <= i < prev_projectors@.len()
                    ==> (#[trigger] prev_projectors@[i]).location is Some;
            let payable = forall|i: int|
                0 <= i < entries@.len() && #[trigger] entries@[i] is Swapout
                    ==> entries@[i]->Swapout_0.scriptpubkey is Some;
            &&& r is Ok <==> prev_payload.location is Some && located && payable
                && new_payload.scriptpubkey is Some
            &&& prev_payload.location is None ==> r->Err_0 is PayloadLocationNotFoundError
            &&& prev_payload.location is Some && !located ==> r->Err_0
                is ProjectorLocationNotFoundError
            &&& prev_payload.location is Some && located && !payable ==> r->Err_0
                is SwapoutPinlessSelfCalculatedScriptpubkeyError
            &&& prev_payload.location is Some && located && payable && new_payload.scriptpubkey
                is None ==> {
                &&& r->Err_0 is UnsignedBatchTxnConstructError
                &&& r->Err_0->UnsignedBatchTxnConstructError_0 is NewPayloadScriptpubkeyError
            }
        }),
{
    lemma_swapouts_at(entries@, 0);
}

/// A constructed batch spends what is assembled and pays what was settled, both in order
/// and unchanged, with one witness for each input.
pub proof fn theorem_constructed_batch_is_the_assembled_one(
    prev_payload: &Payload,
    prev_projectors: &[Projector],
    entries: &[Entry],
    new_payload: &Payload,
    new_projectors: &[Projector],
    settled: Vec<TxOut>,
    engine_secret: [u8; 32],
    liftv2_sigs: &OutPointMap<[u8; 64]>,
    refresh_sigs: &OutPointMap<[u8; 64]>,
    assembly: Result<BatchParts, SignedBatchTxnConstructError>,
    t: SignedBatchTxn,
    i: int,
)
    requires
        call_ensures(
            SignedBatchTxn::assemble_unsigned_batch_txn,
            (prev_payload, prev_projectors, entries, new_payload, new_projectors),
            assembly,
        ),
        call_ensures(
            SignedBatchTxn::construct,
            (
                prev_payload,
                prev_projectors,
                entries,
                new_payload,
                new_projectors,
                Ok::<Vec<TxOut>, UnsignedBatchTxnConstructError>(settled),
                engine_secret,
                liftv2_sigs,
                refresh_sigs,
            ),
            Ok(t),
        ),
    ensures
        assembly is Ok,
        t.tx_inputs@.len() == assembly->Ok_0.tx_inputs@.len(),
        t.tx_outputs@.len() == settled@.len(),
        0 <= i < t.tx_inputs@.len() ==> {
            &&& t.tx_inputs@[i].0@ == assembly->Ok_0.tx_inputs@[i].0@
            &&& t.tx_inputs@[i].1@ == assembly->Ok_0.tx_inputs@[i].1@
        },
        0 <= i < settled@.len() ==> {
            &&& t.tx_outputs@[i].value == settled@[i].value
            &&& t.tx_outputs@[i].script_pubkey@ == settled@[i].script_pubkey@
        },
{
    let spent = inputs_view(assembly->Ok_0.tx_inputs@);
    assert(assembly->Ok_0@.inputs == spent);
    let inputs = t@.inputs;
    let outputs = outputs_view(t.tx_outputs@);
    assert(t@.outputs == outputs);
    assert(outputs == outputs_view(settled@));
    assert(outputs.len() == outputs_view(settled@).len());
    assert(inputs.len() == spent.len());
    if 0 <= i < t.tx_inputs@.len() {
        assert(inputs[i].outpoint == spent[i].outpoint);
        assert(inputs[i].txout == spent[i].txout);
    }
    if 0 <= i < settled@.len() {
        assert(outputs[i] == t.tx_outputs@[i]@);
        assert(outputs_view(settled@)[i] == settled@[i]@);
    }
}

/// Where the inputs of a batch get their witnesses from: the payload and the deposits
/// that the engine lifts alone show its signature, their script and their control block;
/// projectors and cosigned deposits show their cosignature and nothing else.
pub proof fn theorem_witnesses_have_their_form(
    plan: SpendPlan,
    index: u32,
    txn: UnsignedModel,
    signers: Signers,
    witness: Seq<Seq<u8>>,
)
    requires
        witness_for(plan, index, txn, signers) == Ok::<Seq<Seq<u8>>, ConstructErrorModel>(witness),
    ensures
        match plan {
            SpendPlan::Payload(spend) => {
                &&& witness.len() == 4
                &&& witness[1] == seq![1u8]
                &&& witness[2] == spend.script
                &&& witness[3] == spend.control_block
            },
            SpendPlan::Projector { outpoint, script_pubkey } => {
                &&& witness.len() == 1
                &&& signers.refresh_sigs.dom().contains(outpoint)
                &&& witness[0] == signers.refresh_sigs[outpoint]@
            },
            SpendPlan::Lift(LiftModel::LiftV1(lift)) => {
                &&& witness.len() == 3
                &&& witness[1] == lift.spend.script
                &&& witness[2] == lift.spend.control_block
            },
            SpendPlan::Lift(LiftModel::LiftV2(lift)) => {
                &&& witness.len() == 1
                &&& signers.liftv2_sigs.dom().contains(lift.outpoint)
                &&& witness[0] == signers.liftv2_sigs[lift.outpoint]@
            },
            SpendPlan::Lift(LiftModel::Unknown { input }) => false,
        },
        index < txn.inputs.len(),
{
}

/// When an input gets a witness: on a script path where the engine's secret signs the
/// sighash, on a key path where there is a cosignature and it is valid under the key of
/// the output; a deposit of an unknown kind never does.
pub proof fn theorem_witnesses_are_owed(
    plan: SpendPlan,
    index: u32,
    txn: UnsignedModel,
    signers: Signers,
)
    requires
        index < txn.inputs.len(),
    ensures
        witness_for(plan, index, txn, signers) is Ok <==> match plan {
            SpendPlan::Payload(spend) => is_scalar(signers.engine_secret) && signature_of(
                be_nat(signers.engine_secret),
                txn.taproot_sighash(index, Some(spend.leaf_hash))->0,
            ) is Some,
            SpendPlan::Lift(LiftModel::LiftV1(lift)) => is_scalar(signers.engine_secret)
                && signature_of(
                be_nat(signers.engine_secret),
                txn.taproot_sighash(index, Some(lift.spend.leaf_hash))->0,
            ) is Some,
            SpendPlan::Projector { outpoint, script_pubkey } => {
                &&& signers.refresh_sigs.dom().contains(outpoint)
                &&& script_pubkey.len() == 34
                &&& script_pubkey[0] == 0x51
                &&& script_pubkey[1] == 0x20
                &&& signature_valid(
                    script_pubkey.subrange(2, 34),
                    txn.taproot_sighash(index, None)->0,
                    signers.refresh_sigs[outpoint]@,
                )
            },
            SpendPlan::Lift(LiftModel::LiftV2(lift)) => {
                &&& signers.liftv2_sigs.dom().contains(lift.outpoint)
                &&& deposit_key(lift.account_key, lift.engine_key, lift.scripts) is Some
                &&& signature_valid(
                    x_of(deposit_key(lift.account_key, lift.engine_key, lift.scripts)->0),
                    txn.taproot_sighash(index, None)->0,
                    signers.liftv2_sigs[lift.outpoint]@,
                )
            },
            SpendPlan::Lift(LiftModel::Unknown { input }) => false,
        },
{
}

/// A batch is signed if and only if it is assembled, its outputs are settled, and every
/// input has a witness; its witnesses are those, in order.
pub proof fn theorem_signing_is_owed(
    txn: Result<UnsignedModel, ConstructErrorModel>,
    plans: Seq<SpendPlan>,
    signers: Signers,
)
    requires
        txn is Ok ==> txn->Ok_0.inputs.len() == plans.len(),
    ensures
        signed_of(txn, plans, signers) is Ok <==> txn is Ok && forall|i: int|
            0 <= i < plans.len() ==> witness_for(
                #[trigger] plans[i],
                i as u32,
                txn->Ok_0,
                signers,
            ) is Ok,
        signed_of(txn, plans, signers) is Ok ==> {
            let t = signed_of(txn, plans, signers)->Ok_0;
            &&& t.inputs.len() == plans.len()
            &&& t.outputs == txn->Ok_0.outputs
            &&& forall|i: int|
                0 <= i < plans.len() ==> {
                    &&& (#[trigger] t.inputs[i]).outpoint == txn->Ok_0.inputs[i].outpoint
                    &&& t.inputs[i].txout == txn->Ok_0.inputs[i].txout
                    &&& witness_for(plans[i], i as u32, txn->Ok_0, signers) == Ok::<
                        Seq<Seq<u8>>,
                        ConstructErrorModel,
                    >(t.inputs[i].witness)
                }
        },
{
    if txn is Ok {
        lemma_witnesses_at(plans, plans.len(), txn->Ok_0, signers);
    }
}

proof fn lemma_witnesses_at(
    plans: Seq<SpendPlan>,
    n: nat,
    txn: UnsignedModel,
    signers: Signers,
)
    requires
        n <= plans.len(),
    ensures
        witnesses_for(plans, n, txn, signers) is Ok <==> forall|i: int|
            0 <= i < n ==> witness_for(#[trigger] plans[i], i as u32, txn, signers) is Ok,
        witnesses_for(plans, n, txn, signers) is Ok ==> {
            let w = witnesses_for(plans, n, txn, signers)->Ok_0;
            &&& w.len() == n
            &&& forall|i: int|
                0 <= i < n ==> witness_for(plans[i], i as u32, txn, signers) == Ok::<
                    Seq<Seq<u8>>,
                    ConstructErrorModel,
                >(#[trigger] w[i])
        },
    decreases n,
{
    if n > 0 {
        let m = (n - 1) as nat;
        lemma_witnesses_at(plans, m, txn, signers);
        assert(witness_for(plans[m as int], m as u32, txn, signers) is Ok || !(witness_for(
            plans[m as int],
            m as u32,
            txn,
            signers,
        ) is Ok));
    }
}

/// The sighashes that are handed out for cosigning are those of the cosigned deposits,
/// all of them and no others, and those of all projectors.
pub proof fn theorem_sighashes_are_handed_out(
    txn: UnsignedModel,
    base: nat,
    lifts: Seq<LiftModel>,
    n: nat,
    projectors: Seq<Projector>,
    m: nat,
    outpoint: OutPointModel,
)
    requires
        n <= lifts.len(),
        m <= projectors.len(),
    ensures
        lift_sighashes(txn, base, lifts, n).dom().contains(outpoint) <==> exists|k: int|
            0 <= k < n && #[trigger] lifts[k] is LiftV2 && lifts[k].input().outpoint == outpoint,
        projector_sighashes(txn, projectors, m).dom().contains(outpoint) <==> exists|k: int|
            0 <= k < m && (located((#[trigger] projectors[k]).location)->0).outpoint == outpoint,
    decreases n + m,
{
    if n > 0 {
        theorem_sighashes_are_handed_out(txn, base, lifts, (n - 1) as nat, projectors, 0, outpoint);
        let last = lifts[n - 1];
        if lift_sighashes(txn, base, lifts, n).dom().contains(outpoint) {
            if last is LiftV2 && last.input().outpoint == outpoint {
                assert(lifts[n - 1] is LiftV2);
            } else {
                let k = choose|k: int|
                    0 <= k < n - 1 && #[trigger] lifts[k] is LiftV2 && lifts[k].input().outpoint
                        == outpoint;
                assert(lifts[k] is LiftV2);
            }
        }
    }
    if m > 0 {
        theorem_sighashes_are_handed_out(txn, base, lifts, 0, projectors, (m - 1) as nat, outpoint);
        if projector_sighashes(txn, projectors, m).dom().contains(outpoint) {
            if (located(projectors[m - 1].location)->0).outpoint == outpoint {
            } else {
                let k = choose|k: int|
                    0 <= k < m - 1 && (located((#[trigger] projectors[k]).location)->0).outpoint
                        == outpoint;
                assert((located(projectors[k].location)->0).outpoint == outpoint);
            }
        }
    }
}

/// Whether a transaction is one that its encoding counts and measures in 64 bits, with
/// transaction ids of 32 bytes.
pub open spec fn encodable(t: SignedModel) -> bool {
    &&& t.inputs.len() <= u64::MAX
    &&& t.outputs.len() <= u64::MAX
    &&& forall|i: int| 0 <= i < t.inputs.len() ==> (#[trigger] t.inputs[i]).outpoint.txid.len() == 32
    &&& forall|i: int|
        0 <= i < t.inputs.len() ==> (#[trigger] t.inputs[i]).witness.len() <= u64::MAX
    &&& forall|i: int, j: int|
        0 <= i < t.inputs.len() && 0 <= j < t.inputs[i].witness.len() ==> (
        #[trigger] t.inputs[i].witness[j]).len() <= u64::MAX
    &&& forall|i: int|
        0 <= i < t.outputs.len() ==> (#[trigger] t.outputs[i]).script_pubkey.len() <= u64::MAX
}

/// Nothing of a transaction is lost in its encoding: two transactions with the same
/// encoding have the same outpoints, witnesses and outputs.
pub proof fn theorem_encoding_is_unambiguous(a: SignedModel, b: SignedModel, i: int)
    requires
        encodable(a),
        encodable(b),
        a.encoded() == b.encoded(),
    ensures
        a.outputs == b.outputs,
        a.inputs.len() == b.inputs.len(),
        0 <= i < a.inputs.len() ==> {
            &&& a.inputs[i].outpoint == b.inputs[i].outpoint
            &&& a.inputs[i].witness == b.inputs[i].witness
        },
{
    let wa = witnesses_bytes(a.inputs) + N_LOCKTIME@;
    let wb = witnesses_bytes(b.inputs) + N_LOCKTIME@;
    assert(a.encoded().skip(6) =~= a.body() + wa);
    assert(b.encoded().skip(6) =~= b.body() + wb);
    lemma_body_unambiguous(a, b, wa, wb);
    lemma_witnesses_unambiguous(a.inputs, b.inputs, N_LOCKTIME@, N_LOCKTIME@);
}

/// Nothing but the witnesses is left out of what a transaction id is taken of: two
/// transactions with the same encoding for it have the same outpoints and outputs.
pub proof fn theorem_txid_commits_to_inputs_and_outputs(a: SignedModel, b: SignedModel, i: int)
    requires
        encodable(a),
        encodable(b),
        a.encoded_for_txid() == b.encoded_for_txid(),
    ensures
        a.outputs == b.outputs,
        a.inputs.len() == b.inputs.len(),
        0 <= i < a.inputs.len() ==> a.inputs[i].outpoint == b.inputs[i].outpoint,
{
    assert(a.encoded_for_txid().skip(4) =~= a.body() + N_LOCKTIME@);
    assert(b.encoded_for_txid().skip(4) =~= b.body() + N_LOCKTIME@);
    lemma_body_unambiguous(a, b, N_LOCKTIME@, N_LOCKTIME@);
}

/// The frame of an encoding: version two, the segwit marker and flag where there are
/// witnesses, the number of inputs, and no lock time at the end. Leaving out marker, flag
/// and witnesses gives what the transaction id is taken of.
pub proof fn theorem_encoding_has_its_frame(t: SignedModel)
    ensures
        t.encoded().take(6) == seq![2u8, 0u8, 0u8, 0u8, 0u8, 1u8],
        t.encoded().skip(t.encoded().len() - 4) == seq![0u8, 0u8, 0u8, 0u8],
        t.encoded_for_txid().take(4) == seq![2u8, 0u8, 0u8, 0u8],
        t.encoded_for_txid().skip(t.encoded_for_txid().len() - 4) == seq![0u8, 0u8, 0u8, 0u8],
        t.encoded() == seq![2u8, 0u8, 0u8, 0u8, 0u8, 1u8] + t.encoded_for_txid().subrange(
            4,
            t.encoded_for_txid().len() - 4,
        ) + witnesses_bytes(t.inputs) + seq![0u8, 0u8, 0u8, 0u8],
        exists|rest: Seq<u8>|
            t.encoded_for_txid().skip(4) == #[trigger] (varint(t.inputs.len()) + rest),
{
    assert(N_VERSION@ =~= seq![2u8, 0u8, 0u8, 0u8]);
    assert(N_LOCKTIME@ =~= seq![0u8, 0u8, 0u8, 0u8]);
    assert(t.encoded().take(6) =~= seq![2u8, 0u8, 0u8, 0u8, 0u8, 1u8]);
    assert(t.encoded().skip(t.encoded().len() - 4) =~= seq![0u8, 0u8, 0u8, 0u8]);
    assert(t.encoded_for_txid().take(4) =~= seq![2u8, 0u8, 0u8, 0u8]);
    assert(t.encoded_for_txid().skip(t.encoded_for_txid().len() - 4) =~= seq![
        0u8,
        0u8,
        0u8,
        0u8,
    ]);
    assert(t.encoded_for_txid().subrange(4, t.encoded_for_txid().len() - 4) =~= t.body());
    assert(t.encoded() =~= seq![2u8, 0u8, 0u8, 0u8, 0u8, 1u8] + t.body() + witnesses_bytes(
        t.inputs,
    ) + seq![0u8, 0u8, 0u8, 0u8]);
    let rest = inputs_bytes(t.inputs) + varint(t.outputs.len()) + outputs_bytes(t.outputs)
        + N_LOCKTIME@;
    assert(t.encoded_for_txid().skip(4) =~= varint(t.inputs.len()) + rest);
}

/// The inputs and the witnesses of two lists follow each other in an encoding.
pub proof fn theorem_inputs_are_encoded_in_order(a: Seq<SignedInModel>, b: Seq<SignedInModel>)
    ensures
        inputs_bytes(a + b) == inputs_bytes(a) + inputs_bytes(b),
        witnesses_bytes(a + b) == witnesses_bytes(a) + witnesses_bytes(b),
        a.len() == 1 ==> inputs_bytes(a) == txin_bytes(a[0].outpoint) && witnesses_bytes(a)
            == witness_bytes(a[0].witness),
{
    let x = Seq::new(a.len(), |i: int| txin_bytes(a[i].outpoint));
    let y = Seq::new(b.len(), |i: int| txin_bytes(b[i].outpoint));
    let u = Seq::new(a.len(), |i: int| witness_bytes(a[i].witness));
    let v = Seq::new(b.len(), |i: int| witness_bytes(b[i].witness));
    assert(Seq::new((a + b).len(), |i: int| txin_bytes((a + b)[i].outpoint)) =~= x + y);
    assert(Seq::new((a + b).len(), |i: int| witness_bytes((a + b)[i].witness)) =~= u + v);
    theorem_joined_parts(x, y, txin_bytes(a[0].outpoint));
    theorem_joined_parts(u, v, witness_bytes(a[0].witness));
    if a.len() == 1 {
        assert(x =~= seq![txin_bytes(a[0].outpoint)]);
        assert(u =~= seq![witness_bytes(a[0].witness)]);
    }
}

proof fn lemma_inputs_unambiguous(
    a: Seq<SignedInModel>,
    b: Seq<SignedInModel>,
    s: Seq<u8>,
    t: Seq<u8>,
)
    requires
        a.len() == b.len(),
        forall|i: int| 0 <= i < a.len() ==> (#[trigger] a[i]).outpoint.txid.len() == 32,
        forall|i: int| 0 <= i < b.len() ==> (#[trigger] b[i]).outpoint.txid.len() == 32,
        inputs_bytes(a) + s == inputs_bytes(b) + t,
    ensures
        s == t,
        forall|i: int| 0 <= i < a.len() ==> (#[trigger] a[i]).outpoint == b[i].outpoint,
    decreases a.len(),
{
    if a.len() == 0 {
        assert(inputs_bytes(a) + s =~= s);
        assert(inputs_bytes(b) + t =~= t);
    } else {
        let ha = a.take(1);
        let hb = b.take(1);
        let ra = a.drop_first();
        let rb = b.drop_first();
        assert(a =~= ha + ra);
        assert(b =~= hb + rb);
        theorem_inputs_are_encoded_in_order(ha, ra);
        theorem_inputs_are_encoded_in_order(hb, rb);
        theorem_outpoints_are_read_back(a[0].outpoint, b[0].outpoint);
        theorem_outpoints_are_read_back(b[0].outpoint, a[0].outpoint);
        let x = inputs_bytes(a) + s;
        let y = inputs_bytes(b) + t;
        assert(x.take(41) =~= txin_bytes(a[0].outpoint));
        assert(y.take(41) =~= txin_bytes(b[0].outpoint));
        assert(x.skip(41) =~= inputs_bytes(ra) + s);
        assert(y.skip(41) =~= inputs_bytes(rb) + t);
        lemma_inputs_unambiguous(ra, rb, s, t);
        assert forall|i: int| 0 <= i < a.len() implies (#[trigger] a[i]).outpoint
            == b[i].outpoint by {
            if i > 0 {
                assert(ra[i - 1].outpoint == rb[i - 1].outpoint);
            }
        }
    }
}

proof fn lemma_witnesses_unambiguous(
    a: Seq<SignedInModel>,
    b: Seq<SignedInModel>,
    s: Seq<u8>,
    t: Seq<u8>,
)
    requires
        a.len() == b.len(),
        forall|i: int| 0 <= i < a.len() ==> (#[trigger] a[i]).witness.len() <= u64::MAX,
        forall|i: int| 0 <= i < b.len() ==> (#[trigger] b[i]).witness.len() <= u64::MAX,
        forall|i: int, j: int|
            0 <= i < a.len() && 0 <= j < a[i].witness.len() ==> (#[trigger] a[i].witness[j]).len()
                <= u64::MAX,
        forall|i: int, j: int|
            0 <= i < b.len() && 0 <= j < b[i].witness.len() ==> (#[trigger] b[i].witness[j]).len()
                <= u64::MAX,
        witnesses_bytes(a) + s == witnesses_bytes(b) + t,
    ensures
        s == t,
        forall|i: int| 0 <= i < a.len() ==> (#[trigger] a[i]).witness == b[i].witness,
    decreases a.len(),
{
    if a.len() == 0 {
        assert(witnesses_bytes(a) + s =~= s);
        assert(witnesses_bytes(b) + t =~= t);
    } else {
        let ha = a.take(1);
        let hb = b.take(1);
        let ra = a.drop_first();
        let rb = b.drop_first();
        assert(a =~= ha + ra);
        assert(b =~= hb + rb);
        theorem_inputs_are_encoded_in_order(ha, ra);
        theorem_inputs_are_encoded_in_order(hb, rb);
        assert(witnesses_bytes(a) + s =~= witness_bytes(a[0].witness) + (witnesses_bytes(ra) + s));
        assert(witnesses_bytes(b) + t =~= witness_bytes(b[0].witness) + (witnesses_bytes(rb) + t));
        theorem_witnesses_are_read_back(
            a[0].witness,
            b[0].witness,
            witnesses_bytes(ra) + s,
            witnesses_bytes(rb) + t,
        );
        assert forall|i: int, j: int|
            0 <= i < ra.len() && 0 <= j < ra[i].witness.len() implies (
        #[trigger] ra[i].witness[j]).len() <= u64::MAX by {
            assert(ra[i].witness[j] == a[i + 1].witness[j]);
        }
        assert forall|i: int, j: int|
            0 <= i < rb.len() && 0 <= j < rb[i].witness.len() implies (
        #[trigger] rb[i].witness[j]).len() <= u64::MAX by {
            assert(rb[i].witness[j] == b[i + 1].witness[j]);
        }
        lemma_witnesses_unambiguous(ra, rb, s, t);
        assert forall|i: int| 0 <= i < a.len() implies (#[trigger] a[i]).witness == b[i].witness by {
            if i > 0 {
                assert(ra[i - 1].witness == rb[i - 1].witness);
            }
        }
    }
}

proof fn lemma_body_unambiguous(a: SignedModel, b: SignedModel, s: Seq<u8>, t: Seq<u8>)
    requires
        encodable(a),
        encodable(b),
        a.body() + s == b.body() + t,
    ensures
        s == t,
        a.outputs == b.outputs,
        a.inputs.len() == b.inputs.len(),
        forall|i: int| 0 <= i < a.inputs.len() ==> (#[trigger] a.inputs[i]).outpoint
            == b.inputs[i].outpoint,
{
    let oa = varint(a.outputs.len()) + (outputs_bytes(a.outputs) + s);
    let ob = varint(b.outputs.len()) + (outputs_bytes(b.outputs) + t);
    assert(a.body() + s =~= varint(a.inputs.len()) + (inputs_bytes(a.inputs) + oa));
    assert(b.body() + t =~= varint(b.inputs.len()) + (inputs_bytes(b.inputs) + ob));
    theorem_varint_unambiguous(
        a.inputs.len(),
        b.inputs.len(),
        inputs_bytes(a.inputs) + oa,
        inputs_bytes(b.inputs) + ob,
    );
    lemma_inputs_unambiguous(a.inputs, b.inputs, oa, ob);
    theorem_varint_unambiguous(
        a.outputs.len(),
        b.outputs.len(),
        outputs_bytes(a.outputs) + s,
        outputs_bytes(b.outputs) + t,
    );
    theorem_output_lists_are_read_back(a.outputs, b.outputs, s, t);
}

/// Every input of a batch is signed for what it spends: the payload first, then each
/// projector under its own outpoint and scriptpubkey, then each deposit.
pub proof fn theorem_inputs_are_signed_for_what_they_spend(
    payload: Payload,
    projectors: Seq<Projector>,
    lifts: Seq<LiftModel>,
    i: int,
)
    ensures
        spend_plans(payload, projectors, lifts).len() == batch_inputs(
            payload,
            projectors,
            lifts,
        ).len(),
        spend_plans(payload, projectors, lifts)[0] == SpendPlan::Payload(payload.spend@),
        0 <= i < projectors.len() ==> spend_plans(payload, projectors, lifts)[1 + i] == (
        SpendPlan::Projector {
            outpoint: batch_inputs(payload, projectors, lifts)[1 + i].outpoint,
            script_pubkey: projectors[i].scriptpubkey@,
        }),
        0 <= i < lifts.len() ==> {
            let at = 1 + projectors.len() + i;
            &&& spend_plans(payload, projectors, lifts)[at] == SpendPlan::Lift(lifts[i])
            &&& batch_inputs(payload, projectors, lifts)[at] == lifts[i].input()
        },
{
}

/// Why an input has no witness: each kind of input reports its own reason, a cosignature
/// that is missing before one that is not valid.
pub proof fn theorem_missing_witnesses_are_reported(
    plan: SpendPlan,
    index: u32,
    txn: UnsignedModel,
    signers: Signers,
    e: ConstructErrorModel,
)
    requires
        index < txn.inputs.len(),
        witness_for(plan, index, txn, signers) == Err::<Seq<Seq<u8>>, ConstructErrorModel>(e),
    ensures
        match plan {
            SpendPlan::Payload(spend) => e is PrevPayloadTaprootSignError,
            SpendPlan::Projector { outpoint, script_pubkey } => if signers.refresh_sigs.dom().contains(
                outpoint,
            ) {
                e == ConstructErrorModel::ProjectorRefreshCosignInvalidError(outpoint)
            } else {
                e == ConstructErrorModel::ProjectorRefreshCosignMissingError(outpoint)
            },
            SpendPlan::Lift(LiftModel::LiftV1(lift)) => e
                == ConstructErrorModel::PrevLiftV1TaprootSignError(lift),
            SpendPlan::Lift(LiftModel::LiftV2(lift)) => if signers.liftv2_sigs.dom().contains(
                lift.outpoint,
            ) {
                e == ConstructErrorModel::LiftV2CosignInvalidError(lift)
            } else {
                e == ConstructErrorModel::LiftV2CosignMissingError(lift)
            },
            SpendPlan::Lift(LiftModel::Unknown { input }) => e is UnknownLiftNotSupportedError,
        },
{
}

/// Why a batch is not constructed: it could not be assembled, its outputs could not be
/// settled, or an input has no witness; the first such input is the one that is reported.
pub proof fn theorem_construction_is_owed(
    prev_payload: &Payload,
    prev_projectors: &[Projector],
    entries: &[Entry],
    new_payload: &Payload,
    new_projectors: &[Projector],
    settled: Result<Vec<TxOut>, UnsignedBatchTxnConstructError>,
    engine_secret: [u8; 32],
    liftv2_sigs: &OutPointMap<[u8; 64]>,
    refresh_sigs: &OutPointMap<[u8; 64]>,
    assembly: Result<BatchParts, SignedBatchTxnConstructError>,
    r: Result<SignedBatchTxn, SignedBatchTxnConstructError>,
)
    requires
        call_ensures(
            SignedBatchTxn::assemble_unsigned_batch_txn,
            (prev_payload, prev_projectors, entries, new_payload, new_projectors),
            assembly,
        ),
        call_ensures(
            SignedBatchTxn::construct,
            (
                prev_payload,
                prev_projectors,
                entries,
                new_payload,
                new_projectors,
                settled,
                engine_secret,
                liftv2_sigs,
                refresh_sigs,
            ),
            r,
        ),
    ensures
        assembly is Err ==> r is Err && r->Err_0@ == assembly->Err_0@,
        assembly is Ok && settled is Err ==> r is Err && r->Err_0@
            == ConstructErrorModel::UnsignedBatchTxnConstructError(settled->Err_0),
        assembly is Ok && settled is Ok ==> {
            let txn = UnsignedModel {
                inputs: inputs_view(assembly->Ok_0.tx_inputs@),
                outputs: outputs_view(settled->Ok_0@),
            };
            let plans = spend_plans(*prev_payload, prev_projectors@, lifts_of(entries@));
            let signers = Signers {
                engine_secret: engine_secret@,
                liftv2_sigs: liftv2_sigs@,
                refresh_sigs: refresh_sigs@,
            };
            &&& r is Ok <==> forall|i: int|
                0 <= i < plans.len() ==> witness_for(#[trigger] plans[i], i as u32, txn, signers)
                    is Ok
            &&& r is Err ==> exists|i: int|
                {
                    &&& 0 <= i < plans.len()
                    &&& witness_for(#[trigger] plans[i], i as u32, txn, signers) == Err::<
                        Seq<Seq<u8>>,
                        ConstructErrorModel,
                    >(r->Err_0@)
                    &&& forall|j: int|
                        0 <= j < i ==> witness_for(#[trigger] plans[j], j as u32, txn, signers)
                            is Ok
                }
        },
{
    if assembly is Ok && settled is Ok {
        let txn = UnsignedModel {
            inputs: inputs_view(assembly->Ok_0.tx_inputs@),
            outputs: outputs_view(settled->Ok_0@),
        };
        let plans = spend_plans(*prev_payload, prev_projectors@, lifts_of(entries@));
        let signers = Signers {
            engine_secret: engine_secret@,
            liftv2_sigs: liftv2_sigs@,
            refresh_sigs: refresh_sigs@,
        };
        assert(assembly->Ok_0@.inputs == txn.inputs);
        lemma_witnesses_at(plans, plans.len(), txn, signers);
        lemma_first_missing_witness(plans, plans.len(), txn, signers);
    }
}

proof fn lemma_first_missing_witness(
    plans: Seq<SpendPlan>,
    n: nat,
    txn: UnsignedModel,
    signers: Signers,
)
    requires
        n <= plans.len(),
    ensures
        witnesses_for(plans, n, txn, signers) is Err ==> exists|i: int|
            {
                &&& 0 <= i < n
                &&& witness_for(#[trigger] plans[i], i as u32, txn, signers) == Err::<
                    Seq<Seq<u8>>,
                    ConstructErrorModel,
                >(witnesses_for(plans, n, txn, signers)->Err_0)
                &&& forall|j: int|
                    0 <= j < i ==> witness_for(#[trigger] plans[j], j as u32, txn, signers) is Ok
            },
    decreases n,
{
    if n > 0 {
        let m = (n - 1) as nat;
        lemma_first_missing_witness(plans, m, txn, signers);
        lemma_witnesses_at(plans, m, txn, signers);
        if witnesses_for(plans, n, txn, signers) is Err && witnesses_for(plans, m, txn, signers)
            is Ok {
            assert(witness_for(plans[m as int], m as u32, txn, signers) is Err);
        }
    }
}

proof fn lemma_signed_input(
    prev_payload: &Payload,
    prev_projectors: &[Projector],
    entries: &[Entry],
    new_payload: &Payload,
    new_projectors: &[Projector],
    settled: Vec<TxOut>,
    engine_secret: [u8; 32],
    liftv2_sigs: &OutPointMap<[u8; 64]>,
    refresh_sigs: &OutPointMap<[u8; 64]>,
    parts: BatchParts,
    txn: UnsignedBatchTxn,
    t: SignedBatchTxn,
    at: int,
)
    requires
        call_ensures(
            SignedBatchTxn::assemble_unsigned_batch_txn,
            (prev_payload, prev_projectors, entries, new_payload, new_projectors),
            Ok(parts),
        ),
        call_ensures(
            SignedBatchTxn::construct,
            (
                prev_payload,
                prev_projectors,
                entries,
                new_payload,
                new_projectors,
                Ok::<Vec<TxOut>, UnsignedBatchTxnConstructError>(settled),
                engine_secret,
                liftv2_sigs,
                refresh_sigs,
            ),
            Ok(t),
        ),
        txn.tx_inputs@ == parts.tx_inputs@,
        txn.tx_outputs@ == settled@,
        0 <= at < input_count(prev_projectors@, entries@),
    ensures
        ({
            let plans = spend_plans(*prev_payload, prev_projectors@, lifts_of(entries@));
            let signers = Signers {
                engine_secret: engine_secret@,
                liftv2_sigs: liftv2_sigs@,
                refresh_sigs: refresh_sigs@,
            };
            let witness = witness_view(t.tx_inputs@[at].2@);
            &&& witness_for(plans[at], at as u32, txn@, signers) == Ok::<
                Seq<Seq<u8>>,
                ConstructErrorModel,
            >(witness)
            &&& witness_signed(plans[at], at as u32, txn@, engine_secret@, witness)
        }),
{
    let plans = spend_plans(*prev_payload, prev_projectors@, lifts_of(entries@));
    let signers = Signers {
        engine_secret: engine_secret@,
        liftv2_sigs: liftv2_sigs@,
        refresh_sigs: refresh_sigs@,
    };
    let model = UnsignedModel {
        inputs: inputs_view(parts.tx_inputs@),
        outputs: outputs_view(settled@),
    };
    assert(parts@.inputs == model.inputs);
    assert(txn@ == model);
    let done = Ok::<UnsignedModel, ConstructErrorModel>(model);
    assert(signed_of(done, plans, signers) == Ok::<SignedModel, ConstructErrorModel>(t@));
    theorem_signing_is_owed(done, plans, signers);
    assert(t@.inputs[at].witness == witness_view(t.tx_inputs@[at].2@));
}

/// What the first input of a constructed batch shows: the engine's signature, valid under
/// its key for the sighash of that input and the leaf of the payload, a one, and the script
/// and control block of the payload.
pub proof fn theorem_payload_is_spent_by_engine(
    prev_payload: &Payload,
    prev_projectors: &[Projector],
    entries: &[Entry],
    new_payload: &Payload,
    new_projectors: &[Projector],
    settled: Vec<TxOut>,
    engine_secret: [u8; 32],
    liftv2_sigs: &OutPointMap<[u8; 64]>,
    refresh_sigs: &OutPointMap<[u8; 64]>,
    parts: BatchParts,
    txn: UnsignedBatchTxn,
    t: SignedBatchTxn,
)
    requires
        call_ensures(
            SignedBatchTxn::assemble_unsigned_batch_txn,
            (prev_payload, prev_projectors, entries, new_payload, new_projectors),
            Ok(parts),
        ),
        call_ensures(
            SignedBatchTxn::construct,
            (
                prev_payload,
                prev_projectors,
                entries,
                new_payload,
                new_projectors,
                Ok::<Vec<TxOut>, UnsignedBatchTxnConstructError>(settled),
                engine_secret,
                liftv2_sigs,
                refresh_sigs,
            ),
            Ok(t),
        ),
        txn.tx_inputs@ == parts.tx_inputs@,
        txn.tx_outputs@ == settled@,
    ensures
        ({
            let w = witness_view(t.tx_inputs@[0].2@);
            &&& w.len() == 4
            &&& signature_valid(
                generator_multiple(be_nat(engine_secret@)).subrange(1, 33),
                txn@.taproot_sighash(0, Some(prev_payload.spend.leaf_hash@))->0,
                w[0],
            )
            &&& w[1] == seq![1u8]
            &&& w[2] == prev_payload.spend.script@
            &&& w[3] == prev_payload.spend.control_block@
        }),
{
    lemma_signed_input(
        prev_payload,
        prev_projectors,
        entries,
        new_payload,
        new_projectors,
        settled,
        engine_secret,
        liftv2_sigs,
        refresh_sigs,
        parts,
        txn,
        t,
        0,
    );
    let plans = spend_plans(*prev_payload, prev_projectors@, lifts_of(entries@));
    assert(plans[0] == SpendPlan::Payload(prev_payload.spend@));
}

/// What the input of a projector shows in a constructed batch: the cosignature that was
/// given for its outpoint, valid under the key in its scriptpubkey for the sighash of that
/// input.
pub proof fn theorem_projectors_are_spent_by_cosignature(
    prev_payload: &Payload,
    prev_projectors: &[Projector],
    entries: &[Entry],
    new_payload: &Payload,
    new_projectors: &[Projector],
    settled: Vec<TxOut>,
    engine_secret: [u8; 32],
    liftv2_sigs: &OutPointMap<[u8; 64]>,
    refresh_sigs: &OutPointMap<[u8; 64]>,
    parts: BatchParts,
    txn: UnsignedBatchTxn,
    t: SignedBatchTxn,
    p: int,
)
    requires
        call_ensures(
            SignedBatchTxn::assemble_unsigned_batch_txn,
            (prev_payload, prev_projectors, entries, new_payload, new_projectors),
            Ok(parts),
        ),
        call_ensures(
            SignedBatchTxn::construct,
            (
                prev_payload,
                prev_projectors,
                entries,
                new_payload,
                new_projectors,
                Ok::<Vec<TxOut>, UnsignedBatchTxnConstructError>(settled),
                engine_secret,
                liftv2_sigs,
                refresh_sigs,
            ),
            Ok(t),
        ),
        txn.tx_inputs@ == parts.tx_inputs@,
        txn.tx_outputs@ == settled@,
        0 <= p < prev_projectors@.len(),
    ensures
        ({
            let outpoint = (prev_projectors@[p].location->0).0@;
            let w = witness_view(t.tx_inputs@[1 + p].2@);
            &&& w.len() == 1
            &&& refresh_sigs@.dom().contains(outpoint)
            &&& w[0] == refresh_sigs@[outpoint]@
            &&& signature_valid(
                prev_projectors@[p].scriptpubkey@.subrange(2, 34),
                txn@.taproot_sighash((1 + p) as u32, None)->0,
                w[0],
            )
        }),
{
    lemma_signed_input(
        prev_payload,
        prev_projectors,
        entries,
        new_payload,
        new_projectors,
        settled,
        engine_secret,
        liftv2_sigs,
        refresh_sigs,
        parts,
        txn,
        t,
        1 + p,
    );
    let plans = spend_plans(*prev_payload, prev_projectors@, lifts_of(entries@));
    assert(plans[1 + p] == projector_plan(prev_projectors@[p]));
    assert(prev_projectors@[p].location is Some);
}

/// What the input of a deposit shows in a constructed batch: where the engine lifts it
/// alone, its signature for the sighash of that input and leaf, with script and control
/// block; else the cosignature that was given for its outpoint, valid under the key of the
/// deposit for the sighash of that input.
pub proof fn theorem_deposits_are_spent_by_their_kind(
    prev_payload: &Payload,
    prev_projectors: &[Projector],
    entries: &[Entry],
    new_payload: &Payload,
    new_projectors: &[Projector],
    settled: Vec<TxOut>,
    engine_secret: [u8; 32],
    liftv2_sigs: &OutPointMap<[u8; 64]>,
    refresh_sigs: &OutPointMap<[u8; 64]>,
    parts: BatchParts,
    txn: UnsignedBatchTxn,
    t: SignedBatchTxn,
    i: int,
    j: int,
)
    requires
        call_ensures(
            SignedBatchTxn::assemble_unsigned_batch_txn,
            (prev_payload, prev_projectors, entries, new_payload, new_projectors),
            Ok(parts),
        ),
        call_ensures(
            SignedBatchTxn::construct,
            (
                prev_payload,
                prev_projectors,
                entries,
                new_payload,
                new_projectors,
                Ok::<Vec<TxOut>, UnsignedBatchTxnConstructError>(settled),
                engine_secret,
                liftv2_sigs,
                refresh_sigs,
            ),
            Ok(t),
        ),
        txn.tx_inputs@ == parts.tx_inputs@,
        txn.tx_outputs@ == settled@,
        0 <= i < entries@.len(),
        entries@[i] is Liftup,
        0 <= j < entries@[i]->Liftup_0.lift_tx_inputs@.len(),
    ensures
        ({
            let at = 1 + prev_projectors@.len() + lift_count(entries@.take(i)) + j;
            let w = witness_view(t.tx_inputs@[at].2@);
            match entries@[i]->Liftup_0.lift_tx_inputs@[j] {
                Lift::LiftV1(l) => {
                    &&& w.len() == 3
                    &&& signature_valid(
                        generator_multiple(be_nat(engine_secret@)).subrange(1, 33),
                        txn@.taproot_sighash(at as u32, Some(l.spend.leaf_hash@))->0,
                        w[0],
                    )
                    &&& w[1] == l.spend.script@
                    &&& w[2] == l.spend.control_block@
                },
                Lift::LiftV2(l) => {
                    &&& w.len() == 1
                    &&& liftv2_sigs@.dom().contains(l.outpoint@)
                    &&& w[0] == liftv2_sigs@[l.outpoint@]@
                    &&& signature_valid(
                        deposit_key(l@.account_key, l@.engine_key, l@.scripts)->0.subrange(1, 33),
                        txn@.taproot_sighash(at as u32, None)->0,
                        w[0],
                    )
                },
                _ => false,
            }
        }),
{
    lemma_lifts_at(entries@, i, j);
    let k = lift_count(entries@.take(i)) + j;
    let at = 1 + prev_projectors@.len() + k;
    lemma_signed_input(
        prev_payload,
        prev_projectors,
        entries,
        new_payload,
        new_projectors,
        settled,
        engine_secret,
        liftv2_sigs,
        refresh_sigs,
        parts,
        txn,
        t,
        at,
    );
    let lifts = lifts_of(entries@);
    let plans = spend_plans(*prev_payload, prev_projectors@, lifts);
    assert(plans[at] == SpendPlan::Lift(lifts[k]));
}

/// The sighashes that are handed out to cosign deposits: there are some if and only if the
/// batch is assembled and settled; each cosigned deposit that is the last one with its
/// outpoint gets the key-path sighash of its own input.
pub proof fn theorem_deposits_get_their_sighash(
    prev_payload: &Payload,
    prev_projectors: &[Projector],
    entries: &[Entry],
    new_payload: &Payload,
    new_projectors: &[Projector],
    settled: Result<Vec<TxOut>, UnsignedBatchTxnConstructError>,
    assembly: Result<BatchParts, SignedBatchTxnConstructError>,
    r: Result<OutPointMap<[u8; 32]>, SignedBatchTxnConstructError>,
    k: int,
)
    requires
        call_ensures(
            SignedBatchTxn::assemble_unsigned_batch_txn,
            (prev_payload, prev_projectors, entries, new_payload, new_projectors),
            assembly,
        ),
        call_ensures(
            SignedBatchTxn::liftv2_keypath_sighashes,
            (prev_payload, prev_projectors, entries, new_payload, new_projectors, settled),
            r,
        ),
    ensures
        r is Ok <==> assembly is Ok && settled is Ok,
        assembly is Err ==> r->Err_0@ == assembly->Err_0@,
        assembly is Ok && settled is Err ==> r->Err_0@
            == ConstructErrorModel::UnsignedBatchTxnConstructError(settled->Err_0),
        r is Ok ==> {
            let txn = UnsignedModel {
                inputs: inputs_view(assembly->Ok_0.tx_inputs@),
                outputs: outputs_view(settled->Ok_0@),
            };
            let lifts = lifts_of(entries@);
            0 <= k < lifts.len() && lifts[k] is LiftV2 && (forall|l: int|
                k < l < lifts.len() && (#[trigger] lifts[l]) is LiftV2
                    ==> lifts[l]->LiftV2_0.outpoint != lifts[k]->LiftV2_0.outpoint) ==> {
                let outpoint = lifts[k]->LiftV2_0.outpoint;
                &&& (r->Ok_0)@.dom().contains(outpoint)
                &&& (r->Ok_0)@[outpoint]@ == txn.taproot_sighash(
                    (1 + prev_projectors@.len() + k) as u32,
                    None,
                )->0
            }
        },
{
    if r is Ok {
        let txn = UnsignedModel {
            inputs: inputs_view(assembly->Ok_0.tx_inputs@),
            outputs: outputs_view(settled->Ok_0@),
        };
        let lifts = lifts_of(entries@);
        assert(assembly->Ok_0@.inputs == txn.inputs);
        let m = (r->Ok_0)@;
        if 0 <= k < lifts.len() && lifts[k] is LiftV2 && (forall|l: int|
            k < l < lifts.len() && (#[trigger] lifts[l]) is LiftV2
                ==> lifts[l]->LiftV2_0.outpoint != lifts[k]->LiftV2_0.outpoint) {
            lemma_last_lift_sighash(
                txn,
                (1 + prev_projectors@.len()) as nat,
                lifts,
                lifts.len(),
                k,
            );
            let outpoint = lifts[k]->LiftV2_0.outpoint;
            assert(hashes_by_bytes(m).dom().contains(outpoint));
            assert(hashes_by_bytes(m)[outpoint] == m[outpoint]@);
        }
    }
}

proof fn lemma_last_lift_sighash(
    txn: UnsignedModel,
    base: nat,
    lifts: Seq<LiftModel>,
    n: nat,
    k: int,
)
    requires
        0 <= k < n <= lifts.len(),
        lifts[k] is LiftV2,
        forall|l: int|
            k < l < n && (#[trigger] lifts[l]) is LiftV2 ==> lifts[l]->LiftV2_0.outpoint
                != lifts[k]->LiftV2_0.outpoint,
    ensures
        lift_sighashes(txn, base, lifts, n).dom().contains(lifts[k]->LiftV2_0.outpoint),
        lift_sighashes(txn, base, lifts, n)[lifts[k]->LiftV2_0.outpoint] == txn.taproot_sighash(
            (base + k) as u32,
            None,
        )->0,
    decreases n,
{
    if k < n - 1 {
        assert(lifts[n - 1] is LiftV2 ==> lifts[n - 1]->LiftV2_0.outpoint
            != lifts[k]->LiftV2_0.outpoint);
        lemma_last_lift_sighash(txn, base, lifts, (n - 1) as nat, k);
    }
}

/// The sighashes that are handed out to refresh projectors: each projector that is the last
/// one at its outpoint gets the key-path sighash of its own input.
pub proof fn theorem_projectors_get_their_sighash(
    prev_payload: &Payload,
    prev_projectors: &[Projector],
    entries: &[Entry],
    new_payload: &Payload,
    new_projectors: &[Projector],
    settled: Result<Vec<TxOut>, UnsignedBatchTxnConstructError>,
    assembly: Result<BatchParts, SignedBatchTxnConstructError>,
    r: Result<OutPointMap<[u8; 32]>, SignedBatchTxnConstructError>,
    k: int,
)
    requires
        call_ensures(
            SignedBatchTxn::assemble_unsigned_batch_txn,
            (prev_payload, prev_projectors, entries, new_payload, new_projectors),
            assembly,
        ),
        call_ensures(
            SignedBatchTxn::projector_refresh_keypath_sighashes,
            (prev_payload, prev_projectors, entries, new_payload, new_projectors, settled),
            r,
        ),
    ensures
        r is Ok <==> assembly is Ok && settled is Ok,
        assembly is Err ==> r->Err_0@ == assembly->Err_0@,
        assembly is Ok && settled is Err ==> r->Err_0@
            == ConstructErrorModel::UnsignedBatchTxnConstructError(settled->Err_0),
        r is Ok ==> {
            let txn = UnsignedModel {
                inputs: inputs_view(assembly->Ok_0.tx_inputs@),
                outputs: outputs_view(settled->Ok_0@),
            };
            0 <= k < prev_projectors@.len() && (forall|l: int|
                k < l < prev_projectors@.len() ==> ((
                #[trigger] prev_projectors@[l]).location->0).0@
                    != (prev_projectors@[k].location->0).0@) ==> {
                let outpoint = (prev_projectors@[k].location->0).0@;
                &&& (r->Ok_0)@.dom().contains(outpoint)
                &&& (r->Ok_0)@[outpoint]@ == txn.taproot_sighash((1 + k) as u32, None)->0
            }
        },
{
    if r is Ok {
        let txn = UnsignedModel {
            inputs: inputs_view(assembly->Ok_0.tx_inputs@),
            outputs: outputs_view(settled->Ok_0@),
        };
        assert(assembly->Ok_0@.inputs == txn.inputs);
        let m = (r->Ok_0)@;
        if 0 <= k < prev_projectors@.len() && (forall|l: int|
            k < l < prev_projectors@.len() ==> ((#[trigger] prev_projectors@[l]).location->0).0@
                != (prev_projectors@[k].location->0).0@) {
            lemma_last_projector_sighash(txn, prev_projectors@, prev_projectors@.len(), k);
            let outpoint = (prev_projectors@[k].location->0).0@;
            assert(hashes_by_bytes(m).dom().contains(outpoint));
            assert(hashes_by_bytes(m)[outpoint] == m[outpoint]@);
        }
    }
}

proof fn lemma_last_projector_sighash(
    txn: UnsignedModel,
    projectors: Seq<Projector>,
    n: nat,
    k: int,
)
    requires
        0 <= k < n <= projectors.len(),
        all_located(projectors),
        forall|l: int|
            k < l < n ==> ((#[trigger] projectors[l]).location->0).0@ != (
            projectors[k].location->0).0@,
    ensures
        projector_sighashes(txn, projectors, n).dom().contains((projectors[k].location->0).0@),
        projector_sighashes(txn, projectors, n)[(projectors[k].location->0).0@]
            == txn.taproot_sighash((1 + k) as u32, None)->0,
    decreases n,
{
    assert(projectors[k].location is Some);
    assert(projectors[n - 1].location is Some);
    if k < n - 1 {
        lemma_last_projector_sighash(txn, projectors, (n - 1) as nat, k);
    }
}

/// What a signed transaction gives of itself: its outpoints and outputs in order, its
/// encodings, and its id, which is the double hash of the encoding without witnesses.
pub proof fn theorem_transactions_give_themselves(
    t: SignedBatchTxn,
    outpoints: Vec<OutPoint>,
    outputs: Vec<TxOut>,
    encoded: Vec<u8>,
    stripped: Vec<u8>,
    txid: [u8; 32],
    i: int,
)
    requires
        call_ensures(SignedBatchTxn::tx_input_outpoints, (&t,), outpoints),
        call_ensures(SignedBatchTxn::tx_outputs, (&t,), outputs),
        call_ensures(SignedBatchTxn::serialize_bytes, (&t,), encoded),
        call_ensures(SignedBatchTxn::serialize_bytes_for_txid, (&t,), stripped),
        call_ensures(SignedBatchTxn::txid, (&t,), txid),
    ensures
        outpoints@.len() == t.tx_inputs@.len(),
        0 <= i < t.tx_inputs@.len() ==> outpoints@[i].txid@ == t.tx_inputs@[i].0.txid@
            && outpoints@[i].vout == t.tx_inputs@[i].0.vout,
        outputs@.len() == t.tx_outputs@.len(),
        0 <= i < t.tx_outputs@.len() ==> outputs@[i].value == t.tx_outputs@[i].value
            && outputs@[i].script_pubkey@ == t.tx_outputs@[i].script_pubkey@,
        encoded@ == t@.encoded(),
        stripped@ == t@.encoded_for_txid(),
        txid@ == sha256_of(sha256_of(stripped@)),
{
    assert(outputs_view(outputs@).len() == outputs@.len());
    assert(t@.outputs.len() == t.tx_outputs@.len());
    if 0 <= i < t.tx_inputs@.len() {
        assert(outpoints@[i]@ == t@.inputs[i].outpoint);
    }
    if 0 <= i < t.tx_outputs@.len() {
        assert(outputs_view(outputs@)[i] == outputs@[i]@);
        assert(outputs_view(t.tx_outputs@)[i] == t.tx_outputs@[i]@);
    }
}

} // verus!

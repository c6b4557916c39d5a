//! Refreshing a contract pot: the signers of a key-path spend of its funding output.
//!
//! Every batch renders the pot anew, which spends the old funding output into the new
//! one. That spend is signed by all participants and the engine, each with the key
//! that is bound to its value.
use vstd::prelude::*;
use crate::bytes::be_nat;
use crate::curve::{discrete_log, even_point, generator_multiple, x_of, Point, Scalar};
use crate::musig::{agg_exponent, MusigKeyAggCtx};
use crate::projector::{
    key_projector_agg, position_index, project_public_key, project_secret_key, projected,
    projected_keys,
};
use crate::script::LOCK_TIME_THRESHOLD;
use crate::taproot::TapRoot;
use crate::timeout_tree::{
    funding_keys, funding_keys_and_values, funding_output, funding_taproot, has_funding_output,
    total_of, total_value,
};

verus! {

/// The scriptpubkey of the funding output, where there is one.
pub open spec fn covenant_spk(
    engine_key: Seq<u8>,
    allocations: Seq<([u8; 32], u64)>,
    expiry_height: u32,
) -> Option<Seq<u8>> {
    if has_funding_output(engine_key, allocations) {
        funding_output(engine_key, allocations, expiry_height).scriptpubkey()
    } else {
        None
    }
}

/// The key aggregation for a key-path spend of the funding output: all value-bound
/// keys, with the tweak of the output. Its aggregate key is the key in the
/// scriptpubkey of the output, and there is one if and only if there is the other.
pub fn refresh_keyagg(
    engine_key: [u8; 32],
    allocations: &[([u8; 32], u64)],
    expiry_height: u32,
) -> (r: Option<MusigKeyAggCtx>)
    requires
        has_funding_output(engine_key@, allocations@) ==> {
            &&& total_value(allocations@) <= u64::MAX
            &&& expiry_height < LOCK_TIME_THRESHOLD
        },
    ensures
        match r {
            None => covenant_spk(engine_key@, allocations@, expiry_height) is None,
            Some(ctx) => {
                &&& ctx.keys() == projected_keys(funding_keys(engine_key@, allocations@))
                &&& ctx.tweak() == Some(
                    be_nat(
                        funding_output(engine_key@, allocations@, expiry_height).tap_tweak(),
                    ),
                )
                &&& covenant_spk(engine_key@, allocations@, expiry_height) == Some(
                    seq![0x51u8, 0x20u8] + x_of(
                        generator_multiple(agg_exponent(ctx.keys(), ctx.tweak())),
                    ),
                )
            },
        },
{
    let taproot = match funding_taproot(engine_key, allocations, expiry_height) {
        None => {
            return None;
        },
        Some(t) => t,
    };
    let tweak = match Scalar::from_slice(&taproot.tap_tweak()) {
        None => {
            return None;
        },
        Some(t) => t,
    };
    match funding_keys_and_values(engine_key, allocations) {
        None => None,
        Some(keys) => key_projector_agg(&keys, Some(tweak)),
    }
}

/// The scriptpubkey of the funding output for given allocations.
pub fn covenant_scriptpubkey(
    engine_key: [u8; 32],
    allocations: &[([u8; 32], u64)],
    expiry_height: u32,
) -> (r: Option<Vec<u8>>)
    requires
        has_funding_output(engine_key@, allocations@) ==> {
            &&& total_value(allocations@) <= u64::MAX
            &&& expiry_height < LOCK_TIME_THRESHOLD
        },
    ensures
        match r {
            None => covenant_spk(engine_key@, allocations@, expiry_height) is None,
            Some(spk) => covenant_spk(engine_key@, allocations@, expiry_height) == Some(spk@),
        },
{
    match funding_taproot(engine_key, allocations, expiry_height) {
        None => None,
        Some(t) => t.spk(),
    }
}

/// The index of the engine among the signers: behind all participants, who are
/// indexed in the order of the allocations.
pub fn engine_signer_index(allocations: &[([u8; 32], u64)]) -> (r: u32)
    ensures
        r == position_index(allocations@.len() as int),
{
    let wide: u64 = allocations.len() as u64;
    assert(wide as u32 == wide % 0x1_0000_0000) by (bit_vector);
    wide as u32
}

/// The key that a participant signs a refresh under. `base` is the even-Y point of
/// the account.
pub fn participant_projected_pubkey(base: Point, value: u64, index: u32) -> (r: Option<Point>)
    ensures
        match r {
            None => projected(base.exponent(), value, index) is None,
            Some(p) => {
                &&& projected(base.exponent(), value, index) == Some(p.exponent())
                &&& p@ == generator_multiple(p.exponent())
            },
        },
{
    project_public_key(base, value, index)
}

/// The secret that a participant signs a refresh with. `base_secret` is the secret of
/// the even-Y point of the account.
pub fn participant_projected_secret(base_secret: Scalar, value: u64, index: u32) -> (r: Option<
    Scalar,
>)
    ensures
        match r {
            None => projected(base_secret.value(), value, index) is None,
            Some(s) => projected(base_secret.value(), value, index) == Some(s.value()),
        },
{
    project_secret_key(base_secret, value, index)
}

/// The key that the engine signs a refresh under: bound to the total.
pub fn engine_projected_pubkey(engine_base: Point, allocations: &[([u8; 32], u64)]) -> (r: Option<
    Point,
>)
    requires
        total_value(allocations@) <= u64::MAX,
    ensures
        match r {
            None => projected(
                engine_base.exponent(),
                total_value(allocations@) as u64,
                position_index(allocations@.len() as int),
            ) is None,
            Some(p) => {
                &&& projected(
                    engine_base.exponent(),
                    total_value(allocations@) as u64,
                    position_index(allocations@.len() as int),
                ) == Some(p.exponent())
                &&& p@ == generator_multiple(p.exponent())
            },
        },
{
    let total = total_of(allocations);
    project_public_key(engine_base, total, engine_signer_index(allocations))
}

/// The secret that the engine signs a refresh with.
pub fn engine_projected_secret(engine_base_secret: Scalar, allocations: &[([u8; 32], u64)]) -> (r:
    Option<Scalar>)
    requires
        total_value(allocations@) <= u64::MAX,
    ensures
        match r {
            None => projected(
                engine_base_secret.value(),
                total_value(allocations@) as u64,
                position_index(allocations@.len() as int),
            ) is None,
            Some(s) => projected(
                engine_base_secret.value(),
                total_value(allocations@) as u64,
                position_index(allocations@.len() as int),
            ) == Some(s.value()),
        },
{
    let total = total_of(allocations);
    project_secret_key(engine_base_secret, total, engine_signer_index(allocations))
}

/// The signers of a refresh: participant `i` signs under the account key projected by
/// its value and index, and the engine, behind them, under its key projected by the
/// total.
pub proof fn theorem_refresh_signers(engine_key: Seq<u8>, allocations: Seq<([u8; 32], u64)>, i: int)
    requires
        0 <= i <= allocations.len(),
    ensures
        i < allocations.len() ==> projected_keys(funding_keys(engine_key, allocations))[i]
            == generator_multiple(
            projected(
                discrete_log(even_point(allocations[i].0@)),
                allocations[i].1,
                position_index(i),
            )->0,
        ),
        projected_keys(funding_keys(engine_key, allocations))[allocations.len() as int]
            == generator_multiple(
            projected(
                discrete_log(even_point(engine_key)),
                total_value(allocations) as u64,
                position_index(allocations.len() as int),
            )->0,
        ),
{
}

/// The keys and secrets that the engine signs a refresh with are those of the last
/// signer, projected by the sum of the values and the number of the participants; each
/// secret opens its key.
pub proof fn theorem_engine_signs_for_total(
    engine_base: Point,
    engine_secret: Scalar,
    allocations: &[([u8; 32], u64)],
    key: Option<Point>,
    secret: Option<Scalar>,
    index: u32,
)
    requires
        call_ensures(engine_projected_pubkey, (engine_base, allocations), key),
        call_ensures(engine_projected_secret, (engine_secret, allocations), secret),
        call_ensures(engine_signer_index, (allocations,), index),
        allocations@.len() < 0x1_0000_0000,
        total_value(allocations@) <= u64::MAX,
        engine_base.exponent() == engine_secret.value(),
    ensures
        index == allocations@.len(),
        key is Some <==> secret is Some,
        key is Some ==> {
            let sum = total_value(allocations@) as u64;
            &&& Some((secret->0).value()) == projected(
                engine_secret.value(),
                sum,
                allocations@.len() as u32,
            )
            &&& (key->0)@ == generator_multiple((secret->0).value())
        },
{
    let n = allocations@.len() as int;
    assert(position_index(n) == n);
}

/// The secret that a participant signs a refresh with opens the key that it signs under:
/// both are projected by the same value and index.
pub proof fn theorem_participant_secret_opens_key(
    base: Point,
    base_secret: Scalar,
    value: u64,
    index: u32,
    key: Option<Point>,
    secret: Option<Scalar>,
)
    requires
        call_ensures(participant_projected_pubkey, (base, value, index), key),
        call_ensures(participant_projected_secret, (base_secret, value, index), secret),
        base.exponent() == base_secret.value(),
    ensures
        key is Some <==> secret is Some,
        key is Some ==> (key->0)@ == generator_multiple((secret->0).value()),
        key is Some ==> projected(base_secret.value(), value, index) == Some((secret->0).value()),
{
}

/// The number of the signers of a refresh: all participants and the engine.
pub proof fn theorem_all_sign_a_refresh(
    engine_key: [u8; 32],
    allocations: &[([u8; 32], u64)],
    expiry_height: u32,
    ctx: MusigKeyAggCtx,
)
    requires
        call_ensures(refresh_keyagg, (engine_key, allocations, expiry_height), Some(ctx)),
    ensures
        ctx.keys().len() == allocations@.len() + 1,
        ctx.tweak() is Some,
{
}

/// A refresh is signed under the key of the funding output that it spends, whose
/// scriptpubkey is the covenant; there is a covenant if and only if there is that key.
pub proof fn theorem_refresh_is_signed_under_funding_key(
    engine_key: [u8; 32],
    allocations: &[([u8; 32], u64)],
    expiry_height: u32,
    funding: TapRoot,
    funding_spk: Option<Vec<u8>>,
    covenant: Option<Vec<u8>>,
    keyagg: Option<MusigKeyAggCtx>,
    agg: Point,
)
    requires
        call_ensures(funding_taproot, (engine_key, allocations, expiry_height), Some(funding)),
        call_ensures(TapRoot::spk, (&funding,), funding_spk),
        call_ensures(covenant_scriptpubkey, (engine_key, allocations, expiry_height), covenant),
        call_ensures(refresh_keyagg, (engine_key, allocations, expiry_height), keyagg),
        keyagg is Some ==> call_ensures(MusigKeyAggCtx::agg_key, (&keyagg->0,), agg),
    ensures
        covenant is Some <==> funding_spk is Some,
        covenant is Some ==> covenant->0@ == funding_spk->0@,
        keyagg is Some <==> covenant is Some,
        keyagg is Some ==> covenant->0@ == seq![0x51u8, 0x20u8] + x_of(agg@),
        keyagg is Some ==> (keyagg->0).tweak() == Some(be_nat(funding@.tap_tweak())),
{
}

} // verus!

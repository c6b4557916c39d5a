//! The depositor's side of the two-round protocol.
use vstd::prelude::*;
use crate::bytes::{be_nat, to_vec};
use crate::curve::{
    curve_order, even_point, generator_multiple, is_compressed_point, is_scalar, with_even_y, x_of,
    Point, Scalar,
};
use crate::entry::{copy_scripts, lifts_view, Lift, LiftModel};
use crate::liftup_v2::{
    LiftupV2CosignResponseBody, LiftupV2Nonce, LiftupV2RegisterResponseBody,
    LiftupV2RegisterResponseError, LiftupV2RegisterSuccessBody, RequestError,
};
use crate::liftv2::{
    cosign_session, deposit_key, partial_in, public_nonce_pair, scripts_view, ClientCosigner,
};
use crate::musig::{theorem_signer_is_first_with_nonces, NoncePair, SessionModel};
use crate::outpoint_map::OutPointMap;
use crate::txn::{OutPoint, OutPointModel};

verus! {

/// How often the engine is asked for its cosign material.
pub const LIFTV2_COSIGN_FETCH_ATTEMPTS: u32 = 240;

/// How long to wait before asking again.
pub const LIFTV2_COSIGN_FETCH_BACKOFF_MS: u64 = 500;

/// How often random bytes are drawn before the caller is asked to draw again.
pub const NONCE_DRAWS: u32 = 64;

/// `rand::rngs::OsRng` and its `RngCore::try_fill_bytes`: 32 random bytes, or none where
/// the system has no randomness to give. Nothing is said of their value.
#[verifier::external_body]
fn outside_random_bytes() -> (r: Option<[u8; 32]>) {
    let mut bytes = [0u8; 32];
    rand::RngCore::try_fill_bytes(&mut rand::rngs::OsRng, &mut bytes).ok().map(|_| bytes)
}

/// A secret nonce from random bytes. Fails where they are not a scalar.
pub fn nonce_from_bytes(bytes: &[u8; 32]) -> (r: Option<Scalar>)
    ensures
        match r {
            None => !is_scalar(bytes@),
            Some(s) => is_scalar(bytes@) && s.encoding() == bytes@,
        },
{
    Scalar::from_slice(bytes)
}

/// What becomes of drawing random bytes for a secret nonce.
#[derive(Clone, Copy)]
pub enum NonceDraw {
    /// The bytes are a scalar: the secret nonce.
    Drawn(Scalar),
    /// The bytes are not a scalar: draw again.
    Again,
    /// There was no randomness to draw.
    NoRandomness,
}

/// What becomes of one draw.
pub fn after_draw(drawn: Option<[u8; 32]>) -> (r: NonceDraw)
    ensures
        match drawn {
            None => r is NoRandomness,
            Some(bytes) => if is_scalar(bytes@) {
                r matches NonceDraw::Drawn(s) && s.encoding() == bytes@
            } else {
                r is Again
            },
        },
{
    match drawn {
        None => NonceDraw::NoRandomness,
        Some(bytes) => match nonce_from_bytes(&bytes) {
            Some(s) => NonceDraw::Drawn(s),
            None => NonceDraw::Again,
        },
    }
}

/// A fresh secret nonce. Bytes are drawn again where they are not a scalar, which
/// happens about once in 2^128 draws; `after_draw` decides on each draw. A call ends
/// after `NONCE_DRAWS` draws: where none of them was a scalar, the caller draws again.
/// What is drawn, rests on chance.
pub fn random_nonce_scalar() -> (r: NonceDraw)
    ensures
        match r {
            NonceDraw::Drawn(s) => is_scalar(s.encoding()),
            _ => true,
        },
{
    let mut draws: u32 = 0;
    while draws < NONCE_DRAWS
        decreases NONCE_DRAWS - draws,
    {
        match after_draw(outside_random_bytes()) {
            NonceDraw::Again => {},
            done => {
                return done;
            },
        }
        draws = draws + 1;
    }
    NonceDraw::Again
}

/// The secret of the even-Y account point, from the account's secret key. Fails where
/// the key is not a scalar.
pub fn even_account_secret(secret_key: &[u8; 32]) -> (r: Option<Scalar>)
    ensures
        match r {
            None => !is_scalar(secret_key@),
            Some(s) => {
                &&& is_scalar(secret_key@)
                &&& s.value() == with_even_y(be_nat(secret_key@))
                &&& generator_multiple(s.value()) == even_point(
                    x_of(generator_multiple(be_nat(secret_key@))),
                )
            },
        },
{
    match Scalar::from_slice(secret_key) {
        None => None,
        Some(s) => Some(s.even_secret()),
    }
}

/// Where the deposits of a liftup go.
#[derive(Clone, Copy, PartialEq, Eq, Structural, Debug)]
pub enum LiftupRoute {
    /// There is nothing to lift.
    Nothing,
    /// At least one deposit needs a cosignature.
    Cosigned,
    /// The engine can lift all deposits alone.
    Legacy,
}

/// Whether a deposit needs a cosignature.
pub open spec fn is_v2(lift: LiftModel) -> bool {
    lift is LiftV2
}

/// Where the deposits of a liftup go.
pub fn liftup_route(lifts: &[Lift]) -> (r: LiftupRoute)
    ensures
        r == if lifts@.len() == 0 {
            LiftupRoute::Nothing
        } else if exists|i: int| 0 <= i < lifts@.len() && is_v2(#[trigger] lifts_view(lifts@)[i]) {
            LiftupRoute::Cosigned
        } else {
            LiftupRoute::Legacy
        },
{
    if lifts.len() == 0 {
        return LiftupRoute::Nothing;
    }
    let mut i: usize = 0;
    while i < lifts.len()
        invariant
            i <= lifts@.len(),
            forall|j: int| 0 <= j < i ==> !is_v2(#[trigger] lifts_view(lifts@)[j]),
        decreases lifts@.len() - i,
    {
        let v2: bool = match &lifts[i] {
            Lift::LiftV2(_) => true,
            _ => false,
        };
        assert(lifts_view(lifts@)[i as int] == lifts@[i as int]@);
        if v2 {
            return LiftupRoute::Cosigned;
        }
        i = i + 1;
    }
    LiftupRoute::Legacy
}

/// A deposit that the depositor cosigns, with the secrets of its session.
pub struct ClientDeposit {
    pub outpoint: OutPoint,
    pub cosigner: ClientCosigner,
    pub account_key: [u8; 32],
    pub engine_key: [u8; 32],
    pub scripts: Vec<Vec<u8>>,
}

/// The number of cosigned deposits.
pub open spec fn v2_count(lifts: Seq<LiftModel>) -> nat
    decreases lifts.len(),
{
    if lifts.len() == 0 {
        0
    } else {
        v2_count(lifts.drop_last()) + if is_v2(lifts.last()) {
            1nat
        } else {
            0
        }
    }
}

/// The cosigned deposits, in order.
pub open spec fn v2_lifts(lifts: Seq<LiftModel>) -> Seq<LiftModel>
    decreases lifts.len(),
{
    if lifts.len() == 0 {
        Seq::empty()
    } else if is_v2(lifts.last()) {
        v2_lifts(lifts.drop_last()).push(lifts.last())
    } else {
        v2_lifts(lifts.drop_last())
    }
}

proof fn lemma_v2_count(lifts: Seq<LiftModel>)
    ensures
        v2_lifts(lifts).len() == v2_count(lifts),
    decreases lifts.len(),
{
    if lifts.len() > 0 {
        lemma_v2_count(lifts.drop_last());
    }
}

proof fn lemma_v2_count_prefix(lifts: Seq<LiftModel>, i: int)
    requires
        0 <= i <= lifts.len(),
    ensures
        v2_count(lifts.take(i)) <= v2_count(lifts),
    decreases lifts.len() - i,
{
    if i < lifts.len() {
        lemma_v2_count_prefix(lifts, i + 1);
        assert(lifts.take(i + 1).drop_last() =~= lifts.take(i));
    } else {
        assert(lifts.take(i) =~= lifts);
    }
}

/// Whether a deposit and its nonces were made from a lift and secret nonces.
pub open spec fn is_prepared(
    lift: LiftModel,
    account_secret: nat,
    secrets: (Scalar, Scalar),
    deposit: ClientDeposit,
    nonce: LiftupV2Nonce,
) -> bool {
    match lift {
        LiftModel::LiftV2(l) => {
            &&& deposit.outpoint@ == l.outpoint
            &&& deposit.account_key@ == l.account_key
            &&& deposit.engine_key@ == l.engine_key
            &&& scripts_view(deposit.scripts@) == l.scripts
            &&& deposit.cosigner.secret() == account_secret
            &&& deposit.cosigner.hiding() == secrets.0.value()
            &&& deposit.cosigner.binding() == secrets.1.value()
            &&& nonce.outpoint@ == l.outpoint
            &&& nonce.client_hiding_nonce@ == generator_multiple(secrets.0.value())
            &&& nonce.client_binding_nonce@ == generator_multiple(secrets.1.value())
        },
        _ => false,
    }
}

/// Prepares the cosigned deposits of a liftup: a cosigner for each, from its pair of
/// secret nonces, and the public nonces to commit. `account_secret` is the secret of the
/// even-Y account point.
pub fn prepare_deposits(
    lifts: &[Lift],
    account_secret: Scalar,
    secrets: &[(Scalar, Scalar)],
) -> (r: (Vec<ClientDeposit>, Vec<LiftupV2Nonce>))
    requires
        secrets@.len() >= v2_count(lifts_view(lifts@)),
    ensures
        r.0@.len() == v2_count(lifts_view(lifts@)),
        r.1@.len() == v2_count(lifts_view(lifts@)),
        forall|i: int|
            0 <= i < r.0@.len() ==> is_prepared(
                v2_lifts(lifts_view(lifts@))[i],
                account_secret.value(),
                secrets@[i],
                #[trigger] r.0@[i],
                r.1@[i],
            ),
{
    let ghost all = lifts_view(lifts@);
    let mut deposits: Vec<ClientDeposit> = Vec::new();
    let mut nonces: Vec<LiftupV2Nonce> = Vec::new();
    let mut i: usize = 0;
    assert(all.take(0) =~= Seq::empty());
    while i < lifts.len()
        invariant
            i <= lifts@.len(),
            all == lifts_view(lifts@),
            secrets@.len() >= v2_count(all),
            deposits@.len() == v2_count(all.take(i as int)),
            nonces@.len() == v2_count(all.take(i as int)),
            forall|j: int|
                0 <= j < deposits@.len() ==> is_prepared(
                    v2_lifts(all.take(i as int))[j],
                    account_secret.value(),
                    secrets@[j],
                    #[trigger] deposits@[j],
                    nonces@[j],
                ),
        decreases lifts@.len() - i,
    {
        proof {
            assert(all.take(i + 1).drop_last() =~= all.take(i as int));
            assert(all.take(i + 1).last() == lifts@[i as int]@);
            lemma_v2_count(all.take(i as int));
            lemma_v2_count_prefix(all, i + 1);
        }
        match &lifts[i] {
            Lift::LiftV2(lift) => {
                let pair = &secrets[deposits.len()];
                let cosigner = ClientCosigner::new(account_secret, pair.0, pair.1);
                let (hiding, binding) = cosigner.public_nonces();
                nonces.push(
                    LiftupV2Nonce {
                        outpoint: lift.outpoint,
                        client_hiding_nonce: to_vec(&hiding.serialize()),
                        client_binding_nonce: to_vec(&binding.serialize()),
                    },
                );
                deposits.push(
                    ClientDeposit {
                        outpoint: lift.outpoint,
                        cosigner,
                        account_key: lift.account_key,
                        engine_key: lift.engine_key,
                        scripts: copy_scripts(&lift.scripts),
                    },
                );
            },
            _ => {},
        }
        i = i + 1;
    }
    assert(all.take(i as int) =~= all);
    (deposits, nonces)
}

/// The position of the last deposit with each outpoint.
pub open spec fn last_positions(deposits: Seq<ClientDeposit>, n: nat) -> Map<OutPointModel, usize>
    decreases n,
{
    if n == 0 {
        Map::empty()
    } else {
        last_positions(deposits, (n - 1) as nat).insert(
            deposits[n - 1].outpoint@,
            (n - 1) as usize,
        )
    }
}

/// Indexes deposits by outpoint; of several with one outpoint the last counts. Walking
/// the index in order visits the outpoint of every deposit once.
pub fn index_deposits(deposits: &Vec<ClientDeposit>) -> (r: OutPointMap<usize>)
    ensures
        r@ == last_positions(deposits@, deposits@.len()),
        r.lists_keys(),
        forall|i: int|
            0 <= i < deposits@.len() ==> r@.dom().contains(#[trigger] deposits@[i].outpoint@),
        forall|k: OutPointModel| #[trigger]
            r@.dom().contains(k) ==> r@[k] < deposits@.len() && deposits@[r@[k] as int].outpoint@
                == k,
{
    let mut m: OutPointMap<usize> = OutPointMap::new();
    let mut i: usize = 0;
    while i < deposits.len()
        invariant
            i <= deposits@.len(),
            m@ == last_positions(deposits@, i as nat),
            m.lists_keys(),
            forall|j: int|
                0 <= j < i ==> m@.dom().contains(#[trigger] deposits@[j].outpoint@),
            forall|k: OutPointModel| #[trigger]
                m@.dom().contains(k) ==> m@[k] < i && deposits@[m@[k] as int].outpoint@ == k,
        decreases deposits@.len() - i,
    {
        m.insert(deposits[i].outpoint, i);
        i = i + 1;
    }
    m
}

/// Why a liftup was not registered.
pub enum RegisterFailure {
    /// The engine could not be asked.
    RequestFailed(RequestError),
    /// The engine refused the liftup.
    Refused(LiftupV2RegisterResponseError),
}

/// What the depositor does after the first round.
pub enum AfterRegister {
    /// The liftup is registered: cosign its deposits.
    Cosign(LiftupV2RegisterSuccessBody),
    /// Nothing is cosigned.
    Stop(RegisterFailure),
}

/// What follows the answer to a registration: deposits are cosigned where the liftup was
/// admitted, and only there.
pub fn after_register(response: Result<LiftupV2RegisterResponseBody, RequestError>) -> (r:
    AfterRegister)
    ensures
        r == match response {
            Err(e) => AfterRegister::Stop(RegisterFailure::RequestFailed(e)),
            Ok(LiftupV2RegisterResponseBody::Refused(e)) => AfterRegister::Stop(
                RegisterFailure::Refused(e),
            ),
            Ok(LiftupV2RegisterResponseBody::Admitted(body)) => AfterRegister::Cosign(body),
        },
{
    match response {
        Err(e) => AfterRegister::Stop(RegisterFailure::RequestFailed(e)),
        Ok(LiftupV2RegisterResponseBody::Refused(e)) => AfterRegister::Stop(
            RegisterFailure::Refused(e),
        ),
        Ok(LiftupV2RegisterResponseBody::Admitted(body)) => AfterRegister::Cosign(body),
    }
}

/// Why a deposit was not cosigned.
pub enum CosignFailure {
    /// The engine could not be asked for its material.
    FetchFailed,
    /// The engine refused to give its material.
    FetchRefused(LiftupV2CosignResponseBody),
    InvalidHidingNonce,
    InvalidBindingNonce,
    PartialSignFailed,
    /// The partial signature could not be submitted.
    SubmitFailed,
    /// The engine refused the partial signature.
    SubmitRefused(LiftupV2CosignResponseBody),
}

/// What the depositor does next for a deposit.
pub enum CosignStep {
    /// Wait this many milliseconds, then ask again.
    AskAgainAfter(u64),
    /// Submit this partial signature.
    Submit([u8; 32]),
    /// The deposit is cosigned.
    Cosigned,
    /// Wait this many milliseconds, then give the deposit up.
    GiveUpAfter(u64),
    GiveUp(CosignFailure),
}

/// The partial signature that a deposit's cosigner makes from the engine's material.
pub open spec fn deposit_partial(
    d: ClientDeposit,
    sighash: Seq<u8>,
    engine_hiding: Seq<u8>,
    engine_binding: Seq<u8>,
) -> Option<nat> {
    if deposit_key(d.account_key@, d.engine_key@, scripts_view(d.scripts@)) is None {
        None
    } else {
        partial_in(
            cosign_session(
                d.account_key@,
                d.engine_key@,
                scripts_view(d.scripts@),
                public_nonce_pair(d.cosigner.hiding(), d.cosigner.binding()),
                NoncePair { hiding: engine_hiding, binding: engine_binding },
                sighash,
            ),
            d.cosigner.secret(),
            d.cosigner.hiding(),
            d.cosigner.binding(),
        )
    }
}

impl ClientDeposit {
    /// What follows the answer to a fetch; `None` where there was no answer. Fetches are
    /// counted from one. Material is signed; a deposit that is not ready is asked for
    /// again while fetches are left.
    pub fn after_fetch(&self, fetch: u32, response: Option<LiftupV2CosignResponseBody>) -> (r:
        CosignStep)
        ensures
            match response {
                None => r == CosignStep::GiveUp(CosignFailure::FetchFailed),
                Some(LiftupV2CosignResponseBody::Material {
                    sighash,
                    engine_hiding_nonce,
                    engine_binding_nonce,
                }) => if !is_compressed_point(engine_hiding_nonce@) {
                    r == CosignStep::GiveUp(CosignFailure::InvalidHidingNonce)
                } else if !is_compressed_point(engine_binding_nonce@) {
                    r == CosignStep::GiveUp(CosignFailure::InvalidBindingNonce)
                } else {
                    let partial = deposit_partial(
                        *self,
                        sighash@,
                        engine_hiding_nonce@,
                        engine_binding_nonce@,
                    );
                    match r {
                        CosignStep::Submit(bytes) => partial == Some(be_nat(bytes@)),
                        CosignStep::GiveUp(CosignFailure::PartialSignFailed) => partial is None,
                        _ => false,
                    }
                },
                Some(LiftupV2CosignResponseBody::NotReady) => r == if fetch
                    < LIFTV2_COSIGN_FETCH_ATTEMPTS {
                    CosignStep::AskAgainAfter(LIFTV2_COSIGN_FETCH_BACKOFF_MS)
                } else {
                    CosignStep::GiveUpAfter(LIFTV2_COSIGN_FETCH_BACKOFF_MS)
                },
                Some(other) => r == CosignStep::GiveUp(CosignFailure::FetchRefused(other)),
            },
    {
        match response {
            None => CosignStep::GiveUp(CosignFailure::FetchFailed),
            Some(LiftupV2CosignResponseBody::Material {
                sighash,
                engine_hiding_nonce,
                engine_binding_nonce,
            }) => {
                let hiding = match Point::from_compressed(&engine_hiding_nonce) {
                    None => {
                        return CosignStep::GiveUp(CosignFailure::InvalidHidingNonce);
                    },
                    Some(p) => p,
                };
                let binding = match Point::from_compressed(&engine_binding_nonce) {
                    None => {
                        return CosignStep::GiveUp(CosignFailure::InvalidBindingNonce);
                    },
                    Some(p) => p,
                };
                match self.cosigner.partial_sign(
                    self.account_key,
                    self.engine_key,
                    &self.scripts,
                    hiding,
                    binding,
                    sighash,
                ) {
                    None => CosignStep::GiveUp(CosignFailure::PartialSignFailed),
                    Some(s) => CosignStep::Submit(s.serialize()),
                }
            },
            Some(LiftupV2CosignResponseBody::NotReady) => {
                if fetch < LIFTV2_COSIGN_FETCH_ATTEMPTS {
                    CosignStep::AskAgainAfter(LIFTV2_COSIGN_FETCH_BACKOFF_MS)
                } else {
                    CosignStep::GiveUpAfter(LIFTV2_COSIGN_FETCH_BACKOFF_MS)
                }
            },
            Some(other) => CosignStep::GiveUp(CosignFailure::FetchRefused(other)),
        }
    }
}

/// What follows the answer to a submitted partial signature; `None` where there was no
/// answer.
pub fn after_submit(response: Option<LiftupV2CosignResponseBody>) -> (r: CosignStep)
    ensures
        match response {
            None => r == CosignStep::GiveUp(CosignFailure::SubmitFailed),
            Some(LiftupV2CosignResponseBody::Submitted) => r == CosignStep::Cosigned,
            Some(other) => r == CosignStep::GiveUp(CosignFailure::SubmitRefused(other)),
        },
{
    match response {
        None => CosignStep::GiveUp(CosignFailure::SubmitFailed),
        Some(LiftupV2CosignResponseBody::Submitted) => CosignStep::Cosigned,
        Some(other) => CosignStep::GiveUp(CosignFailure::SubmitRefused(other)),
    }
}

/// The number of the last fetch for a deposit, where the fetches from `fetch` on find it
/// not ready as given.
pub open spec fn last_fetch(not_ready: spec_fn(u32) -> bool, fetch: u32) -> u32
    decreases LIFTV2_COSIGN_FETCH_ATTEMPTS - fetch,
{
    if not_ready(fetch) && fetch < LIFTV2_COSIGN_FETCH_ATTEMPTS {
        last_fetch(not_ready, (fetch + 1) as u32)
    } else {
        fetch
    }
}

/// The engine is asked for its material no more often than it may be, and a deposit that
/// is not ready is asked for until then.
pub proof fn theorem_polling_ends(not_ready: spec_fn(u32) -> bool, fetch: u32)
    requires
        1 <= fetch <= LIFTV2_COSIGN_FETCH_ATTEMPTS,
    ensures
        fetch <= last_fetch(not_ready, fetch) <= LIFTV2_COSIGN_FETCH_ATTEMPTS,
        last_fetch(not_ready, fetch) == LIFTV2_COSIGN_FETCH_ATTEMPTS || !not_ready(
            last_fetch(not_ready, fetch),
        ),
    decreases LIFTV2_COSIGN_FETCH_ATTEMPTS - fetch,
{
    if not_ready(fetch) && fetch < LIFTV2_COSIGN_FETCH_ATTEMPTS {
        theorem_polling_ends(not_ready, (fetch + 1) as u32);
    }
}

/// The cosigned deposits of two lists of lifts are those of the one and then those of the
/// other; of one lift, itself where it is cosigned.
pub proof fn theorem_cosigned_deposits_add_up(
    a: Seq<LiftModel>,
    b: Seq<LiftModel>,
    one: LiftModel,
)
    ensures
        v2_lifts(a + b) == v2_lifts(a) + v2_lifts(b),
        v2_count(a + b) == v2_count(a) + v2_count(b),
        v2_lifts(seq![one]) == if one is LiftV2 {
            seq![one]
        } else {
            Seq::empty()
        },
        v2_count(seq![one]) == if one is LiftV2 {
            1nat
        } else {
            0
        },
    decreases b.len(),
{
    reveal_with_fuel(v2_lifts, 2);
    reveal_with_fuel(v2_count, 2);
    assert(seq![one].drop_last() =~= Seq::empty());
    assert(Seq::<LiftModel>::empty().push(one) =~= seq![one]);
    if b.len() == 0 {
        assert(a + b =~= a);
        assert(v2_lifts(a) + v2_lifts(b) =~= v2_lifts(a));
    } else {
        theorem_cosigned_deposits_add_up(a, b.drop_last(), one);
        assert((a + b).drop_last() =~= a + b.drop_last());
        assert((a + b).last() == b.last());
        assert(v2_lifts(a + b) =~= v2_lifts(a) + v2_lifts(b));
    }
}

proof fn lemma_v2_lift_at(lifts: Seq<LiftModel>, i: int)
    requires
        0 <= i < lifts.len(),
        lifts[i] is LiftV2,
    ensures
        v2_count(lifts.take(i)) < v2_count(lifts),
        v2_lifts(lifts)[v2_count(lifts.take(i)) as int] == lifts[i],
{
    let front = lifts.take(i);
    let back = lifts.skip(i + 1);
    let one = lifts[i];
    assert(lifts =~= (front + seq![one]) + back);
    theorem_cosigned_deposits_add_up(front, seq![one], one);
    theorem_cosigned_deposits_add_up(front + seq![one], back, one);
    lemma_v2_count(front);
    lemma_v2_count(back);
    lemma_v2_count(lifts);
}

/// Every cosigned deposit of a liftup is prepared, in order and no other: with its own
/// outpoint, keys and scripts, the secret of the account, and its own pair of secret
/// nonces, whose public nonces are committed for its outpoint.
pub proof fn theorem_every_cosigned_deposit_is_prepared(
    lifts: &[Lift],
    account_secret: Scalar,
    secrets: &[(Scalar, Scalar)],
    r: (Vec<ClientDeposit>, Vec<LiftupV2Nonce>),
    i: int,
)
    requires
        secrets@.len() >= v2_count(lifts_view(lifts@)),
        call_ensures(prepare_deposits, (lifts, account_secret, secrets), r),
        0 <= i < lifts@.len(),
    ensures
        r.0@.len() == v2_count(lifts_view(lifts@)),
        r.1@.len() == v2_count(lifts_view(lifts@)),
        lifts@[i] is LiftV2 ==> {
            let l = lifts@[i]->LiftV2_0;
            let k = v2_count(lifts_view(lifts@).take(i)) as int;
            &&& k < r.0@.len()
            &&& r.0@[k].outpoint@ == l.outpoint@
            &&& r.0@[k].account_key@ == l.account_key@
            &&& r.0@[k].engine_key@ == l.engine_key@
            &&& scripts_view(r.0@[k].scripts@) == scripts_view(l.scripts@)
            &&& r.0@[k].cosigner.secret() == account_secret.value()
            &&& r.0@[k].cosigner.hiding() == secrets@[k].0.value()
            &&& r.0@[k].cosigner.binding() == secrets@[k].1.value()
            &&& r.1@[k].outpoint@ == l.outpoint@
            &&& r.1@[k].client_hiding_nonce@ == generator_multiple(secrets@[k].0.value())
            &&& r.1@[k].client_binding_nonce@ == generator_multiple(secrets@[k].1.value())
        },
{
    let all = lifts_view(lifts@);
    assert(all[i] == lifts@[i]@);
    if lifts@[i] is LiftV2 {
        lemma_v2_lift_at(all, i);
        let k = v2_count(all.take(i)) as int;
        assert(is_prepared(
            v2_lifts(all)[k],
            account_secret.value(),
            secrets@[k],
            r.0@[k],
            r.1@[k],
        ));
    }
}

/// Of several deposits with one outpoint the index has the last.
pub proof fn theorem_last_deposit_counts(
    deposits: Vec<ClientDeposit>,
    m: OutPointMap<usize>,
    asked: OutPoint,
    got: Option<usize>,
    i: int,
)
    requires
        call_ensures(index_deposits, (&deposits,), m),
        call_ensures(OutPointMap::<usize>::get, (&m, &asked), got),
        0 <= i < deposits@.len(),
        forall|j: int| i < j < deposits@.len() ==> (#[trigger] deposits@[j]).outpoint@
            != deposits@[i].outpoint@,
    ensures
        asked@ == deposits@[i].outpoint@ ==> got is Some && got->0 == i,
        got is None ==> forall|j: int|
            0 <= j < deposits@.len() ==> (#[trigger] deposits@[j]).outpoint@ != asked@,
{
    lemma_last_position(deposits@, deposits@.len(), i);
    assert(deposits.len() == deposits@.len());
}

proof fn lemma_last_position(deposits: Seq<ClientDeposit>, n: nat, i: int)
    requires
        0 <= i < n <= deposits.len(),
        forall|j: int| i < j < n ==> (#[trigger] deposits[j]).outpoint@ != deposits[i].outpoint@,
    ensures
        last_positions(deposits, n).dom().contains(deposits[i].outpoint@),
        last_positions(deposits, n)[deposits[i].outpoint@] == i as usize,
    decreases n,
{
    if i < n - 1 {
        assert(deposits[n - 1].outpoint@ != deposits[i].outpoint@);
        lemma_last_position(deposits, (n - 1) as nat, i);
    }
}

/// A liftup goes the cosigned way if and only if one of its deposits is cosigned; without
/// deposits there is nothing to lift.
pub proof fn theorem_liftups_are_routed(lifts: &[Lift], r: LiftupRoute)
    requires
        call_ensures(liftup_route, (lifts,), r),
    ensures
        r == LiftupRoute::Nothing <==> lifts@.len() == 0,
        r == LiftupRoute::Cosigned <==> exists|i: int|
            0 <= i < lifts@.len() && (#[trigger] lifts@[i]) is LiftV2,
        r == LiftupRoute::Legacy <==> lifts@.len() > 0 && forall|i: int|
            0 <= i < lifts@.len() ==> !((#[trigger] lifts@[i]) is LiftV2),
{
    assert forall|i: int| 0 <= i < lifts@.len() implies ((#[trigger] lifts@[i]) is LiftV2
        <==> is_v2(lifts_view(lifts@)[i])) by {
        assert(lifts_view(lifts@)[i] == lifts@[i]@);
    }
    if exists|i: int| 0 <= i < lifts@.len() && is_v2(#[trigger] lifts_view(lifts@)[i]) {
        let i = choose|i: int|
            0 <= i < lifts@.len() && is_v2(#[trigger] lifts_view(lifts@)[i]);
        assert(lifts@[i] is LiftV2);
    }
    if exists|i: int| 0 <= i < lifts@.len() && (#[trigger] lifts@[i]) is LiftV2 {
        let i = choose|i: int| 0 <= i < lifts@.len() && (#[trigger] lifts@[i]) is LiftV2;
        assert(is_v2(lifts_view(lifts@)[i]));
    }
}

/// The secret that a depositor signs with is the account's or its negation, and its point
/// has the X coordinate of the account's point and an even Y.
pub proof fn theorem_account_secret_is_even(secret_key: [u8; 32], s: Scalar)
    requires
        call_ensures(even_account_secret, (&secret_key,), Some(s)),
        generator_multiple(be_nat(secret_key@)).len() == 33,
    ensures
        s.value() == be_nat(secret_key@) || s.value() + be_nat(secret_key@) == curve_order(),
        generator_multiple(s.value())[0] == 2,
        generator_multiple(s.value()).subrange(1, 33) == generator_multiple(
            be_nat(secret_key@),
        ).subrange(1, 33),
{
    let x = x_of(generator_multiple(be_nat(secret_key@)));
    assert(x.len() == 32);
    assert(even_point(x).subrange(1, 33) =~= x);
}

/// What becomes of drawn bytes: they are a secret nonce as they are, or are drawn again
/// where they are not a scalar; without randomness nothing is drawn.
pub proof fn theorem_draws_are_judged(drawn: Option<[u8; 32]>, r: NonceDraw)
    requires
        call_ensures(after_draw, (drawn,), r),
    ensures
        r is NoRandomness <==> drawn is None,
        r is Drawn <==> drawn is Some && is_scalar(drawn->0@),
        r is Drawn ==> r->Drawn_0.value() == be_nat(drawn->0@),
{
}

/// Deposits are cosigned if and only if their liftup was admitted; otherwise the failure
/// is reported as it is.
pub proof fn theorem_only_admitted_liftups_are_cosigned(
    response: Result<LiftupV2RegisterResponseBody, RequestError>,
    r: AfterRegister,
)
    requires
        call_ensures(after_register, (response,), r),
    ensures
        r is Cosign <==> response is Ok && response->Ok_0 is Admitted,
        r is Cosign ==> r->Cosign_0 == response->Ok_0->Admitted_0,
        response is Err ==> r == AfterRegister::Stop(
            RegisterFailure::RequestFailed(response->Err_0),
        ),
        response is Ok && response->Ok_0 is Refused ==> r == AfterRegister::Stop(
            RegisterFailure::Refused(response->Ok_0->Refused_0),
        ),
{
}

/// What follows a fetch: material is signed, where its nonces are points and there is a
/// partial signature; a deposit that is not ready is asked for again, after half a second,
/// up to the two hundred and fortieth fetch; anything else ends it.
pub proof fn theorem_fetches_lead_on(
    d: ClientDeposit,
    fetch: u32,
    response: Option<LiftupV2CosignResponseBody>,
    r: CosignStep,
)
    requires
        call_ensures(ClientDeposit::after_fetch, (&d, fetch, response), r),
    ensures
        r is AskAgainAfter <==> response is Some && response->0 is NotReady && fetch < 240,
        r is AskAgainAfter ==> r->AskAgainAfter_0 == 500,
        r is GiveUpAfter <==> response is Some && response->0 is NotReady && fetch >= 240,
        r is GiveUpAfter ==> r->GiveUpAfter_0 == 500,
        r is Submit ==> response is Some && response->0 is Material,
        r is Cosigned ==> false,
        response is None ==> r is GiveUp && r->GiveUp_0 is FetchFailed,
        response is Some && (response->0 is Refused || response->0 is Submitted) ==> r
            == CosignStep::GiveUp(CosignFailure::FetchRefused(response->0)),
        response is Some && response->0 is Material ==> {
            let hiding = response->0->engine_hiding_nonce@;
            let binding = response->0->engine_binding_nonce@;
            &&& r is GiveUp && r->GiveUp_0 is InvalidHidingNonce <==> !is_compressed_point(hiding)
            &&& r is GiveUp && r->GiveUp_0 is InvalidBindingNonce <==> is_compressed_point(hiding)
                && !is_compressed_point(binding)
            &&& r is Submit || r is GiveUp
        },
{
}

/// The partial signature that a depositor submits for the engine's material is the one
/// that the session of the deposit asks for at the first place.
pub proof fn theorem_depositor_submits_valid_partial(
    d: ClientDeposit,
    fetch: u32,
    response: LiftupV2CosignResponseBody,
    r: CosignStep,
    m: SessionModel,
)
    requires
        call_ensures(ClientDeposit::after_fetch, (&d, fetch, Some(response)), r),
        response is Material,
        is_compressed_point(response->engine_hiding_nonce@),
        is_compressed_point(response->engine_binding_nonce@),
        generator_multiple(d.cosigner.secret()) == seq![2u8] + d.account_key@,
        m == cosign_session(
            d.account_key@,
            d.engine_key@,
            scripts_view(d.scripts@),
            NoncePair {
                hiding: generator_multiple(d.cosigner.hiding()),
                binding: generator_multiple(d.cosigner.binding()),
            },
            NoncePair {
                hiding: response->engine_hiding_nonce@,
                binding: response->engine_binding_nonce@,
            },
            response->sighash@,
        ),
    ensures
        r is Submit ==> be_nat(r->Submit_0@) == m.valid_partial(0),
        r is Submit <==> {
            &&& deposit_key(d.account_key@, d.engine_key@, scripts_view(d.scripts@)) is Some
            &&& m.nonce_exponent() != 0
            &&& m.valid_partial(0) != 0
        },
        !(r is Submit) ==> r == CosignStep::GiveUp(CosignFailure::PartialSignFailed),
{
    theorem_signer_is_first_with_nonces(
        m,
        generator_multiple(d.cosigner.secret()),
        public_nonce_pair(d.cosigner.hiding(), d.cosigner.binding()),
        0,
        0,
    );
    assert(m.nonces_complete());
}

/// A deposit is cosigned if and only if its partial signature was accepted.
pub proof fn theorem_only_accepted_deposits_are_cosigned(
    response: Option<LiftupV2CosignResponseBody>,
    r: CosignStep,
)
    requires
        call_ensures(after_submit, (response,), r),
    ensures
        r is Cosigned <==> response is Some && response->0 is Submitted,
        r is Cosigned || r is GiveUp,
        response is None ==> r->GiveUp_0 is SubmitFailed,
        response is Some && r is GiveUp ==> r->GiveUp_0 == CosignFailure::SubmitRefused(
            response->0,
        ),
{
}

} // verus!

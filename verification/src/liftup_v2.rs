//! The two-round protocol that lifts cosigned deposits: messages and decisions.
//!
//! In the first round the depositor registers a liftup and commits public nonces. In
//! the second, once the batch is frozen, it fetches the engine's cosign material and
//! submits its partial signature.
use vstd::prelude::*;
use crate::admission::{after_failure, after_failure_of, AfterFailure};
use crate::bytes::{array32, to_vec};
use crate::curve::{is_compressed_point, is_scalar, Point, Scalar};
use crate::entry::{lifts_view, Entry, Lift, LiftModel, Liftup};
use crate::hexcodec::{hex_encode, hex_of};
use crate::liftup_client::v2_count;
use crate::json::{text, JsonLeaf, JsonObject, LeafModel};
use crate::outpoint_map::OutPointMap;
use crate::txn::{OutPoint, OutPointModel};

verus! {

/// The timeout of a register request.
pub const LIFTUP_V2_REGISTER_TIMEOUT_MS: u64 = 5_000;

/// The timeout of a cosign request.
pub const LIFTUP_V2_COSIGN_TIMEOUT_MS: u64 = 5_000;

/// A request of the second round.
pub enum LiftupV2CosignRequestBody {
    /// Asks for the engine's cosign material for a deposit.
    Fetch { outpoint: OutPoint },
    /// Submits the depositor's partial signature for a deposit.
    Submit { outpoint: OutPoint, client_partial_sig: [u8; 32] },
}

impl LiftupV2CosignRequestBody {
    pub fn fetch(outpoint: OutPoint) -> (r: LiftupV2CosignRequestBody)
        ensures
            r == (LiftupV2CosignRequestBody::Fetch { outpoint }),
    {
        LiftupV2CosignRequestBody::Fetch { outpoint }
    }

    pub fn submit(outpoint: OutPoint, client_partial_sig: [u8; 32]) -> (r:
        LiftupV2CosignRequestBody)
        ensures
            r == (LiftupV2CosignRequestBody::Submit { outpoint, client_partial_sig }),
    {
        LiftupV2CosignRequestBody::Submit { outpoint, client_partial_sig }
    }
}

/// Why a request of the second round is refused.
#[derive(Clone, Copy, PartialEq, Eq, Structural, Debug)]
pub enum LiftupV2CosignResponseError {
    DeserializeRequestError,
    /// No deposit with this outpoint waits in the current batch.
    UnknownOutpointError,
    /// The partial signature did not add up to a valid cosignature.
    InvalidPartialSigError,
}

impl LiftupV2CosignResponseError {
    /// The name of the error.
    pub open spec fn spec_name(self) -> Seq<char> {
        match self {
            LiftupV2CosignResponseError::DeserializeRequestError => "DeserializeRequestError"@,
            LiftupV2CosignResponseError::UnknownOutpointError => "UnknownOutpointError"@,
            LiftupV2CosignResponseError::InvalidPartialSigError => "InvalidPartialSigError"@,
        }
    }

    /// The name of the error.
    pub fn name(&self) -> (r: &'static str)
        ensures
            r@ == self.spec_name(),
    {
        match self {
            LiftupV2CosignResponseError::DeserializeRequestError => "DeserializeRequestError",
            LiftupV2CosignResponseError::UnknownOutpointError => "UnknownOutpointError",
            LiftupV2CosignResponseError::InvalidPartialSigError => "InvalidPartialSigError",
        }
    }
}

/// A response of the second round.
pub enum LiftupV2CosignResponseBody {
    /// The key-path sighash and the engine's public nonces, as compressed points.
    Material { sighash: [u8; 32], engine_hiding_nonce: Vec<u8>, engine_binding_nonce: Vec<u8> },
    /// The deposit waits, but the batch is not frozen yet.
    NotReady,
    /// The partial signature was accepted.
    Submitted,
    Refused(LiftupV2CosignResponseError),
}

/// A response of the second round, over models.
pub enum CosignResponseModel {
    Material { sighash: Seq<u8>, engine_hiding_nonce: Seq<u8>, engine_binding_nonce: Seq<u8> },
    NotReady,
    Submitted,
    Refused(LiftupV2CosignResponseError),
}

impl View for LiftupV2CosignResponseBody {
    type V = CosignResponseModel;

    open spec fn view(&self) -> CosignResponseModel {
        match self {
            LiftupV2CosignResponseBody::Material {
                sighash,
                engine_hiding_nonce,
                engine_binding_nonce,
            } => CosignResponseModel::Material {
                sighash: sighash@,
                engine_hiding_nonce: engine_hiding_nonce@,
                engine_binding_nonce: engine_binding_nonce@,
            },
            LiftupV2CosignResponseBody::NotReady => CosignResponseModel::NotReady,
            LiftupV2CosignResponseBody::Submitted => CosignResponseModel::Submitted,
            LiftupV2CosignResponseBody::Refused(e) => CosignResponseModel::Refused(*e),
        }
    }
}

/// The fields of a response of the second round.
pub open spec fn cosign_fields<T>(body: CosignResponseModel) -> Seq<(Seq<char>, LeafModel<T>)> {
    match body {
        CosignResponseModel::Material { sighash, engine_hiding_nonce, engine_binding_nonce } => seq![
            ("status"@, LeafModel::Text("material"@)),
            ("sighash"@, LeafModel::Text(hex_of(sighash))),
            ("engine_hiding_nonce"@, LeafModel::Text(hex_of(engine_hiding_nonce))),
            ("engine_binding_nonce"@, LeafModel::Text(hex_of(engine_binding_nonce))),
        ],
        CosignResponseModel::NotReady => seq![("status"@, LeafModel::Text("not_ready"@))],
        CosignResponseModel::Submitted => seq![("status"@, LeafModel::Text("submitted"@))],
        CosignResponseModel::Refused(e) => seq![
            ("status"@, LeafModel::Text("err"@)),
            ("error"@, LeafModel::Text(e.spec_name())),
        ],
    }
}

impl LiftupV2CosignResponseBody {
    /// The response as JSON.
    pub fn json<T>(&self) -> (r: JsonObject<T>)
        ensures
            r@ == cosign_fields::<T>(self@),
    {
        let r = match self {
            LiftupV2CosignResponseBody::Material {
                sighash,
                engine_hiding_nonce,
                engine_binding_nonce,
            } => JsonObject::new().with("status", text("material")).with(
                "sighash",
                JsonLeaf::Text(hex_encode(sighash)),
            ).with("engine_hiding_nonce", JsonLeaf::Text(hex_encode(engine_hiding_nonce))).with(
                "engine_binding_nonce",
                JsonLeaf::Text(hex_encode(engine_binding_nonce)),
            ),
            LiftupV2CosignResponseBody::NotReady => JsonObject::new().with(
                "status",
                text("not_ready"),
            ),
            LiftupV2CosignResponseBody::Submitted => JsonObject::new().with(
                "status",
                text("submitted"),
            ),
            LiftupV2CosignResponseBody::Refused(e) => JsonObject::new().with(
                "status",
                text("err"),
            ).with("error", text(e.name())),
        };
        assert(r@ =~= cosign_fields::<T>(self@));
        r
    }
}

/// A depositor's public nonces for one deposit, as encoded points.
pub struct LiftupV2Nonce {
    pub outpoint: OutPoint,
    pub client_hiding_nonce: Vec<u8>,
    pub client_binding_nonce: Vec<u8>,
}

/// A request of the first round: the liftup, its BLS signature, and public nonces for
/// each cosigned deposit in it.
pub struct LiftupV2RegisterRequestBody {
    pub liftup: Liftup,
    pub liftup_bls_signature: [u8; 96],
    pub nonces: Vec<LiftupV2Nonce>,
}

impl LiftupV2RegisterRequestBody {
    pub fn new(liftup: Liftup, liftup_bls_signature: [u8; 96], nonces: Vec<LiftupV2Nonce>) -> (r:
        LiftupV2RegisterRequestBody)
        ensures
            r.liftup == liftup,
            r.liftup_bls_signature == liftup_bls_signature,
            r.nonces == nonces,
    {
        LiftupV2RegisterRequestBody { liftup, liftup_bls_signature, nonces }
    }
}

/// The answer to a registered liftup.
pub struct LiftupV2RegisterSuccessBody {
    pub entry_id: [u8; 32],
    pub batch_height: u64,
    pub batch_timestamp: u64,
    pub entry: Entry,
}

/// The fields of the answer to a registered liftup; `entry` is the JSON of its entry.
pub open spec fn success_fields<T>(
    entry_id: Seq<u8>,
    batch_height: u64,
    batch_timestamp: u64,
    entry: T,
) -> Seq<(Seq<char>, LeafModel<T>)> {
    seq![
        ("entry_id"@, LeafModel::Text(hex_of(entry_id))),
        ("batch_height"@, LeafModel::Number(batch_height)),
        ("batch_timestamp"@, LeafModel::Number(batch_timestamp)),
        ("entry"@, LeafModel::Inner(entry)),
    ]
}

impl LiftupV2RegisterSuccessBody {
    /// The answer as JSON, given the JSON of its entry.
    pub fn json<T>(&self, entry_json: T) -> (r: JsonObject<T>)
        ensures
            r@ == success_fields(
                self.entry_id@,
                self.batch_height,
                self.batch_timestamp,
                entry_json,
            ),
    {
        let r = JsonObject::new().with("entry_id", JsonLeaf::Text(hex_encode(&self.entry_id))).with(
            "batch_height",
            JsonLeaf::Number(self.batch_height),
        ).with("batch_timestamp", JsonLeaf::Number(self.batch_timestamp)).with(
            "entry",
            JsonLeaf::Inner(entry_json),
        );
        assert(r@ =~= success_fields(
            self.entry_id@,
            self.batch_height,
            self.batch_timestamp,
            entry_json,
        ));
        r
    }
}

/// Why the session pool did not admit a liftup.
pub enum ExecLiftupInPoolError {
    SessionInactiveError,
    SessionBreakError,
    /// Any other error, by its description.
    OtherError(String),
}

impl ExecLiftupInPoolError {
    /// Whether the session was only not ready, so that the liftup can be tried again.
    pub fn settles(&self) -> (r: bool)
        ensures
            r == (self is SessionInactiveError || self is SessionBreakError),
    {
        match self {
            ExecLiftupInPoolError::SessionInactiveError => true,
            ExecLiftupInPoolError::SessionBreakError => true,
            ExecLiftupInPoolError::OtherError(_) => false,
        }
    }
}

/// Why a request of the first round is refused.
pub enum LiftupV2RegisterResponseError {
    DeserializeRequestError,
    /// A cosigned deposit has no nonces, or there is no cosigned deposit.
    MissingNonceError,
    /// A nonce is not a compressed point.
    InvalidNonceError,
    ExecLiftupInPoolError(ExecLiftupInPoolError),
}

/// The fields of a refusal of the first round; `pool_error` is the JSON of the pool's
/// error, where there is one.
pub open spec fn register_error_fields<T>(e: LiftupV2RegisterResponseError, pool_error: T) -> Seq<
    (Seq<char>, LeafModel<T>),
> {
    match e {
        LiftupV2RegisterResponseError::DeserializeRequestError => seq![
            ("kind"@, LeafModel::Text("deserialize_request_error"@)),
        ],
        LiftupV2RegisterResponseError::MissingNonceError => seq![
            ("kind"@, LeafModel::Text("missing_nonce_error"@)),
        ],
        LiftupV2RegisterResponseError::InvalidNonceError => seq![
            ("kind"@, LeafModel::Text("invalid_nonce_error"@)),
        ],
        LiftupV2RegisterResponseError::ExecLiftupInPoolError(_) => seq![
            ("kind"@, LeafModel::Text("exec_liftup_in_pool_error"@)),
            ("error"@, LeafModel::Inner(pool_error)),
        ],
    }
}

impl LiftupV2RegisterResponseError {
    /// The refusal as JSON, given the JSON of the pool's error in it, where there is one.
    pub fn json<T>(&self, pool_error: T) -> (r: JsonObject<T>)
        ensures
            r@ == register_error_fields(*self, pool_error),
    {
        let r = match self {
            LiftupV2RegisterResponseError::DeserializeRequestError => JsonObject::new().with(
                "kind",
                text("deserialize_request_error"),
            ),
            LiftupV2RegisterResponseError::MissingNonceError => JsonObject::new().with(
                "kind",
                text("missing_nonce_error"),
            ),
            LiftupV2RegisterResponseError::InvalidNonceError => JsonObject::new().with(
                "kind",
                text("invalid_nonce_error"),
            ),
            LiftupV2RegisterResponseError::ExecLiftupInPoolError(_) => JsonObject::new().with(
                "kind",
                text("exec_liftup_in_pool_error"),
            ).with("error", JsonLeaf::Inner(pool_error)),
        };
        assert(r@ =~= register_error_fields(*self, pool_error));
        r
    }
}

/// A response of the first round.
pub enum LiftupV2RegisterResponseBody {
    Admitted(LiftupV2RegisterSuccessBody),
    Refused(LiftupV2RegisterResponseError),
}

/// Whether an object is the JSON of a response of the first round: its status, and the
/// answer or the refusal inside; `inner_json` is the JSON of the entry in the one or of
/// the pool's error in the other.
pub open spec fn is_register_json<T>(
    body: LiftupV2RegisterResponseBody,
    inner_json: T,
    r: JsonObject<JsonObject<T>>,
) -> bool {
    match body {
        LiftupV2RegisterResponseBody::Admitted(b) => {
            &&& r@.len() == 2
            &&& r@[0] == ("status"@, LeafModel::<JsonObject<T>>::Text("ok"@))
            &&& r@[1].0 == "result"@
            &&& match r@[1].1 {
                LeafModel::Inner(inner) => inner@ == success_fields(
                    b.entry_id@,
                    b.batch_height,
                    b.batch_timestamp,
                    inner_json,
                ),
                _ => false,
            }
        },
        LiftupV2RegisterResponseBody::Refused(e) => {
            &&& r@.len() == 2
            &&& r@[0] == ("status"@, LeafModel::<JsonObject<T>>::Text("err"@))
            &&& r@[1].0 == "error"@
            &&& match r@[1].1 {
                LeafModel::Inner(inner) => inner@ == register_error_fields(e, inner_json),
                _ => false,
            }
        },
    }
}

impl LiftupV2RegisterResponseBody {
    /// The response as JSON, given the JSON of the entry or of the pool's error in it.
    pub fn json<T>(&self, inner_json: T) -> (r: JsonObject<JsonObject<T>>)
        ensures
            is_register_json(*self, inner_json, r),
    {
        match self {
            LiftupV2RegisterResponseBody::Admitted(body) => JsonObject::new().with(
                "status",
                text("ok"),
            ).with("result", JsonLeaf::Inner(body.json(inner_json))),
            LiftupV2RegisterResponseBody::Refused(e) => JsonObject::new().with(
                "status",
                text("err"),
            ).with("error", JsonLeaf::Inner(e.json(inner_json))),
        }
    }

    pub fn ok(entry_id: [u8; 32], batch_height: u64, batch_timestamp: u64, entry: Entry) -> (r:
        LiftupV2RegisterResponseBody)
        ensures
            match r {
                LiftupV2RegisterResponseBody::Admitted(b) => {
                    &&& b.entry_id == entry_id
                    &&& b.batch_height == batch_height
                    &&& b.batch_timestamp == batch_timestamp
                    &&& b.entry == entry
                },
                LiftupV2RegisterResponseBody::Refused(_) => false,
            },
    {
        LiftupV2RegisterResponseBody::Admitted(
            LiftupV2RegisterSuccessBody { entry_id, batch_height, batch_timestamp, entry },
        )
    }

    pub fn err(e: LiftupV2RegisterResponseError) -> (r: LiftupV2RegisterResponseBody)
        ensures
            r == LiftupV2RegisterResponseBody::Refused(e),
    {
        LiftupV2RegisterResponseBody::Refused(e)
    }
}

/// A BLS signature as three parts of 32 bytes.
pub fn split_bls_signature(signature: &[u8; 96]) -> (r: ([u8; 32], [u8; 32], [u8; 32]))
    ensures
        r.0@ + r.1@ + r.2@ == signature@,
{
    let a = array32(signature, 0);
    let b = array32(signature, 32);
    let c = array32(signature, 64);
    assert(a@ + b@ + c@ =~= signature@);
    (a, b, c)
}

/// A BLS signature from three parts of 32 bytes.
pub fn join_bls_signature(a: &[u8; 32], b: &[u8; 32], c: &[u8; 32]) -> (r: [u8; 96])
    ensures
        r@ == a@ + b@ + c@,
{
    let mut r: [u8; 96] = [0u8; 96];
    let mut i: usize = 0;
    while i < 32
        invariant
            i <= 32,
            forall|j: int|
                0 <= j < i ==> r@[j] == a@[j] && r@[32 + j] == b@[j] && r@[64 + j] == c@[j],
        decreases 32 - i,
    {
        r[i] = a[i];
        r[32 + i] = b[i];
        r[64 + i] = c[i];
        i = i + 1;
    }
    assert(r@ =~= a@ + b@ + c@);
    r
}

/// A cosigned deposit of a registered liftup, with the depositor's nonces.
#[derive(Clone, Copy)]
pub struct V2Input {
    pub outpoint: OutPoint,
    pub account_key: [u8; 32],
    pub engine_key: [u8; 32],
    pub hiding: Point,
    pub binding: Point,
}

/// A cosigned deposit of a registered liftup, over models.
pub struct V2InputModel {
    pub outpoint: OutPointModel,
    pub account_key: Seq<u8>,
    pub engine_key: Seq<u8>,
    pub hiding: Seq<u8>,
    pub binding: Seq<u8>,
}

impl View for V2Input {
    type V = V2InputModel;

    open spec fn view(&self) -> V2InputModel {
        V2InputModel {
            outpoint: self.outpoint@,
            account_key: self.account_key@,
            engine_key: self.engine_key@,
            hiding: self.hiding@,
            binding: self.binding@,
        }
    }
}

/// Deposits by their models.
pub open spec fn v2_inputs_view(inputs: Seq<V2Input>) -> Seq<V2InputModel> {
    Seq::new(inputs.len(), |i: int| inputs[i]@)
}

/// Whether both nonces are compressed points.
pub open spec fn nonce_decodes(nonce: LiftupV2Nonce) -> bool {
    is_compressed_point(nonce.client_hiding_nonce@) && is_compressed_point(
        nonce.client_binding_nonce@,
    )
}

/// Whether all nonces are compressed points.
pub open spec fn nonces_decode(nonces: Seq<LiftupV2Nonce>) -> bool {
    forall|i: int| 0 <= i < nonces.len() ==> nonce_decodes(#[trigger] nonces[i])
}

/// The nonces by outpoint; of several for one outpoint the last counts.
pub open spec fn nonces_by_outpoint(nonces: Seq<LiftupV2Nonce>) -> Map<
    OutPointModel,
    (Seq<u8>, Seq<u8>),
>
    decreases nonces.len(),
{
    if nonces.len() == 0 {
        Map::empty()
    } else {
        let last = nonces.last();
        nonces_by_outpoint(nonces.drop_last()).insert(
            last.outpoint@,
            (last.client_hiding_nonce@, last.client_binding_nonce@),
        )
    }
}

/// The cosigned deposits among lifts, each with its nonces; `None` where one has none.
pub open spec fn v2_inputs_of(
    lifts: Seq<LiftModel>,
    nonces: Map<OutPointModel, (Seq<u8>, Seq<u8>)>,
) -> Option<Seq<V2InputModel>>
    decreases lifts.len(),
{
    if lifts.len() == 0 {
        Some(Seq::empty())
    } else {
        match v2_inputs_of(lifts.drop_last(), nonces) {
            None => None,
            Some(inputs) => match lifts.last() {
                LiftModel::LiftV2(lift) => if nonces.dom().contains(lift.outpoint) {
                    Some(
                        inputs.push(
                            V2InputModel {
                                outpoint: lift.outpoint,
                                account_key: lift.account_key,
                                engine_key: lift.engine_key,
                                hiding: nonces[lift.outpoint].0,
                                binding: nonces[lift.outpoint].1,
                            },
                        ),
                    )
                } else {
                    None
                },
                _ => Some(inputs),
            },
        }
    }
}

/// A map of nonce points by their encodings.
pub open spec fn nonce_points(m: Map<OutPointModel, (Point, Point)>) -> Map<
    OutPointModel,
    (Seq<u8>, Seq<u8>),
> {
    Map::new(|k: OutPointModel| m.dom().contains(k), |k: OutPointModel| (m[k].0@, m[k].1@))
}

/// Decodes nonces and indexes them by outpoint. Fails where one is not a compressed
/// point.
fn index_nonces(nonces: &[LiftupV2Nonce]) -> (r: Option<OutPointMap<(Point, Point)>>)
    ensures
        match r {
            None => !nonces_decode(nonces@),
            Some(m) => {
                &&& nonces_decode(nonces@)
                &&& nonce_points(m@) == nonces_by_outpoint(nonces@)
            },
        },
{
    let mut m: OutPointMap<(Point, Point)> = OutPointMap::new();
    let mut i: usize = 0;
    assert(nonces@.take(0) =~= Seq::empty());
    assert(nonce_points(m@) =~= nonces_by_outpoint(nonces@.take(0)));
    while i < nonces.len()
        invariant
            i <= nonces@.len(),
            forall|j: int| 0 <= j < i ==> nonce_decodes(#[trigger] nonces@[j]),
            nonce_points(m@) == nonces_by_outpoint(nonces@.take(i as int)),
        decreases nonces@.len() - i,
    {
        let n = &nonces[i];
        let hiding = match Point::from_compressed(&n.client_hiding_nonce) {
            None => {
                assert(!nonce_decodes(nonces@[i as int]));
                return None;
            },
            Some(p) => p,
        };
        let binding = match Point::from_compressed(&n.client_binding_nonce) {
            None => {
                assert(!nonce_decodes(nonces@[i as int]));
                return None;
            },
            Some(p) => p,
        };
        let ghost before = m@;
        m.insert(n.outpoint, (hiding, binding));
        proof {
            assert(nonces@.take(i + 1).drop_last() =~= nonces@.take(i as int));
            assert(nonce_points(m@) =~= nonce_points(before).insert(
                n.outpoint@,
                (hiding@, binding@),
            ));
        }
        i = i + 1;
    }
    assert(nonces@.take(i as int) =~= nonces@);
    Some(m)
}

/// The cosigned deposits of a liftup with their committed nonces. Refused where a nonce
/// is not a compressed point, where a cosigned deposit has no nonces, or where there is
/// no cosigned deposit.
pub fn register_v2_inputs(liftup: &Liftup, nonces: &[LiftupV2Nonce]) -> (r: Result<
    Vec<V2Input>,
    LiftupV2RegisterResponseError,
>)
    ensures
        !nonces_decode(nonces@) ==> r == Err::<Vec<V2Input>, LiftupV2RegisterResponseError>(
            LiftupV2RegisterResponseError::InvalidNonceError,
        ),
        nonces_decode(nonces@) ==> match v2_inputs_of(
            lifts_view(liftup.lift_tx_inputs@),
            nonces_by_outpoint(nonces@),
        ) {
            None => r == Err::<Vec<V2Input>, LiftupV2RegisterResponseError>(
                LiftupV2RegisterResponseError::MissingNonceError,
            ),
            Some(inputs) => if inputs.len() == 0 {
                r == Err::<Vec<V2Input>, LiftupV2RegisterResponseError>(
                    LiftupV2RegisterResponseError::MissingNonceError,
                )
            } else {
                match r {
                    Err(_) => false,
                    Ok(v) => v2_inputs_view(v@) == inputs,
                }
            },
        },
{
    let by_outpoint = match index_nonces(nonces) {
        None => {
            return Err(LiftupV2RegisterResponseError::InvalidNonceError);
        },
        Some(m) => m,
    };
    let ghost map = nonces_by_outpoint(nonces@);
    let ghost lifts = lifts_view(liftup.lift_tx_inputs@);
    let mut inputs: Vec<V2Input> = Vec::new();
    let mut i: usize = 0;
    assert(lifts.take(0) =~= Seq::empty());
    assert(v2_inputs_view(inputs@) =~= Seq::empty());
    while i < liftup.lift_tx_inputs.len()
        invariant
            i <= liftup.lift_tx_inputs@.len(),
            nonces_decode(nonces@),
            map == nonces_by_outpoint(nonces@),
            map == nonce_points(by_outpoint@),
            lifts == lifts_view(liftup.lift_tx_inputs@),
            v2_inputs_of(lifts.take(i as int), map) == Some(v2_inputs_view(inputs@)),
        decreases liftup.lift_tx_inputs@.len() - i,
    {
        assert(lifts.take(i + 1).drop_last() =~= lifts.take(i as int));
        assert(lifts[i as int] == liftup.lift_tx_inputs@[i as int]@);
        match &liftup.lift_tx_inputs[i] {
            Lift::LiftV2(lift) => {
                match by_outpoint.get(&lift.outpoint) {
                    None => {
                        proof {
                            lemma_v2_inputs_missing(lifts, i + 1, map);
                        }
                        return Err(LiftupV2RegisterResponseError::MissingNonceError);
                    },
                    Some(pair) => {
                        let ghost before = inputs@;
                        let input = V2Input {
                            outpoint: lift.outpoint,
                            account_key: lift.account_key,
                            engine_key: lift.engine_key,
                            hiding: pair.0,
                            binding: pair.1,
                        };
                        inputs.push(input);
                        assert(v2_inputs_view(inputs@) =~= v2_inputs_view(before).push(input@));
                    },
                }
            },
            _ => {},
        }
        i = i + 1;
    }
    assert(lifts.take(i as int) =~= lifts);
    assert(v2_inputs_view(inputs@).len() == inputs@.len());
    if inputs.len() == 0 {
        return Err(LiftupV2RegisterResponseError::MissingNonceError);
    }
    Ok(inputs)
}

proof fn lemma_v2_inputs_missing(
    lifts: Seq<LiftModel>,
    i: int,
    nonces: Map<OutPointModel, (Seq<u8>, Seq<u8>)>,
)
    requires
        0 <= i <= lifts.len(),
        v2_inputs_of(lifts.take(i), nonces) is None,
    ensures
        v2_inputs_of(lifts, nonces) is None,
    decreases lifts.len() - i,
{
    if i < lifts.len() {
        assert(lifts.take(i + 1).drop_last() =~= lifts.take(i));
        lemma_v2_inputs_missing(lifts, i + 1, nonces);
    } else {
        assert(lifts.take(i) =~= lifts);
    }
}

/// What the engine does on a request of the second round.
pub enum CosignRequestAction {
    /// Answer at once.
    Respond(LiftupV2CosignResponseBody),
    /// Look the deposit and its cosign material up.
    LookUp(OutPoint),
    /// Look the deposit up and submit the partial signature to it.
    Submit(OutPoint, Scalar),
}

/// What the engine does on a request of the second round; `None` is a request that could
/// not be read. A partial signature that is not a scalar is refused at once.
pub fn cosign_request_action(request: Option<LiftupV2CosignRequestBody>) -> (r:
    CosignRequestAction)
    ensures
        match request {
            None => match r {
                CosignRequestAction::Respond(body) => body@ == CosignResponseModel::Refused(
                    LiftupV2CosignResponseError::DeserializeRequestError,
                ),
                _ => false,
            },
            Some(LiftupV2CosignRequestBody::Fetch { outpoint }) => r
                == CosignRequestAction::LookUp(outpoint),
            Some(LiftupV2CosignRequestBody::Submit { outpoint, client_partial_sig }) => match r {
                CosignRequestAction::Respond(body) => !is_scalar(client_partial_sig@) && body@
                    == CosignResponseModel::Refused(
                    LiftupV2CosignResponseError::InvalidPartialSigError,
                ),
                CosignRequestAction::LookUp(_) => false,
                CosignRequestAction::Submit(o, s) => {
                    &&& is_scalar(client_partial_sig@)
                    &&& o == outpoint
                    &&& s.encoding() == client_partial_sig@
                },
            },
        },
{
    match request {
        None => CosignRequestAction::Respond(
            LiftupV2CosignResponseBody::Refused(LiftupV2CosignResponseError::DeserializeRequestError),
        ),
        Some(LiftupV2CosignRequestBody::Fetch { outpoint }) => CosignRequestAction::LookUp(
            outpoint,
        ),
        Some(LiftupV2CosignRequestBody::Submit { outpoint, client_partial_sig }) => {
            match Scalar::from_slice(&client_partial_sig) {
                None => CosignRequestAction::Respond(
                    LiftupV2CosignResponseBody::Refused(
                        LiftupV2CosignResponseError::InvalidPartialSigError,
                    ),
                ),
                Some(s) => CosignRequestAction::Submit(outpoint, s),
            }
        },
    }
}

/// The answer to a fetch: the material of a deposit that waits, once there is any.
pub fn cosign_fetch_response(
    pending: bool,
    material: Option<([u8; 32], Point, Point)>,
) -> (r: LiftupV2CosignResponseBody)
    ensures
        r@ == if !pending {
            CosignResponseModel::Refused(LiftupV2CosignResponseError::UnknownOutpointError)
        } else {
            match material {
                None => CosignResponseModel::NotReady,
                Some(m) => CosignResponseModel::Material {
                    sighash: m.0@,
                    engine_hiding_nonce: m.1@,
                    engine_binding_nonce: m.2@,
                },
            }
        },
{
    if !pending {
        return LiftupV2CosignResponseBody::Refused(LiftupV2CosignResponseError::UnknownOutpointError);
    }
    match material {
        None => LiftupV2CosignResponseBody::NotReady,
        Some((sighash, hiding, binding)) => LiftupV2CosignResponseBody::Material {
            sighash,
            engine_hiding_nonce: to_vec(&hiding.serialize()),
            engine_binding_nonce: to_vec(&binding.serialize()),
        },
    }
}

/// The answer to a submitted partial signature.
pub fn cosign_submit_response(pending: bool, accepted: bool) -> (r: LiftupV2CosignResponseBody)
    ensures
        r@ == if !pending {
            CosignResponseModel::Refused(LiftupV2CosignResponseError::UnknownOutpointError)
        } else if accepted {
            CosignResponseModel::Submitted
        } else {
            CosignResponseModel::Refused(LiftupV2CosignResponseError::InvalidPartialSigError)
        },
{
    if !pending {
        LiftupV2CosignResponseBody::Refused(LiftupV2CosignResponseError::UnknownOutpointError)
    } else if accepted {
        LiftupV2CosignResponseBody::Submitted
    } else {
        LiftupV2CosignResponseBody::Refused(LiftupV2CosignResponseError::InvalidPartialSigError)
    }
}

/// What the engine does after an attempt to admit a liftup.
pub enum RegisterStep {
    /// Try again after this many milliseconds.
    RetryAfter(u64),
    /// Commit the nonces of the cosigned deposits, then respond.
    CommitAndRespond(LiftupV2RegisterResponseBody),
    Respond(LiftupV2RegisterResponseBody),
}

/// What the engine does after an attempt to admit a liftup, which gave the id of the
/// entry, the entry, and height and timestamp of the batch, or an error.
pub fn after_register_attempt(
    attempt: u32,
    result: Result<([u8; 32], Entry, u64, u64), ExecLiftupInPoolError>,
) -> (r: RegisterStep)
    ensures
        match result {
            Ok(t) => r == RegisterStep::CommitAndRespond(
                LiftupV2RegisterResponseBody::Admitted(
                    LiftupV2RegisterSuccessBody {
                        entry_id: t.0,
                        batch_height: t.2,
                        batch_timestamp: t.3,
                        entry: t.1,
                    },
                ),
            ),
            Err(e) => match after_failure_of(
                attempt,
                e is SessionInactiveError || e is SessionBreakError,
            ) {
                AfterFailure::RetryAfter(ms) => r == RegisterStep::RetryAfter(ms),
                AfterFailure::GiveUp => r == RegisterStep::Respond(
                    LiftupV2RegisterResponseBody::Refused(
                        LiftupV2RegisterResponseError::ExecLiftupInPoolError(e),
                    ),
                ),
            },
        },
{
    match result {
        Ok((entry_id, entry, batch_height, batch_timestamp)) => RegisterStep::CommitAndRespond(
            LiftupV2RegisterResponseBody::Admitted(
                LiftupV2RegisterSuccessBody { entry_id, batch_height, batch_timestamp, entry },
            ),
        ),
        Err(e) => match after_failure(attempt, e.settles()) {
            AfterFailure::RetryAfter(ms) => RegisterStep::RetryAfter(ms),
            AfterFailure::GiveUp => RegisterStep::Respond(
                LiftupV2RegisterResponseBody::err(
                    LiftupV2RegisterResponseError::ExecLiftupInPoolError(e),
                ),
            ),
        },
    }
}

/// Why a request to the engine failed.
pub enum RequestError {
    RequestSerializationError,
    /// The connection failed, by its description.
    TransportError(String),
    EmptyResponse,
    ResponseDeserializationError,
}

/// The body of a response, given its bytes and what they decode to.
pub fn response_body<T>(payload: &[u8], decoded: Option<T>) -> (r: Result<T, RequestError>)
    ensures
        r == if payload@.len() == 0 {
            Err(RequestError::EmptyResponse)
        } else {
            match decoded {
                None => Err(RequestError::ResponseDeserializationError),
                Some(body) => Ok(body),
            }
        },
{
    if payload.len() == 0 {
        return Err(RequestError::EmptyResponse);
    }
    match decoded {
        None => Err(RequestError::ResponseDeserializationError),
        Some(body) => Ok(body),
    }
}

/// Of several nonces for one outpoint the last count, and only outpoints with nonces have
/// any.
pub proof fn theorem_last_nonces_count(nonces: Seq<LiftupV2Nonce>, i: int, key: OutPointModel)
    requires
        0 <= i < nonces.len(),
        forall|j: int| i < j < nonces.len() ==> (#[trigger] nonces[j]).outpoint@
            != nonces[i].outpoint@,
    ensures
        nonces_by_outpoint(nonces).dom().contains(nonces[i].outpoint@),
        nonces_by_outpoint(nonces)[nonces[i].outpoint@] == (
            nonces[i].client_hiding_nonce@,
            nonces[i].client_binding_nonce@,
        ),
        nonces_by_outpoint(nonces).dom().contains(key) <==> exists|j: int|
            0 <= j < nonces.len() && (#[trigger] nonces[j]).outpoint@ == key,
    decreases nonces.len(),
{
    lemma_nonce_keys(nonces, key);
    if i < nonces.len() - 1 {
        let rest = nonces.drop_last();
        assert(nonces[nonces.len() - 1].outpoint@ != nonces[i].outpoint@);
        assert forall|j: int| i < j < rest.len() implies (#[trigger] rest[j]).outpoint@
            != rest[i].outpoint@ by {
            assert(rest[j] == nonces[j]);
        }
        theorem_last_nonces_count(rest, i, key);
    }
}

proof fn lemma_nonce_keys(nonces: Seq<LiftupV2Nonce>, key: OutPointModel)
    ensures
        nonces_by_outpoint(nonces).dom().contains(key) <==> exists|j: int|
            0 <= j < nonces.len() && (#[trigger] nonces[j]).outpoint@ == key,
    decreases nonces.len(),
{
    if nonces.len() > 0 {
        let rest = nonces.drop_last();
        lemma_nonce_keys(rest, key);
        if exists|j: int| 0 <= j < nonces.len() && (#[trigger] nonces[j]).outpoint@ == key {
            let j = choose|j: int| 0 <= j < nonces.len() && (#[trigger] nonces[j]).outpoint@ == key;
            if j < nonces.len() - 1 {
                assert(rest[j].outpoint@ == key);
            }
        }
        if exists|j: int| 0 <= j < rest.len() && (#[trigger] rest[j]).outpoint@ == key {
            let j = choose|j: int| 0 <= j < rest.len() && (#[trigger] rest[j]).outpoint@ == key;
            assert(nonces[j].outpoint@ == key);
        }
        if nonces_by_outpoint(nonces).dom().contains(key) && !nonces_by_outpoint(
            rest,
        ).dom().contains(key) {
            assert(nonces[nonces.len() - 1].outpoint@ == key);
        }
    }
}

proof fn lemma_v2_inputs_at(
    lifts: Seq<LiftModel>,
    nonces: Map<OutPointModel, (Seq<u8>, Seq<u8>)>,
    i: int,
)
    requires
        0 <= i < lifts.len(),
        v2_inputs_of(lifts, nonces) is Some,
    ensures
        v2_inputs_of(lifts, nonces)->0.len() == v2_count(lifts),
        v2_count(lifts.take(i)) <= v2_count(lifts),
        lifts[i] is LiftV2 ==> {
            let l = lifts[i]->LiftV2_0;
            &&& v2_count(lifts.take(i)) < v2_count(lifts)
            &&& nonces.dom().contains(l.outpoint)
            &&& v2_inputs_of(lifts, nonces)->0[v2_count(lifts.take(i)) as int] == V2InputModel {
                outpoint: l.outpoint,
                account_key: l.account_key,
                engine_key: l.engine_key,
                hiding: nonces[l.outpoint].0,
                binding: nonces[l.outpoint].1,
            }
        },
    decreases lifts.len(),
{
    let rest = lifts.drop_last();
    if rest.len() > 0 {
        lemma_v2_inputs_at(
            rest,
            nonces,
            if i < rest.len() {
                i
            } else {
                0
            },
        );
    } else {
        assert(v2_inputs_of(rest, nonces)->0.len() == 0);
        assert(v2_count(rest) == 0);
    }
    if i < rest.len() {
        assert(rest.take(i) =~= lifts.take(i));
    } else {
        assert(lifts.take(i) =~= rest);
    }
}

proof fn lemma_v2_inputs_exist(
    lifts: Seq<LiftModel>,
    nonces: Map<OutPointModel, (Seq<u8>, Seq<u8>)>,
)
    ensures
        v2_inputs_of(lifts, nonces) is Some <==> forall|i: int|
            0 <= i < lifts.len() && (#[trigger] lifts[i]) is LiftV2 ==> nonces.dom().contains(
                lifts[i]->LiftV2_0.outpoint,
            ),
    decreases lifts.len(),
{
    if lifts.len() > 0 {
        let rest = lifts.drop_last();
        lemma_v2_inputs_exist(rest, nonces);
        if v2_inputs_of(rest, nonces) is None {
            let i = choose|i: int|
                0 <= i < rest.len() && (#[trigger] rest[i]) is LiftV2 && !nonces.dom().contains(
                    rest[i]->LiftV2_0.outpoint,
                );
            assert(lifts[i] is LiftV2);
        } else {
            assert forall|i: int| 0 <= i < rest.len() && (#[trigger] lifts[i]) is LiftV2 implies
                nonces.dom().contains(lifts[i]->LiftV2_0.outpoint) by {
                assert(rest[i] is LiftV2);
            }
            if lifts.last() is LiftV2 && !nonces.dom().contains(
                lifts.last()->LiftV2_0.outpoint,
            ) {
                assert(lifts[lifts.len() - 1] is LiftV2);
            }
        }
    }
}

/// Every cosigned deposit of a registered liftup is taken in, in order and no other: with
/// its own outpoint and keys, and with the last nonces that were committed for it.
pub proof fn theorem_every_cosigned_deposit_is_registered(
    liftup: Liftup,
    nonces: &[LiftupV2Nonce],
    inputs: Vec<V2Input>,
    i: int,
    n: int,
)
    requires
        call_ensures(
            register_v2_inputs,
            (&liftup, nonces),
            Ok::<Vec<V2Input>, LiftupV2RegisterResponseError>(inputs),
        ),
        0 <= i < liftup.lift_tx_inputs@.len(),
        0 <= n < nonces@.len(),
        forall|j: int| n < j < nonces@.len() ==> (#[trigger] nonces@[j]).outpoint@
            != nonces@[n].outpoint@,
    ensures
        ({
            let lift = liftup.lift_tx_inputs@[i];
            let k = v2_count(lifts_view(liftup.lift_tx_inputs@).take(i)) as int;
            &&& inputs@.len() == v2_count(lifts_view(liftup.lift_tx_inputs@))
            &&& inputs@.len() > 0
            &&& lift is LiftV2 ==> {
                &&& k < inputs@.len()
                &&& inputs@[k].outpoint@ == lift->LiftV2_0.outpoint@
                &&& inputs@[k].account_key@ == lift->LiftV2_0.account_key@
                &&& inputs@[k].engine_key@ == lift->LiftV2_0.engine_key@
                &&& nonces@[n].outpoint@ == lift->LiftV2_0.outpoint@ ==> {
                    &&& inputs@[k].hiding@ == nonces@[n].client_hiding_nonce@
                    &&& inputs@[k].binding@ == nonces@[n].client_binding_nonce@
                }
            }
        }),
{
    let lifts = lifts_view(liftup.lift_tx_inputs@);
    let map = nonces_by_outpoint(nonces@);
    lemma_v2_inputs_at(lifts, map, i);
    theorem_last_nonces_count(nonces@, n, nonces@[n].outpoint@);
    assert(lifts[i] == liftup.lift_tx_inputs@[i]@);
    let k = v2_count(lifts.take(i)) as int;
    assert(v2_inputs_view(inputs@) == v2_inputs_of(lifts, map)->0);
    assert(v2_inputs_view(inputs@).len() == inputs@.len());
    if lifts[i] is LiftV2 {
        assert(v2_inputs_view(inputs@)[k] == inputs@[k]@);
    }
}

/// A liftup is refused for its nonces if and only if one of them is not a pair of points,
/// a cosigned deposit has none, or there is no cosigned deposit; the first of these comes
/// before the others.
pub proof fn theorem_registration_is_owed(
    liftup: Liftup,
    nonces: &[LiftupV2Nonce],
    r: Result<Vec<V2Input>, LiftupV2RegisterResponseError>,
)
    requires
        call_ensures(register_v2_inputs, (&liftup, nonces), r),
    ensures
        ({
            let bad = exists|j: int|
                0 <= j < nonces@.len() && !(is_compressed_point(
                    (#[trigger] nonces@[j]).client_hiding_nonce@,
                ) && is_compressed_point(nonces@[j].client_binding_nonce@));
            let lifts = lifts_view(liftup.lift_tx_inputs@);
            let missing = exists|i: int|
                0 <= i < lifts.len() && (#[trigger] lifts[i]) is LiftV2 && forall|j: int|
                    0 <= j < nonces@.len() ==> (#[trigger] nonces@[j]).outpoint@
                        != lifts[i]->LiftV2_0.outpoint;
            &&& r is Err && r->Err_0 is InvalidNonceError <==> bad
            &&& r is Err && r->Err_0 is MissingNonceError <==> !bad && (missing || v2_count(lifts)
                == 0)
            &&& r is Ok <==> !bad && !missing && v2_count(lifts) > 0
        }),
{
    let lifts = lifts_view(liftup.lift_tx_inputs@);
    let map = nonces_by_outpoint(nonces@);
    let bad = exists|j: int|
        0 <= j < nonces@.len() && !(is_compressed_point(
            (#[trigger] nonces@[j]).client_hiding_nonce@,
        ) && is_compressed_point(nonces@[j].client_binding_nonce@));
    assert(bad == !nonces_decode(nonces@)) by {
        if bad {
            let j = choose|j: int|
                0 <= j < nonces@.len() && !(is_compressed_point(
                    (#[trigger] nonces@[j]).client_hiding_nonce@,
                ) && is_compressed_point(nonces@[j].client_binding_nonce@));
            assert(!nonce_decodes(nonces@[j]));
        } else {
            assert forall|j: int| 0 <= j < nonces@.len() implies nonce_decodes(
                #[trigger] nonces@[j],
            ) by {}
        }
    }
    lemma_v2_inputs_exist(lifts, map);
    assert forall|i: int| 0 <= i < lifts.len() && (#[trigger] lifts[i]) is LiftV2 implies (
    !map.dom().contains(lifts[i]->LiftV2_0.outpoint) <==> forall|j: int|
        0 <= j < nonces@.len() ==> (#[trigger] nonces@[j]).outpoint@
            != lifts[i]->LiftV2_0.outpoint) by {
        lemma_nonce_keys(nonces@, lifts[i]->LiftV2_0.outpoint);
    }
    if v2_inputs_of(lifts, map) is Some {
        if lifts.len() > 0 {
            lemma_v2_inputs_at(lifts, map, 0);
        }
    }
}

/// What the engine does on a request of the second round: what cannot be read and a
/// partial signature that is not a scalar are refused, for their own reasons; anything
/// else is handed on for the deposit that it names.
pub proof fn theorem_cosign_requests_are_handed_on(
    request: Option<LiftupV2CosignRequestBody>,
    r: CosignRequestAction,
)
    requires
        call_ensures(cosign_request_action, (request,), r),
    ensures
        request is None ==> r is Respond && r->Respond_0@ == CosignResponseModel::Refused(
            LiftupV2CosignResponseError::DeserializeRequestError,
        ),
        r is LookUp <==> request is Some && request->0 is Fetch,
        r is LookUp ==> r->LookUp_0 == request->0->Fetch_outpoint,
        r is Submit <==> request is Some && request->0 is Submit && is_scalar(
            request->0->client_partial_sig@,
        ),
        r is Submit ==> {
            &&& r->Submit_0 == request->0->Submit_outpoint
            &&& r->Submit_1.encoding() == request->0->client_partial_sig@
        },
        request is Some && r is Respond ==> r->Respond_0@ == CosignResponseModel::Refused(
            LiftupV2CosignResponseError::InvalidPartialSigError,
        ),
{
}

/// What a fetch is answered: a deposit that does not wait is unknown, one that waits is
/// not ready without material, and with material gets exactly that, the hiding nonce and
/// the binding nonce each in its place.
pub proof fn theorem_fetches_are_answered(
    pending: bool,
    material: Option<([u8; 32], Point, Point)>,
    r: LiftupV2CosignResponseBody,
)
    requires
        call_ensures(cosign_fetch_response, (pending, material), r),
    ensures
        r is Refused <==> !pending,
        r is Refused ==> r->Refused_0 == LiftupV2CosignResponseError::UnknownOutpointError,
        r is NotReady <==> pending && material is None,
        r is Material <==> pending && material is Some,
        r is Material ==> {
            &&& r->sighash@ == (material->0).0@
            &&& r->engine_hiding_nonce@ == (material->0).1@
            &&& r->engine_binding_nonce@ == (material->0).2@
        },
{
}

/// What a partial signature is answered: it is submitted if and only if the deposit waits
/// and the cosignature adds up.
pub proof fn theorem_submissions_are_answered(
    pending: bool,
    accepted: bool,
    r: LiftupV2CosignResponseBody,
)
    requires
        call_ensures(cosign_submit_response, (pending, accepted), r),
    ensures
        r is Submitted <==> pending && accepted,
        r is Refused <==> !(pending && accepted),
        !pending ==> r->Refused_0 == LiftupV2CosignResponseError::UnknownOutpointError,
        pending && !accepted ==> r->Refused_0
            == LiftupV2CosignResponseError::InvalidPartialSigError,
{
}

/// What becomes of an attempt to admit a liftup: nonces are committed if and only if it is
/// admitted; it is tried again, after half a second, if and only if the session was only
/// not ready and the attempt was one of the first three; any other failure is answered as
/// it is.
pub proof fn theorem_register_attempts_are_answered(
    attempt: u32,
    result: Result<([u8; 32], Entry, u64, u64), ExecLiftupInPoolError>,
    r: RegisterStep,
)
    requires
        call_ensures(after_register_attempt, (attempt, result), r),
    ensures
        r is CommitAndRespond <==> result is Ok,
        result is Ok ==> {
            let body = r->CommitAndRespond_0;
            &&& body is Admitted
            &&& body->Admitted_0.entry_id == result->Ok_0.0
            &&& body->Admitted_0.entry == result->Ok_0.1
            &&& body->Admitted_0.batch_height == result->Ok_0.2
            &&& body->Admitted_0.batch_timestamp == result->Ok_0.3
        },
        r is RetryAfter <==> attempt <= 3 && result is Err && (
        result->Err_0 is SessionInactiveError || result->Err_0 is SessionBreakError),
        r is RetryAfter ==> r->RetryAfter_0 == 500,
        r is Respond ==> r->Respond_0 == LiftupV2RegisterResponseBody::Refused(
            LiftupV2RegisterResponseError::ExecLiftupInPoolError(result->Err_0),
        ),
{
}

/// A response is the body that its bytes decode to, if and only if there are bytes and
/// they decode; an empty one is told from one that does not decode.
pub proof fn theorem_responses_are_decoded<T>(
    payload: &[u8],
    decoded: Option<T>,
    r: Result<T, RequestError>,
)
    requires
        call_ensures(response_body::<T>, (payload, decoded), r),
    ensures
        r is Ok <==> payload@.len() > 0 && decoded is Some,
        r is Ok ==> r->Ok_0 == decoded->0,
        payload@.len() == 0 ==> r is Err && r->Err_0 is EmptyResponse,
        payload@.len() > 0 && decoded is None ==> r is Err
            && r->Err_0 is ResponseDeserializationError,
{
}

/// A BLS signature that is split is joined again, and its parts are its thirds in order.
pub proof fn theorem_bls_signature_round_trip(
    signature: [u8; 96],
    parts: ([u8; 32], [u8; 32], [u8; 32]),
    joined: [u8; 96],
)
    requires
        call_ensures(split_bls_signature, (&signature,), parts),
        call_ensures(join_bls_signature, (&parts.0, &parts.1, &parts.2), joined),
    ensures
        joined@ == signature@,
        parts.0@ == signature@.subrange(0, 32),
        parts.1@ == signature@.subrange(32, 64),
        parts.2@ == signature@.subrange(64, 96),
{
    assert(parts.0@ =~= signature@.subrange(0, 32));
    assert(parts.1@ =~= signature@.subrange(32, 64));
    assert(parts.2@ =~= signature@.subrange(64, 96));
}

/// Different errors of the second round have different names.
pub proof fn theorem_cosign_error_names_differ(
    a: LiftupV2CosignResponseError,
    b: LiftupV2CosignResponseError,
    name_a: &'static str,
    name_b: &'static str,
)
    requires
        call_ensures(LiftupV2CosignResponseError::name, (&a,), name_a),
        call_ensures(LiftupV2CosignResponseError::name, (&b,), name_b),
    ensures
        a != b ==> name_a@ != name_b@,
        a == LiftupV2CosignResponseError::DeserializeRequestError ==> name_a@
            == "DeserializeRequestError"@,
        a == LiftupV2CosignResponseError::UnknownOutpointError ==> name_a@
            == "UnknownOutpointError"@,
        a == LiftupV2CosignResponseError::InvalidPartialSigError ==> name_a@
            == "InvalidPartialSigError"@,
{
    reveal_strlit("DeserializeRequestError");
    reveal_strlit("UnknownOutpointError");
    reveal_strlit("InvalidPartialSigError");
    assert("DeserializeRequestError"@[0] == 'D');
    assert("UnknownOutpointError"@[0] == 'U');
    assert("InvalidPartialSigError"@[0] == 'I');
}

/// The JSON of a response of the second round starts with its status and holds what the
/// response holds, bytes as hexadecimal text.
pub proof fn theorem_cosign_json<T>(body: LiftupV2CosignResponseBody, r: JsonObject<T>)
    requires
        call_ensures(LiftupV2CosignResponseBody::json::<T>, (&body,), r),
    ensures
        r@[0].0 == "status"@,
        body is NotReady ==> r@.len() == 1 && r@[0].1 == LeafModel::<T>::Text("not_ready"@),
        body is Submitted ==> r@.len() == 1 && r@[0].1 == LeafModel::<T>::Text("submitted"@),
        body is Refused ==> {
            &&& r@.len() == 2
            &&& r@[0].1 == LeafModel::<T>::Text("err"@)
            &&& r@[1] == ("error"@, LeafModel::<T>::Text(body->Refused_0.spec_name()))
        },
        body is Material ==> {
            &&& r@.len() == 4
            &&& r@[0].1 == LeafModel::<T>::Text("material"@)
            &&& r@[1] == ("sighash"@, LeafModel::<T>::Text(hex_of(body->sighash@)))
            &&& r@[2] == (
                "engine_hiding_nonce"@,
                LeafModel::<T>::Text(hex_of(body->engine_hiding_nonce@)),
            )
            &&& r@[3] == (
                "engine_binding_nonce"@,
                LeafModel::<T>::Text(hex_of(body->engine_binding_nonce@)),
            )
        },
{
}

/// The JSON of a response of the first round: its status, and inside the entry with id
/// and batch, or the kind of the refusal with the error of the pool where there is one.
pub proof fn theorem_register_json<T>(
    body: LiftupV2RegisterResponseBody,
    inner_json: T,
    r: JsonObject<JsonObject<T>>,
)
    requires
        call_ensures(LiftupV2RegisterResponseBody::json::<T>, (&body, inner_json), r),
    ensures
        r@.len() == 2,
        r@[0].0 == "status"@,
        body is Admitted ==> {
            let b = body->Admitted_0;
            let inner = r@[1].1->Inner_0@;
            &&& r@[0].1 == LeafModel::<JsonObject<T>>::Text("ok"@)
            &&& r@[1].0 == "result"@
            &&& r@[1].1 is Inner
            &&& inner.len() == 4
            &&& inner[0] == ("entry_id"@, LeafModel::<T>::Text(hex_of(b.entry_id@)))
            &&& inner[1] == ("batch_height"@, LeafModel::<T>::Number(b.batch_height))
            &&& inner[2] == ("batch_timestamp"@, LeafModel::<T>::Number(b.batch_timestamp))
            &&& inner[3] == ("entry"@, LeafModel::<T>::Inner(inner_json))
        },
        body is Refused ==> {
            let e = body->Refused_0;
            let inner = r@[1].1->Inner_0@;
            &&& r@[0].1 == LeafModel::<JsonObject<T>>::Text("err"@)
            &&& r@[1].0 == "error"@
            &&& r@[1].1 is Inner
            &&& inner[0].0 == "kind"@
            &&& e is DeserializeRequestError ==> inner.len() == 1 && inner[0].1
                == LeafModel::<T>::Text("deserialize_request_error"@)
            &&& e is MissingNonceError ==> inner.len() == 1 && inner[0].1 == LeafModel::<T>::Text(
                "missing_nonce_error"@,
            )
            &&& e is InvalidNonceError ==> inner.len() == 1 && inner[0].1 == LeafModel::<T>::Text(
                "invalid_nonce_error"@,
            )
            &&& e is ExecLiftupInPoolError ==> {
                &&& inner.len() == 2
                &&& inner[0].1 == LeafModel::<T>::Text("exec_liftup_in_pool_error"@)
                &&& inner[1] == ("error"@, LeafModel::<T>::Inner(inner_json))
            }
        },
{
}

/// Requests and responses hold what they are made of.
pub proof fn theorem_messages_hold_their_parts(
    outpoint: OutPoint,
    partial: [u8; 32],
    fetch: LiftupV2CosignRequestBody,
    submit: LiftupV2CosignRequestBody,
    entry_id: [u8; 32],
    batch_height: u64,
    batch_timestamp: u64,
    entry: Entry,
    admitted: LiftupV2RegisterResponseBody,
    e: LiftupV2RegisterResponseError,
    refused: LiftupV2RegisterResponseBody,
)
    requires
        call_ensures(LiftupV2CosignRequestBody::fetch, (outpoint,), fetch),
        call_ensures(LiftupV2CosignRequestBody::submit, (outpoint, partial), submit),
        call_ensures(
            LiftupV2RegisterResponseBody::ok,
            (entry_id, batch_height, batch_timestamp, entry),
            admitted,
        ),
        call_ensures(LiftupV2RegisterResponseBody::err, (e,), refused),
    ensures
        fetch is Fetch && fetch->Fetch_outpoint == outpoint,
        submit is Submit && submit->Submit_outpoint == outpoint && submit->client_partial_sig
            == partial,
        admitted is Admitted,
        admitted->Admitted_0.entry_id == entry_id,
        admitted->Admitted_0.batch_height == batch_height,
        admitted->Admitted_0.batch_timestamp == batch_timestamp,
        admitted->Admitted_0.entry == entry,
        refused is Refused && refused->Refused_0 == e,
{
}

} // verus!

//! Lifting a deposit into the rollup: the cosignature of depositor and engine.
//!
//! A deposit is locked to a taproot output whose internal key is the MuSig2 aggregate
//! of the account key and the engine key. To lift it, both sign the key-path sighash
//! of the batch. The depositor commits public nonces before the batch is frozen; at
//! freeze the engine adds its own nonces and its partial signature; the depositor
//! answers with a partial signature, and the engine adds the two up.
//!
//! Secret nonces must be fresh, random and used for one session only.
use vstd::prelude::*;
use crate::bytes::{be_nat, to_vec};
use crate::curve::{discrete_log, even_point, generator_multiple, is_point, Point, Scalar};
use crate::musig::{
    agg_exponent, aggregates, encodings, inner_exponent, open_nonce_slot, open_partial_slot,
    signer_slot, theorem_signer_is_first_with_nonces, MusigKeyAggCtx, MusigSessionCtx,
    NoncePair, SessionModel,
};
use crate::schnorr::signature_valid;
use crate::taproot::{leaves_view, TapLeaf, TapRoot, TapRootModel};

verus! {

/// The signers of a deposit: the account, then the engine.
pub open spec fn deposit_signers(account_key: Seq<u8>, engine_key: Seq<u8>) -> Seq<Seq<u8>> {
    seq![even_point(account_key), even_point(engine_key)]
}

/// Whether the keys of a deposit are valid and aggregate.
pub open spec fn has_deposit(account_key: Seq<u8>, engine_key: Seq<u8>) -> bool {
    &&& is_point(even_point(account_key))
    &&& is_point(even_point(engine_key))
    &&& aggregates(deposit_signers(account_key, engine_key), None)
}

/// The output of a deposit: the aggregate of account and engine, or its scripts.
pub open spec fn deposit_output(
    account_key: Seq<u8>,
    engine_key: Seq<u8>,
    scripts: Seq<Seq<u8>>,
) -> TapRootModel {
    TapRootModel {
        inner: generator_multiple(inner_exponent(deposit_signers(account_key, engine_key))),
        scripts,
    }
}

/// The output key of a deposit, where there is one.
pub open spec fn deposit_key(
    account_key: Seq<u8>,
    engine_key: Seq<u8>,
    scripts: Seq<Seq<u8>>,
) -> Option<Seq<u8>> {
    if has_deposit(account_key, engine_key) {
        deposit_output(account_key, engine_key, scripts).output_key()
    } else {
        None
    }
}

/// Scripts by their bytes.
pub open spec fn scripts_view(scripts: Seq<Vec<u8>>) -> Seq<Seq<u8>> {
    Seq::new(scripts.len(), |i: int| scripts[i]@)
}

/// The output of a deposit. Fails where its keys are not valid or do not aggregate.
pub fn return_liftv2_taproot(
    account_key: [u8; 32],
    engine_key: [u8; 32],
    scripts: &[Vec<u8>],
) -> (r: Option<TapRoot>)
    ensures
        match r {
            None => !has_deposit(account_key@, engine_key@),
            Some(t) => {
                &&& has_deposit(account_key@, engine_key@)
                &&& t@ == deposit_output(account_key@, engine_key@, scripts_view(scripts@))
                &&& discrete_log(t@.inner) == inner_exponent(
                    deposit_signers(account_key@, engine_key@),
                )
            },
        },
{
    let account_point = match Point::lift_x(&account_key) {
        None => {
            return None;
        },
        Some(p) => p,
    };
    let engine_point = match Point::lift_x(&engine_key) {
        None => {
            return None;
        },
        Some(p) => p,
    };
    let mut keys: Vec<Point> = Vec::new();
    keys.push(account_point);
    keys.push(engine_point);
    assert(encodings(keys@) =~= deposit_signers(account_key@, engine_key@));
    let inner_key = match MusigKeyAggCtx::new(&keys, None) {
        None => {
            return None;
        },
        Some(agg) => agg.agg_inner_key(),
    };
    let mut leaves: Vec<TapLeaf> = Vec::new();
    let mut i: usize = 0;
    while i < scripts.len()
        invariant
            i <= scripts@.len(),
            leaves@.len() == i,
            forall|j: int| 0 <= j < i ==> (#[trigger] leaves@[j])@ == scripts@[j]@,
        decreases scripts@.len() - i,
    {
        leaves.push(TapLeaf::new(to_vec(&scripts[i])));
        i = i + 1;
    }
    assert(leaves_view(leaves@) =~= scripts_view(scripts@));
    Some(TapRoot::key_and_script_path_multi(inner_key, leaves))
}

/// The key aggregation of a deposit, with the tweak of its output, so that the
/// aggregate key is the output key.
pub fn liftv2_keyagg(
    account_key: [u8; 32],
    engine_key: [u8; 32],
    scripts: &[Vec<u8>],
) -> (r: Option<MusigKeyAggCtx>)
    ensures
        match r {
            None => deposit_key(account_key@, engine_key@, scripts_view(scripts@)) is None,
            Some(ctx) => {
                &&& ctx.keys() == deposit_signers(account_key@, engine_key@)
                &&& ctx.tweak() == Some(
                    be_nat(
                        deposit_output(
                            account_key@,
                            engine_key@,
                            scripts_view(scripts@),
                        ).tap_tweak(),
                    ),
                )
                &&& deposit_key(account_key@, engine_key@, scripts_view(scripts@)) == Some(
                    generator_multiple(agg_exponent(ctx.keys(), ctx.tweak())),
                )
            },
        },
{
    let taproot = match return_liftv2_taproot(account_key, engine_key, scripts) {
        None => {
            return None;
        },
        Some(t) => t,
    };
    let tweak = match Scalar::from_slice(&taproot.tap_tweak()) {
        None => {
            return None;
        },
        Some(t) => t,
    };
    match (Point::lift_x(&account_key), Point::lift_x(&engine_key)) {
        (Some(account_point), Some(engine_point)) => {
            let mut keys: Vec<Point> = Vec::new();
            keys.push(account_point);
            keys.push(engine_point);
            assert(encodings(keys@) =~= deposit_signers(account_key@, engine_key@));
            MusigKeyAggCtx::new(&keys, Some(tweak))
        },
        _ => None,
    }
}

/// The signing session of a deposit once both have committed nonces.
pub open spec fn cosign_session(
    account_key: Seq<u8>,
    engine_key: Seq<u8>,
    scripts: Seq<Seq<u8>>,
    client_nonces: NoncePair,
    engine_nonces: NoncePair,
    sighash: Seq<u8>,
) -> SessionModel {
    SessionModel {
        keys: deposit_signers(account_key, engine_key),
        tweak: Some(be_nat(deposit_output(account_key, engine_key, scripts).tap_tweak())),
        message: sighash,
        nonces: seq![Some(client_nonces), Some(engine_nonces)],
        partials: seq![None, None],
    }
}

/// The public nonces of two secret nonces.
pub open spec fn public_nonce_pair(hiding: nat, binding: nat) -> NoncePair {
    NoncePair { hiding: generator_multiple(hiding), binding: generator_multiple(binding) }
}

/// The partial signature that a secret and its secret nonces give in a session.
pub open spec fn partial_in(m: SessionModel, secret: nat, hiding: nat, binding: nat) -> Option<
    nat,
> {
    match signer_slot(m, generator_multiple(secret), public_nonce_pair(hiding, binding), 0) {
        None => None,
        Some(i) => if m.signable() && m.valid_partial(i) != 0 {
            Some(m.valid_partial(i))
        } else {
            None
        },
    }
}

/// A session after a partial signature; `None` where it is refused.
pub open spec fn with_partial(m: SessionModel, key: Seq<u8>, partial: nat) -> Option<
    SessionModel,
> {
    match open_partial_slot(m, key, partial, 0) {
        None => None,
        Some(i) => if m.signable() {
            Some(SessionModel { partials: m.partials.update(i, Some(partial)), ..m })
        } else {
            None
        },
    }
}

/// A session after the engine's own partial signature.
pub open spec fn cosign_begun(
    m: SessionModel,
    engine_key: Seq<u8>,
    secret: nat,
    hiding: nat,
    binding: nat,
) -> Option<SessionModel> {
    match partial_in(m, secret, hiding, binding) {
        None => None,
        Some(s) => with_partial(m, even_point(engine_key), s),
    }
}

/// Opens the session of a deposit with the nonces of both sides.
fn open_session(
    account_key: [u8; 32],
    engine_key: [u8; 32],
    scripts: &[Vec<u8>],
    client_hiding: Point,
    client_binding: Point,
    engine_hiding: Point,
    engine_binding: Point,
    sighash: [u8; 32],
) -> (r: Option<(MusigSessionCtx, Point, Point)>)
    ensures
        match r {
            None => deposit_key(account_key@, engine_key@, scripts_view(scripts@)) is None,
            Some(t) => {
                &&& deposit_key(account_key@, engine_key@, scripts_view(scripts@)) == Some(
                    generator_multiple(t.0@.key_exponent()),
                )
                &&& t.0.wf()
                &&& t.0@ == cosign_session(
                    account_key@,
                    engine_key@,
                    scripts_view(scripts@),
                    NoncePair { hiding: client_hiding@, binding: client_binding@ },
                    NoncePair { hiding: engine_hiding@, binding: engine_binding@ },
                    sighash@,
                )
                &&& t.1@ == even_point(account_key@)
                &&& t.2@ == even_point(engine_key@)
            },
        },
{
    let keyagg = match liftv2_keyagg(account_key, engine_key, scripts) {
        None => {
            return None;
        },
        Some(k) => k,
    };
    let account_point = match Point::lift_x(&account_key) {
        None => {
            return None;
        },
        Some(p) => p,
    };
    let engine_point = match Point::lift_x(&engine_key) {
        None => {
            return None;
        },
        Some(p) => p,
    };
    let mut session = match MusigSessionCtx::new(&keyagg, sighash) {
        None => {
            return None;
        },
        Some(s) => s,
    };
    let ghost m0 = session@;
    proof {
        reveal_with_fuel(open_nonce_slot, 3);
        assert(m0.keys[0] == account_point@);
        assert(m0.nonces[0] is None);
    }
    if !session.insert_nonce(account_point, client_hiding, client_binding) {
        return None;
    }
    let ghost m1 = session@;
    proof {
        assert(m1.nonces[0] is Some);
        assert(m1.nonces[1] is None);
        assert(m1.keys[1] == engine_point@);
    }
    if !session.insert_nonce(engine_point, engine_hiding, engine_binding) {
        return None;
    }
    proof {
        assert(session@.nonces =~= seq![
            Some(NoncePair { hiding: client_hiding@, binding: client_binding@ }),
            Some(NoncePair { hiding: engine_hiding@, binding: engine_binding@ }),
        ]);
        assert(session@.partials =~= seq![None, None]);
    }
    Some((session, account_point, engine_point))
}

/// The depositor's side.
pub struct ClientCosigner {
    account_secret: Scalar,
    hiding_secret: Scalar,
    binding_secret: Scalar,
}

impl ClientCosigner {
    pub closed spec fn secret(&self) -> nat {
        self.account_secret.value()
    }

    pub closed spec fn hiding(&self) -> nat {
        self.hiding_secret.value()
    }

    pub closed spec fn binding(&self) -> nat {
        self.binding_secret.value()
    }

    /// `account_secret` is the secret of the even-Y account point of the deposit; the
    /// others are the secret nonces of this session.
    pub fn new(account_secret: Scalar, hiding_secret: Scalar, binding_secret: Scalar) -> (r:
        ClientCosigner)
        ensures
            r.secret() == account_secret.value(),
            r.hiding() == hiding_secret.value(),
            r.binding() == binding_secret.value(),
    {
        ClientCosigner { account_secret, hiding_secret, binding_secret }
    }

    /// The public nonces to commit to.
    pub fn public_nonces(&self) -> (r: (Point, Point))
        ensures
            r.0@ == generator_multiple(self.hiding()),
            r.1@ == generator_multiple(self.binding()),
    {
        (self.hiding_secret.base_point_mul(), self.binding_secret.base_point_mul())
    }

    /// The partial signature over the key-path sighash, given the public nonces of the
    /// engine.
    pub fn partial_sign(
        &self,
        account_key: [u8; 32],
        engine_key: [u8; 32],
        scripts: &[Vec<u8>],
        engine_hiding_nonce: Point,
        engine_binding_nonce: Point,
        keypath_sighash: [u8; 32],
    ) -> (r: Option<Scalar>)
        ensures
            ({
                let m = cosign_session(
                    account_key@,
                    engine_key@,
                    scripts_view(scripts@),
                    public_nonce_pair(self.hiding(), self.binding()),
                    NoncePair { hiding: engine_hiding_nonce@, binding: engine_binding_nonce@ },
                    keypath_sighash@,
                );
                let expected = partial_in(m, self.secret(), self.hiding(), self.binding());
                match r {
                    None => deposit_key(account_key@, engine_key@, scripts_view(scripts@)) is None
                        || expected is None,
                    Some(s) => {
                        &&& deposit_key(account_key@, engine_key@, scripts_view(scripts@)) is Some
                        &&& expected == Some(s.value())
                    },
                }
            }),
    {
        let (hiding, binding) = self.public_nonces();
        match open_session(
            account_key,
            engine_key,
            scripts,
            hiding,
            binding,
            engine_hiding_nonce,
            engine_binding_nonce,
            keypath_sighash,
        ) {
            None => None,
            Some((session, _, _)) => {
                let r = session.partial_sign(
                    self.account_secret,
                    self.hiding_secret,
                    self.binding_secret,
                );
                proof {
                    if let Some(s) = &r {
                        use_type_invariant(s);
                    }
                }
                r
            },
        }
    }
}

/// The engine's side, from the freeze of the batch on.
pub struct EngineCosigner {
    session: MusigSessionCtx,
    account_point: Point,
    engine_hiding_nonce: Point,
    engine_binding_nonce: Point,
}

impl EngineCosigner {
    /// The state of the session.
    pub closed spec fn model(&self) -> SessionModel {
        self.session@
    }

    /// The account's key.
    pub closed spec fn account(&self) -> Seq<u8> {
        self.account_point@
    }

    /// The engine's public nonces.
    pub closed spec fn nonces(&self) -> NoncePair {
        NoncePair { hiding: self.engine_hiding_nonce@, binding: self.engine_binding_nonce@ }
    }

    #[verifier::type_invariant]
    closed spec fn session_wf(&self) -> bool {
        self.session.wf()
    }

    /// Adds the engine's nonces and partial signature to the nonces that the depositor
    /// committed to.
    pub fn begin(
        account_key: [u8; 32],
        engine_key: [u8; 32],
        scripts: &[Vec<u8>],
        engine_secret: Scalar,
        engine_hiding_secret: Scalar,
        engine_binding_secret: Scalar,
        client_hiding_nonce: Point,
        client_binding_nonce: Point,
        keypath_sighash: [u8; 32],
    ) -> (r: Option<EngineCosigner>)
        ensures
            ({
                let m = cosign_session(
                    account_key@,
                    engine_key@,
                    scripts_view(scripts@),
                    NoncePair { hiding: client_hiding_nonce@, binding: client_binding_nonce@ },
                    public_nonce_pair(
                        engine_hiding_secret.value(),
                        engine_binding_secret.value(),
                    ),
                    keypath_sighash@,
                );
                let begun = cosign_begun(
                    m,
                    engine_key@,
                    engine_secret.value(),
                    engine_hiding_secret.value(),
                    engine_binding_secret.value(),
                );
                match r {
                    None => deposit_key(account_key@, engine_key@, scripts_view(scripts@)) is None
                        || begun is None,
                    Some(c) => {
                        &&& begun == Some(c.model())
                        &&& deposit_key(account_key@, engine_key@, scripts_view(scripts@)) == Some(
                            generator_multiple(c.model().key_exponent()),
                        )
                        &&& c.account() == even_point(account_key@)
                        &&& c.nonces() == public_nonce_pair(
                            engine_hiding_secret.value(),
                            engine_binding_secret.value(),
                        )
                    },
                }
            }),
    {
        let engine_hiding_nonce = engine_hiding_secret.base_point_mul();
        let engine_binding_nonce = engine_binding_secret.base_point_mul();
        let (mut session, account_point, engine_point) = match open_session(
            account_key,
            engine_key,
            scripts,
            client_hiding_nonce,
            client_binding_nonce,
            engine_hiding_nonce,
            engine_binding_nonce,
            keypath_sighash,
        ) {
            None => {
                return None;
            },
            Some(t) => t,
        };
        let partial = match session.partial_sign(
            engine_secret,
            engine_hiding_secret,
            engine_binding_secret,
        ) {
            None => {
                return None;
            },
            Some(s) => s,
        };
        proof {
            use_type_invariant(&partial);
        }
        if !session.insert_partial_sig(engine_point, partial) {
            return None;
        }
        Some(
            EngineCosigner { session, account_point, engine_hiding_nonce, engine_binding_nonce },
        )
    }

    /// The engine's public nonces.
    pub fn engine_public_nonces(&self) -> (r: (Point, Point))
        ensures
            r.0@ == self.nonces().hiding,
            r.1@ == self.nonces().binding,
    {
        (self.engine_hiding_nonce, self.engine_binding_nonce)
    }

    /// Adds the depositor's partial signature, and both up into the signature of the
    /// sighash under the output key of the deposit. Fails where the partial signature
    /// is not valid.
    pub fn complete(self, client_partial: Scalar) -> (r: Option<[u8; 64]>)
        ensures
            match with_partial(self.model(), self.account(), client_partial.value()) {
                None => r is None,
                Some(m) => match r {
                    None => !m.partials_complete(),
                    Some(sig) => {
                        &&& m.partials_complete()
                        &&& sig@ == m.signature()
                        &&& signature_valid(self.model().key_x(), self.model().message, sig@)
                    },
                },
            },
    {
        proof {
            use_type_invariant(&self);
        }
        let mut session = self.session;
        if !session.insert_partial_sig(self.account_point, client_partial) {
            return None;
        }
        session.full_agg_sig()
    }
}

/// The cosigning completes: where depositor and engine hold the secrets of the
/// deposit's keys, the nonces do not cancel out and neither partial signature is zero,
/// the engine accepts its own and the depositor's partial signature, and both are
/// there.
pub proof fn theorem_cosign_completes(
    account_key: Seq<u8>,
    engine_key: Seq<u8>,
    scripts: Seq<Seq<u8>>,
    account_secret: nat,
    client_hiding: nat,
    client_binding: nat,
    engine_secret: nat,
    engine_hiding: nat,
    engine_binding: nat,
    sighash: Seq<u8>,
)
    requires
        generator_multiple(account_secret) == even_point(account_key),
        generator_multiple(engine_secret) == even_point(engine_key),
        ({
            let m = cosign_session(
                account_key,
                engine_key,
                scripts,
                public_nonce_pair(client_hiding, client_binding),
                public_nonce_pair(engine_hiding, engine_binding),
                sighash,
            );
            &&& m.signable()
            &&& m.valid_partial(0) != 0
            &&& m.valid_partial(1) != 0
        }),
    ensures
        ({
            let m = cosign_session(
                account_key,
                engine_key,
                scripts,
                public_nonce_pair(client_hiding, client_binding),
                public_nonce_pair(engine_hiding, engine_binding),
                sighash,
            );
            let client = partial_in(m, account_secret, client_hiding, client_binding);
            let begun = cosign_begun(m, engine_key, engine_secret, engine_hiding, engine_binding);
            &&& client is Some
            &&& begun is Some
            &&& match with_partial(begun->0, even_point(account_key), client->0) {
                None => false,
                Some(done) => done.partials_complete(),
            }
        }),
{
    reveal_with_fuel(signer_slot, 3);
    reveal_with_fuel(open_partial_slot, 3);
    let m = cosign_session(
        account_key,
        engine_key,
        scripts,
        public_nonce_pair(client_hiding, client_binding),
        public_nonce_pair(engine_hiding, engine_binding),
        sighash,
    );
    assert(m.keys[0] == even_point(account_key));
    assert(m.keys[1] == even_point(engine_key));
    let begun = cosign_begun(m, engine_key, engine_secret, engine_hiding, engine_binding)->0;
    lemma_partials_do_not_matter(m, begun.partials, 0);
    lemma_partials_do_not_matter(m, begun.partials, 1);
    assert(begun == (SessionModel { partials: begun.partials, ..m }));
}

proof fn lemma_partials_do_not_matter(m: SessionModel, partials: Seq<Option<nat>>, i: int)
    ensures
        (SessionModel { partials, ..m }).valid_partial(i) == m.valid_partial(i),
        (SessionModel { partials, ..m }).signable() == m.signable(),
{
    let t = SessionModel { partials, ..m };
    assert(t.hidings() =~= m.hidings());
    assert(t.bindings() =~= m.bindings());
    assert(t.nonces_complete() == m.nonces_complete());
}

/// A deposit is locked to account and engine, in this order, and to the scripts that it is
/// given, one leaf for each; there is an output if and only if both are keys and they
/// aggregate.
pub proof fn theorem_deposit_locks(
    account_key: [u8; 32],
    engine_key: [u8; 32],
    scripts: &[Vec<u8>],
    r: Option<TapRoot>,
    i: int,
)
    requires
        call_ensures(return_liftv2_taproot, (account_key, engine_key, scripts), r),
        0 <= i < scripts@.len(),
    ensures
        ({
            let signers = seq![seq![2u8] + account_key@, seq![2u8] + engine_key@];
            &&& r is Some <==> {
                &&& is_point(seq![2u8] + account_key@)
                &&& is_point(seq![2u8] + engine_key@)
                &&& inner_exponent(signers) != 0
            }
            &&& r is Some ==> {
                &&& (r->0)@.inner == generator_multiple(inner_exponent(signers))
                &&& (r->0)@.scripts.len() == scripts@.len()
                &&& (r->0)@.scripts[i] == scripts@[i]@
            }
        }),
{
}

/// The signers of a deposit sign under the key of its output.
pub proof fn theorem_deposit_is_signed_under_its_output_key(
    account_key: [u8; 32],
    engine_key: [u8; 32],
    scripts: &[Vec<u8>],
    t: TapRoot,
    ctx: MusigKeyAggCtx,
    agg: Point,
)
    requires
        call_ensures(return_liftv2_taproot, (account_key, engine_key, scripts), Some(t)),
        call_ensures(liftv2_keyagg, (account_key, engine_key, scripts), Some(ctx)),
        call_ensures(MusigKeyAggCtx::agg_key, (&ctx,), agg),
    ensures
        t@.output_key() == Some(agg@),
        ctx.keys().len() == 2,
        ctx.keys()[0] == seq![2u8] + account_key@,
        ctx.keys()[1] == seq![2u8] + engine_key@,
        ctx.tweak() == Some(be_nat(t@.tap_tweak())),
{
}

/// The session of a deposit: both keys, the tweak of its output, the sighash, the nonces
/// of the account and then those of the engine, and no partial signature yet.
pub proof fn theorem_deposit_session(
    account_key: Seq<u8>,
    engine_key: Seq<u8>,
    scripts: Seq<Seq<u8>>,
    client: NoncePair,
    engine: NoncePair,
    sighash: Seq<u8>,
)
    ensures
        ({
            let m = cosign_session(account_key, engine_key, scripts, client, engine, sighash);
            let output = TapRootModel {
                inner: generator_multiple(
                    inner_exponent(seq![seq![2u8] + account_key, seq![2u8] + engine_key]),
                ),
                scripts,
            };
            &&& m.keys == seq![seq![2u8] + account_key, seq![2u8] + engine_key]
            &&& m.tweak == Some(be_nat(output.tap_tweak()))
            &&& m.message == sighash
            &&& m.nonces == seq![Some(client), Some(engine)]
            &&& m.partials == seq![None::<nat>, None::<nat>]
        }),
{
}

/// The depositor's partial signature is the one that the session asks for at the first
/// place, and the depositor owes it wherever that is not zero and the nonces do not cancel
/// out.
pub proof fn theorem_depositor_signs_first_place(
    client: ClientCosigner,
    account_key: [u8; 32],
    engine_key: [u8; 32],
    scripts: &[Vec<u8>],
    engine_hiding: Point,
    engine_binding: Point,
    sighash: [u8; 32],
    r: Option<Scalar>,
    m: SessionModel,
)
    requires
        call_ensures(
            ClientCosigner::partial_sign,
            (&client, account_key, engine_key, scripts, engine_hiding, engine_binding, sighash),
            r,
        ),
        generator_multiple(client.secret()) == seq![2u8] + account_key@,
        m == cosign_session(
            account_key@,
            engine_key@,
            scripts_view(scripts@),
            NoncePair {
                hiding: generator_multiple(client.hiding()),
                binding: generator_multiple(client.binding()),
            },
            NoncePair { hiding: engine_hiding@, binding: engine_binding@ },
            sighash@,
        ),
    ensures
        r is Some ==> (r->0).value() == m.valid_partial(0),
        r is None <==> {
            ||| deposit_key(account_key@, engine_key@, scripts_view(scripts@)) is None
            ||| m.nonce_exponent() == 0
            ||| m.valid_partial(0) == 0
        },
{
    theorem_signer_is_first_with_nonces(
        m,
        generator_multiple(client.secret()),
        public_nonce_pair(client.hiding(), client.binding()),
        0,
        0,
    );
    assert(m.nonces_complete());
}

/// Someone who does not hold the secret of a signer's key gets no partial signature.
pub proof fn theorem_strangers_do_not_sign(
    client: ClientCosigner,
    account_key: [u8; 32],
    engine_key: [u8; 32],
    scripts: &[Vec<u8>],
    engine_hiding: Point,
    engine_binding: Point,
    sighash: [u8; 32],
    r: Option<Scalar>,
)
    requires
        call_ensures(
            ClientCosigner::partial_sign,
            (&client, account_key, engine_key, scripts, engine_hiding, engine_binding, sighash),
            r,
        ),
        generator_multiple(client.secret()) != seq![2u8] + account_key@,
        generator_multiple(client.secret()) != seq![2u8] + engine_key@,
    ensures
        r is None,
{
    let m = cosign_session(
        account_key@,
        engine_key@,
        scripts_view(scripts@),
        public_nonce_pair(client.hiding(), client.binding()),
        NoncePair { hiding: engine_hiding@, binding: engine_binding@ },
        sighash@,
    );
    theorem_signer_is_first_with_nonces(
        m,
        generator_multiple(client.secret()),
        public_nonce_pair(client.hiding(), client.binding()),
        0,
        2,
    );
}

/// A cosigned deposit can be spent: with the depositor's partial signature the engine has
/// a signature of the sighash under the output key of the deposit. It has none with
/// any other number.
pub proof fn theorem_cosigned_deposit_is_spendable(
    account_key: [u8; 32],
    engine_key: [u8; 32],
    scripts: &[Vec<u8>],
    engine_secret: Scalar,
    engine_hiding: Scalar,
    engine_binding: Scalar,
    client_hiding: Point,
    client_binding: Point,
    sighash: [u8; 32],
    c: EngineCosigner,
    partial: Scalar,
    r: Option<[u8; 64]>,
)
    requires
        call_ensures(
            EngineCosigner::begin,
            (
                account_key,
                engine_key,
                scripts,
                engine_secret,
                engine_hiding,
                engine_binding,
                client_hiding,
                client_binding,
                sighash,
            ),
            Some(c),
        ),
        account_key@ != engine_key@,
        generator_multiple(engine_secret.value()) == seq![2u8] + engine_key@,
        call_ensures(EngineCosigner::complete, (c, partial), r),
    ensures
        ({
            let m = cosign_session(
                account_key@,
                engine_key@,
                scripts_view(scripts@),
                NoncePair { hiding: client_hiding@, binding: client_binding@ },
                NoncePair {
                    hiding: generator_multiple(engine_hiding.value()),
                    binding: generator_multiple(engine_binding.value()),
                },
                sighash@,
            );
            let output = deposit_key(account_key@, engine_key@, scripts_view(scripts@));
            &&& output is Some
            &&& r is Some <==> partial.value() == m.valid_partial(0)
            &&& r is Some ==> signature_valid(output->0.subrange(1, 33), sighash@, r->0@)
        }),
{
    reveal_with_fuel(signer_slot, 3);
    reveal_with_fuel(open_partial_slot, 3);
    let client = NoncePair { hiding: client_hiding@, binding: client_binding@ };
    let engine = public_nonce_pair(engine_hiding.value(), engine_binding.value());
    let m = cosign_session(
        account_key@,
        engine_key@,
        scripts_view(scripts@),
        client,
        engine,
        sighash@,
    );
    let begun = c.model();
    assert(even_point(account_key@).drop_first() =~= account_key@);
    assert(even_point(engine_key@).drop_first() =~= engine_key@);
    assert(m.keys[0] == even_point(account_key@));
    assert(m.keys[1] == even_point(engine_key@));
    lemma_partials_do_not_matter(m, begun.partials, 0);
    lemma_partials_do_not_matter(m, begun.partials, 1);
    assert(begun == (SessionModel { partials: begun.partials, ..m }));
    assert(begun.partials =~= seq![None::<nat>, Some(m.valid_partial(1))]);
    let done = begun.partials.update(0, Some(partial.value()));
    assert(SessionModel { partials: done, ..begun }.partials_complete());
}

/// The public nonces of both sides are the multiples of their own secret nonces, the hiding
/// one first.
pub proof fn theorem_public_nonces_are_of_secrets(
    account_secret: Scalar,
    client_hiding: Scalar,
    client_binding: Scalar,
    client: ClientCosigner,
    client_nonces: (Point, Point),
    account_key: [u8; 32],
    engine_key: [u8; 32],
    scripts: &[Vec<u8>],
    engine_secret: Scalar,
    engine_hiding: Scalar,
    engine_binding: Scalar,
    sighash: [u8; 32],
    engine: EngineCosigner,
    engine_nonces: (Point, Point),
)
    requires
        call_ensures(ClientCosigner::new, (account_secret, client_hiding, client_binding), client),
        call_ensures(ClientCosigner::public_nonces, (&client,), client_nonces),
        call_ensures(
            EngineCosigner::begin,
            (
                account_key,
                engine_key,
                scripts,
                engine_secret,
                engine_hiding,
                engine_binding,
                client_nonces.0,
                client_nonces.1,
                sighash,
            ),
            Some(engine),
        ),
        call_ensures(EngineCosigner::engine_public_nonces, (&engine,), engine_nonces),
    ensures
        client_nonces.0@ == generator_multiple(client_hiding.value()),
        client_nonces.1@ == generator_multiple(client_binding.value()),
        engine_nonces.0@ == generator_multiple(engine_hiding.value()),
        engine_nonces.1@ == generator_multiple(engine_binding.value()),
        client.secret() == account_secret.value(),
{
}

/// When the engine begins to cosign: where it holds the secret of its key, the deposit has
/// a key, the nonces do not cancel out and its own partial signature is not zero; it then
/// holds that partial signature, and none of the depositor's.
pub proof fn theorem_engine_begins(
    account_key: [u8; 32],
    engine_key: [u8; 32],
    scripts: &[Vec<u8>],
    engine_secret: Scalar,
    engine_hiding: Scalar,
    engine_binding: Scalar,
    client_hiding: Point,
    client_binding: Point,
    sighash: [u8; 32],
    r: Option<EngineCosigner>,
    m: SessionModel,
)
    requires
        call_ensures(
            EngineCosigner::begin,
            (
                account_key,
                engine_key,
                scripts,
                engine_secret,
                engine_hiding,
                engine_binding,
                client_hiding,
                client_binding,
                sighash,
            ),
            r,
        ),
        account_key@ != engine_key@,
        generator_multiple(engine_secret.value()) == seq![2u8] + engine_key@,
        m == cosign_session(
            account_key@,
            engine_key@,
            scripts_view(scripts@),
            NoncePair { hiding: client_hiding@, binding: client_binding@ },
            NoncePair {
                hiding: generator_multiple(engine_hiding.value()),
                binding: generator_multiple(engine_binding.value()),
            },
            sighash@,
        ),
    ensures
        r is Some <==> {
            &&& deposit_key(account_key@, engine_key@, scripts_view(scripts@)) is Some
            &&& m.nonce_exponent() != 0
            &&& m.valid_partial(1) != 0
        },
        r is Some ==> {
            let begun = (r->0).model();
            &&& begun.keys == m.keys
            &&& begun.tweak == m.tweak
            &&& begun.message == sighash@
            &&& begun.nonces == m.nonces
            &&& begun.partials == seq![None::<nat>, Some(m.valid_partial(1))]
            &&& (r->0).account() == seq![2u8] + account_key@
        },
{
    reveal_with_fuel(signer_slot, 3);
    reveal_with_fuel(open_partial_slot, 3);
    assert(even_point(account_key@).drop_first() =~= account_key@);
    assert(even_point(engine_key@).drop_first() =~= engine_key@);
    assert(m.keys[0] == even_point(account_key@));
    assert(m.keys[1] == even_point(engine_key@));
    assert(m.nonces_complete());
    if r is Some {
        assert((r->0).model().partials =~= seq![None::<nat>, Some(m.valid_partial(1))]);
    }
}

} // verus!

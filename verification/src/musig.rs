//! MuSig2 (BIP-327): key aggregation and signing sessions.
use vstd::prelude::*;
use crate::bytes::{be_bytes, be_nat, join64, lemma_be_bytes_of_nat, push_slice};
use crate::curve::{
    curve_order, discrete_log, encoding_of, exponent_of, generator_multiple, has_even_y_of,
    lemma_discrete_log, multiple_or_infinity, names_point, point_multiple, point_signed, point_sum,
    signed_of, with_even_y, x_of, Point, Residue, Scalar,
};
use crate::hash::{tagged_hash, tagged_hash_of};
use crate::modular::{
    congruent, lemma_congruent_add, lemma_congruent_mul, lemma_congruent_refl, lemma_congruent_sym,
    lemma_congruent_trans, lemma_mod_congruent, lemma_order_minus,
};
use crate::schnorr::{challenge, challenge_of, lemma_valid_signature, signature_valid};

verus! {

/// The concatenated encodings of the signers' keys.
pub open spec fn keys_bytes(keys: Seq<Seq<u8>>) -> Seq<u8>
    decreases keys.len(),
{
    if keys.len() == 0 {
        Seq::empty()
    } else {
        keys_bytes(keys.drop_last()) + keys.last()
    }
}

proof fn lemma_keys_bytes_len(keys: Seq<Seq<u8>>)
    requires
        forall|i: int| 0 <= i < keys.len() ==> (#[trigger] keys[i]).len() == 33,
    ensures
        keys_bytes(keys).len() == 33 * keys.len(),
    decreases keys.len(),
{
    if keys.len() > 0 {
        lemma_keys_bytes_len(keys.drop_last());
    }
}

/// Different lists of as many keys are hashed from different bytes.
pub proof fn lemma_keys_bytes_injective(a: Seq<Seq<u8>>, b: Seq<Seq<u8>>)
    requires
        a.len() == b.len(),
        forall|i: int| 0 <= i < a.len() ==> (#[trigger] a[i]).len() == 33,
        forall|i: int| 0 <= i < b.len() ==> (#[trigger] b[i]).len() == 33,
        keys_bytes(a) == keys_bytes(b),
    ensures
        a == b,
    decreases a.len(),
{
    if a.len() > 0 {
        let bytes = keys_bytes(a);
        let start = 33 * (a.len() - 1);
        lemma_keys_bytes_len(a.drop_last());
        lemma_keys_bytes_len(b.drop_last());
        assert(bytes.subrange(0, start) =~= keys_bytes(a.drop_last()));
        assert(bytes.subrange(0, start) =~= keys_bytes(b.drop_last()));
        assert(bytes.subrange(start, start + 33) =~= a.last());
        assert(bytes.subrange(start, start + 33) =~= b.last());
        lemma_keys_bytes_injective(a.drop_last(), b.drop_last());
        assert(a =~= a.drop_last().push(a.last()));
        assert(b =~= b.drop_last().push(b.last()));
    } else {
        assert(a =~= b);
    }
}

/// The first key from position `from` on that differs from the first key.
pub open spec fn second_key(keys: Seq<Seq<u8>>, from: nat) -> Option<Seq<u8>>
    decreases keys.len() - from,
{
    if from >= keys.len() {
        None
    } else if keys[from as int] != keys[0] {
        Some(keys[from as int])
    } else {
        second_key(keys, from + 1)
    }
}

/// The weight of a key in the aggregate.
pub open spec fn key_coefficient(keys: Seq<Seq<u8>>, key: Seq<u8>) -> nat {
    if second_key(keys, 0) == Some(key) {
        1
    } else {
        be_nat(
            tagged_hash_of(
                "KeyAgg coefficient",
                tagged_hash_of("KeyAgg list", keys_bytes(keys)) + key,
            ),
        ) % curve_order()
    }
}

/// The weighted sum of the first `i` keys, as a multiple of the generator.
pub open spec fn key_sum(keys: Seq<Seq<u8>>, i: nat) -> nat
    decreases i,
{
    if i == 0 {
        0
    } else {
        let k = keys[i - 1];
        (key_sum(keys, (i - 1) as nat) + (key_coefficient(keys, k) * discrete_log(k))
            % curve_order()) % curve_order()
    }
}

/// The untweaked aggregate key, as a multiple of the generator.
pub open spec fn inner_exponent(keys: Seq<Seq<u8>>) -> nat {
    key_sum(keys, keys.len())
}

/// The aggregate key, as a multiple of the generator: the untweaked key, or the
/// even-Y version of it plus the taproot tweak.
pub open spec fn agg_exponent(keys: Seq<Seq<u8>>, tweak: Option<nat>) -> nat {
    match tweak {
        None => inner_exponent(keys),
        Some(t) => (with_even_y(inner_exponent(keys)) + t) % curve_order(),
    }
}

/// Whether keys aggregate at all: neither key is the point at infinity.
pub open spec fn aggregates(keys: Seq<Seq<u8>>, tweak: Option<nat>) -> bool {
    inner_exponent(keys) != 0 && agg_exponent(keys, tweak) != 0
}

/// Points as their encodings.
pub open spec fn encodings(points: Seq<Point>) -> Seq<Seq<u8>> {
    Seq::new(points.len(), |i: int| points[i]@)
}

/// An optional scalar as a number.
pub open spec fn tweak_value(tweak: Option<Scalar>) -> Option<nat> {
    match tweak {
        None => None,
        Some(t) => Some(t.value()),
    }
}

/// The aggregation of a list of keys.
pub struct MusigKeyAggCtx {
    keys: Vec<Point>,
    coefficients: Vec<Residue>,
    inner: Point,
    agg: Point,
    tweak: Option<Scalar>,
}

fn find_second_key(keys: &[Point]) -> (r: Option<Point>)
    ensures
        match r {
            None => second_key(encodings(keys@), 0) is None,
            Some(k) => second_key(encodings(keys@), 0) == Some(k@),
        },
{
    let ghost all = encodings(keys@);
    let mut i: usize = 0;
    while i < keys.len()
        invariant
            i <= keys@.len(),
            all == encodings(keys@),
            second_key(all, 0) == second_key(all, i as nat),
        decreases keys@.len() - i,
    {
        if !keys[i].same(&keys[0]) {
            return Some(keys[i]);
        }
        i = i + 1;
    }
    None
}

fn key_list_hash(keys: &[Point]) -> (r: [u8; 32])
    ensures
        r@ == tagged_hash_of("KeyAgg list", keys_bytes(encodings(keys@))),
{
    let ghost all = encodings(keys@);
    let mut list: Vec<u8> = Vec::new();
    let mut i: usize = 0;
    assert(all.take(0) =~= Seq::<Seq<u8>>::empty());
    while i < keys.len()
        invariant
            i <= keys@.len(),
            all == encodings(keys@),
            list@ == keys_bytes(all.take(i as int)),
        decreases keys@.len() - i,
    {
        let bytes = keys[i].serialize();
        push_slice(&mut list, &bytes);
        proof {
            let upto = all.take(i + 1);
            assert(upto.drop_last() =~= all.take(i as int));
            assert(upto.last() == bytes@);
        }
        i = i + 1;
    }
    assert(all.take(i as int) =~= all);
    tagged_hash("KeyAgg list", &list)
}

impl MusigKeyAggCtx {
    /// The signers' keys, in order.
    pub closed spec fn keys(&self) -> Seq<Seq<u8>> {
        encodings(self.keys@)
    }

    /// The taproot tweak.
    pub closed spec fn tweak(&self) -> Option<nat> {
        tweak_value(self.tweak)
    }

    #[verifier::type_invariant]
    closed spec fn well_formed(&self) -> bool {
        &&& self.coefficients@.len() == self.keys@.len()
        &&& forall|i: int|
            0 <= i < self.keys@.len() ==> (#[trigger] self.coefficients@[i]).value()
                == key_coefficient(self.keys(), self.keys()[i])
        &&& forall|i: int|
            0 <= i < self.keys@.len() ==> discrete_log(#[trigger] self.keys()[i]) < curve_order()
        &&& self.inner.exponent() == inner_exponent(self.keys())
        &&& self.agg.exponent() == agg_exponent(self.keys(), self.tweak())
        &&& aggregates(self.keys(), self.tweak())
    }

    /// Aggregates keys, with an optional taproot tweak. Fails where the aggregate,
    /// or the tweaked aggregate, is the point at infinity.
    pub fn new(keys: &[Point], taproot_tweak: Option<Scalar>) -> (r: Option<MusigKeyAggCtx>)
        ensures
            match r {
                None => !aggregates(encodings(keys@), tweak_value(taproot_tweak)),
                Some(ctx) => {
                    &&& aggregates(encodings(keys@), tweak_value(taproot_tweak))
                    &&& ctx.keys() == encodings(keys@)
                    &&& ctx.tweak() == tweak_value(taproot_tweak)
                },
            },
    {
        let ghost all = encodings(keys@);
        let list_hash = key_list_hash(keys);
        let second = find_second_key(keys);
        let mut held: Vec<Point> = Vec::new();
        let mut coefficients: Vec<Residue> = Vec::new();
        let mut sum: Option<Point> = None;
        let mut i: usize = 0;
        while i < keys.len()
            invariant
                i <= keys@.len(),
                all == encodings(keys@),
                list_hash@ == tagged_hash_of("KeyAgg list", keys_bytes(all)),
                match second {
                    None => second_key(all, 0) is None,
                    Some(k) => second_key(all, 0) == Some(k@),
                },
                held@ == keys@.take(i as int),
                coefficients@.len() == i,
                forall|j: int|
                    0 <= j < i ==> (#[trigger] coefficients@[j]).value() == key_coefficient(
                        all,
                        all[j],
                    ),
                forall|j: int| 0 <= j < i ==> discrete_log(#[trigger] all[j]) < curve_order(),
                exponent_of(sum) == key_sum(all, i as nat),
            decreases keys@.len() - i,
        {
            let key: Point = keys[i];
            proof {
                use_type_invariant(&key);
                lemma_discrete_log(key@);
            }
            let is_second: bool = match second {
                None => false,
                Some(k) => k.same(&key),
            };
            let a: Residue = if is_second {
                Residue::one()
            } else {
                let mut preimage: Vec<u8> = Vec::new();
                push_slice(&mut preimage, &list_hash);
                let bytes = key.serialize();
                push_slice(&mut preimage, &bytes);
                assert(preimage@ =~= list_hash@ + key@);
                Residue::reduce(&tagged_hash("KeyAgg coefficient", &preimage))
            };
            assert(a.value() == key_coefficient(all, all[i as int]));
            let weighted = point_multiple(&Some(key), &a);
            sum = point_sum(&sum, &weighted);
            proof {
                let c = a.value();
                let x = key.exponent();
                assert(x * c == c * x) by (nonlinear_arith);
            }
            coefficients.push(a);
            held.push(key);
            assert(held@ =~= keys@.take(i + 1));
            i = i + 1;
        }
        assert(held@ =~= keys@);
        let inner: Point = match sum {
            None => {
                return None;
            },
            Some(p) => p,
        };
        let agg: Point = match taproot_tweak {
            None => inner,
            Some(t) => {
                let even = inner.to_even_y();
                match point_sum(&Some(even), &Some(t.base_point_mul())) {
                    None => {
                        return None;
                    },
                    Some(p) => p,
                }
            },
        };
        proof {
            use_type_invariant(&inner);
            use_type_invariant(&agg);
            lemma_discrete_log(inner@);
            lemma_discrete_log(agg@);
        }
        Some(MusigKeyAggCtx { keys: held, coefficients, inner, agg, tweak: taproot_tweak })
    }

    /// The untweaked aggregate key.
    pub fn agg_inner_key(&self) -> (r: Point)
        ensures
            r@ == generator_multiple(inner_exponent(self.keys())),
            r.exponent() == inner_exponent(self.keys()),
    {
        proof {
            use_type_invariant(self);
            use_type_invariant(&self.inner);
            lemma_discrete_log(self.inner@);
        }
        self.inner
    }

    /// The aggregate key.
    pub fn agg_key(&self) -> (r: Point)
        ensures
            r@ == generator_multiple(agg_exponent(self.keys(), self.tweak())),
            r.exponent() == agg_exponent(self.keys(), self.tweak()),
    {
        proof {
            use_type_invariant(self);
            use_type_invariant(&self.agg);
            lemma_discrete_log(self.agg@);
        }
        self.agg
    }
}

/// The public nonces of a signer.
pub struct NoncePair {
    pub hiding: Seq<u8>,
    pub binding: Seq<u8>,
}

/// The state of a signing session: the aggregated keys and tweak, the message, and
/// for each signer the nonces and the partial signature received so far.
pub struct SessionModel {
    pub keys: Seq<Seq<u8>>,
    pub tweak: Option<nat>,
    pub message: Seq<u8>,
    pub nonces: Seq<Option<NoncePair>>,
    pub partials: Seq<Option<nat>>,
}

/// The sum of the first `i` points, as a multiple of the generator.
pub open spec fn log_sum(points: Seq<Seq<u8>>, i: nat) -> nat
    decreases i,
{
    if i == 0 {
        0
    } else {
        (log_sum(points, (i - 1) as nat) + discrete_log(points[i - 1])) % curve_order()
    }
}

/// The encoding of an aggregate nonce: infinity is 33 zero bytes.
pub open spec fn nonce_bytes(k: nat) -> Seq<u8> {
    if k == 0 {
        Seq::new(33, |i: int| 0u8)
    } else {
        generator_multiple(k)
    }
}

/// A partial signature: the signer's nonce, with the sign of the aggregate nonce,
/// plus the challenge times the signer's weighted secret, with the sign of the key.
pub open spec fn partial_of(
    hiding: nat,
    binding: nat,
    b: nat,
    nonce_odd: bool,
    e: nat,
    a: nat,
    secret: nat,
    key_odd: bool,
) -> nat {
    let n = curve_order();
    let k = (hiding + (b * binding) % n) % n;
    (signed_of(k, nonce_odd) + (((e * a) % n) * signed_of(secret, key_odd)) % n) % n
}

/// The sum of the first `i` partial signatures.
pub open spec fn partial_sum(partials: Seq<Option<nat>>, i: nat) -> nat
    decreases i,
{
    if i == 0 {
        0
    } else {
        (partial_sum(partials, (i - 1) as nat) + partials[i - 1]->0) % curve_order()
    }
}

impl SessionModel {
    /// Whether every signer's key is a point.
    pub open spec fn keys_in_range(self) -> bool {
        forall|i: int| 0 <= i < self.keys.len() ==> discrete_log(#[trigger] self.keys[i]) < curve_order()
    }

    /// Whether every signer's nonces are there.
    pub open spec fn nonces_complete(self) -> bool {
        forall|i: int| 0 <= i < self.nonces.len() ==> (#[trigger] self.nonces[i]) is Some
    }

    /// Whether every signer's partial signature is there.
    pub open spec fn partials_complete(self) -> bool {
        forall|i: int| 0 <= i < self.partials.len() ==> (#[trigger] self.partials[i]) is Some
    }

    pub open spec fn hidings(self) -> Seq<Seq<u8>> {
        Seq::new(self.nonces.len(), |i: int| (self.nonces[i]->0).hiding)
    }

    pub open spec fn bindings(self) -> Seq<Seq<u8>> {
        Seq::new(self.nonces.len(), |i: int| (self.nonces[i]->0).binding)
    }

    /// The aggregate hiding nonce, as a multiple of the generator.
    pub open spec fn hiding_exponent(self) -> nat {
        log_sum(self.hidings(), self.nonces.len())
    }

    /// The aggregate binding nonce, as a multiple of the generator.
    pub open spec fn binding_exponent(self) -> nat {
        log_sum(self.bindings(), self.nonces.len())
    }

    /// The key that the session signs under, as a multiple of the generator.
    pub open spec fn key_exponent(self) -> nat {
        agg_exponent(self.keys, self.tweak)
    }

    /// The X coordinate of the key that the session signs under.
    pub open spec fn key_x(self) -> Seq<u8> {
        x_of(generator_multiple(self.key_exponent()))
    }

    /// The coefficient that binds the second nonces to the session.
    pub open spec fn nonce_coefficient(self) -> nat {
        be_nat(
            tagged_hash_of(
                "MuSig/noncecoef",
                nonce_bytes(self.hiding_exponent()) + nonce_bytes(self.binding_exponent())
                    + self.key_x() + self.message,
            ),
        ) % curve_order()
    }

    /// The aggregate nonce, as a multiple of the generator.
    pub open spec fn nonce_exponent(self) -> nat {
        (self.hiding_exponent() + (self.nonce_coefficient() * self.binding_exponent())
            % curve_order()) % curve_order()
    }

    pub open spec fn nonce_odd(self) -> bool {
        !has_even_y_of(generator_multiple(self.nonce_exponent()))
    }

    /// The X coordinate of the aggregate nonce.
    pub open spec fn nonce_x(self) -> Seq<u8> {
        x_of(generator_multiple(self.nonce_exponent()))
    }

    pub open spec fn session_challenge(self) -> nat {
        challenge_of(self.nonce_x(), self.key_x(), self.message)
    }

    pub open spec fn agg_odd(self) -> bool {
        !has_even_y_of(generator_multiple(self.key_exponent()))
    }

    /// Whether the signers sign with their negated secrets.
    pub open spec fn key_odd(self) -> bool {
        let inner_odd = self.tweak is Some && !has_even_y_of(
            generator_multiple(inner_exponent(self.keys)),
        );
        self.agg_odd() != inner_odd
    }

    /// Whether partial signatures can be made: all nonces are there and the
    /// aggregate nonce is not infinity.
    pub open spec fn signable(self) -> bool {
        self.nonces_complete() && self.nonce_exponent() != 0
    }

    /// The one partial signature that is valid for a signer.
    pub open spec fn valid_partial(self, i: int) -> nat {
        partial_of(
            discrete_log((self.nonces[i]->0).hiding),
            discrete_log((self.nonces[i]->0).binding),
            self.nonce_coefficient(),
            self.nonce_odd(),
            self.session_challenge(),
            key_coefficient(self.keys, self.keys[i]),
            discrete_log(self.keys[i]),
            self.key_odd(),
        )
    }

    /// The second half of the aggregate signature.
    pub open spec fn signature_s(self) -> nat {
        let sum = partial_sum(self.partials, self.partials.len());
        match self.tweak {
            None => sum,
            Some(t) => (sum + (self.session_challenge() * signed_of(t, self.agg_odd()))
                % curve_order()) % curve_order(),
        }
    }

    /// The aggregate signature.
    pub open spec fn signature(self) -> Seq<u8> {
        self.nonce_x() + be_bytes(self.signature_s(), 32)
    }

    /// A session as its operations keep it: one slot per signer, keys that
    /// aggregate, and only valid partial signatures.
    pub open spec fn well_formed(self) -> bool {
        &&& self.nonces.len() == self.keys.len()
        &&& self.partials.len() == self.keys.len()
        &&& aggregates(self.keys, self.tweak)
        &&& match self.tweak {
            None => true,
            Some(t) => t < curve_order(),
        }
        &&& forall|i: int|
            0 <= i < self.partials.len() && (#[trigger] self.partials[i]) is Some ==> {
                &&& self.signable()
                &&& self.partials[i] == Some(self.valid_partial(i))
            }
    }
}

/// `-1` for a negated value, `1` for one that is not.
pub open spec fn sign_of(negative: bool) -> int {
    if negative {
        -1
    } else {
        1
    }
}

/// Negation modulo the group order is multiplication by minus one.
proof fn lemma_signed(x: nat, negative: bool)
    requires
        x <= curve_order(),
    ensures
        congruent(signed_of(x, negative) as int, sign_of(negative) * x),
{
    if negative {
        lemma_mod_congruent(curve_order() - x);
        lemma_order_minus(x as int);
        lemma_congruent_trans(signed_of(x, true) as int, curve_order() - x, -x);
    } else {
        lemma_congruent_refl(x as int);
    }
}

/// Picking the even point negates where the point is odd.
proof fn lemma_even_is_signed(x: nat)
    requires
        x < curve_order(),
    ensures
        congruent(
            with_even_y(x) as int,
            sign_of(!has_even_y_of(generator_multiple(x))) * x,
        ),
{
    if has_even_y_of(generator_multiple(x)) {
        lemma_congruent_refl(x as int);
    } else {
        lemma_order_minus(x as int);
    }
}

/// A partial signature up to multiples of the group order.
proof fn lemma_partial(
    h: nat,
    g: nat,
    b: nat,
    nonce_odd: bool,
    e: nat,
    a: nat,
    x: nat,
    key_odd: bool,
)
    requires
        x < curve_order(),
    ensures
        congruent(
            partial_of(h, g, b, nonce_odd, e, a, x, key_odd) as int,
            sign_of(nonce_odd) * (h + b * g) + (e * sign_of(key_odd)) * (a * x),
        ),
{
    let n = curve_order() as int;
    let sr = sign_of(nonce_odd);
    let sk = sign_of(key_odd);
    let bg = (b * g) as int;
    let k1 = h + bg % n;
    let ea = (e * a) as int;
    let ks = signed_of((k1 % n) as nat, nonce_odd) as int;
    let xs = signed_of(x, key_odd) as int;
    lemma_mod_congruent(bg);
    lemma_congruent_refl(h as int);
    lemma_congruent_add(h as int, h as int, bg % n, bg);
    lemma_mod_congruent(k1);
    lemma_congruent_trans(k1 % n, k1, h + bg);
    lemma_signed((k1 % n) as nat, nonce_odd);
    lemma_congruent_refl(sr);
    lemma_congruent_mul(sr, sr, k1 % n, h + bg);
    lemma_congruent_trans(ks, sr * (k1 % n), sr * (h + bg));
    lemma_signed(x, key_odd);
    lemma_mod_congruent(ea);
    lemma_congruent_mul(ea % n, ea, xs, sk * x);
    lemma_mod_congruent((ea % n) * xs);
    lemma_congruent_trans(((ea % n) * xs) % n, (ea % n) * xs, ea * (sk * x));
    assert((e * a) * (sk * x) == (e * sk) * (a * x)) by (nonlinear_arith);
    lemma_congruent_add(ks, sr * (h + bg), ((ea % n) * xs) % n, ea * (sk * x));
    let s = ks + ((ea % n) * xs) % n;
    lemma_mod_congruent(s);
    lemma_congruent_trans(s % n, s, sr * (h + bg) + ea * (sk * x));
}

/// The sum of the partial signatures up to multiples of the group order.
proof fn lemma_partial_sum(m: SessionModel, i: nat)
    requires
        m.well_formed(),
        m.partials_complete(),
        m.keys_in_range(),
        i <= m.keys.len(),
    ensures
        congruent(
            partial_sum(m.partials, i) as int,
            sign_of(m.nonce_odd()) * (log_sum(m.hidings(), i) + m.nonce_coefficient() * log_sum(
                m.bindings(),
                i,
            )) + (m.session_challenge() * sign_of(m.key_odd())) * key_sum(m.keys, i),
        ),
    decreases i,
{
    let n = curve_order() as int;
    let sr = sign_of(m.nonce_odd());
    let b = m.nonce_coefficient() as int;
    let f = m.session_challenge() * sign_of(m.key_odd());
    if i == 0 {
        assert(sr * (0 + b * 0) + f * 0 == 0) by (nonlinear_arith);
        lemma_congruent_refl(0);
    } else {
        let j = (i - 1) as nat;
        lemma_partial_sum(m, j);
        let h0 = log_sum(m.hidings(), j) as int;
        let g0 = log_sum(m.bindings(), j) as int;
        let q0 = key_sum(m.keys, j) as int;
        let h1 = discrete_log(m.hidings()[j as int]) as int;
        let g1 = discrete_log(m.bindings()[j as int]) as int;
        let a = key_coefficient(m.keys, m.keys[j as int]) as int;
        let x = discrete_log(m.keys[j as int]) as int;
        let s0 = partial_sum(m.partials, j) as int;
        let s1 = m.valid_partial(j as int) as int;
        assert(m.partials[j as int] == Some(s1 as nat));
        lemma_partial(
            h1 as nat,
            g1 as nat,
            b as nat,
            m.nonce_odd(),
            m.session_challenge(),
            a as nat,
            x as nat,
            m.key_odd(),
        );
        lemma_mod_congruent(s0 + s1);
        lemma_congruent_add(
            s0,
            sr * (h0 + b * g0) + f * q0,
            s1,
            sr * (h1 + b * g1) + f * (a * x),
        );
        lemma_congruent_trans(
            (s0 + s1) % n,
            s0 + s1,
            (sr * (h0 + b * g0) + f * q0) + (sr * (h1 + b * g1) + f * (a * x)),
        );
        lemma_sum_step(sr, b, f, h0, h1, g0, g1, q0, a * x);
        lemma_reduced_step(sr, b, f, h0 + h1, g0 + g1, q0, a * x);
        lemma_congruent_trans(
            (s0 + s1) % n,
            sr * ((h0 + h1) + b * (g0 + g1)) + f * (q0 + a * x),
            sr * ((h0 + h1) % n + b * ((g0 + g1) % n)) + f * ((q0 + (a * x) % n) % n),
        );
    }
}

proof fn lemma_sum_step(
    sr: int,
    b: int,
    f: int,
    h0: int,
    h1: int,
    g0: int,
    g1: int,
    q0: int,
    q1: int,
)
    ensures
        (sr * (h0 + b * g0) + f * q0) + (sr * (h1 + b * g1) + f * q1) == sr * ((h0 + h1) + b * (g0
            + g1)) + f * (q0 + q1),
{
    assert(b * (g0 + g1) == b * g0 + b * g1) by (nonlinear_arith);
    let u = h0 + b * g0;
    let v = h1 + b * g1;
    assert(sr * (u + v) == sr * u + sr * v) by (nonlinear_arith);
    assert(f * (q0 + q1) == f * q0 + f * q1) by (nonlinear_arith);
    assert((h0 + h1) + b * (g0 + g1) == u + v);
}

proof fn lemma_reduced_step(sr: int, b: int, f: int, h: int, g: int, q0: int, q1: int)
    ensures
        congruent(
            sr * (h + b * g) + f * (q0 + q1),
            sr * (h % (curve_order() as int) + b * (g % (curve_order() as int))) + f * ((q0 + q1 % (
            curve_order() as int)) % (curve_order() as int)),
        ),
{
    let n = curve_order() as int;
    lemma_mod_congruent(h);
    lemma_mod_congruent(g);
    lemma_congruent_refl(b);
    lemma_congruent_mul(b, b, g, g % n);
    lemma_congruent_add(h, h % n, b * g, b * (g % n));
    lemma_congruent_refl(sr);
    lemma_congruent_mul(sr, sr, h + b * g, h % n + b * (g % n));
    lemma_mod_congruent(q1);
    lemma_congruent_refl(q0);
    lemma_congruent_add(q0, q0, q1, q1 % n);
    lemma_mod_congruent(q0 + q1 % n);
    lemma_congruent_trans(q0 + q1, q0 + q1 % n, (q0 + q1 % n) % n);
    lemma_congruent_refl(f);
    lemma_congruent_mul(f, f, q0 + q1, (q0 + q1 % n) % n);
    lemma_congruent_add(
        sr * (h + b * g),
        sr * (h % n + b * (g % n)),
        f * (q0 + q1),
        f * ((q0 + q1 % n) % n),
    );
}

/// The signed sum of keys and tweak is the secret of the even-Y aggregate key.
proof fn lemma_key_secret(m: SessionModel)
    requires
        m.well_formed(),
    ensures
        congruent(
            match m.tweak {
                None => sign_of(m.key_odd()) * inner_exponent(m.keys),
                Some(t) => sign_of(m.key_odd()) * inner_exponent(m.keys) + signed_of(
                    t,
                    m.agg_odd(),
                ),
            },
            with_even_y(m.key_exponent()) as int,
        ),
{
    let n = curve_order() as int;
    let inner = inner_exponent(m.keys) as int;
    let q = m.key_exponent() as int;
    let sq = sign_of(m.agg_odd());
    let sk = sign_of(m.key_odd());
    lemma_key_sum_range(m.keys, m.keys.len());
    match m.tweak {
        None => {
            lemma_even_is_signed(q as nat);
            lemma_congruent_sym(with_even_y(q as nat) as int, sq * q);
        },
        Some(t) => {
            let si = sign_of(!has_even_y_of(generator_multiple(inner as nat)));
            let even_inner = with_even_y(inner as nat) as int;
            lemma_mod_congruent(even_inner + t);
            lemma_even_is_signed(q as nat);
            lemma_even_is_signed(inner as nat);
            lemma_signed(t, m.agg_odd());
            lemma_congruent_refl(sq);
            lemma_congruent_mul(sq, sq, even_inner, si * inner);
            assert(sq * (si * inner) == sk * inner);
            lemma_congruent_sym(sq * even_inner, sk * inner);
            lemma_congruent_add(
                sk * inner,
                sq * even_inner,
                signed_of(t, m.agg_odd()) as int,
                sq * t,
            );
            assert(sq * even_inner + sq * t == sq * (even_inner + t)) by (nonlinear_arith);
            lemma_congruent_mul(sq, sq, even_inner + t, q);
            lemma_congruent_trans(
                sk * inner + signed_of(t, m.agg_odd()),
                sq * (even_inner + t),
                sq * q,
            );
            lemma_congruent_sym(with_even_y(q as nat) as int, sq * q);
            lemma_congruent_trans(
                sk * inner + signed_of(t, m.agg_odd()),
                sq * q,
                with_even_y(q as nat) as int,
            );
        },
    }
}

proof fn lemma_key_sum_range(keys: Seq<Seq<u8>>, i: nat)
    ensures
        key_sum(keys, i) < curve_order(),
    decreases i,
{
}

/// The signing equation of the aggregate signature.
proof fn lemma_signing_equation(m: SessionModel)
    requires
        m.well_formed(),
        m.partials_complete(),
        m.keys_in_range(),
    ensures
        m.signature_s() < curve_order(),
        congruent(
            m.signature_s() as int,
            (with_even_y(m.nonce_exponent()) + m.session_challenge() * with_even_y(
                m.key_exponent(),
            )) as int,
        ),
{
    let n = curve_order() as int;
    let len = m.keys.len();
    let sr = sign_of(m.nonce_odd());
    let sk = sign_of(m.key_odd());
    let e = m.session_challenge() as int;
    let b = m.nonce_coefficient() as int;
    let h = m.hiding_exponent() as int;
    let g = m.binding_exponent() as int;
    let r = m.nonce_exponent() as int;
    let inner = inner_exponent(m.keys) as int;
    let sum = partial_sum(m.partials, len) as int;
    let k = with_even_y(r as nat) as int;
    let d = with_even_y(m.key_exponent()) as int;
    lemma_partial_sum(m, len);
    lemma_key_secret(m);
    // The nonces add up to the aggregate nonce.
    lemma_mod_congruent(b * g);
    lemma_congruent_refl(h);
    lemma_congruent_add(h, h, b * g, (b * g) % n);
    lemma_mod_congruent(h + (b * g) % n);
    lemma_congruent_trans(h + b * g, h + (b * g) % n, r);
    lemma_congruent_refl(sr);
    lemma_congruent_mul(sr, sr, h + b * g, r);
    lemma_even_is_signed(r as nat);
    lemma_congruent_sym(k, sr * r);
    lemma_congruent_trans(sr * (h + b * g), sr * r, k);
    lemma_congruent_refl((e * sk) * inner);
    lemma_congruent_add(sr * (h + b * g), k, (e * sk) * inner, (e * sk) * inner);
    lemma_congruent_trans(
        sum,
        sr * (h + b * g) + (e * sk) * inner,
        k + (e * sk) * inner,
    );
    assert((e * sk) * inner == e * (sk * inner)) by (nonlinear_arith);
    lemma_congruent_refl(e);
    match m.tweak {
        None => {
            lemma_congruent_mul(e, e, sk * inner, d);
            lemma_congruent_refl(k);
            lemma_congruent_add(k, k, e * (sk * inner), e * d);
            lemma_congruent_trans(sum, k + e * (sk * inner), k + e * d);
            lemma_partial_sum_range(m.partials, len);
        },
        Some(t) => {
            let st = signed_of(t, m.agg_odd()) as int;
            lemma_congruent_mul(e, e, sk * inner + st, d);
            assert(e * (sk * inner + st) == e * (sk * inner) + e * st) by (nonlinear_arith);
            lemma_mod_congruent(e * st);
            lemma_congruent_add(sum, k + e * (sk * inner), (e * st) % n, e * st);
            lemma_mod_congruent(sum + (e * st) % n);
            lemma_congruent_refl(k);
            lemma_congruent_add(k, k, e * (sk * inner + st), e * d);
            lemma_congruent_trans(
                m.signature_s() as int,
                sum + (e * st) % n,
                k + e * (sk * inner) + e * st,
            );
            lemma_congruent_trans(
                m.signature_s() as int,
                k + e * (sk * inner + st),
                k + e * d,
            );
        },
    }
}

proof fn lemma_partial_sum_range(partials: Seq<Option<nat>>, i: nat)
    ensures
        partial_sum(partials, i) < curve_order(),
    decreases i,
{
    if i > 0 {
        lemma_mod_congruent(
            (partial_sum(partials, (i - 1) as nat) + partials[i - 1]->0) as int,
        );
    }
}

/// Valid partial signatures of all signers add up to a valid signature of the
/// message under the aggregate key.
pub proof fn theorem_aggregate_signature_valid(m: SessionModel)
    requires
        m.well_formed(),
        m.partials_complete(),
        m.keys_in_range(),
        names_point(m.key_exponent()),
        names_point(m.nonce_exponent()),
    ensures
        signature_valid(m.key_x(), m.message, m.signature()),
{
    assert(m.partials[0] is Some);
    lemma_signing_equation(m);
    lemma_valid_signature(
        m.key_exponent(),
        m.nonce_exponent(),
        m.message,
        m.signature_s(),
    );
}

/// An optional pair of points as nonces.
pub open spec fn nonce_pair(nonce: Option<(Point, Point)>) -> Option<NoncePair> {
    match nonce {
        None => None,
        Some(pair) => Some(NoncePair { hiding: pair.0@, binding: pair.1@ }),
    }
}

/// The first signer from position `from` on with this key and no nonces yet.
pub open spec fn open_nonce_slot(m: SessionModel, key: Seq<u8>, from: nat) -> Option<int>
    decreases m.keys.len() - from,
{
    if from >= m.keys.len() {
        None
    } else if m.keys[from as int] == key && m.nonces[from as int] is None {
        Some(from as int)
    } else {
        open_nonce_slot(m, key, from + 1)
    }
}

/// The first signer from position `from` on with this key and these nonces.
pub open spec fn signer_slot(
    m: SessionModel,
    key: Seq<u8>,
    nonces: NoncePair,
    from: nat,
) -> Option<int>
    decreases m.keys.len() - from,
{
    if from >= m.keys.len() {
        None
    } else if m.keys[from as int] == key && m.nonces[from as int] == Some(nonces) {
        Some(from as int)
    } else {
        signer_slot(m, key, nonces, from + 1)
    }
}

/// The first signer from position `from` on with this key and no partial signature
/// yet for whom this partial signature is valid.
pub open spec fn open_partial_slot(
    m: SessionModel,
    key: Seq<u8>,
    partial: nat,
    from: nat,
) -> Option<int>
    decreases m.keys.len() - from,
{
    if from >= m.keys.len() {
        None
    } else if m.keys[from as int] == key && m.partials[from as int] is None && m.valid_partial(
        from as int,
    ) == partial {
        Some(from as int)
    } else {
        open_partial_slot(m, key, partial, from + 1)
    }
}

/// A signing session.
pub struct MusigSessionCtx {
    keys: Vec<Point>,
    coefficients: Vec<Residue>,
    inner: Point,
    agg: Point,
    tweak: Option<Scalar>,
    message: [u8; 32],
    nonces: Vec<Option<(Point, Point)>>,
    partials: Vec<Option<Scalar>>,
}

/// What the nonces, the key and the message of a session fix.
struct SessionValues {
    b: Residue,
    nonce: Point,
    e: Residue,
    key_odd: bool,
}

/// The encoding of an aggregate nonce.
fn nonce_encoding(p: &Option<Point>) -> (r: [u8; 33])
    requires
        encoding_of(*p) == multiple_or_infinity(exponent_of(*p)),
    ensures
        r@ == nonce_bytes(exponent_of(*p)),
{
    match p {
        None => {
            let zeros: [u8; 33] = [0u8; 33];
            assert(zeros@ =~= nonce_bytes(0));
            zeros
        },
        Some(q) => {
            proof {
                use_type_invariant(q);
                lemma_discrete_log(q@);
            }
            q.serialize()
        },
    }
}

impl View for MusigSessionCtx {
    type V = SessionModel;

    closed spec fn view(&self) -> SessionModel {
        SessionModel {
            keys: encodings(self.keys@),
            tweak: tweak_value(self.tweak),
            message: self.message@,
            nonces: Seq::new(self.nonces@.len(), |i: int| nonce_pair(self.nonces@[i])),
            partials: Seq::new(self.partials@.len(), |i: int| tweak_value(self.partials@[i])),
        }
    }
}

impl MusigSessionCtx {
    /// What the session keeps of its keys agrees with them.
    pub closed spec fn consistent(&self) -> bool {
        &&& self@.keys_in_range()
        &&& self.coefficients@.len() == self.keys@.len()
        &&& forall|i: int|
            0 <= i < self.keys@.len() ==> (#[trigger] self.coefficients@[i]).value()
                == key_coefficient(self@.keys, self@.keys[i])
        &&& self.inner.exponent() == inner_exponent(self@.keys)
        &&& self.agg.exponent() == self@.key_exponent()
    }

    /// The invariant of a session.
    pub open spec fn wf(&self) -> bool {
        &&& self@.well_formed()
        &&& self.consistent()
    }

    /// Opens a session for a message under an aggregate key.
    pub fn new(keyagg: &MusigKeyAggCtx, message: [u8; 32]) -> (r: Option<MusigSessionCtx>)
        ensures
            match r {
                None => false,
                Some(session) => {
                    &&& session.wf()
                    &&& session@.keys == keyagg.keys()
                    &&& session@.tweak == keyagg.tweak()
                    &&& session@.message == message@
                    &&& session@.nonces == Seq::new(
                        keyagg.keys().len(),
                        |i: int| None::<NoncePair>,
                    )
                    &&& session@.partials == Seq::new(keyagg.keys().len(), |i: int| None::<nat>)
                },
            },
    {
        proof {
            use_type_invariant(keyagg);
        }
        let count: usize = keyagg.keys.len();
        let mut keys: Vec<Point> = Vec::new();
        let mut coefficients: Vec<Residue> = Vec::new();
        let mut nonces: Vec<Option<(Point, Point)>> = Vec::new();
        let mut partials: Vec<Option<Scalar>> = Vec::new();
        let mut i: usize = 0;
        while i < count
            invariant
                i <= count,
                count == keyagg.keys@.len(),
                count == keyagg.coefficients@.len(),
                keys@ == keyagg.keys@.take(i as int),
                coefficients@ == keyagg.coefficients@.take(i as int),
                nonces@ == Seq::new(i as nat, |j: int| None::<(Point, Point)>),
                partials@ == Seq::new(i as nat, |j: int| None::<Scalar>),
            decreases count - i,
        {
            keys.push(keyagg.keys[i]);
            coefficients.push(keyagg.coefficients[i]);
            nonces.push(None);
            partials.push(None);
            i = i + 1;
            assert(keys@ =~= keyagg.keys@.take(i as int));
            assert(coefficients@ =~= keyagg.coefficients@.take(i as int));
            assert(nonces@ =~= Seq::new(i as nat, |j: int| None::<(Point, Point)>));
            assert(partials@ =~= Seq::new(i as nat, |j: int| None::<Scalar>));
        }
        assert(keys@ =~= keyagg.keys@);
        assert(coefficients@ =~= keyagg.coefficients@);
        proof {
            if let Some(t) = &keyagg.tweak {
                use_type_invariant(t);
            }
        }
        let session = MusigSessionCtx {
            keys,
            coefficients,
            inner: keyagg.inner,
            agg: keyagg.agg,
            tweak: keyagg.tweak,
            message,
            nonces,
            partials,
        };
        proof {
            assert(session@.nonces =~= Seq::new(count as nat, |j: int| None::<NoncePair>));
            assert(session@.partials =~= Seq::new(count as nat, |j: int| None::<nat>));
        }
        Some(session)
    }

    /// Adds the public nonces of a signer. Refused where the key is not a signer's,
    /// or all its signers have nonces already.
    pub fn insert_nonce(&mut self, key: Point, hiding: Point, binding: Point) -> (r: bool)
        requires
            old(self).wf(),
        ensures
            final(self).wf(),
            match open_nonce_slot(old(self)@, key@, 0) {
                None => !r && final(self)@ == old(self)@,
                Some(i) => r && final(self)@ == (SessionModel {
                    nonces: old(self)@.nonces.update(
                        i,
                        Some(NoncePair { hiding: hiding@, binding: binding@ }),
                    ),
                    ..old(self)@
                }),
            },
    {
        let mut i: usize = 0;
        while i < self.keys.len()
            invariant
                *self == *old(self),
                old(self).wf(),
                i <= self.keys@.len(),
                open_nonce_slot(self@, key@, 0) == open_nonce_slot(self@, key@, i as nat),
            decreases self.keys@.len() - i,
        {
            let open: bool = match &self.nonces[i] {
                None => true,
                Some(_) => false,
            };
            if open && self.keys[i].same(&key) {
                let ghost before = self@;
                self.nonces.set(i, Some((hiding, binding)));
                proof {
                    assert(before.nonces[i as int] is None);
                    assert(self@.nonces =~= before.nonces.update(
                        i as int,
                        Some(NoncePair { hiding: hiding@, binding: binding@ }),
                    ));
                    assert(self@.partials == before.partials);
                    assert(self@.keys == before.keys);
                    assert forall|j: int| 0 <= j < self@.partials.len() implies (
                    #[trigger] self@.partials[j]) is None by {
                        if before.partials[j] is Some {
                            assert(before.nonces_complete());
                        }
                    }
                }
                return true;
            }
            i = i + 1;
        }
        false
    }

    fn nonce_sum(&self, second: bool) -> (r: Option<Point>)
        requires
            self.wf(),
            self@.nonces_complete(),
        ensures
            encoding_of(r) == multiple_or_infinity(exponent_of(r)),
            exponent_of(r) == if second {
                self@.binding_exponent()
            } else {
                self@.hiding_exponent()
            },
    {
        let ghost points = if second { self@.bindings() } else { self@.hidings() };
        let mut sum: Option<Point> = None;
        let mut i: usize = 0;
        while i < self.nonces.len()
            invariant
                self.wf(),
                self@.nonces_complete(),
                i <= self.nonces@.len(),
                points == if second { self@.bindings() } else { self@.hidings() },
                encoding_of(sum) == multiple_or_infinity(exponent_of(sum)),
                exponent_of(sum) == log_sum(points, i as nat),
            decreases self.nonces@.len() - i,
        {
            assert(self@.nonces[i as int] is Some);
            match &self.nonces[i] {
                None => {},
                Some(pair) => {
                    let p: Point = if second { pair.1 } else { pair.0 };
                    sum = point_sum(&sum, &Some(p));
                    assert(points[i as int] == p@);
                },
            }
            i = i + 1;
        }
        sum
    }

    fn all_nonces(&self) -> (r: bool)
        ensures
            r == self@.nonces_complete(),
    {
        let mut i: usize = 0;
        while i < self.nonces.len()
            invariant
                i <= self.nonces@.len(),
                forall|j: int| 0 <= j < i ==> (#[trigger] self@.nonces[j]) is Some,
            decreases self.nonces@.len() - i,
        {
            if self.nonces[i].is_none() {
                assert(self@.nonces[i as int] is None);
                return false;
            }
            i = i + 1;
        }
        true
    }

    fn values(&self) -> (r: Option<SessionValues>)
        requires
            self.wf(),
        ensures
            match r {
                None => !self@.signable(),
                Some(v) => {
                    &&& self@.signable()
                    &&& v.b.value() == self@.nonce_coefficient()
                    &&& v.nonce@ == generator_multiple(self@.nonce_exponent())
                    &&& v.nonce.exponent() == self@.nonce_exponent()
                    &&& v.e.value() == self@.session_challenge()
                    &&& v.key_odd == self@.key_odd()
                },
            },
    {
        if !self.all_nonces() {
            return None;
        }
        let hiding = self.nonce_sum(false);
        let binding = self.nonce_sum(true);
        proof {
            use_type_invariant(&self.agg);
            use_type_invariant(&self.inner);
            lemma_discrete_log(self.agg@);
            lemma_discrete_log(self.inner@);
        }
        let key_x = self.agg.serialize_xonly();
        let mut preimage: Vec<u8> = Vec::new();
        push_slice(&mut preimage, &nonce_encoding(&hiding));
        push_slice(&mut preimage, &nonce_encoding(&binding));
        push_slice(&mut preimage, &key_x);
        push_slice(&mut preimage, &self.message);
        assert(preimage@ =~= nonce_bytes(self@.hiding_exponent()) + nonce_bytes(
            self@.binding_exponent(),
        ) + self@.key_x() + self@.message);
        let b = Residue::reduce(&tagged_hash("MuSig/noncecoef", &preimage));
        let bound = point_multiple(&binding, &b);
        proof {
            let g = self@.binding_exponent();
            let bv = b.value();
            assert(g * bv == bv * g) by (nonlinear_arith);
        }
        let nonce = match point_sum(&hiding, &bound) {
            None => {
                return None;
            },
            Some(p) => p,
        };
        proof {
            use_type_invariant(&nonce);
            lemma_discrete_log(nonce@);
        }
        let e = challenge(&nonce.serialize_xonly(), &key_x, &self.message);
        let inner_odd: bool = self.tweak.is_some() && !self.inner.has_even_y();
        let key_odd: bool = !self.agg.has_even_y() != inner_odd;
        Some(SessionValues { b, nonce, e, key_odd })
    }

    /// Whether a partial signature is valid for the signer at a position.
    fn partial_valid(&self, v: &SessionValues, i: usize, partial: &Scalar) -> (r: bool)
        requires
            self.wf(),
            i < self@.keys.len(),
            self@.signable(),
            v.b.value() == self@.nonce_coefficient(),
            v.nonce@ == generator_multiple(self@.nonce_exponent()),
            v.e.value() == self@.session_challenge(),
            v.key_odd == self@.key_odd(),
        ensures
            r == (self@.valid_partial(i as int) == partial.value()),
    {
        assert(self@.nonces[i as int] is Some);
        match &self.nonces[i] {
            None => false,
            Some(pair) => {
                let bound = point_multiple(&Some(pair.1), &v.b);
                let k = point_signed(&point_sum(&Some(pair.0), &bound), !v.nonce.has_even_y());
                let ea = v.e.times(&self.coefficients[i]);
                let key = point_signed(&Some(self.keys[i]), v.key_odd);
                let weighted = point_multiple(&key, &ea);
                let expected = point_sum(&k, &weighted);
                proof {
                    let g = pair.1.exponent();
                    let bv = v.b.value();
                    assert(g * bv == bv * g) by (nonlinear_arith);
                    let xs = exponent_of(key);
                    let eav = ea.value();
                    assert(xs * eav == eav * xs) by (nonlinear_arith);
                    assert(exponent_of(expected) == self@.valid_partial(i as int));
                    use_type_invariant(partial);
                }
                match expected {
                    None => false,
                    Some(p) => {
                        let q = partial.base_point_mul();
                        p.same(&q)
                    },
                }
            },
        }
    }

    /// Makes the partial signature of the signer with this secret and these secret
    /// nonces. Fails where no signer has that key and those nonces, where nonces are
    /// missing or cancel out, or where the partial signature is zero.
    pub fn partial_sign(&self, secret: Scalar, hiding: Scalar, binding: Scalar) -> (r: Option<
        Scalar,
    >)
        requires
            self.wf(),
        ensures
            match signer_slot(
                self@,
                generator_multiple(secret.value()),
                NoncePair {
                    hiding: generator_multiple(hiding.value()),
                    binding: generator_multiple(binding.value()),
                },
                0,
            ) {
                None => r is None,
                Some(i) => match r {
                    None => !self@.signable() || self@.valid_partial(i) == 0,
                    Some(s) => self@.signable() && s.value() == self@.valid_partial(i),
                },
            },
    {
        let key = secret.base_point_mul();
        let hiding_point = hiding.base_point_mul();
        let binding_point = binding.base_point_mul();
        let ghost pair = NoncePair { hiding: hiding_point@, binding: binding_point@ };
        let mut i: usize = 0;
        while i < self.keys.len()
            invariant
                self.wf(),
                i <= self.keys@.len(),
                key@ == generator_multiple(secret.value()),
                key.exponent() == secret.value(),
                hiding_point.exponent() == hiding.value(),
                binding_point.exponent() == binding.value(),
                hiding_point@ == generator_multiple(hiding.value()),
                binding_point@ == generator_multiple(binding.value()),
                pair == (NoncePair { hiding: hiding_point@, binding: binding_point@ }),
                signer_slot(self@, key@, pair, 0) == signer_slot(self@, key@, pair, i as nat),
            decreases self.keys@.len() - i,
        {
            let matches_nonces: bool = match &self.nonces[i] {
                None => false,
                Some(p) => p.0.same(&hiding_point) && p.1.same(&binding_point),
            };
            if matches_nonces && self.keys[i].same(&key) {
                let v = match self.values() {
                    None => {
                        return None;
                    },
                    Some(v) => v,
                };
                let k = hiding.residue().plus(&v.b.times(&binding.residue()));
                let k_signed = k.signed(!v.nonce.has_even_y());
                let ea = v.e.times(&self.coefficients[i]);
                let x = secret.residue().signed(v.key_odd);
                let s = k_signed.plus(&ea.times(&x));
                assert(s.value() == self@.valid_partial(i as int));
                return s.nonzero();
            }
            i = i + 1;
        }
        None
    }

    /// Adds a partial signature. Refused where nonces are missing or cancel out, or
    /// where it is not valid for any signer with this key that lacks one.
    pub fn insert_partial_sig(&mut self, key: Point, partial: Scalar) -> (r: bool)
        requires
            old(self).wf(),
        ensures
            final(self).wf(),
            !old(self)@.signable() ==> !r && final(self)@ == old(self)@,
            old(self)@.signable() ==> match open_partial_slot(
                old(self)@,
                key@,
                partial.value(),
                0,
            ) {
                None => !r && final(self)@ == old(self)@,
                Some(i) => r && final(self)@ == (SessionModel {
                    partials: old(self)@.partials.update(i, Some(partial.value())),
                    ..old(self)@
                }),
            },
    {
        let v = match self.values() {
            None => {
                return false;
            },
            Some(v) => v,
        };
        let ghost value = partial.value();
        let mut i: usize = 0;
        while i < self.keys.len()
            invariant
                *self == *old(self),
                old(self).wf(),
                self@.signable(),
                v.b.value() == self@.nonce_coefficient(),
                v.nonce@ == generator_multiple(self@.nonce_exponent()),
                v.e.value() == self@.session_challenge(),
                v.key_odd == self@.key_odd(),
                value == partial.value(),
                i <= self.keys@.len(),
                open_partial_slot(self@, key@, value, 0) == open_partial_slot(
                    self@,
                    key@,
                    value,
                    i as nat,
                ),
            decreases self.keys@.len() - i,
        {
            if self.partials[i].is_none() && self.keys[i].same(&key) && self.partial_valid(
                &v,
                i,
                &partial,
            ) {
                let ghost before = self@;
                self.partials.set(i, Some(partial));
                proof {
                    assert(self@.partials =~= before.partials.update(i as int, Some(value)));
                    assert(self@.nonces == before.nonces);
                    assert forall|j: int|
                        0 <= j < self@.partials.len() && (#[trigger] self@.partials[j]) is Some
                        implies self@.partials[j] == Some(self@.valid_partial(j)) by {
                        if j != i {
                            assert(before.partials[j] is Some);
                        }
                    }
                }
                return true;
            }
            i = i + 1;
        }
        false
    }

    /// Adds the partial signatures up into a signature of the message under the
    /// aggregate key. Fails where one is missing.
    pub fn full_agg_sig(&self) -> (r: Option<[u8; 64]>)
        requires
            self.wf(),
        ensures
            match r {
                None => !self@.partials_complete(),
                Some(sig) => {
                    &&& self@.partials_complete()
                    &&& sig@ == self@.signature()
                    &&& signature_valid(self@.key_x(), self@.message, sig@)
                },
            },
    {
        let mut sum = Residue::zero();
        let mut i: usize = 0;
        while i < self.partials.len()
            invariant
                i <= self.partials@.len(),
                forall|j: int| 0 <= j < i ==> (#[trigger] self@.partials[j]) is Some,
                sum.value() == partial_sum(self@.partials, i as nat),
            decreases self.partials@.len() - i,
        {
            match &self.partials[i] {
                None => {
                    assert(self@.partials[i as int] is None);
                    return None;
                },
                Some(s) => {
                    sum = sum.plus(&s.residue());
                    assert(self@.partials[i as int] == Some(s.value()));
                },
            }
            i = i + 1;
        }
        assert(self@.partials[0] is Some);
        let v = match self.values() {
            None => {
                return None;
            },
            Some(v) => v,
        };
        proof {
            use_type_invariant(&self.agg);
            use_type_invariant(&v.nonce);
            lemma_discrete_log(self.agg@);
        }
        let s = match &self.tweak {
            None => sum,
            Some(t) => sum.plus(&v.e.times(&t.residue().signed(!self.agg.has_even_y()))),
        };
        let sig = join64(&v.nonce.serialize_xonly(), &s.serialize());
        proof {
            lemma_be_bytes_of_nat(s.encoding());
            assert(s.encoding().len() == 32);
            theorem_aggregate_signature_valid(self@);
        }
        Some(sig)
    }
}

/// The session accepts the partial signature that a signer makes for it.
pub proof fn theorem_own_partial_accepted(m: SessionModel, key: Seq<u8>, nonces: NoncePair)
    requires
        match signer_slot(m, key, nonces, 0) {
            None => false,
            Some(i) => m.partials[i] is None,
        },
    ensures
        open_partial_slot(m, key, m.valid_partial(signer_slot(m, key, nonces, 0)->0), 0) is Some,
{
    lemma_partial_slot_found(m, key, nonces, 0, 0);
}

proof fn lemma_partial_slot_found(
    m: SessionModel,
    key: Seq<u8>,
    nonces: NoncePair,
    from: nat,
    start: nat,
)
    requires
        start <= from,
        match signer_slot(m, key, nonces, from) {
            None => false,
            Some(i) => m.partials[i] is None,
        },
    ensures
        open_partial_slot(
            m,
            key,
            m.valid_partial(signer_slot(m, key, nonces, from)->0),
            start,
        ) is Some,
    decreases m.keys.len() - start,
{
    lemma_signer_slot_bound(m, key, nonces, from);
    if start < from {
        lemma_partial_slot_found(m, key, nonces, from, start + 1);
    } else if signer_slot(m, key, nonces, from) != Some(from as int) {
        lemma_partial_slot_found(m, key, nonces, from + 1, start + 1);
    }
}

proof fn lemma_signer_slot_bound(m: SessionModel, key: Seq<u8>, nonces: NoncePair, from: nat)
    ensures
        match signer_slot(m, key, nonces, from) {
            None => true,
            Some(i) => {
                &&& from <= i < m.keys.len()
                &&& m.keys[i] == key
                &&& m.nonces[i] == Some(nonces)
            },
        },
    decreases m.keys.len() - from,
{
    if from < m.keys.len() {
        lemma_signer_slot_bound(m, key, nonces, from + 1);
    }
}

/// The list of the signers is hashed in order, without anything between the keys.
pub proof fn theorem_key_list_is_joined(a: Seq<Seq<u8>>, b: Seq<Seq<u8>>, key: Seq<u8>)
    ensures
        keys_bytes(a + b) == keys_bytes(a) + keys_bytes(b),
        keys_bytes(seq![key]) == key,
    decreases b.len(),
{
    reveal_with_fuel(keys_bytes, 2);
    assert(seq![key].drop_last() =~= Seq::empty());
    assert(keys_bytes(seq![key]) =~= key);
    if b.len() == 0 {
        assert(a + b =~= a);
        assert(keys_bytes(a + b) =~= keys_bytes(a) + keys_bytes(b));
    } else {
        theorem_key_list_is_joined(a, b.drop_last(), key);
        assert((a + b).drop_last() =~= a + b.drop_last());
        assert((a + b).last() == b.last());
        assert(keys_bytes(a + b) =~= keys_bytes(a) + keys_bytes(b));
    }
}

/// The second key is the first one that is not the first key; where all keys are the
/// same there is none.
pub proof fn theorem_second_key_is_first_other(keys: Seq<Seq<u8>>, from: nat, i: int)
    requires
        from <= i <= keys.len(),
        forall|j: int| from <= j < i ==> #[trigger] keys[j] == keys[0],
    ensures
        i < keys.len() && keys[i] != keys[0] ==> second_key(keys, from) == Some(keys[i]),
        i == keys.len() ==> second_key(keys, from) is None,
    decreases i - from,
{
    if from < i {
        assert(keys[from as int] == keys[0]);
        theorem_second_key_is_first_other(keys, from + 1, i);
    }
}

/// The weights of keys: the first key that differs from the first one has weight one,
/// wherever it stands again. Every other key is weighted by a hash of the list of all keys
/// and the key.
pub proof fn theorem_key_weights(keys: Seq<Seq<u8>>, i: int, key: Seq<u8>)
    requires
        0 <= i < keys.len(),
        keys[i] != keys[0] || i == keys.len() - 1,
        forall|j: int| 0 <= j < i ==> #[trigger] keys[j] == keys[0],
    ensures
        keys[i] != keys[0] && key == keys[i] ==> key_coefficient(keys, key) == 1,
        keys[i] == keys[0] || key != keys[i] ==> key_coefficient(keys, key) == be_nat(
            tagged_hash_of(
                "KeyAgg coefficient",
                tagged_hash_of("KeyAgg list", keys_bytes(keys)) + key,
            ),
        ) % curve_order(),
{
    if keys[i] != keys[0] {
        theorem_second_key_is_first_other(keys, 0, i);
    } else {
        theorem_second_key_is_first_other(keys, 0, keys.len() as int);
    }
}

/// The aggregate of two different keys: the first one weighted by its hash, plus the
/// second one as it is.
pub proof fn theorem_aggregate_of_two(a: Seq<u8>, b: Seq<u8>)
    requires
        a != b,
    ensures
        congruent(
            inner_exponent(seq![a, b]) as int,
            ((be_nat(
                tagged_hash_of(
                    "KeyAgg coefficient",
                    tagged_hash_of("KeyAgg list", a + b) + a,
                ),
            ) % curve_order()) * discrete_log(a) + discrete_log(b)) as int,
        ),
        inner_exponent(seq![a, b]) < curve_order(),
{
    let keys = seq![a, b];
    theorem_key_list_is_joined(seq![a], seq![b], a);
    theorem_key_list_is_joined(seq![a], seq![b], b);
    assert(seq![a] + seq![b] =~= keys);
    theorem_key_weights(keys, 1, a);
    theorem_key_weights(keys, 1, b);
    theorem_aggregate_is_weighted_sum(keys, 0);
    theorem_aggregate_is_weighted_sum(keys, 1);
    let w = key_coefficient(keys, a) * discrete_log(a);
    lemma_congruent_refl(discrete_log(b) as int);
    lemma_congruent_add(
        key_sum(keys, 1) as int,
        w as int,
        discrete_log(b) as int,
        discrete_log(b) as int,
    );
    lemma_congruent_trans(
        key_sum(keys, 2) as int,
        (key_sum(keys, 1) + discrete_log(b)) as int,
        (w + discrete_log(b)) as int,
    );
}

/// Every key adds itself to the aggregate, with its weight; no keys sum to zero.
pub proof fn theorem_aggregate_is_weighted_sum(keys: Seq<Seq<u8>>, i: nat)
    ensures
        key_sum(keys, 0) == 0,
        congruent(
            key_sum(keys, i + 1) as int,
            (key_sum(keys, i) + key_coefficient(keys, keys[i as int]) * discrete_log(
                keys[i as int],
            )) as int,
        ),
        key_sum(keys, i + 1) < curve_order(),
        inner_exponent(keys) == key_sum(keys, keys.len()),
{
    let n = curve_order() as int;
    let s = key_sum(keys, i) as int;
    let w = (key_coefficient(keys, keys[i as int]) * discrete_log(keys[i as int])) as int;
    lemma_mod_congruent(w);
    lemma_congruent_refl(s);
    lemma_congruent_add(s, s, w % n, w);
    lemma_mod_congruent(s + w % n);
    lemma_congruent_trans((s + w % n) % n, s + w % n, s + w);
}

/// The tweaked aggregate: the untweaked point, negated where its Y is odd, plus the tweak
/// times the generator. Without a tweak both are the same.
pub proof fn theorem_tweaked_aggregate(
    keys: &[Point],
    tweak: Option<Scalar>,
    ctx: MusigKeyAggCtx,
    inner: Point,
    agg: Point,
)
    requires
        call_ensures(MusigKeyAggCtx::new, (keys, tweak), Some(ctx)),
        call_ensures(MusigKeyAggCtx::agg_inner_key, (&ctx,), inner),
        call_ensures(MusigKeyAggCtx::agg_key, (&ctx,), agg),
    ensures
        inner.exponent() == key_sum(encodings(keys@), keys@.len()),
        tweak is None ==> agg.exponent() == inner.exponent(),
        tweak is Some && inner@[0] == 2 ==> congruent(
            agg.exponent() as int,
            (inner.exponent() + (tweak->0).value()) as int,
        ),
        tweak is Some && inner@[0] != 2 ==> congruent(
            agg.exponent() as int,
            (tweak->0).value() - inner.exponent(),
        ),
        agg.exponent() != 0,
        inner.exponent() != 0,
{
    if tweak is Some {
        let t = (tweak->0).value() as int;
        let x = inner.exponent() as int;
        lemma_mod_congruent(x + t);
        lemma_mod_congruent(curve_order() - x + t);
        lemma_key_sum_range(encodings(keys@), keys@.len());
        lemma_order_minus(x);
        lemma_congruent_refl(t);
        lemma_congruent_add(curve_order() - x, -x, t, t);
        if inner@[0] != 2 {
            lemma_congruent_trans(
                agg.exponent() as int,
                curve_order() - x + t,
                t - x,
            );
        }
    }
}

/// The coefficient of the second nonces is hashed from both aggregate nonces, the key that
/// is signed under and the message.
pub proof fn theorem_nonce_coefficient_covers_session(m: SessionModel)
    requires
        names_point(m.hiding_exponent()),
        names_point(m.binding_exponent()),
        names_point(m.key_exponent()),
        m.message.len() == 32,
        m.hiding_exponent() > 0,
        m.binding_exponent() > 0,
    ensures
        exists|p: Seq<u8>|
            {
                &&& m.nonce_coefficient() == be_nat(#[trigger] tagged_hash_of("MuSig/noncecoef", p))
                    % curve_order()
                &&& p.len() == 130
                &&& p.subrange(0, 33) == generator_multiple(m.hiding_exponent())
                &&& p.subrange(33, 66) == generator_multiple(m.binding_exponent())
                &&& p.subrange(66, 98) == generator_multiple(m.key_exponent()).subrange(1, 33)
                &&& p.subrange(98, 130) == m.message
            },
{
    let p = nonce_bytes(m.hiding_exponent()) + nonce_bytes(m.binding_exponent()) + m.key_x()
        + m.message;
    assert(p.subrange(0, 33) =~= generator_multiple(m.hiding_exponent()));
    assert(p.subrange(33, 66) =~= generator_multiple(m.binding_exponent()));
    assert(p.subrange(66, 98) =~= m.key_x());
    assert(p.subrange(98, 130) =~= m.message);
    assert(m.nonce_coefficient() == be_nat(tagged_hash_of("MuSig/noncecoef", p))
        % curve_order());
}

/// The aggregate nonce is the sum of all first nonces plus the coefficient times the sum
/// of all second ones; each nonce of each signer counts once.
pub proof fn theorem_nonces_add_up(m: SessionModel, points: Seq<Seq<u8>>, i: nat)
    ensures
        congruent(
            m.nonce_exponent() as int,
            (m.hiding_exponent() + m.nonce_coefficient() * m.binding_exponent()) as int,
        ),
        log_sum(points, 0) == 0,
        congruent(
            log_sum(points, i + 1) as int,
            (log_sum(points, i) + discrete_log(points[i as int])) as int,
        ),
        m.hiding_exponent() == log_sum(
            Seq::new(m.nonces.len(), |j: int| (m.nonces[j]->0).hiding),
            m.nonces.len(),
        ),
        m.binding_exponent() == log_sum(
            Seq::new(m.nonces.len(), |j: int| (m.nonces[j]->0).binding),
            m.nonces.len(),
        ),
{
    let n = curve_order() as int;
    let h = m.hiding_exponent() as int;
    let bg = (m.nonce_coefficient() * m.binding_exponent()) as int;
    lemma_mod_congruent(bg);
    lemma_congruent_refl(h);
    lemma_congruent_add(h, h, bg % n, bg);
    lemma_mod_congruent(h + bg % n);
    lemma_congruent_trans((h + bg % n) % n, h + bg % n, h + bg);
    lemma_mod_congruent((log_sum(points, i) + discrete_log(points[i as int])) as int);
}

/// The equation of a partial signature: the two secret nonces, the second one times the
/// coefficient, plus challenge times weight times secret; the nonces are negated where the
/// aggregate nonce has an odd Y, the secret where exactly one of the aggregate key and,
/// with a tweak, the untweaked key has.
pub proof fn theorem_partial_equation(m: SessionModel, i: int)
    requires
        0 <= i < m.keys.len(),
        m.keys_in_range(),
    ensures
        ({
            let h = discrete_log((m.nonces[i]->0).hiding);
            let g = discrete_log((m.nonces[i]->0).binding);
            let k = h + m.nonce_coefficient() * g;
            let weighted = key_coefficient(m.keys, m.keys[i]) * discrete_log(m.keys[i]);
            let nonce_even = generator_multiple(m.nonce_exponent())[0] == 2;
            let agg_even = generator_multiple(m.key_exponent())[0] == 2;
            let inner_even = m.tweak is None || generator_multiple(
                key_sum(m.keys, m.keys.len()),
            )[0] == 2;
            let signed_k = if nonce_even {
                k as int
            } else {
                -k
            };
            let e = if agg_even == inner_even {
                m.session_challenge() as int
            } else {
                -m.session_challenge()
            };
            congruent(m.valid_partial(i) as int, signed_k + e * weighted)
        }),
{
    let h = discrete_log((m.nonces[i]->0).hiding);
    let g = discrete_log((m.nonces[i]->0).binding);
    let a = key_coefficient(m.keys, m.keys[i]);
    let x = discrete_log(m.keys[i]);
    lemma_partial(
        h,
        g,
        m.nonce_coefficient(),
        m.nonce_odd(),
        m.session_challenge(),
        a,
        x,
        m.key_odd(),
    );
    let k = h + m.nonce_coefficient() * g;
    let e = m.session_challenge() as int;
    assert(1 * k == k && (-1) * k == -k);
    assert(e * 1 == e && e * (-1) == -e);
}

/// The challenge of a session is that of its aggregate nonce, the key that it signs under
/// and its message.
pub proof fn theorem_session_challenge_covers_all(m: SessionModel)
    requires
        names_point(m.nonce_exponent()),
        names_point(m.key_exponent()),
        m.message.len() == 32,
    ensures
        exists|p: Seq<u8>|
            {
                &&& m.session_challenge() == be_nat(
                    #[trigger] tagged_hash_of("BIP0340/challenge", p),
                ) % curve_order()
                &&& p.len() == 96
                &&& p.subrange(0, 32) == generator_multiple(m.nonce_exponent()).subrange(1, 33)
                &&& p.subrange(32, 64) == generator_multiple(m.key_exponent()).subrange(1, 33)
                &&& p.subrange(64, 96) == m.message
            },
{
    let p = m.nonce_x() + m.key_x() + m.message;
    assert(p.subrange(0, 32) =~= m.nonce_x());
    assert(p.subrange(32, 64) =~= m.key_x());
    assert(p.subrange(64, 96) =~= m.message);
    assert(m.session_challenge() == be_nat(tagged_hash_of("BIP0340/challenge", p))
        % curve_order());
}

/// Nonces go to the first signer with their key that has none; where there is no such
/// signer they are refused.
pub proof fn theorem_nonces_fill_first_open_slot(m: SessionModel, key: Seq<u8>, from: nat, i: int)
    requires
        from <= i <= m.keys.len(),
        forall|j: int|
            from <= j < i ==> (#[trigger] m.keys[j] != key || m.nonces[j] is Some),
    ensures
        i < m.keys.len() && m.keys[i] == key && m.nonces[i] is None ==> open_nonce_slot(
            m,
            key,
            from,
        ) == Some(i),
        i == m.keys.len() ==> open_nonce_slot(m, key, from) is None,
    decreases i - from,
{
    if from < i {
        assert(m.keys[from as int] != key || m.nonces[from as int] is Some);
        theorem_nonces_fill_first_open_slot(m, key, from + 1, i);
    }
}

/// A signer is found as the first one with its key and its nonces.
pub proof fn theorem_signer_is_first_with_nonces(
    m: SessionModel,
    key: Seq<u8>,
    nonces: NoncePair,
    from: nat,
    i: int,
)
    requires
        from <= i <= m.keys.len(),
        forall|j: int|
            from <= j < i ==> (#[trigger] m.keys[j] != key || m.nonces[j] != Some(nonces)),
    ensures
        i < m.keys.len() && m.keys[i] == key && m.nonces[i] == Some(nonces) ==> signer_slot(
            m,
            key,
            nonces,
            from,
        ) == Some(i),
        i == m.keys.len() ==> signer_slot(m, key, nonces, from) is None,
    decreases i - from,
{
    if from < i {
        assert(m.keys[from as int] != key || m.nonces[from as int] != Some(nonces));
        theorem_signer_is_first_with_nonces(m, key, nonces, from + 1, i);
    }
}

/// A partial signature goes to the first signer with its key that has none and for whom it
/// is valid; where there is no such signer it is refused.
pub proof fn theorem_partials_fill_first_open_slot(
    m: SessionModel,
    key: Seq<u8>,
    partial: nat,
    from: nat,
    i: int,
)
    requires
        from <= i <= m.keys.len(),
        forall|j: int|
            from <= j < i ==> (#[trigger] m.keys[j] != key || m.partials[j] is Some
                || m.valid_partial(j) != partial),
    ensures
        i < m.keys.len() && m.keys[i] == key && m.partials[i] is None && m.valid_partial(i)
            == partial ==> open_partial_slot(m, key, partial, from) == Some(i),
        i == m.keys.len() ==> open_partial_slot(m, key, partial, from) is None,
    decreases i - from,
{
    if from < i {
        assert(m.keys[from as int] != key || m.partials[from as int] is Some || m.valid_partial(
            from as int,
        ) != partial);
        theorem_partials_fill_first_open_slot(m, key, partial, from + 1, i);
    }
}

/// The signature of a session is there if and only if every partial signature is, and then
/// it is a valid signature of the message under the aggregate key.
pub proof fn theorem_session_signs_its_message(session: MusigSessionCtx, r: Option<[u8; 64]>)
    requires
        session.wf(),
        call_ensures(MusigSessionCtx::full_agg_sig, (&session,), r),
    ensures
        r is Some <==> forall|i: int|
            0 <= i < session@.partials.len() ==> (#[trigger] session@.partials[i]) is Some,
        r is Some ==> signature_valid(
            generator_multiple(agg_exponent(session@.keys, session@.tweak)).subrange(1, 33),
            session@.message,
            r->0@,
        ),
{
}

/// A session opens with the keys, the tweak and the message that it is given, with one
/// place for each signer, all empty.
pub proof fn theorem_sessions_open_empty(
    keyagg: MusigKeyAggCtx,
    message: [u8; 32],
    r: Option<MusigSessionCtx>,
    i: int,
)
    requires
        call_ensures(MusigSessionCtx::new, (&keyagg, message), r),
        0 <= i < keyagg.keys().len(),
    ensures
        r is Some,
        (r->0)@.keys == keyagg.keys(),
        (r->0)@.tweak == keyagg.tweak(),
        (r->0)@.message == message@,
        (r->0)@.nonces.len() == keyagg.keys().len(),
        (r->0)@.partials.len() == keyagg.keys().len(),
        (r->0)@.nonces[i] is None,
        (r->0)@.partials[i] is None,
{
}

/// Nonces are accepted if and only if a signer with their key has none yet. They go to the
/// first such signer, and nothing else changes.
pub proof fn theorem_nonces_are_taken_in(key: Point, hiding: Point, binding: Point)
    ensures
        forall|s: &mut MusigSessionCtx, r: bool|
            s.wf() && #[trigger] call_ensures(
                MusigSessionCtx::insert_nonce,
                (s, key, hiding, binding),
                r,
            ) ==> {
                let m = s@;
                let after = final(s)@;
                &&& after.keys == m.keys && after.tweak == m.tweak && after.message == m.message
                    && after.partials == m.partials
                &&& !r ==> after.nonces == m.nonces && forall|i: int|
                    0 <= i < m.keys.len() && #[trigger] m.keys[i] == key@ ==> m.nonces[i] is Some
                &&& r ==> exists|i: int|
                    {
                        &&& 0 <= i < m.keys.len()
                        &&& #[trigger] m.keys[i] == key@
                        &&& m.nonces[i] is None
                        &&& after.nonces == m.nonces.update(
                            i,
                            Some(NoncePair { hiding: hiding@, binding: binding@ }),
                        )
                        &&& forall|j: int|
                            0 <= j < i && #[trigger] m.keys[j] == key@ ==> m.nonces[j] is Some
                    }
            },
{
    assert forall|s: &mut MusigSessionCtx, r: bool|
        s.wf() && #[trigger] call_ensures(
            MusigSessionCtx::insert_nonce,
            (s, key, hiding, binding),
            r,
        ) implies {
        let m = s@;
        let after = final(s)@;
        &&& after.keys == m.keys && after.tweak == m.tweak && after.message == m.message
            && after.partials == m.partials
        &&& !r ==> after.nonces == m.nonces && forall|i: int|
            0 <= i < m.keys.len() && #[trigger] m.keys[i] == key@ ==> m.nonces[i] is Some
        &&& r ==> exists|i: int|
            {
                &&& 0 <= i < m.keys.len()
                &&& #[trigger] m.keys[i] == key@
                &&& m.nonces[i] is None
                &&& after.nonces == m.nonces.update(
                    i,
                    Some(NoncePair { hiding: hiding@, binding: binding@ }),
                )
                &&& forall|j: int|
                    0 <= j < i && #[trigger] m.keys[j] == key@ ==> m.nonces[j] is Some
            }
    } by {
        lemma_open_nonce_slot(s@, key@, 0);
        if r {
            let i = open_nonce_slot(s@, key@, 0)->0;
            assert(s@.keys[i] == key@);
        }
    }
}

proof fn lemma_open_nonce_slot(m: SessionModel, key: Seq<u8>, from: nat)
    ensures
        match open_nonce_slot(m, key, from) {
            None => forall|j: int|
                from <= j < m.keys.len() && #[trigger] m.keys[j] == key ==> m.nonces[j] is Some,
            Some(i) => {
                &&& from <= i < m.keys.len()
                &&& m.keys[i] == key
                &&& m.nonces[i] is None
                &&& forall|j: int|
                    from <= j < i && #[trigger] m.keys[j] == key ==> m.nonces[j] is Some
            },
        },
    decreases m.keys.len() - from,
{
    if from < m.keys.len() {
        lemma_open_nonce_slot(m, key, from + 1);
    }
}

/// A partial signature is accepted if and only if all nonces are there and do not cancel
/// out, and it is valid for a signer with its key that has none yet. It goes to the first
/// such signer, and nothing else changes.
pub proof fn theorem_partials_are_taken_in(key: Point, partial: Scalar)
    ensures
        forall|s: &mut MusigSessionCtx, r: bool|
            s.wf() && #[trigger] call_ensures(
                MusigSessionCtx::insert_partial_sig,
                (s, key, partial),
                r,
            ) ==> {
                let m = s@;
                let after = final(s)@;
                &&& after.keys == m.keys && after.tweak == m.tweak && after.message == m.message
                    && after.nonces == m.nonces
                &&& !r ==> after.partials == m.partials && (m.nonces_complete()
                    && m.nonce_exponent() != 0 ==> forall|i: int|
                    0 <= i < m.keys.len() && #[trigger] m.keys[i] == key@ && m.partials[i] is None
                        ==> m.valid_partial(i) != partial.value())
                &&& r ==> m.nonces_complete() && m.nonce_exponent() != 0 && exists|i: int|
                    {
                        &&& 0 <= i < m.keys.len()
                        &&& #[trigger] m.keys[i] == key@
                        &&& m.partials[i] is None
                        &&& m.valid_partial(i) == partial.value()
                        &&& after.partials == m.partials.update(i, Some(partial.value()))
                    }
            },
{
    assert forall|s: &mut MusigSessionCtx, r: bool|
        s.wf() && #[trigger] call_ensures(
            MusigSessionCtx::insert_partial_sig,
            (s, key, partial),
            r,
        ) implies {
        let m = s@;
        let after = final(s)@;
        &&& after.keys == m.keys && after.tweak == m.tweak && after.message == m.message
            && after.nonces == m.nonces
        &&& !r ==> after.partials == m.partials && (m.nonces_complete() && m.nonce_exponent() != 0
            ==> forall|i: int|
            0 <= i < m.keys.len() && #[trigger] m.keys[i] == key@ && m.partials[i] is None
                ==> m.valid_partial(i) != partial.value())
        &&& r ==> m.nonces_complete() && m.nonce_exponent() != 0 && exists|i: int|
            {
                &&& 0 <= i < m.keys.len()
                &&& #[trigger] m.keys[i] == key@
                &&& m.partials[i] is None
                &&& m.valid_partial(i) == partial.value()
                &&& after.partials == m.partials.update(i, Some(partial.value()))
            }
    } by {
        lemma_open_partial_slot(s@, key@, partial.value(), 0);
        if r {
            let i = open_partial_slot(s@, key@, partial.value(), 0)->0;
            assert(s@.keys[i] == key@);
        }
    }
}

proof fn lemma_open_partial_slot(m: SessionModel, key: Seq<u8>, partial: nat, from: nat)
    ensures
        match open_partial_slot(m, key, partial, from) {
            None => forall|j: int|
                from <= j < m.keys.len() && #[trigger] m.keys[j] == key && m.partials[j] is None
                    ==> m.valid_partial(j) != partial,
            Some(i) => {
                &&& from <= i < m.keys.len()
                &&& m.keys[i] == key
                &&& m.partials[i] is None
                &&& m.valid_partial(i) == partial
            },
        },
    decreases m.keys.len() - from,
{
    if from < m.keys.len() {
        lemma_open_partial_slot(m, key, partial, from + 1);
    }
}

/// The coefficient of the second nonces where nonces cancel out: an aggregate nonce that is
/// infinity is hashed as 33 zero bytes, any other as its point.
pub proof fn theorem_nonce_coefficient_of_any_session(
    m: SessionModel,
    hiding: Seq<u8>,
    binding: Seq<u8>,
)
    requires
        m.hiding_exponent() == 0 ==> hiding == Seq::new(33, |i: int| 0u8),
        m.hiding_exponent() != 0 ==> hiding == generator_multiple(m.hiding_exponent()),
        m.binding_exponent() == 0 ==> binding == Seq::new(33, |i: int| 0u8),
        m.binding_exponent() != 0 ==> binding == generator_multiple(m.binding_exponent()),
    ensures
        m.nonce_coefficient() == be_nat(
            tagged_hash_of(
                "MuSig/noncecoef",
                hiding + binding + generator_multiple(agg_exponent(m.keys, m.tweak)).subrange(1, 33)
                    + m.message,
            ),
        ) % curve_order(),
{
}

} // verus!

//! Schnorr signatures of BIP-340.
use vstd::prelude::*;
use crate::bytes::{
    array32, be_bytes, be_nat, bytes_eq, join64, lemma_be_bytes_len, lemma_be_bytes_of_nat,
    lemma_be_nat_of_bytes, push_slice,
};
use crate::curve::{
    curve_order, discrete_log, even_point, generator_multiple, generator_times, is_point, is_scalar,
    lemma_even_point, lemma_order_fits, multiple_or_infinity, names_point, point_multiple,
    point_sum, x_of, with_even_y, Point, Residue, Scalar,
};
use crate::hash::{tagged_hash, tagged_hash_of};
use crate::modular::{
    congruent, lemma_congruent_add, lemma_congruent_mul, lemma_congruent_refl,
    lemma_congruent_same_mod, lemma_congruent_sym, lemma_congruent_trans, lemma_mod_congruent,
    lemma_order_minus,
};

verus! {

/// The challenge of a signature: nonce, key and message, hashed to a residue.
pub open spec fn challenge_of(nonce_x: Seq<u8>, key_x: Seq<u8>, message: Seq<u8>) -> nat {
    be_nat(tagged_hash_of("BIP0340/challenge", nonce_x + key_x + message)) % curve_order()
}

/// Computes a challenge.
pub fn challenge(nonce_x: &[u8; 32], key_x: &[u8; 32], message: &[u8; 32]) -> (e: Residue)
    ensures
        e.value() == challenge_of(nonce_x@, key_x@, message@),
{
    let mut preimage: Vec<u8> = Vec::new();
    push_slice(&mut preimage, nonce_x);
    push_slice(&mut preimage, key_x);
    push_slice(&mut preimage, message);
    assert(preimage@ =~= nonce_x@ + key_x@ + message@);
    Residue::reduce(&tagged_hash("BIP0340/challenge", &preimage))
}

/// The multiple of the generator that verification arrives at: `s - e * key`.
pub open spec fn verification_nonce(s: nat, e: nat, key: nat) -> nat {
    (s + ((curve_order() - e) as nat % curve_order()) * key) % curve_order()
}

/// Whether a 64-byte signature of a message is valid under an X-only key: the key
/// is on the curve, `s` is below the group order, and `s * G - e * P` is the point
/// with the X coordinate of the signature and an even Y.
pub open spec fn signature_valid(key_x: Seq<u8>, message: Seq<u8>, signature: Seq<u8>) -> bool {
    let nonce_x = signature.subrange(0, 32);
    let s = be_nat(signature.subrange(32, 64));
    let k = verification_nonce(
        s,
        challenge_of(nonce_x, key_x, message),
        discrete_log(even_point(key_x)),
    );
    &&& is_point(even_point(key_x))
    &&& s < curve_order()
    &&& multiple_or_infinity(k) == Some(even_point(nonce_x))
}

/// Verifies a signature under an X-only key.
pub fn verify_xonly(key_x: [u8; 32], message: [u8; 32], signature: [u8; 64]) -> (r: bool)
    ensures
        r == signature_valid(key_x@, message@, signature@),
{
    let nonce_x = array32(&signature, 0);
    let s_bytes = array32(&signature, 32);
    let key = match Point::lift_x(&key_x) {
        None => {
            return false;
        },
        Some(p) => p,
    };
    let s = match Residue::from_slice(&s_bytes) {
        None => {
            return false;
        },
        Some(s) => s,
    };
    let e = challenge(&nonce_x, &key_x, &message);
    let minus_e = e.negate();
    let r1 = generator_times(&s);
    let r2 = point_multiple(&Some(key), &minus_e);
    let nonce = point_sum(&r1, &r2);
    proof {
        let n = curve_order() as int;
        let p = key.exponent() as int;
        let m = minus_e.value() as int;
        assert(p * m == m * p) by (nonlinear_arith);
        lemma_mod_congruent(m * p);
        lemma_congruent_refl(s.value() as int);
        lemma_congruent_add(s.value() as int, s.value() as int, (m * p) % n, m * p);
        lemma_congruent_same_mod(s.value() + (m * p) % n, s.value() + m * p);
    }
    match nonce {
        None => false,
        Some(point) => {
            let bytes = point.serialize();
            let mut expected: Vec<u8> = Vec::new();
            expected.push(2);
            push_slice(&mut expected, &nonce_x);
            assert(expected@ =~= even_point(nonce_x@));
            bytes_eq(&bytes, &expected)
        },
    }
}

/// The bytewise exclusive or of two 32-byte strings.
pub open spec fn xor32(a: Seq<u8>, b: Seq<u8>) -> Seq<u8> {
    Seq::new(32, |i: int| a[i] ^ b[i])
}

/// The deterministic nonce of a signature: zero where the hash reduces to zero.
pub open spec fn signing_nonce(secret: nat, key_x: Seq<u8>, message: Seq<u8>) -> nat {
    let aux = tagged_hash_of("BIP0340/aux", Seq::new(32, |i: int| 0u8));
    let t = xor32(be_bytes(secret, 32), aux);
    be_nat(tagged_hash_of("BIP0340/nonce", t + key_x + message)) % curve_order()
}

/// The signature of a message under a secret, with the deterministic nonce.
pub open spec fn signature_of(secret: nat, message: Seq<u8>) -> Option<Seq<u8>> {
    let key_x = x_of(generator_multiple(secret));
    let d = with_even_y(secret);
    let k0 = signing_nonce(d, key_x, message);
    if k0 == 0 {
        None
    } else {
        let nonce_x = x_of(generator_multiple(k0));
        let s = (with_even_y(k0) + challenge_of(nonce_x, key_x, message) * d) % curve_order();
        Some(nonce_x + be_bytes(s, 32))
    }
}

/// The signing equation makes the verification equation hold: `s - e * d` is the
/// nonce again.
pub proof fn lemma_signature_holds(s: nat, k: nat, e: nat, d: nat)
    requires
        s < curve_order(),
        k < curve_order(),
        e < curve_order(),
        congruent(s as int, (k + e * d) as int),
    ensures
        verification_nonce(s, e, d) == k,
{
    let n = curve_order() as int;
    let m = (n - e) % n;
    lemma_mod_congruent(n - e);
    lemma_order_minus(e as int);
    lemma_congruent_trans(m, n - e, -e);
    lemma_congruent_refl(d as int);
    lemma_congruent_mul(m, -e, d as int, d as int);
    lemma_congruent_add(s as int, (k + e * d) as int, m * d, (-e) * d);
    assert((k + e * d) + (-e) * d == k) by (nonlinear_arith);
    lemma_congruent_same_mod(s + m * d, k as int);
    vstd::arithmetic::div_mod::lemma_small_mod(k, curve_order());
}

/// A signature that meets the signing equation is valid: the nonce is the point of
/// `r`, the key that of `q`, and `s` is the even-Y nonce plus the challenge times the
/// even-Y secret.
pub proof fn lemma_valid_signature(q: nat, r: nat, message: Seq<u8>, s: nat)
    requires
        names_point(q),
        names_point(r),
        s < curve_order(),
        congruent(
            s as int,
            (with_even_y(r) + challenge_of(
                x_of(generator_multiple(r)),
                x_of(generator_multiple(q)),
                message,
            ) * with_even_y(q)) as int,
        ),
    ensures
        signature_valid(
            x_of(generator_multiple(q)),
            message,
            x_of(generator_multiple(r)) + be_bytes(s, 32),
        ),
{
    let key_x = x_of(generator_multiple(q));
    let nonce_x = x_of(generator_multiple(r));
    let signature = nonce_x + be_bytes(s, 32);
    let e = challenge_of(nonce_x, key_x, message);
    lemma_even_point(generator_multiple(q));
    lemma_even_point(generator_multiple(r));
    lemma_mod_congruent(
        be_nat(tagged_hash_of("BIP0340/challenge", nonce_x + key_x + message)) as int,
    );
    lemma_signature_holds(s, with_even_y(r), e, with_even_y(q));
    lemma_be_bytes_len(s, 32);
    lemma_order_fits();
    lemma_be_nat_of_bytes(s, 32);
    assert(signature.subrange(0, 32) =~= nonce_x);
    assert(signature.subrange(32, 64) =~= be_bytes(s, 32));
}

/// Signs a message. Fails if the secret is not a scalar, or in the (negligible)
/// event that the nonce hashes to zero.
pub fn sign(secret: [u8; 32], message: [u8; 32]) -> (r: Option<[u8; 64]>)
    ensures
        match r {
            None => !is_scalar(secret@) || signature_of(be_nat(secret@), message@) is None,
            Some(sig) => {
                &&& is_scalar(secret@)
                &&& signature_of(be_nat(secret@), message@) == Some(sig@)
                &&& signature_valid(x_of(generator_multiple(be_nat(secret@))), message@, sig@)
            },
        },
{
    let secret_scalar = match Scalar::from_slice(&secret) {
        None => {
            return None;
        },
        Some(s) => s,
    };
    let key = secret_scalar.base_point_mul();
    let key_x = key.serialize_xonly();
    let d = secret_scalar.even_secret();
    let zeros: [u8; 32] = [0u8; 32];
    assert(zeros@ =~= Seq::new(32, |i: int| 0u8));
    let aux = tagged_hash("BIP0340/aux", &zeros);
    let d_bytes = d.serialize();
    let mut preimage: Vec<u8> = Vec::new();
    let mut i: usize = 0;
    while i < 32
        invariant
            i <= 32,
            preimage@.len() == i,
            forall|j: int| 0 <= j < i ==> preimage@[j] == d_bytes@[j] ^ aux@[j],
        decreases 32 - i,
    {
        preimage.push(d_bytes[i] ^ aux[i]);
        i = i + 1;
    }
    proof {
        lemma_be_bytes_of_nat(d_bytes@);
    }
    assert(preimage@ =~= xor32(be_bytes(d.value(), 32), aux@));
    push_slice(&mut preimage, &key_x);
    push_slice(&mut preimage, &message);
    assert(preimage@ =~= xor32(be_bytes(d.value(), 32), aux@) + key_x@ + message@);
    let nonce = match Residue::reduce(&tagged_hash("BIP0340/nonce", &preimage)).nonzero() {
        None => {
            return None;
        },
        Some(k) => k,
    };
    let nonce_point = nonce.base_point_mul();
    let nonce_x = nonce_point.serialize_xonly();
    let k = nonce.even_secret();
    let e = challenge(&nonce_x, &key_x, &message);
    let ed = e.times(&d.residue());
    let s = k.residue().plus(&ed);
    let sig = join64(&nonce_x, &s.serialize());
    proof {
        let n = curve_order() as int;
        let kv = k.value() as int;
        let ev = e.value() as int;
        let dv = d.value() as int;
        lemma_mod_congruent(ev * dv);
        lemma_congruent_refl(kv);
        lemma_congruent_add(kv, kv, (ev * dv) % n, ev * dv);
        lemma_congruent_same_mod(kv + (ev * dv) % n, kv + ev * dv);
        lemma_mod_congruent(kv + ev * dv);
        use_type_invariant(&s);
        use_type_invariant(&e);
        use_type_invariant(&k);
        lemma_be_bytes_of_nat(s.encoding());
        assert(sig@ =~= nonce_x@ + be_bytes(s.value(), 32));
        assert(sig@.subrange(0, 32) =~= nonce_x@);
        assert(sig@.subrange(32, 64) =~= s.encoding());
        lemma_signature_holds(s.value(), k.value(), ev as nat, d.value());
        use_type_invariant(&k);
        use_type_invariant(&d);
    }
    Some(sig)
}

/// A challenge is hashed from nonce, key and message, in this order and with nothing left
/// out.
pub proof fn theorem_challenge_covers_all(
    nonce_x: [u8; 32],
    key_x: [u8; 32],
    message: [u8; 32],
    e: Residue,
)
    requires
        call_ensures(challenge, (&nonce_x, &key_x, &message), e),
    ensures
        exists|p: Seq<u8>|
            {
                &&& e.value() == be_nat(#[trigger] tagged_hash_of("BIP0340/challenge", p))
                    % curve_order()
                &&& p.len() == 96
                &&& p.subrange(0, 32) == nonce_x@
                &&& p.subrange(32, 64) == key_x@
                &&& p.subrange(64, 96) == message@
            },
{
    let p = nonce_x@ + key_x@ + message@;
    assert(p.subrange(0, 32) =~= nonce_x@);
    assert(p.subrange(32, 64) =~= key_x@);
    assert(p.subrange(64, 96) =~= message@);
    assert(e.value() == be_nat(tagged_hash_of("BIP0340/challenge", p)) % curve_order());
}

/// The verification equation: a signature is accepted if and only if the key is on the
/// curve, `s` is below the group order, and `s` is the number of a nonce point with the
/// X coordinate of the signature and an even Y, plus the challenge times the secret of
/// the key.
pub proof fn theorem_verification_equation(
    key_x: [u8; 32],
    message: [u8; 32],
    signature: [u8; 64],
    nonce_x: [u8; 32],
    e: Residue,
    r: bool,
)
    requires
        call_ensures(verify_xonly, (key_x, message, signature), r),
        nonce_x@ == signature@.subrange(0, 32),
        call_ensures(challenge, (&nonce_x, &key_x, &message), e),
    ensures
        r <==> {
            let s = be_nat(signature@.subrange(32, 64));
            &&& is_point(seq![2u8] + key_x@)
            &&& s < curve_order()
            &&& exists|k: nat|
                {
                    &&& 0 < k < curve_order()
                    &&& #[trigger] generator_multiple(k) == seq![2u8] + nonce_x@
                    &&& congruent(
                        s as int,
                        (k + e.value() * discrete_log(seq![2u8] + key_x@)) as int,
                    )
                }
        },
{
    let n = curve_order() as int;
    lemma_mod_congruent(
        be_nat(tagged_hash_of("BIP0340/challenge", nonce_x@ + key_x@ + message@)) as int,
    );
    let s = be_nat(signature@.subrange(32, 64));
    let d = discrete_log(seq![2u8] + key_x@);
    let m = (n - e.value()) % n;
    let v = verification_nonce(s, e.value(), d);
    lemma_mod_congruent(s + m * d);
    lemma_mod_congruent(n - e.value());
    lemma_order_minus(e.value() as int);
    lemma_congruent_trans(m, n - e.value(), -(e.value() as int));
    lemma_congruent_refl(d as int);
    lemma_congruent_mul(m, -(e.value() as int), d as int, d as int);
    lemma_congruent_refl(s as int);
    lemma_congruent_add(s as int, s as int, m * d, (-(e.value() as int)) * d);
    assert((-(e.value() as int)) * d == -((e.value() * d) as int)) by (nonlinear_arith);
    lemma_congruent_trans(v as int, s + m * d, s - e.value() * d);
    lemma_congruent_refl((e.value() * d) as int);
    lemma_congruent_add(
        v as int,
        s - e.value() * d,
        (e.value() * d) as int,
        (e.value() * d) as int,
    );
    lemma_congruent_sym((v + e.value() * d) as int, s as int);
    if r {
        assert(generator_multiple(v) == seq![2u8] + nonce_x@);
    } else if is_point(seq![2u8] + key_x@) && s < curve_order() {
        assert forall|k: nat|
            {
                &&& 0 < k < curve_order()
                &&& #[trigger] generator_multiple(k) == seq![2u8] + nonce_x@
            } implies !congruent(s as int, (k + e.value() * d) as int) by {
            if congruent(s as int, (k + e.value() * d) as int) {
                lemma_signature_holds(s, k, e.value(), d);
            }
        }
    }
}

/// The signature that is made: its nonce is hashed from the masked even-Y secret, the key
/// and the message, its first half is the X coordinate of the nonce point, and its second
/// half solves the verification equation. There is none only where the secret is not a
/// scalar or the nonce is zero.
pub proof fn theorem_signing_equation(
    secret: [u8; 32],
    message: [u8; 32],
    r: Option<[u8; 64]>,
    d: nat,
    key_x: Seq<u8>,
)
    requires
        call_ensures(sign, (secret, message), r),
        is_scalar(secret@),
        names_point(be_nat(secret@)),
        key_x == generator_multiple(be_nat(secret@)).subrange(1, 33),
        d == if generator_multiple(be_nat(secret@))[0] == 2 {
            be_nat(secret@)
        } else {
            (curve_order() - be_nat(secret@)) as nat
        },
    ensures
        exists|p: Seq<u8>|
            {
                let k = be_nat(#[trigger] tagged_hash_of("BIP0340/nonce", p)) % curve_order();
                &&& p.len() == 96
                &&& forall|i: int|
                    0 <= i < 32 ==> #[trigger] p[i] == be_bytes(d, 32)[i] ^ tagged_hash_of(
                        "BIP0340/aux",
                        Seq::new(32, |j: int| 0u8),
                    )[i]
                &&& p.subrange(32, 64) == key_x
                &&& p.subrange(64, 96) == message@
                &&& r is None <==> k == 0
                &&& r is Some ==> r->0@.subrange(0, 32) == x_of(generator_multiple(k))
            },
        r is Some ==> signature_valid(key_x, message@, r->0@),
{
    let aux = tagged_hash_of("BIP0340/aux", Seq::new(32, |j: int| 0u8));
    let t = xor32(be_bytes(d, 32), aux);
    let p = t + key_x + message@;
    assert(key_x.len() == 32);
    assert(p.subrange(32, 64) =~= key_x);
    assert(p.subrange(64, 96) =~= message@);
    assert forall|i: int| 0 <= i < 32 implies #[trigger] p[i] == be_bytes(d, 32)[i] ^ aux[i] by {
        assert(p[i] == t[i]);
    }
    let k = be_nat(tagged_hash_of("BIP0340/nonce", p)) % curve_order();
    assert(k == signing_nonce(d, key_x, message@));
    if r is Some {
        let nonce_x = x_of(generator_multiple(k));
        let s = (with_even_y(k) + challenge_of(nonce_x, key_x, message@) * d) % curve_order();
        lemma_be_bytes_len(s, 32);
        assert(r->0@ == nonce_x + be_bytes(s, 32));
        assert(r->0@.subrange(0, 32) =~= x_of(generator_multiple(k)));
    }
}

} // verus!

//! Projected keys: MuSig2 keys that are bound to values.
//!
//! Key aggregation alone commits to who signs. Before aggregating, every key is
//! moved by a tweak that depends on the value that its signer stands for and on the
//! signer's index, so that the aggregate key changes with the values.
use vstd::prelude::*;
use crate::bytes::{
    be_bytes, be_nat, byte_limit, lemma_be_bytes_len, lemma_be_nat_of_bytes, push_be,
};
use crate::curve::{
    curve_order, discrete_log, generator_multiple, names_point, point_sum, Point, Residue, Scalar,
};
use crate::hash::{tagged_hash, tagged_hash_of};
use crate::modular::{
    lemma_congruent_add, lemma_congruent_refl, lemma_congruent_small, lemma_congruent_trans,
    lemma_mod_congruent,
};
use crate::musig::{
    aggregates, encodings, keys_bytes, lemma_keys_bytes_injective, tweak_value, MusigKeyAggCtx,
};

verus! {

/// What a projection tweak is the hash of: the value in 8 and the index in 4 bytes.
pub open spec fn projection_preimage(value: u64, index: u32) -> Seq<u8> {
    be_bytes(value as nat, 8) + be_bytes(index as nat, 4)
}

/// The projection tweak of a value at an index.
pub open spec fn projection_tweak_of(value: u64, index: u32) -> nat {
    be_nat(tagged_hash_of("CubeProjector", projection_preimage(value, index))) % curve_order()
}

/// A key or a secret, as a number, moved by the projection tweak. `None` where the
/// tweak or the sum is zero.
pub open spec fn projected(k: nat, value: u64, index: u32) -> Option<nat> {
    let t = projection_tweak_of(value, index);
    let sum = (k + t) % curve_order();
    if t == 0 || sum == 0 {
        None
    } else {
        Some(sum)
    }
}

/// The projection tweak: `H_tag("CubeProjector", value || index)`, reduced. Fails
/// where it reduces to zero.
pub fn projection_tweak(value_in_satoshis: u64, index: u32) -> (r: Option<Scalar>)
    ensures
        match r {
            None => projection_tweak_of(value_in_satoshis, index) == 0,
            Some(t) => {
                &&& t.value() == projection_tweak_of(value_in_satoshis, index)
                &&& t.value() != 0
            },
        },
{
    let mut preimage: Vec<u8> = Vec::new();
    push_be(&mut preimage, value_in_satoshis, 8);
    push_be(&mut preimage, index as u64, 4);
    assert(preimage@ =~= projection_preimage(value_in_satoshis, index));
    Residue::reduce(&tagged_hash("CubeProjector", &preimage)).nonzero()
}

/// Projects a public key: `pk' = pk + t * G`.
pub fn project_public_key(public_key: Point, value_in_satoshis: u64, index: u32) -> (r: Option<
    Point,
>)
    ensures
        match r {
            None => projected(public_key.exponent(), value_in_satoshis, index) is None,
            Some(p) => {
                &&& projected(public_key.exponent(), value_in_satoshis, index) == Some(
                    p.exponent(),
                )
                &&& p@ == generator_multiple(p.exponent())
            },
        },
{
    match projection_tweak(value_in_satoshis, index) {
        None => None,
        Some(tweak) => point_sum(&Some(public_key), &Some(tweak.base_point_mul())),
    }
}

/// Projects a secret key: `sk' = sk + t`.
pub fn project_secret_key(secret_key: Scalar, value_in_satoshis: u64, index: u32) -> (r: Option<
    Scalar,
>)
    ensures
        match r {
            None => projected(secret_key.value(), value_in_satoshis, index) is None,
            Some(s) => projected(secret_key.value(), value_in_satoshis, index) == Some(s.value()),
        },
{
    match projection_tweak(value_in_satoshis, index) {
        None => None,
        Some(tweak) => secret_key.residue().plus(&tweak.residue()).nonzero(),
    }
}

/// Keys by their encodings, with the values they are bound to.
pub open spec fn key_values(keys: Seq<(Point, u64)>) -> Seq<(Seq<u8>, u64)> {
    Seq::new(keys.len(), |i: int| (keys[i].0@, keys[i].1))
}

/// The low 32 bits of a position.
pub open spec fn position_index(i: int) -> u32 {
    (i % 0x1_0000_0000) as u32
}

/// The key at a position, projected by its value and position.
pub open spec fn projected_at(keys: Seq<(Seq<u8>, u64)>, i: int) -> Option<nat> {
    projected(discrete_log(keys[i].0), keys[i].1, position_index(i))
}

/// Whether every key can be projected.
pub open spec fn all_projected(keys: Seq<(Seq<u8>, u64)>) -> bool {
    forall|i: int| 0 <= i < keys.len() ==> (#[trigger] projected_at(keys, i)) is Some
}

/// The projected keys.
pub open spec fn projected_keys(keys: Seq<(Seq<u8>, u64)>) -> Seq<Seq<u8>> {
    Seq::new(keys.len(), |i: int| generator_multiple(projected_at(keys, i)->0))
}

/// Whether keys have a projector aggregate.
pub open spec fn projector_aggregates(keys: Seq<(Seq<u8>, u64)>, tweak: Option<nat>) -> bool {
    all_projected(keys) && aggregates(projected_keys(keys), tweak)
}

/// Projects every key by its value and position, then aggregates the keys.
pub fn key_projector_agg(keys_and_values: &[(Point, u64)], taproot_tweak: Option<Scalar>) -> (r:
    Option<MusigKeyAggCtx>)
    ensures
        match r {
            None => !projector_aggregates(
                key_values(keys_and_values@),
                tweak_value(taproot_tweak),
            ),
            Some(ctx) => {
                &&& projector_aggregates(key_values(keys_and_values@), tweak_value(taproot_tweak))
                &&& ctx.keys() == projected_keys(key_values(keys_and_values@))
                &&& ctx.tweak() == tweak_value(taproot_tweak)
            },
        },
{
    let ghost all = key_values(keys_and_values@);
    let mut keys: Vec<Point> = Vec::new();
    let mut i: usize = 0;
    while i < keys_and_values.len()
        invariant
            i <= keys_and_values@.len(),
            all == key_values(keys_and_values@),
            keys@.len() == i,
            forall|j: int|
                0 <= j < i ==> {
                    &&& (#[trigger] projected_at(all, j)) is Some
                    &&& keys@[j]@ == generator_multiple(projected_at(all, j)->0)
                },
        decreases keys_and_values@.len() - i,
    {
        let wide: u64 = i as u64;
        let index: u32 = wide as u32;
        assert(wide as u32 == wide % 0x1_0000_0000) by (bit_vector);
        let pair = &keys_and_values[i];
        match project_public_key(pair.0, pair.1, index) {
            None => {
                assert(projected_at(all, i as int) is None);
                return None;
            },
            Some(p) => {
                assert(projected_at(all, i as int) == Some(p.exponent()));
                keys.push(p);
            },
        }
        i = i + 1;
    }
    assert(encodings(keys@) =~= projected_keys(all));
    MusigKeyAggCtx::new(&keys, taproot_tweak)
}

/// The projected secret is the secret of the projected public key: both move by the
/// same tweak, and both or neither can be projected.
pub proof fn theorem_projected_secret_opens_projected_key(secret: nat, value: u64, index: u32)
    requires
        names_point(secret),
    ensures
        projected(secret, value, index) == projected(
            discrete_log(generator_multiple(secret)),
            value,
            index,
        ),
{
}

/// Different values or different indices are hashed from different preimages.
pub proof fn theorem_projection_preimage_injective(
    value1: u64,
    index1: u32,
    value2: u64,
    index2: u32,
)
    requires
        projection_preimage(value1, index1) == projection_preimage(value2, index2),
    ensures
        value1 == value2,
        index1 == index2,
{
    reveal_with_fuel(byte_limit, 9);
    let p = projection_preimage(value1, index1);
    lemma_be_bytes_len(value1 as nat, 8);
    lemma_be_bytes_len(value2 as nat, 8);
    lemma_be_bytes_len(index1 as nat, 4);
    lemma_be_bytes_len(index2 as nat, 4);
    assert(p.subrange(0, 8) =~= be_bytes(value1 as nat, 8));
    assert(p.subrange(0, 8) =~= be_bytes(value2 as nat, 8));
    assert(p.subrange(8, 12) =~= be_bytes(index1 as nat, 4));
    assert(p.subrange(8, 12) =~= be_bytes(index2 as nat, 4));
    lemma_be_nat_of_bytes(value1 as nat, 8);
    lemma_be_nat_of_bytes(value2 as nat, 8);
    lemma_be_nat_of_bytes(index1 as nat, 4);
    lemma_be_nat_of_bytes(index2 as nat, 4);
}

/// A key is bound to its value: projections of one key by different tweaks are
/// different keys.
pub proof fn theorem_projection_binds_value(
    k: nat,
    value1: u64,
    index1: u32,
    value2: u64,
    index2: u32,
)
    requires
        projected(k, value1, index1) is Some,
        projected(k, value2, index2) is Some,
        projection_tweak_of(value1, index1) != projection_tweak_of(value2, index2),
    ensures
        projected(k, value1, index1) != projected(k, value2, index2),
{
    let n = curve_order() as int;
    let t1 = projection_tweak_of(value1, index1) as int;
    let t2 = projection_tweak_of(value2, index2) as int;
    if (k + t1) % n == (k + t2) % n {
        lemma_mod_congruent(k + t1);
        lemma_mod_congruent(k + t2);
        lemma_congruent_trans(k + t1, (k + t1) % n, k + t2);
        lemma_congruent_refl(-k);
        lemma_congruent_add(k + t1, k + t2, -k, -k);
        lemma_congruent_small(t1, t2);
    }
}

/// An aggregate is bound to its values: where the same keys stand for other values, and
/// the tweak of one key changes with them, the aggregate is taken of other keys and of
/// another hash of them.
pub proof fn theorem_aggregate_binds_values(
    keys1: Seq<(Seq<u8>, u64)>,
    keys2: Seq<(Seq<u8>, u64)>,
    i: int,
)
    requires
        keys1.len() == keys2.len(),
        all_projected(keys1),
        all_projected(keys2),
        forall|j: int| 0 <= j < keys1.len() ==> names_point((#[trigger] projected_at(keys1, j))->0),
        forall|j: int| 0 <= j < keys2.len() ==> names_point((#[trigger] projected_at(keys2, j))->0),
        0 <= i < keys1.len(),
        keys1[i].0 == keys2[i].0,
        projection_tweak_of(keys1[i].1, position_index(i)) != projection_tweak_of(
            keys2[i].1,
            position_index(i),
        ),
    ensures
        projected_keys(keys1) != projected_keys(keys2),
        keys_bytes(projected_keys(keys1)) != keys_bytes(projected_keys(keys2)),
{
    let a = projected_keys(keys1);
    let b = projected_keys(keys2);
    theorem_projection_binds_value(
        discrete_log(keys1[i].0),
        keys1[i].1,
        position_index(i),
        keys2[i].1,
        position_index(i),
    );
    assert(projected_at(keys1, i) is Some);
    assert(projected_at(keys2, i) is Some);
    assert(a[i] != b[i]);
    if keys_bytes(a) == keys_bytes(b) {
        assert forall|j: int| 0 <= j < a.len() implies (#[trigger] a[j]).len() == 33 by {
            assert(names_point(projected_at(keys1, j)->0));
        }
        assert forall|j: int| 0 <= j < b.len() implies (#[trigger] b[j]).len() == 33 by {
            assert(names_point(projected_at(keys2, j)->0));
        }
        lemma_keys_bytes_injective(a, b);
    }
}

/// What a projection adds to a key: a number that is hashed from the value in eight bytes
/// and the index in four, and from nothing else. There is a projection if and only if
/// neither that number nor the sum is zero.
pub proof fn theorem_projection_adds_hash(k: nat, value: u64, index: u32)
    ensures
        exists|p: Seq<u8>|
            {
                let t = be_nat(#[trigger] tagged_hash_of("CubeProjector", p)) % curve_order();
                &&& p.len() == 12
                &&& be_nat(p.subrange(0, 8)) == value
                &&& be_nat(p.subrange(8, 12)) == index
                &&& projection_tweak_of(value, index) == t
                &&& projected(k, value, index) is Some <==> t != 0 && (k + t) % curve_order() != 0
                &&& projected(k, value, index) is Some ==> projected(k, value, index)->0 == (k + t)
                    % curve_order()
            },
{
    reveal_with_fuel(byte_limit, 9);
    let p = projection_preimage(value, index);
    lemma_be_bytes_len(value as nat, 8);
    lemma_be_bytes_len(index as nat, 4);
    lemma_be_nat_of_bytes(value as nat, 8);
    lemma_be_nat_of_bytes(index as nat, 4);
    assert(p.subrange(0, 8) =~= be_bytes(value as nat, 8));
    assert(p.subrange(8, 12) =~= be_bytes(index as nat, 4));
    assert(be_nat(tagged_hash_of("CubeProjector", p)) % curve_order() == projection_tweak_of(
        value,
        index,
    ));
}

/// Every key is projected at its own position by its own value, and stays in its place;
/// positions count from zero.
pub proof fn theorem_keys_are_projected_in_place(keys: Seq<(Seq<u8>, u64)>, i: int)
    requires
        0 <= i < keys.len(),
        i < 0x1_0000_0000,
    ensures
        projected_keys(keys).len() == keys.len(),
        position_index(i) == i,
        projected_keys(keys)[i] == generator_multiple(
            projected(discrete_log(keys[i].0), keys[i].1, i as u32)->0,
        ),
        projector_aggregates(keys, None) ==> projected(discrete_log(keys[i].0), keys[i].1, i as u32)
            is Some,
{
    assert(projector_aggregates(keys, None) ==> projected_at(keys, i) is Some);
}

/// Different keys have different projections at one position with one value.
pub proof fn theorem_projection_keeps_keys_apart(k1: nat, k2: nat, value: u64, index: u32)
    requires
        k1 < curve_order(),
        k2 < curve_order(),
        k1 != k2,
        projected(k1, value, index) is Some,
        projected(k2, value, index) is Some,
    ensures
        projected(k1, value, index) != projected(k2, value, index),
{
    let n = curve_order() as int;
    let t = projection_tweak_of(value, index) as int;
    if (k1 + t) % n == (k2 + t) % n {
        lemma_mod_congruent(k1 + t);
        lemma_mod_congruent(k2 + t);
        lemma_congruent_trans(k1 + t, (k1 + t) % n, k2 + t);
        lemma_congruent_refl(-t);
        lemma_congruent_add(k1 + t, k2 + t, -t, -t);
        lemma_congruent_small(k1 as int, k2 as int);
    }
}

/// The aggregate of projected keys is taken of exactly these keys, and there is one if
/// and only if every key has a projection and they aggregate.
pub proof fn theorem_aggregate_is_of_projected_keys(
    keys: &[(Point, u64)],
    tweak: Option<Scalar>,
    r: Option<MusigKeyAggCtx>,
    i: int,
)
    requires
        call_ensures(key_projector_agg, (keys, tweak), r),
        keys@.len() <= 0x1_0000_0000,
        0 <= i < keys@.len(),
    ensures
        r is Some ==> {
            &&& (r->0).keys().len() == keys@.len()
            &&& (r->0).keys()[i] == generator_multiple(
                projected(discrete_log(keys@[i].0@), keys@[i].1, i as u32)->0,
            )
            &&& (r->0).tweak() == tweak_value(tweak)
        },
        projected(discrete_log(keys@[i].0@), keys@[i].1, i as u32) is None ==> r is None,
{
    let all = key_values(keys@);
    assert(all[i] == (keys@[i].0@, keys@[i].1));
    theorem_keys_are_projected_in_place(all, i);
    if r is Some {
        assert(projected_at(all, i) is Some);
    }
}

} // verus!

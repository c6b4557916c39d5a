//! Scalars and points of secp256k1, as plain bytes.
//!
//! A scalar is its 32-byte big-endian encoding, a point its 33-byte compressed
//! encoding. The group is cyclic of prime order, so every point is a multiple of
//! the generator; contracts speak of points through that multiple.
use vstd::prelude::*;
use crate::bytes::{
    array32, be_nat, byte_limit, bytes_eq, lemma_be_nat_injective, lemma_be_nat_zeros,
};

verus! {

/// The order of the group.
pub open spec fn curve_order() -> nat {
    0xFFFFFFFFFFFFFFFFFFFFFFFFFFFFFFFEBAAEDCE6AF48A03BBFD25E8CD0364141nat
}

/// Whether a byte sequence is the big-endian encoding of a nonzero scalar.
pub open spec fn is_scalar(encoding: Seq<u8>) -> bool {
    &&& encoding.len() == 32
    &&& 0 < be_nat(encoding) < curve_order()
}

/// The compressed encoding of the `k`-th multiple of the generator
/// (`0 < k < curve_order()`).
pub uninterp spec fn generator_multiple(k: nat) -> Seq<u8>;

/// Whether a byte sequence is the compressed encoding of a point (not infinity).
pub open spec fn is_point(encoding: Seq<u8>) -> bool {
    exists|k: nat| 0 < k < curve_order() && #[trigger] generator_multiple(k) == encoding
}

/// Whether a byte string of any length is the compressed encoding of a point.
pub open spec fn is_compressed_point(bytes: Seq<u8>) -> bool {
    bytes.len() == 33 && is_point(bytes)
}

/// The multiple of the generator that a point is.
pub open spec fn discrete_log(encoding: Seq<u8>) -> nat {
    choose|k: nat| 0 < k < curve_order() && #[trigger] generator_multiple(k) == encoding
}

/// A compressed encoding as the outside library writes it: the parity of Y, then X.
pub open spec fn has_point_form(encoding: Seq<u8>) -> bool {
    &&& encoding.len() == 33
    &&& encoding[0] == 2 || encoding[0] == 3
}

/// The encoding with the same X coordinate and the other parity.
pub open spec fn mirrored(encoding: Seq<u8>) -> Seq<u8> {
    seq![(5 - encoding[0]) as u8] + x_of(encoding)
}

/// What holds of the compressed encoding of every point: its form, and that the
/// inverse of the point has the same X coordinate and the other parity.
pub open spec fn is_curve_point(encoding: Seq<u8>) -> bool {
    &&& is_point(encoding)
    &&& has_point_form(encoding)
    &&& is_point(mirrored(encoding))
    &&& discrete_log(mirrored(encoding)) == curve_order() - discrete_log(encoding)
}

/// Whether the Y coordinate of a point is even.
pub open spec fn has_even_y_of(encoding: Seq<u8>) -> bool {
    encoding[0] == 2
}

/// The X coordinate of a point.
pub open spec fn x_of(encoding: Seq<u8>) -> Seq<u8> {
    encoding.subrange(1, 33)
}

/// The encoding of the point with the given X coordinate and an even Y.
pub open spec fn even_point(x: Seq<u8>) -> Seq<u8> {
    seq![2u8] + x
}

/// The encoding of a multiple of the generator, `None` for the point at infinity.
pub open spec fn multiple_or_infinity(k: nat) -> Option<Seq<u8>> {
    if k == 0 {
        None
    } else {
        Some(generator_multiple(k))
    }
}

/// Whether a number is told from its multiple of the generator, which is a point of
/// the curve. This holds of every nonzero number below the group order.
pub open spec fn names_point(k: nat) -> bool {
    &&& is_curve_point(generator_multiple(k))
    &&& discrete_log(generator_multiple(k)) == k
}

pub proof fn lemma_discrete_log(encoding: Seq<u8>)
    requires
        is_point(encoding),
    ensures
        0 < discrete_log(encoding) < curve_order(),
        generator_multiple(discrete_log(encoding)) == encoding,
{
}

/// The group order fits into 32 bytes.
pub proof fn lemma_order_fits()
    ensures
        curve_order() < byte_limit(32),
{
    reveal_with_fuel(byte_limit, 33);
}

/// Mirroring twice gives the point again, and the mirror image is on the curve too.
pub proof fn lemma_mirrored(encoding: Seq<u8>)
    requires
        is_curve_point(encoding),
    ensures
        is_curve_point(mirrored(encoding)),
        mirrored(mirrored(encoding)) == encoding,
        x_of(mirrored(encoding)) == x_of(encoding),
{
    assert(x_of(mirrored(encoding)) =~= x_of(encoding));
    assert(mirrored(mirrored(encoding)) =~= encoding);
}

/// The point with the X coordinate of a given point and an even Y.
pub proof fn lemma_even_point(encoding: Seq<u8>)
    requires
        is_curve_point(encoding),
    ensures
        is_point(even_point(x_of(encoding))),
        discrete_log(even_point(x_of(encoding))) == with_even_y(discrete_log(encoding)),
        generator_multiple(with_even_y(discrete_log(encoding))) == even_point(x_of(encoding)),
        0 < with_even_y(discrete_log(encoding)) < curve_order(),
{
    lemma_discrete_log(encoding);
    lemma_discrete_log(mirrored(encoding));
    if has_even_y_of(encoding) {
        assert(even_point(x_of(encoding)) =~= encoding);
    } else {
        assert(even_point(x_of(encoding)) =~= mirrored(encoding));
    }
}

/// `secp::Scalar::base_point_mul`: the given multiple of the generator. Distinct
/// scalars below the group order give distinct points, so that the multiple can be
/// told from the point.
#[verifier::external_body]
fn outside_base_point_mul(k: &[u8; 32]) -> (r: [u8; 33])
    requires
        0 < be_nat(k@) < curve_order(),
    ensures
        r@ == generator_multiple(be_nat(k@)),
        is_curve_point(r@),
        discrete_log(r@) == be_nat(k@),
{
    secp::Scalar::from_slice(k).unwrap().base_point_mul().serialize()
}

/// `secp::Point + secp::Point`: the group law, which adds the multiples modulo the
/// group order; `None` for infinity.
#[verifier::external_body]
fn outside_point_add(a: &[u8; 33], b: &[u8; 33]) -> (r: Option<[u8; 33]>)
    requires
        is_point(a@),
        is_point(b@),
    ensures
        match r {
            None => (discrete_log(a@) + discrete_log(b@)) % curve_order() == 0,
            Some(p) => {
                &&& (discrete_log(a@) + discrete_log(b@)) % curve_order() != 0
                &&& p@ == generator_multiple((discrete_log(a@) + discrete_log(b@)) % curve_order())
                &&& is_curve_point(p@)
                &&& discrete_log(p@) == (discrete_log(a@) + discrete_log(b@)) % curve_order()
            },
        },
{
    let sum = secp::Point::from_slice(a).unwrap() + secp::Point::from_slice(b).unwrap();
    sum.into_option().map(|p| p.serialize())
}

/// `secp::Point * secp::Scalar`: multiplies the multiple modulo the group order,
/// which is prime, so that the product is never infinity.
#[verifier::external_body]
fn outside_point_mul(a: &[u8; 33], k: &[u8; 32]) -> (r: [u8; 33])
    requires
        is_point(a@),
        0 < be_nat(k@) < curve_order(),
    ensures
        r@ == generator_multiple((discrete_log(a@) * be_nat(k@)) % curve_order()),
        is_curve_point(r@),
        discrete_log(r@) == (discrete_log(a@) * be_nat(k@)) % curve_order(),
{
    (secp::Point::from_slice(a).unwrap() * secp::Scalar::from_slice(k).unwrap()).serialize()
}

/// `secp::Point::from_slice` on 33 bytes: reads the compressed encoding of a point, and
/// no other bytes.
#[verifier::external_body]
fn outside_point_from_slice(bytes: &[u8]) -> (r: Option<[u8; 33]>)
    requires
        bytes@.len() == 33,
    ensures
        match r {
            None => !is_point(bytes@),
            Some(p) => is_curve_point(p@) && p@ == bytes@,
        },
{
    secp::Point::from_slice(bytes).ok().map(|p| p.serialize())
}

/// `secp::Point::lift_x`: the point with the given X coordinate and an even Y,
/// where there is one.
#[verifier::external_body]
fn outside_lift_x(x: &[u8; 32]) -> (r: Option<[u8; 33]>)
    ensures
        match r {
            None => !is_point(even_point(x@)),
            Some(p) => is_curve_point(p@) && p@ == even_point(x@),
        },
{
    secp::Point::lift_x(*x).ok().map(|p| p.serialize())
}

/// `secp::Scalar::from_slice`: reads a 32-byte big-endian number between 1 and the
/// group order, exclusive.
#[verifier::external_body]
fn outside_scalar_from_slice(bytes: &[u8]) -> (r: Option<[u8; 32]>)
    ensures
        match r {
            None => !is_scalar(bytes@),
            Some(s) => is_scalar(bytes@) && s@ == bytes@,
        },
{
    secp::Scalar::from_slice(bytes).ok().map(|s| s.serialize())
}

/// `secp::MaybeScalar::reduce_from`: a 32-byte big-endian number modulo the group
/// order.
#[verifier::external_body]
fn outside_reduce(z: &[u8; 32]) -> (r: [u8; 32])
    ensures
        be_nat(r@) == be_nat(z@) % curve_order(),
{
    secp::MaybeScalar::reduce_from(z).serialize()
}

/// `secp::MaybeScalar + secp::MaybeScalar`: addition modulo the group order.
#[verifier::external_body]
fn outside_scalar_add(a: &[u8; 32], b: &[u8; 32]) -> (r: [u8; 32])
    requires
        be_nat(a@) < curve_order(),
        be_nat(b@) < curve_order(),
    ensures
        be_nat(r@) == (be_nat(a@) + be_nat(b@)) % curve_order(),
{
    let x = secp::MaybeScalar::from_slice(a).unwrap();
    let y = secp::MaybeScalar::from_slice(b).unwrap();
    (x + y).serialize()
}

/// `secp::MaybeScalar * secp::MaybeScalar`: multiplication modulo the group order.
#[verifier::external_body]
fn outside_scalar_mul(a: &[u8; 32], b: &[u8; 32]) -> (r: [u8; 32])
    requires
        be_nat(a@) < curve_order(),
        be_nat(b@) < curve_order(),
    ensures
        be_nat(r@) == (be_nat(a@) * be_nat(b@)) % curve_order(),
{
    let x = secp::MaybeScalar::from_slice(a).unwrap();
    let y = secp::MaybeScalar::from_slice(b).unwrap();
    (x * y).serialize()
}

/// `-secp::MaybeScalar`: negation modulo the group order.
#[verifier::external_body]
fn outside_scalar_negate(a: &[u8; 32]) -> (r: [u8; 32])
    requires
        be_nat(a@) < curve_order(),
    ensures
        be_nat(r@) == (curve_order() - be_nat(a@)) as nat % curve_order(),
{
    (-secp::MaybeScalar::from_slice(a).unwrap()).serialize()
}

/// A residue, or its negation.
pub open spec fn signed_of(x: nat, negative: bool) -> nat {
    if negative {
        (curve_order() - x) as nat % curve_order()
    } else {
        x
    }
}

/// A residue modulo the group order.
#[derive(Clone, Copy)]
pub struct Residue {
    bytes: [u8; 32],
}

impl Residue {
    #[verifier::type_invariant]
    pub open spec fn in_range(&self) -> bool {
        self.value() < curve_order()
    }

    /// The big-endian encoding.
    pub closed spec fn encoding(&self) -> Seq<u8> {
        self.bytes@
    }

    /// The number.
    pub open spec fn value(&self) -> nat {
        be_nat(self.encoding())
    }

    /// A big-endian number, reduced.
    pub fn reduce(z: &[u8; 32]) -> (r: Residue)
        ensures
            r.value() == be_nat(z@) % curve_order(),
    {
        Residue { bytes: outside_reduce(z) }
    }

    /// Reads a 32-byte big-endian number below the group order.
    pub fn from_slice(bytes: &[u8; 32]) -> (r: Option<Residue>)
        ensures
            match r {
                None => be_nat(bytes@) >= curve_order(),
                Some(x) => be_nat(bytes@) < curve_order() && x.encoding() == bytes@,
            },
    {
        let reduced = outside_reduce(bytes);
        if bytes_eq(&reduced, bytes) {
            Some(Residue { bytes: *bytes })
        } else {
            proof {
                if be_nat(bytes@) < curve_order() {
                    vstd::arithmetic::div_mod::lemma_small_mod(be_nat(bytes@), curve_order());
                    lemma_be_nat_injective(reduced@, bytes@);
                }
            }
            None
        }
    }

    /// Zero.
    pub fn zero() -> (r: Residue)
        ensures
            r.value() == 0,
    {
        let bytes: [u8; 32] = [0u8; 32];
        proof {
            lemma_be_nat_zeros(bytes@);
        }
        Residue { bytes }
    }

    /// One.
    pub fn one() -> (r: Residue)
        ensures
            r.value() == 1,
    {
        let mut bytes: [u8; 32] = [0u8; 32];
        bytes[31] = 1;
        proof {
            lemma_be_nat_zeros(bytes@.drop_last());
        }
        Residue { bytes }
    }

    /// This residue, or its negation.
    pub fn signed(&self, negative: bool) -> (r: Residue)
        ensures
            r.value() == signed_of(self.value(), negative),
    {
        if negative {
            self.negate()
        } else {
            *self
        }
    }

    pub fn plus(&self, other: &Residue) -> (r: Residue)
        ensures
            r.value() == (self.value() + other.value()) % curve_order(),
    {
        proof {
            use_type_invariant(self);
            use_type_invariant(other);
        }
        Residue { bytes: outside_scalar_add(&self.bytes, &other.bytes) }
    }

    pub fn times(&self, other: &Residue) -> (r: Residue)
        ensures
            r.value() == (self.value() * other.value()) % curve_order(),
    {
        proof {
            use_type_invariant(self);
            use_type_invariant(other);
        }
        let r = outside_scalar_mul(&self.bytes, &other.bytes);
        proof {
            vstd::arithmetic::div_mod::lemma_mod_bound(
                (self.value() * other.value()) as int,
                curve_order() as int,
            );
        }
        Residue { bytes: r }
    }

    pub fn negate(&self) -> (r: Residue)
        ensures
            r.value() == (curve_order() - self.value()) as nat % curve_order(),
    {
        proof {
            use_type_invariant(self);
        }
        Residue { bytes: outside_scalar_negate(&self.bytes) }
    }

    /// The scalar with this value; `None` for zero.
    pub fn nonzero(&self) -> (r: Option<Scalar>)
        ensures
            match r {
                None => self.value() == 0,
                Some(s) => s.value() == self.value() && self.value() != 0,
            },
    {
        proof {
            use_type_invariant(self);
        }
        match outside_scalar_from_slice(&self.bytes) {
            None => None,
            Some(bytes) => Some(Scalar { bytes }),
        }
    }

    pub fn serialize(&self) -> (r: [u8; 32])
        ensures
            r@ == self.encoding(),
    {
        self.bytes
    }
}

/// A nonzero scalar.
#[derive(Clone, Copy)]
pub struct Scalar {
    bytes: [u8; 32],
}

impl Scalar {
    #[verifier::type_invariant]
    pub open spec fn in_range(&self) -> bool {
        0 < self.value() < curve_order()
    }

    /// The big-endian encoding.
    pub closed spec fn encoding(&self) -> Seq<u8> {
        self.bytes@
    }

    /// The number.
    pub open spec fn value(&self) -> nat {
        be_nat(self.encoding())
    }

    /// Reads a 32-byte big-endian number in `1..curve_order()`.
    pub fn from_slice(bytes: &[u8]) -> (r: Option<Scalar>)
        ensures
            match r {
                None => !is_scalar(bytes@),
                Some(s) => is_scalar(bytes@) && s.encoding() == bytes@,
            },
    {
        match outside_scalar_from_slice(bytes) {
            None => None,
            Some(bytes) => Some(Scalar { bytes }),
        }
    }

    pub fn serialize(&self) -> (r: [u8; 32])
        ensures
            r@ == self.encoding(),
            0 < be_nat(r@) < curve_order(),
    {
        proof {
            use_type_invariant(self);
        }
        self.bytes
    }

    /// The secret of the point with the same X coordinate and an even Y.
    pub fn even_secret(&self) -> (r: Scalar)
        ensures
            r.value() == with_even_y(self.value()),
            even_point(x_of(generator_multiple(self.value()))) == generator_multiple(r.value()),
            discrete_log(generator_multiple(r.value())) == r.value(),
            is_point(generator_multiple(r.value())),
    {
        let p = self.base_point_mul();
        proof {
            use_type_invariant(self);
            use_type_invariant(&p);
            lemma_even_point(p@);
        }
        if p.has_even_y() {
            *self
        } else {
            let minus = self.residue().negate();
            proof {
                vstd::arithmetic::div_mod::lemma_small_mod(
                    (curve_order() - self.value()) as nat,
                    curve_order(),
                );
            }
            Scalar { bytes: minus.bytes }
        }
    }

    /// This scalar as a residue.
    pub fn residue(&self) -> (r: Residue)
        ensures
            r.encoding() == self.encoding(),
            0 < r.value() < curve_order(),
    {
        proof {
            use_type_invariant(self);
        }
        Residue { bytes: self.bytes }
    }

    /// The point that this scalar is the secret of.
    pub fn base_point_mul(&self) -> (r: Point)
        ensures
            r@ == generator_multiple(self.value()),
            r.exponent() == self.value(),
    {
        proof {
            use_type_invariant(self);
        }
        Point { bytes: outside_base_point_mul(&self.bytes) }
    }
}

/// A point other than infinity.
#[derive(Clone, Copy)]
pub struct Point {
    bytes: [u8; 33],
}

impl View for Point {
    type V = Seq<u8>;

    closed spec fn view(&self) -> Seq<u8> {
        self.bytes@
    }
}

/// A point or infinity, as the multiple of the generator that it is.
pub open spec fn exponent_of(p: Option<Point>) -> nat {
    match p {
        None => 0,
        Some(p) => p.exponent(),
    }
}

/// A point or infinity, as its encoding.
pub open spec fn encoding_of(p: Option<Point>) -> Option<Seq<u8>> {
    match p {
        None => None,
        Some(p) => Some(p@),
    }
}

impl Point {
    #[verifier::type_invariant]
    pub open spec fn on_curve(&self) -> bool {
        is_curve_point(self@)
    }

    /// The multiple of the generator that this point is.
    pub open spec fn exponent(&self) -> nat {
        discrete_log(self@)
    }

    /// Reads a compressed encoding, and no other.
    pub fn from_compressed(bytes: &[u8]) -> (r: Option<Point>)
        ensures
            match r {
                None => !is_compressed_point(bytes@),
                Some(p) => is_compressed_point(bytes@) && p@ == bytes@,
            },
    {
        if bytes.len() != 33 {
            return None;
        }
        match outside_point_from_slice(bytes) {
            None => None,
            Some(bytes) => Some(Point { bytes }),
        }
    }

    /// The point with the given X coordinate and an even Y.
    pub fn lift_x(x: &[u8; 32]) -> (r: Option<Point>)
        ensures
            match r {
                None => !is_point(even_point(x@)),
                Some(p) => is_point(even_point(x@)) && p@ == even_point(x@),
            },
    {
        match outside_lift_x(x) {
            None => None,
            Some(bytes) => Some(Point { bytes }),
        }
    }

    /// The compressed encoding.
    pub fn serialize(&self) -> (r: [u8; 33])
        ensures
            r@ == self@,
    {
        self.bytes
    }

    /// The X coordinate.
    pub fn serialize_xonly(&self) -> (r: [u8; 32])
        ensures
            r@ == x_of(self@),
    {
        array32(&self.bytes, 1)
    }

    pub fn has_even_y(&self) -> (r: bool)
        ensures
            r == has_even_y_of(self@),
    {
        self.bytes[0] == 2
    }

    /// The inverse.
    pub fn negate(&self) -> (r: Point)
        ensures
            r.exponent() == curve_order() - self.exponent(),
            has_even_y_of(r@) == !has_even_y_of(self@),
            x_of(r@) == x_of(self@),
    {
        proof {
            use_type_invariant(self);
            lemma_mirrored(self@);
        }
        let mut bytes: [u8; 33] = self.bytes;
        bytes[0] = 5 - bytes[0];
        assert(bytes@ =~= mirrored(self@));
        Point { bytes }
    }

    /// The point with the same X coordinate and an even Y.
    pub fn to_even_y(&self) -> (r: Point)
        ensures
            r@ == even_point(x_of(self@)),
            r.exponent() == with_even_y(self.exponent()),
    {
        proof {
            use_type_invariant(self);
            lemma_even_point(self@);
            lemma_discrete_log(self@);
        }
        if self.has_even_y() {
            assert(even_point(x_of(self@)) =~= self@);
            *self
        } else {
            let r = self.negate();
            proof {
                use_type_invariant(&r);
                assert(even_point(x_of(self@)) =~= r@);
            }
            r
        }
    }

    /// Whether two points are the same.
    pub fn same(&self, other: &Point) -> (r: bool)
        ensures
            r == (self@ == other@),
    {
        bytes_eq(&self.bytes, &other.bytes)
    }
}

/// The sum of two points, either of which may be infinity.
pub fn point_sum(a: &Option<Point>, b: &Option<Point>) -> (r: Option<Point>)
    ensures
        exponent_of(r) == (exponent_of(*a) + exponent_of(*b)) % curve_order(),
        encoding_of(r) == multiple_or_infinity(exponent_of(r)),
{
    match a {
        None => {
            proof {
                if let Some(q) = b {
                    use_type_invariant(q);
                    lemma_discrete_log(q@);
                    vstd::arithmetic::div_mod::lemma_small_mod(q.exponent(), curve_order());
                }
            }
            *b
        },
        Some(p) => match b {
            None => {
                proof {
                    use_type_invariant(p);
                    lemma_discrete_log(p@);
                    vstd::arithmetic::div_mod::lemma_small_mod(p.exponent(), curve_order());
                }
                *a
            },
            Some(q) => {
                proof {
                    use_type_invariant(p);
                    use_type_invariant(q);
                }
                match outside_point_add(&p.bytes, &q.bytes) {
                    None => None,
                    Some(bytes) => Some(Point { bytes }),
                }
            },
        },
    }
}

/// The multiple of a point, which may be infinity.
pub fn point_multiple(p: &Option<Point>, k: &Residue) -> (r: Option<Point>)
    ensures
        exponent_of(r) == (exponent_of(*p) * k.value()) % curve_order(),
        encoding_of(r) == multiple_or_infinity(exponent_of(r)),
{
    match (p, k.nonzero()) {
        (Some(q), Some(s)) => {
            proof {
                use_type_invariant(q);
                use_type_invariant(&s);
            }
            let bytes = outside_point_mul(&q.bytes, &s.bytes);
            proof {
                lemma_discrete_log(bytes@);
            }
            Some(Point { bytes })
        },
        _ => {
            proof {
                assert(exponent_of(*p) * k.value() == 0) by (nonlinear_arith)
                    requires
                        exponent_of(*p) == 0 || k.value() == 0,
                ;
            }
            None
        },
    }
}

/// A point or infinity, or its inverse.
pub fn point_signed(p: &Option<Point>, negative: bool) -> (r: Option<Point>)
    ensures
        exponent_of(r) == signed_of(exponent_of(*p), negative),
{
    if !negative {
        return *p;
    }
    match p {
        None => {
            proof {
                vstd::arithmetic::div_mod::lemma_mod_self_0(curve_order() as int);
            }
            None
        },
        Some(q) => {
            let r = q.negate();
            proof {
                use_type_invariant(q);
                lemma_discrete_log(q@);
                vstd::arithmetic::div_mod::lemma_small_mod(
                    (curve_order() - q.exponent()) as nat,
                    curve_order(),
                );
            }
            Some(r)
        },
    }
}

/// A multiple of the generator.
pub fn generator_times(k: &Residue) -> (r: Option<Point>)
    ensures
        exponent_of(r) == k.value(),
        encoding_of(r) == multiple_or_infinity(k.value()),
{
    match k.nonzero() {
        None => None,
        Some(s) => Some(s.base_point_mul()),
    }
}

/// An exponent, negated where its point has an odd Y.
pub open spec fn with_even_y(k: nat) -> nat {
    if has_even_y_of(generator_multiple(k)) {
        k
    } else {
        (curve_order() - k) as nat
    }
}

/// What is read as a point: 33 bytes that are the encoding of a multiple of the generator,
/// or an X coordinate for which there is one with an even Y; and a point is written as it
/// was read.
pub proof fn theorem_points_are_read(
    bytes: &[u8],
    x: [u8; 32],
    from_bytes: Option<Point>,
    from_x: Option<Point>,
    other: Point,
    written: [u8; 33],
    written_x: [u8; 32],
    even: bool,
    same: bool,
)
    requires
        call_ensures(Point::from_compressed, (bytes,), from_bytes),
        call_ensures(Point::lift_x, (&x,), from_x),
        call_ensures(Point::serialize, (&other,), written),
        call_ensures(Point::serialize_xonly, (&other,), written_x),
        call_ensures(Point::has_even_y, (&other,), even),
        from_x is Some ==> call_ensures(Point::same, (&other, &from_x->0), same),
    ensures
        from_bytes is Some <==> bytes@.len() == 33 && exists|k: nat|
            0 < k < curve_order() && #[trigger] generator_multiple(k) == bytes@,
        from_bytes is Some ==> (from_bytes->0)@ == bytes@,
        from_x is Some <==> exists|k: nat|
            0 < k < curve_order() && #[trigger] generator_multiple(k) == seq![2u8] + x@,
        from_x is Some ==> (from_x->0)@ == seq![2u8] + x@,
        written@ == other@,
        written_x@ == other@.subrange(1, 33),
        even <==> other@[0] == 2,
        from_x is Some ==> (same <==> other@ == seq![2u8] + x@),
{
}

/// What is read as a scalar: 32 bytes that spell a number from one up to below the group
/// order; a residue may also be zero, and is what is left of any number.
pub proof fn theorem_scalars_are_read(
    bytes: &[u8],
    z: [u8; 32],
    scalar: Option<Scalar>,
    residue: Option<Residue>,
    reduced: Residue,
    nonzero: Option<Scalar>,
    written: [u8; 32],
)
    requires
        call_ensures(Scalar::from_slice, (bytes,), scalar),
        call_ensures(Residue::from_slice, (&z,), residue),
        call_ensures(Residue::reduce, (&z,), reduced),
        call_ensures(Residue::nonzero, (&reduced,), nonzero),
        call_ensures(Residue::serialize, (&reduced,), written),
    ensures
        scalar is Some <==> bytes@.len() == 32 && 0 < be_nat(bytes@)
            < 0xFFFFFFFFFFFFFFFFFFFFFFFFFFFFFFFEBAAEDCE6AF48A03BBFD25E8CD0364141nat,
        scalar is Some ==> (scalar->0).value() == be_nat(bytes@),
        residue is Some <==> be_nat(z@)
            < 0xFFFFFFFFFFFFFFFFFFFFFFFFFFFFFFFEBAAEDCE6AF48A03BBFD25E8CD0364141nat,
        residue is Some ==> (residue->0).value() == be_nat(z@),
        reduced.value() == be_nat(z@)
            % 0xFFFFFFFFFFFFFFFFFFFFFFFFFFFFFFFEBAAEDCE6AF48A03BBFD25E8CD0364141nat,
        nonzero is Some <==> reduced.value() != 0,
        nonzero is Some ==> (nonzero->0).value() == reduced.value(),
        be_nat(written@) == reduced.value(),
{
}

/// Residues add and multiply as numbers do: zero and one are neutral, a residue and its
/// negation add up to zero, and the order does not matter.
pub proof fn theorem_residue_arithmetic(
    a: Residue,
    b: Residue,
    zero: Residue,
    one: Residue,
    minus_a: Residue,
    a_minus_a: Residue,
    a_zero: Residue,
    a_one: Residue,
    ab: Residue,
    ba: Residue,
    a_times_b: Residue,
    b_times_a: Residue,
)
    requires
        a.in_range(),
        b.in_range(),
        call_ensures(Residue::zero, (), zero),
        call_ensures(Residue::one, (), one),
        call_ensures(Residue::signed, (&a, true), minus_a),
        call_ensures(Residue::plus, (&a, &minus_a), a_minus_a),
        call_ensures(Residue::plus, (&a, &zero), a_zero),
        call_ensures(Residue::times, (&a, &one), a_one),
        call_ensures(Residue::plus, (&a, &b), ab),
        call_ensures(Residue::plus, (&b, &a), ba),
        call_ensures(Residue::times, (&a, &b), a_times_b),
        call_ensures(Residue::times, (&b, &a), b_times_a),
    ensures
        a_minus_a.value() == 0,
        a_zero.value() == a.value(),
        a_one.value() == a.value(),
        ab.value() == ba.value(),
        ab.value() == a.value() + b.value() || ab.value() + curve_order() == a.value() + b.value(),
        a_times_b.value() == b_times_a.value(),
        (a.value() * b.value() - a_times_b.value()) % (curve_order() as int) == 0,
{
    let n = curve_order() as int;
    let x = a.value() as int;
    let y = b.value() as int;
    vstd::arithmetic::div_mod::lemma_small_mod(a.value(), curve_order());
    assert(x * 1 == x);
    assert(x * y == y * x) by (nonlinear_arith);
    if x == 0 {
        assert(minus_a.value() == 0);
    } else {
        vstd::arithmetic::div_mod::lemma_small_mod((n - x) as nat, curve_order());
        assert(x + (n - x) == n);
    }
    if x + y < n {
        vstd::arithmetic::div_mod::lemma_small_mod((x + y) as nat, curve_order());
    } else {
        vstd::arithmetic::div_mod::lemma_small_mod((x + y - n) as nat, curve_order());
        vstd::arithmetic::div_mod::lemma_mod_add_multiples_vanish(x + y - n, n);
    }
    vstd::arithmetic::div_mod::lemma_fundamental_div_mod(x * y, n);
    let q = (x * y) / n;
    assert(x * y - (x * y) % n == n * q);
    vstd::arithmetic::div_mod::lemma_mod_multiples_basic(q, n);
    assert(n * q == q * n) by (nonlinear_arith);
}

/// A point and its negation add up to infinity and have the same X coordinate, one of the
/// two with an even Y.
pub proof fn theorem_points_cancel_out(
    p: Point,
    minus_p: Point,
    even: Point,
    sum: Option<Point>,
)
    requires
        p.on_curve(),
        call_ensures(Point::negate, (&p,), minus_p),
        call_ensures(Point::to_even_y, (&p,), even),
        call_ensures(point_sum, (&Some(p), &Some(minus_p)), sum),
    ensures
        encoding_of(sum) is None,
        x_of(minus_p@) == x_of(p@),
        even@ == seq![2u8] + p@.subrange(1, 33),
        even.exponent() == p.exponent() || even.exponent() == minus_p.exponent(),
{
    lemma_discrete_log(p@);
}

/// Points add and multiply by their numbers, and infinity is zero.
pub proof fn theorem_point_arithmetic(
    p: Option<Point>,
    q: Option<Point>,
    k: Residue,
    sum: Option<Point>,
    multiple: Option<Point>,
    of_generator: Option<Point>,
)
    requires
        call_ensures(point_sum, (&p, &q), sum),
        call_ensures(point_multiple, (&p, &k), multiple),
        call_ensures(generator_times, (&k,), of_generator),
    ensures
        sum is None ==> (exponent_of(p) + exponent_of(q)) % curve_order() == 0,
        sum is Some ==> (sum->0)@ == generator_multiple(
            (exponent_of(p) + exponent_of(q)) % curve_order(),
        ),
        multiple is None ==> (exponent_of(p) * k.value()) % curve_order() == 0,
        multiple is Some ==> (multiple->0)@ == generator_multiple(
            (exponent_of(p) * k.value()) % curve_order(),
        ),
        of_generator is None <==> k.value() == 0,
        of_generator is Some ==> (of_generator->0)@ == generator_multiple(k.value()),
{
}

} // verus!

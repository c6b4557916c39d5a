//! The winner circuit as a mathematical object: its gates, the values of its wires, and
//! the lottery winner predicate that it decides.
use vstd::prelude::*;
use vstd::arithmetic::power2::pow2;

verus! {

/// Bit width of the draw position and of the band constants.
pub const VALUE_BITS: usize = 32;

/// What a two-input gate computes.
#[derive(Clone, Copy, PartialEq, Eq, Structural)]
pub enum GateKind {
    Xor,
    And,
    Or,
}

/// A gate of the model: two input wires and a kind. The output wire of gate `k`
/// of a net is the wire that follows all input wires and the outputs of the
/// gates before it.
pub struct GateModel {
    pub a: nat,
    pub b: nat,
    pub kind: GateKind,
}

/// A net of gates behind `base` input wires.
pub struct Net {
    pub base: nat,
    pub gates: Seq<GateModel>,
}

/// The wire that always carries true.
pub open spec fn one_wire() -> nat {
    0
}

/// The wire that always carries false.
pub open spec fn zero_wire() -> nat {
    1
}

/// The wire of bit `k` of the draw position.
pub open spec fn rg_wire(k: nat) -> nat {
    2 + k
}

/// The wire of bit `k` of the claimed winner index.
pub open spec fn w_wire(k: nat) -> nat {
    2 + VALUE_BITS as nat + k
}

/// The truth value of a gate of the given kind.
pub open spec fn gate_truth(kind: GateKind, x: bool, y: bool) -> bool {
    match kind {
        GateKind::Xor => x != y,
        GateKind::And => x && y,
        GateKind::Or => x || y,
    }
}

/// Bit `k` of `x`.
pub open spec fn bit(x: nat, k: nat) -> bool {
    (x / pow2(k)) % 2 == 1
}

impl Net {
    /// The wire that the next gate would drive.
    pub open spec fn next(self) -> nat {
        self.base + self.gates.len()
    }

    /// The net with one more gate.
    pub open spec fn with_gate(self, a: nat, b: nat, kind: GateKind) -> Net {
        Net { base: self.base, gates: self.gates.push(GateModel { a, b, kind }) }
    }

    /// Every gate reads wires that exist before it.
    pub open spec fn ordered(self) -> bool {
        forall|k: int|
            0 <= k < self.gates.len() ==> (#[trigger] self.gates[k]).a < self.base + k
                && self.gates[k].b < self.base + k
    }
}

/// The value of every wire of a net, given the values of its input wires.
pub open spec fn wire_values(gates: Seq<GateModel>, inputs: Seq<bool>) -> Seq<bool>
    decreases gates.len(),
{
    if gates.len() == 0 {
        inputs
    } else {
        let before = wire_values(gates.drop_last(), inputs);
        let g = gates.last();
        before.push(gate_truth(g.kind, before[g.a as int], before[g.b as int]))
    }
}

/// The comparator over the low `i` bits: the net after it, and the wire that
/// carries `a < b` (on those bits).
pub open spec fn less_than_net(net: Net, a: Seq<nat>, b: Seq<nat>, i: nat) -> (Net, nat)
    decreases i,
{
    if i == 0 {
        (net, zero_wire())
    } else {
        let (n0, lt) = less_than_net(net, a, b, (i - 1) as nat);
        let ai = a[i - 1];
        let bi = b[i - 1];
        let na = n0.next();
        let n1 = n0.with_gate(ai, one_wire(), GateKind::Xor);
        let alb = n1.next();
        let n2 = n1.with_gate(na, bi, GateKind::And);
        let axb = n2.next();
        let n3 = n2.with_gate(ai, bi, GateKind::Xor);
        let eq = n3.next();
        let n4 = n3.with_gate(axb, one_wire(), GateKind::Xor);
        let eal = n4.next();
        let n5 = n4.with_gate(eq, lt, GateKind::And);
        (n5.with_gate(alb, eal, GateKind::Or), n5.next())
    }
}

/// The literal "bit `k` of the index equals bit `k` of `i`".
pub open spec fn literal_net(net: Net, i: nat, k: nat) -> (Net, nat) {
    if bit(i, k) {
        (net, w_wire(k))
    } else {
        (net.with_gate(w_wire(k), one_wire(), GateKind::Xor), net.next())
    }
}

/// The conjunction of the literals of the low `k` bits (`k` at least 1).
pub open spec fn term_net(net: Net, i: nat, k: nat) -> (Net, nat)
    decreases k,
{
    if k <= 1 {
        literal_net(net, i, 0)
    } else {
        let (n0, term) = term_net(net, i, (k - 1) as nat);
        let (n1, lit) = literal_net(n0, i, (k - 1) as nat);
        (n1.with_gate(term, lit, GateKind::And), n1.next())
    }
}

/// The selectors of entries `0..i`: the wires that carry "the index is this
/// entry".
pub open spec fn selectors_net(net: Net, width: nat, i: nat) -> (Net, Seq<nat>)
    decreases i,
{
    if i == 0 {
        (net, Seq::empty())
    } else {
        let (n0, sel) = selectors_net(net, width, (i - 1) as nat);
        let (n1, s) = term_net(n0, (i - 1) as nat, width);
        (n1, sel.push(s))
    }
}

/// The disjunction of the selectors among entries `0..i` whose constant has bit
/// `k`; `None` while there is no such entry.
pub open spec fn mux_bit_net(net: Net, sel: Seq<nat>, consts: Seq<u64>, k: nat, i: nat) -> (
    Net,
    Option<nat>,
)
    decreases i,
{
    if i == 0 {
        (net, None)
    } else {
        let (n0, acc) = mux_bit_net(net, sel, consts, k, (i - 1) as nat);
        if bit(consts[i - 1] as nat, k) {
            match acc {
                None => (n0, Some(sel[i - 1])),
                Some(x) => (n0.with_gate(x, sel[i - 1], GateKind::Or), Some(n0.next())),
            }
        } else {
            (n0, acc)
        }
    }
}

/// The low `k` bits of the constant that the index selects.
pub open spec fn mux_net(net: Net, sel: Seq<nat>, consts: Seq<u64>, k: nat) -> (Net, Seq<nat>)
    decreases k,
{
    if k == 0 {
        (net, Seq::empty())
    } else {
        let (n0, bits) = mux_net(net, sel, consts, (k - 1) as nat);
        let (n1, acc) = mux_bit_net(n0, sel, consts, (k - 1) as nat, consts.len());
        (n1, bits.push(match acc {
            None => zero_wire(),
            Some(x) => x,
        }))
    }
}

/// The input wires of a winner circuit alone.
pub open spec fn input_net(width: nat) -> Net {
    Net { base: 2 + VALUE_BITS as nat + width, gates: Seq::empty() }
}

/// The wires of the draw position, low bit first.
pub open spec fn rg_wires() -> Seq<nat> {
    Seq::new(VALUE_BITS as nat, |k: int| rg_wire(k as nat))
}

/// The winner circuit for the bands `[lo[i], hi[i])`: the net, and the wire that
/// carries the verdict.
pub open spec fn winner_net(lo: Seq<u64>, hi: Seq<u64>, width: nat) -> (Net, nat) {
    let (n0, sel) = selectors_net(input_net(width), width, lo.len());
    let (n1, lo_w) = mux_net(n0, sel, lo, VALUE_BITS as nat);
    let (n2, hi_w) = mux_net(n1, sel, hi, VALUE_BITS as nat);
    let (n3, rg_lt_lo) = less_than_net(n2, rg_wires(), lo_w, VALUE_BITS as nat);
    let (n4, rg_lt_hi) = less_than_net(n3, rg_wires(), hi_w, VALUE_BITS as nat);
    let n5 = n4.with_gate(rg_lt_lo, one_wire(), GateKind::Xor);
    (n5.with_gate(n4.next(), rg_lt_hi, GateKind::And), n5.next())
}

/// The index width for `n` entries: the least positive number of bits that tells
/// `n` entries apart.
pub open spec fn is_index_width(n: nat, width: nat) -> bool {
    &&& width >= 1
    &&& pow2(width) >= n
    &&& width == 1 || pow2((width - 1) as nat) < n
}

/// The values of the input wires for a draw position and a claimed index.
pub open spec fn input_values(rg: nat, w: nat, width: nat) -> Seq<bool> {
    Seq::new(
        2 + VALUE_BITS as nat + width,
        |x: int|
            if x < 2 {
                x == one_wire()
            } else if x < 2 + VALUE_BITS {
                bit(rg, (x - 2) as nat)
            } else {
                bit(w, (x - 2 - VALUE_BITS) as nat)
            },
    )
}

/// The winner predicate that the circuit decides: the index that the low `width`
/// bits of `w` spell is an entry, and the draw position (its low bits) lies in the
/// band of that entry.
pub open spec fn claim_holds(lo: Seq<u64>, hi: Seq<u64>, width: nat, rg: nat, w: nat) -> bool {
    let index = w % pow2(width);
    let space = pow2(VALUE_BITS as nat);
    &&& index < lo.len()
    &&& lo[index as int] as nat % space <= rg % space
    &&& rg % space < hi[index as int] as nat % space
}

/// Bits from below: the lowest bit of a number is its parity, and the others are those of
/// its half.
pub proof fn theorem_bits_of_halves(x: nat, k: nat)
    ensures
        bit(x, 0) <==> x % 2 == 1,
        bit(x, k + 1) <==> bit(x / 2, k),
{
    vstd::arithmetic::power2::lemma2_to64();
    vstd::arithmetic::power2::lemma_pow2_unfold(k + 1);
    vstd::arithmetic::power2::lemma_pow2_pos(k);
    vstd::arithmetic::div_mod::lemma_div_denominator(x as int, 2, pow2(k) as int);
}

/// The index width is the least number of bits, and at least one, that tells the entries
/// apart: there is one such width.
pub proof fn theorem_index_width_is_least(n: nat, width: nat, other: nat)
    requires
        is_index_width(n, width),
        other >= 1,
        pow2(other) >= n,
    ensures
        pow2(width) >= n,
        1 <= width <= other,
{
    if other < width {
        if other < width - 1 {
            vstd::arithmetic::power2::lemma_pow2_strictly_increases(other, (width - 1) as nat);
        }
    }
}

/// A claim holds if and only if the draw lies in the band of the entry that it names:
/// from its lower bound on, and below its upper bound. A claim without an entry does not
/// hold.
pub proof fn theorem_claims_are_judged_by_bands(
    lo: Seq<u64>,
    hi: Seq<u64>,
    width: nat,
    rg: nat,
    w: nat,
)
    requires
        lo.len() == hi.len(),
        w < pow2(width),
        rg < 0x1_0000_0000,
        forall|i: int| 0 <= i < lo.len() ==> (#[trigger] lo[i]) < 0x1_0000_0000,
        forall|i: int| 0 <= i < hi.len() ==> (#[trigger] hi[i]) < 0x1_0000_0000,
    ensures
        claim_holds(lo, hi, width, rg, w) <==> w < lo.len() && lo[w as int] <= rg
            && rg < hi[w as int],
{
    vstd::arithmetic::power2::lemma2_to64();
    vstd::arithmetic::power2::lemma_pow2_pos(width);
    vstd::arithmetic::div_mod::lemma_small_mod(w, pow2(width));
}

/// A draw has at most one winner where the bands do not overlap.
pub proof fn theorem_winners_are_unique(
    lo: Seq<u64>,
    hi: Seq<u64>,
    width: nat,
    rg: nat,
    w1: nat,
    w2: nat,
)
    requires
        lo.len() == hi.len(),
        w1 < pow2(width),
        w2 < pow2(width),
        rg < 0x1_0000_0000,
        forall|i: int| 0 <= i < lo.len() ==> (#[trigger] lo[i]) < 0x1_0000_0000,
        forall|i: int| 0 <= i < hi.len() ==> (#[trigger] hi[i]) < 0x1_0000_0000,
        forall|i: int, j: int| 0 <= i < j < lo.len() ==> (#[trigger] hi[i]) <= (#[trigger] lo[j]),
        claim_holds(lo, hi, width, rg, w1),
        claim_holds(lo, hi, width, rg, w2),
    ensures
        w1 == w2,
{
    theorem_claims_are_judged_by_bands(lo, hi, width, rg, w1);
    theorem_claims_are_judged_by_bands(lo, hi, width, rg, w2);
    assert(w1 < w2 ==> hi[w1 as int] <= lo[w2 as int]);
    assert(w2 < w1 ==> hi[w2 as int] <= lo[w1 as int]);
}

/// The number of zeros among the low `width` bits of a number.
pub open spec fn zero_bits(x: nat, width: nat) -> nat
    decreases width,
{
    if width == 0 {
        0
    } else {
        zero_bits(x, (width - 1) as nat) + if bit(x, (width - 1) as nat) {
            0nat
        } else {
            1
        }
    }
}

/// The number of zeros among the low `width` bits of all numbers below `n`.
pub open spec fn zero_bits_below(n: nat, width: nat) -> nat
    decreases n,
{
    if n == 0 {
        0
    } else {
        zero_bits_below((n - 1) as nat, width) + zero_bits((n - 1) as nat, width)
    }
}

/// The number of the first `i` constants that have bit `k`.
pub open spec fn ones_at(consts: Seq<u64>, k: nat, i: nat) -> nat
    decreases i,
{
    if i == 0 {
        0
    } else {
        ones_at(consts, k, (i - 1) as nat) + if bit(consts[i - 1] as nat, k) {
            1nat
        } else {
            0
        }
    }
}

/// For each of the low `k` bits the constants that have it, but for the first of them.
pub open spec fn further_ones(consts: Seq<u64>, k: nat) -> nat
    decreases k,
{
    if k == 0 {
        0
    } else {
        let ones = ones_at(consts, (k - 1) as nat, consts.len());
        further_ones(consts, (k - 1) as nat) + if ones > 0 {
            (ones - 1) as nat
        } else {
            0
        }
    }
}

/// The size of a winner circuit: a selector has a gate for each zero of its entry and one
/// between each two bits; a constant that is selected has a gate for each further entry
/// that has a bit; a comparison has six gates for each of 32 bits; and the verdict has two.
pub proof fn theorem_circuit_size(lo: Seq<u64>, hi: Seq<u64>, width: nat)
    requires
        width >= 1,
    ensures
        winner_net(lo, hi, width).0.gates.len() == zero_bits_below(lo.len(), width) + lo.len() * (
        width - 1) + further_ones(lo, 32) + further_ones(hi, 32) + 386,
        winner_net(lo, hi, width).0.base == 34 + width,
{
    let (n0, sel) = selectors_net(input_net(width), width, lo.len());
    let (n1, lo_w) = mux_net(n0, sel, lo, 32);
    let (n2, hi_w) = mux_net(n1, sel, hi, 32);
    let (n3, rg_lt_lo) = less_than_net(n2, rg_wires(), lo_w, 32);
    lemma_selectors_size(input_net(width), width, lo.len());
    lemma_mux_size(n0, sel, lo, 32);
    lemma_mux_size(n1, sel, hi, 32);
    lemma_less_than_size(n2, rg_wires(), lo_w, 32);
    lemma_less_than_size(n3, rg_wires(), hi_w, 32);
}

proof fn lemma_less_than_size(net: Net, a: Seq<nat>, b: Seq<nat>, i: nat)
    ensures
        less_than_net(net, a, b, i).0.gates.len() == net.gates.len() + 6 * i,
        less_than_net(net, a, b, i).0.base == net.base,
    decreases i,
{
    if i > 0 {
        lemma_less_than_size(net, a, b, (i - 1) as nat);
    }
}

proof fn lemma_term_size(net: Net, i: nat, k: nat)
    requires
        k >= 1,
    ensures
        term_net(net, i, k).0.gates.len() == net.gates.len() + zero_bits(i, k) + (k - 1),
        term_net(net, i, k).0.base == net.base,
    decreases k,
{
    if k > 1 {
        lemma_term_size(net, i, (k - 1) as nat);
    } else {
        assert(zero_bits(i, 0) == 0);
        assert(zero_bits(i, 1) == zero_bits(i, 0) + if bit(i, 0) {
            0nat
        } else {
            1
        });
    }
}

proof fn lemma_selectors_size(net: Net, width: nat, i: nat)
    requires
        width >= 1,
    ensures
        selectors_net(net, width, i).0.gates.len() == net.gates.len() + zero_bits_below(i, width)
            + i * (width - 1),
        selectors_net(net, width, i).0.base == net.base,
    decreases i,
{
    if i > 0 {
        lemma_selectors_size(net, width, (i - 1) as nat);
        lemma_term_size(
            selectors_net(net, width, (i - 1) as nat).0,
            (i - 1) as nat,
            width,
        );
        assert(i * (width - 1) == (i - 1) * (width - 1) + (width - 1)) by (nonlinear_arith);
    } else {
        assert(i * (width - 1) == 0) by (nonlinear_arith)
            requires
                i == 0,
        ;
    }
}

proof fn lemma_mux_bit_size(net: Net, sel: Seq<nat>, consts: Seq<u64>, k: nat, i: nat)
    ensures
        ({
            let ones = ones_at(consts, k, i);
            let (later, acc) = mux_bit_net(net, sel, consts, k, i);
            &&& later.gates.len() == net.gates.len() + if ones > 0 {
                ones - 1
            } else {
                0
            }
            &&& later.base == net.base
            &&& acc is Some <==> ones > 0
        }),
    decreases i,
{
    if i > 0 {
        lemma_mux_bit_size(net, sel, consts, k, (i - 1) as nat);
    }
}

proof fn lemma_mux_size(net: Net, sel: Seq<nat>, consts: Seq<u64>, k: nat)
    ensures
        mux_net(net, sel, consts, k).0.gates.len() == net.gates.len() + further_ones(consts, k),
        mux_net(net, sel, consts, k).0.base == net.base,
    decreases k,
{
    if k > 0 {
        lemma_mux_size(net, sel, consts, (k - 1) as nat);
        lemma_mux_bit_size(
            mux_net(net, sel, consts, (k - 1) as nat).0,
            sel,
            consts,
            (k - 1) as nat,
            consts.len(),
        );
    }
}

} // verus!

//! The winner circuit decides the winner predicate.
use vstd::prelude::*;
use vstd::arithmetic::power2::{pow2, lemma_pow2_pos, lemma_pow2_unfold};
use crate::winner_net::{
    bit, claim_holds, gate_truth, input_net, input_values, is_index_width, less_than_net,
    literal_net, mux_bit_net, mux_net, one_wire, rg_wire, rg_wires, selectors_net, term_net, w_wire,
    winner_net, wire_values, GateKind, GateModel, Net, VALUE_BITS,
};

verus! {

/// The number that the low `i` wires of `wires` spell.
pub open spec fn wire_number(values: Seq<bool>, wires: Seq<nat>, i: nat) -> nat
    decreases i,
{
    if i == 0 {
        0
    } else {
        wire_number(values, wires, (i - 1) as nat) + if values[wires[i - 1] as int] {
            pow2((i - 1) as nat)
        } else {
            0
        }
    }
}

/// `later` continues `net`: the same inputs, and every wire of `net` carries in
/// `later` what it carries in `net`.
pub open spec fn continues(net: Net, later: Net, inputs: Seq<bool>) -> bool {
    &&& later.base == net.base
    &&& later.ordered()
    &&& net.gates.len() <= later.gates.len()
    &&& wire_values(later.gates, inputs).len() == later.next()
    &&& forall|x: int|
        0 <= x < net.next() ==> #[trigger] wire_values(later.gates, inputs)[x] == wire_values(
            net.gates,
            inputs,
        )[x]
}

/// A net that is ready to be evaluated on `inputs`.
pub open spec fn ready(net: Net, inputs: Seq<bool>) -> bool {
    &&& net.ordered()
    &&& inputs.len() == net.base
    &&& wire_values(net.gates, inputs).len() == net.next()
}

proof fn lemma_gate(net: Net, inputs: Seq<bool>, a: nat, b: nat, kind: GateKind)
    requires
        ready(net, inputs),
        a < net.next(),
        b < net.next(),
    ensures
        ready(net.with_gate(a, b, kind), inputs),
        continues(net, net.with_gate(a, b, kind), inputs),
        net.with_gate(a, b, kind).next() == net.next() + 1,
        wire_values(net.with_gate(a, b, kind).gates, inputs)[net.next() as int] == gate_truth(
            kind,
            wire_values(net.gates, inputs)[a as int],
            wire_values(net.gates, inputs)[b as int],
        ),
{
    let later = net.with_gate(a, b, kind);
    assert(later.gates.drop_last() =~= net.gates);
    assert(later.gates.last() == GateModel { a, b, kind });
}

proof fn lemma_bit_step(x: nat, k: nat)
    ensures
        x % pow2(k + 1) == x % pow2(k) + if bit(x, k) {
            pow2(k)
        } else {
            0
        },
        0 <= x % pow2(k) < pow2(k),
        x % pow2(k + 1) < pow2(k + 1),
{
    lemma_pow2_pos(k);
    lemma_pow2_pos(k + 1);
    lemma_pow2_unfold(k + 1);
    let p = pow2(k) as int;
    let q = x as int / p;
    let r = x as int % p;
    vstd::arithmetic::div_mod::lemma_fundamental_div_mod(x as int, p);
    let c = q % 2;
    let h = q / 2;
    assert(q == 2 * h + c);
    assert(x == (2 * p) * h + (p * c + r)) by (nonlinear_arith)
        requires
            x == p * q + r,
            q == 2 * h + c,
    ;
    assert(0 <= p * c + r < 2 * p) by (nonlinear_arith)
        requires
            0 <= r < p,
            c == 0 || c == 1,
    ;
    vstd::arithmetic::div_mod::lemma_fundamental_div_mod_converse(x as int, 2 * p, h, p * c + r);
    assert(p * c == if c == 1 { p } else { 0 }) by (nonlinear_arith)
        requires
            c == 0 || c == 1,
    ;
}

/// Two numbers agree on `k + 1` low bits when they agree on `k` and on bit `k`.
proof fn lemma_bits_agree(x: nat, y: nat, k: nat)
    ensures
        (x % pow2(k + 1) == y % pow2(k + 1)) == (x % pow2(k) == y % pow2(k) && bit(x, k) == bit(
            y,
            k,
        )),
{
    lemma_bit_step(x, k);
    lemma_bit_step(y, k);
    let p = pow2(k);
    let x0 = x % p;
    let y0 = y % p;
    let x1 = x % pow2(k + 1);
    let y1 = y % pow2(k + 1);
    assert(x1 == x0 + if bit(x, k) { p } else { 0 });
    assert(y1 == y0 + if bit(y, k) { p } else { 0 });
    assert(x0 < p && y0 < p);
}

proof fn lemma_wire_number_bound(values: Seq<bool>, wires: Seq<nat>, i: nat)
    ensures
        wire_number(values, wires, i) < pow2(i),
    decreases i,
{
    lemma_pow2_pos(i);
    if i > 0 {
        lemma_wire_number_bound(values, wires, (i - 1) as nat);
        lemma_pow2_unfold(i);
    }
}

/// Wires that carry the bits of `x` spell its low bits.
proof fn lemma_wire_number_bits(values: Seq<bool>, wires: Seq<nat>, x: nat, i: nat)
    requires
        i <= wires.len(),
        forall|j: int| 0 <= j < i ==> values[(#[trigger] wires[j]) as int] == bit(x, j as nat),
    ensures
        wire_number(values, wires, i) == x % pow2(i),
    decreases i,
{
    if i == 0 {
        vstd::arithmetic::power2::lemma2_to64();
    } else {
        lemma_wire_number_bits(values, wires, x, (i - 1) as nat);
        lemma_bit_step(x, (i - 1) as nat);
        let w = wires[i - 1];
        assert(values[w as int] == bit(x, (i - 1) as nat));
    }
}

/// Wires that all carry false spell zero.
proof fn lemma_wire_number_zero(values: Seq<bool>, wires: Seq<nat>, i: nat)
    requires
        i <= wires.len(),
        forall|j: int| 0 <= j < i ==> !values[(#[trigger] wires[j]) as int],
    ensures
        wire_number(values, wires, i) == 0,
    decreases i,
{
    if i > 0 {
        lemma_wire_number_zero(values, wires, (i - 1) as nat);
        let w = wires[i - 1];
        assert(!values[w as int]);
    }
}

/// What wires spell does not change when a net grows.
proof fn lemma_wire_number_stable(net: Net, later: Net, inputs: Seq<bool>, wires: Seq<nat>, i: nat)
    requires
        continues(net, later, inputs),
        i <= wires.len(),
        forall|j: int| 0 <= j < i ==> #[trigger] wires[j] < net.next(),
    ensures
        wire_number(wire_values(later.gates, inputs), wires, i) == wire_number(
            wire_values(net.gates, inputs),
            wires,
            i,
        ),
    decreases i,
{
    if i > 0 {
        lemma_wire_number_stable(net, later, inputs, wires, (i - 1) as nat);
        let w = wires[i - 1];
        assert(w < net.next());
    }
}

proof fn lemma_continues_trans(n0: Net, n1: Net, n2: Net, inputs: Seq<bool>)
    requires
        continues(n0, n1, inputs),
        continues(n1, n2, inputs),
    ensures
        continues(n0, n2, inputs),
{
}

proof fn lemma_less_than(net: Net, a: Seq<nat>, b: Seq<nat>, i: nat, inputs: Seq<bool>)
    requires
        ready(net, inputs),
        net.base >= 2,
        wire_values(net.gates, inputs)[0],
        !wire_values(net.gates, inputs)[1],
        i <= a.len(),
        i <= b.len(),
        forall|j: int| 0 <= j < i ==> #[trigger] a[j] < net.next(),
        forall|j: int| 0 <= j < i ==> #[trigger] b[j] < net.next(),
    ensures
        ({
            let (later, lt) = less_than_net(net, a, b, i);
            &&& ready(later, inputs)
            &&& continues(net, later, inputs)
            &&& later.next() == net.next() + 6 * i
            &&& lt < later.next()
            &&& wire_values(later.gates, inputs)[lt as int] == (wire_number(
                wire_values(net.gates, inputs),
                a,
                i,
            ) < wire_number(wire_values(net.gates, inputs), b, i))
        }),
    decreases i,
{
    if i > 0 {
        let k = (i - 1) as nat;
        lemma_less_than(net, a, b, k, inputs);
        let (n0, lt) = less_than_net(net, a, b, k);
        let ai = a[k as int];
        let bi = b[k as int];
        assert(ai < net.next() && bi < net.next());
        let v = wire_values(net.gates, inputs);
        let v0 = wire_values(n0.gates, inputs);
        assert(v0[ai as int] == v[ai as int] && v0[bi as int] == v[bi as int]);
        assert(v0[0] == v[0]);
        lemma_gate(n0, inputs, ai, one_wire(), GateKind::Xor);
        let n1 = n0.with_gate(ai, one_wire(), GateKind::Xor);
        let v1 = wire_values(n1.gates, inputs);
        lemma_gate(n1, inputs, n0.next(), bi, GateKind::And);
        let n2 = n1.with_gate(n0.next(), bi, GateKind::And);
        let v2 = wire_values(n2.gates, inputs);
        lemma_gate(n2, inputs, ai, bi, GateKind::Xor);
        let n3 = n2.with_gate(ai, bi, GateKind::Xor);
        let v3 = wire_values(n3.gates, inputs);
        lemma_gate(n3, inputs, n2.next(), one_wire(), GateKind::Xor);
        let n4 = n3.with_gate(n2.next(), one_wire(), GateKind::Xor);
        let v4 = wire_values(n4.gates, inputs);
        lemma_gate(n4, inputs, n3.next(), lt, GateKind::And);
        let n5 = n4.with_gate(n3.next(), lt, GateKind::And);
        let v5 = wire_values(n5.gates, inputs);
        lemma_gate(n5, inputs, n1.next(), n4.next(), GateKind::Or);
        let n6 = n5.with_gate(n1.next(), n4.next(), GateKind::Or);
        let v6 = wire_values(n6.gates, inputs);
        let av = v[ai as int];
        let bv = v[bi as int];
        assert(v0[lt as int] == (wire_number(v, a, k) < wire_number(v, b, k)));
        assert(v1[n0.next() as int] == !av);
        assert(v1[bi as int] == bv);
        assert(v2[n1.next() as int] == (!av && bv));
        assert(v1[ai as int] == av && v2[ai as int] == av);
        assert(v2[bi as int] == bv);
        assert(v3[n2.next() as int] == (av != bv));
        assert(v1[0] && v2[0] && v3[0]);
        assert(v4[n3.next() as int] == (av == bv));
        assert(v1[lt as int] == v0[lt as int]);
        assert(v2[lt as int] == v0[lt as int]);
        assert(v3[lt as int] == v0[lt as int]);
        assert(v4[lt as int] == v0[lt as int]);
        assert(v5[n4.next() as int] == (av == bv && v0[lt as int]));
        assert(v3[n1.next() as int] == v2[n1.next() as int]);
        assert(v4[n1.next() as int] == v2[n1.next() as int]);
        assert(v5[n1.next() as int] == v2[n1.next() as int]);
        assert(v6[n5.next() as int] == ((!av && bv) || (av == bv && v0[lt as int])));
        lemma_wire_number_bound(v, a, k);
        lemma_wire_number_bound(v, b, k);
        lemma_continues_trans(net, n0, n1, inputs);
        lemma_continues_trans(net, n1, n2, inputs);
        lemma_continues_trans(net, n2, n3, inputs);
        lemma_continues_trans(net, n3, n4, inputs);
        lemma_continues_trans(net, n4, n5, inputs);
        lemma_continues_trans(net, n5, n6, inputs);
        assert(less_than_net(net, a, b, i) == (n6, n5.next()));
    }
}

/// The inputs of a winner circuit, as an evaluated net carries them.
spec fn carries_inputs(net: Net, inputs: Seq<bool>, rg: nat, w: nat, width: nat) -> bool {
    &&& ready(net, inputs)
    &&& net.base == 2 + VALUE_BITS as nat + width
    &&& wire_values(net.gates, inputs)[0]
    &&& !wire_values(net.gates, inputs)[1]
    &&& forall|k: nat|
        k < VALUE_BITS ==> wire_values(net.gates, inputs)[#[trigger] rg_wire(k) as int] == bit(
            rg,
            k,
        )
    &&& forall|k: nat|
        k < width ==> wire_values(net.gates, inputs)[#[trigger] w_wire(k) as int] == bit(w, k)
}

proof fn lemma_carries_on(net: Net, later: Net, inputs: Seq<bool>, rg: nat, w: nat, width: nat)
    requires
        carries_inputs(net, inputs, rg, w, width),
        continues(net, later, inputs),
    ensures
        carries_inputs(later, inputs, rg, w, width),
{
}

proof fn lemma_literal(net: Net, i: nat, k: nat, inputs: Seq<bool>, rg: nat, w: nat, width: nat)
    requires
        carries_inputs(net, inputs, rg, w, width),
        k < width,
    ensures
        ({
            let (later, lit) = literal_net(net, i, k);
            &&& carries_inputs(later, inputs, rg, w, width)
            &&& continues(net, later, inputs)
            &&& net.next() <= later.next() <= net.next() + 1
            &&& lit < later.next()
            &&& wire_values(later.gates, inputs)[lit as int] == (bit(w, k) == bit(i, k))
        }),
{
    let v = wire_values(net.gates, inputs);
    assert(v[w_wire(k) as int] == bit(w, k));
    if !bit(i, k) {
        lemma_gate(net, inputs, w_wire(k), one_wire(), GateKind::Xor);
        let later = net.with_gate(w_wire(k), one_wire(), GateKind::Xor);
        lemma_carries_on(net, later, inputs, rg, w, width);
    }
}

proof fn lemma_term(net: Net, i: nat, k: nat, inputs: Seq<bool>, rg: nat, w: nat, width: nat)
    requires
        carries_inputs(net, inputs, rg, w, width),
        1 <= k <= width,
    ensures
        ({
            let (later, term) = term_net(net, i, k);
            &&& carries_inputs(later, inputs, rg, w, width)
            &&& continues(net, later, inputs)
            &&& net.next() <= later.next() <= net.next() + 2 * k
            &&& term < later.next()
            &&& wire_values(later.gates, inputs)[term as int] == (w % pow2(k) == i % pow2(k))
        }),
    decreases k,
{
    if k == 1 {
        lemma_literal(net, i, 0, inputs, rg, w, width);
        lemma_bits_agree(w, i, 0);
        vstd::arithmetic::power2::lemma2_to64();
        assert(term_net(net, i, k) == literal_net(net, i, 0));
    } else {
        let j = (k - 1) as nat;
        lemma_term(net, i, j, inputs, rg, w, width);
        let (n0, term) = term_net(net, i, j);
        lemma_literal(n0, i, j, inputs, rg, w, width);
        let (n1, lit) = literal_net(n0, i, j);
        lemma_gate(n1, inputs, term, lit, GateKind::And);
        let n2 = n1.with_gate(term, lit, GateKind::And);
        lemma_carries_on(n1, n2, inputs, rg, w, width);
        lemma_continues_trans(net, n0, n1, inputs);
        lemma_continues_trans(net, n1, n2, inputs);
        lemma_bits_agree(w, i, j);
        let v0 = wire_values(n0.gates, inputs);
        let v1 = wire_values(n1.gates, inputs);
        assert(v1[term as int] == v0[term as int]);
        assert(v0[term as int] == (w % pow2(j) == i % pow2(j)));
        assert(v1[lit as int] == (bit(w, j) == bit(i, j)));
        assert(j + 1 == k);
        assert(term_net(net, i, k) == (n2, n1.next()));
        assert(wire_values(n2.gates, inputs)[n1.next() as int] == (v1[term as int]
            && v1[lit as int]));
    }
}

/// The selectors `sel` of a net: selector `j` carries "the index is `j`".
spec fn selects(net: Net, sel: Seq<nat>, inputs: Seq<bool>, index: nat) -> bool {
    forall|j: int|
        0 <= j < sel.len() ==> #[trigger] sel[j] < net.next() && wire_values(
            net.gates,
            inputs,
        )[sel[j] as int] == (index == j)
}

proof fn lemma_selects_on(net: Net, later: Net, sel: Seq<nat>, inputs: Seq<bool>, index: nat)
    requires
        selects(net, sel, inputs, index),
        continues(net, later, inputs),
    ensures
        selects(later, sel, inputs, index),
{
}

proof fn lemma_selectors(net: Net, width: nat, i: nat, inputs: Seq<bool>, rg: nat, w: nat)
    requires
        carries_inputs(net, inputs, rg, w, width),
        width >= 1,
        i <= pow2(width),
    ensures
        ({
            let (later, sel) = selectors_net(net, width, i);
            &&& carries_inputs(later, inputs, rg, w, width)
            &&& continues(net, later, inputs)
            &&& sel.len() == i
            &&& selects(later, sel, inputs, w % pow2(width))
        }),
    decreases i,
{
    if i > 0 {
        let j = (i - 1) as nat;
        lemma_selectors(net, width, j, inputs, rg, w);
        let (n0, sel) = selectors_net(net, width, j);
        lemma_term(n0, j, width, inputs, rg, w, width);
        let (n1, s) = term_net(n0, j, width);
        lemma_continues_trans(net, n0, n1, inputs);
        lemma_selects_on(n0, n1, sel, inputs, w % pow2(width));
        vstd::arithmetic::div_mod::lemma_small_mod(j, pow2(width));
    }
}

proof fn lemma_mux_bit(
    net: Net,
    sel: Seq<nat>,
    consts: Seq<u64>,
    k: nat,
    i: nat,
    inputs: Seq<bool>,
    index: nat,
)
    requires
        ready(net, inputs),
        selects(net, sel, inputs, index),
        i <= consts.len() <= sel.len(),
    ensures
        ({
            let (later, acc) = mux_bit_net(net, sel, consts, k, i);
            let holds = index < i && bit(consts[index as int] as nat, k);
            &&& ready(later, inputs)
            &&& continues(net, later, inputs)
            &&& match acc {
                None => !holds,
                Some(x) => x < later.next() && wire_values(later.gates, inputs)[x as int] == holds,
            }
        }),
    decreases i,
{
    if i > 0 {
        let j = (i - 1) as nat;
        lemma_mux_bit(net, sel, consts, k, j, inputs, index);
        let (n0, acc) = mux_bit_net(net, sel, consts, k, j);
        let s = sel[j as int];
        assert(s < net.next());
        assert(wire_values(n0.gates, inputs)[s as int] == (index == j));
        if bit(consts[j as int] as nat, k) {
            match acc {
                None => {},
                Some(x) => {
                    lemma_gate(n0, inputs, x, s, GateKind::Or);
                    lemma_continues_trans(
                        net,
                        n0,
                        n0.with_gate(x, s, GateKind::Or),
                        inputs,
                    );
                },
            }
        }
    }
}

/// The wires of a selected constant: wire `j` carries bit `j` of `consts[index]`,
/// or false where there is no such entry.
spec fn spells(net: Net, bits: Seq<nat>, consts: Seq<u64>, inputs: Seq<bool>, index: nat) -> bool {
    forall|j: int|
        0 <= j < bits.len() ==> #[trigger] bits[j] < net.next() && wire_values(
            net.gates,
            inputs,
        )[bits[j] as int] == (index < consts.len() && bit(consts[index as int] as nat, j as nat))
}

proof fn lemma_spells_on(
    net: Net,
    later: Net,
    bits: Seq<nat>,
    consts: Seq<u64>,
    inputs: Seq<bool>,
    index: nat,
)
    requires
        spells(net, bits, consts, inputs, index),
        continues(net, later, inputs),
    ensures
        spells(later, bits, consts, inputs, index),
{
}

proof fn lemma_mux(
    net: Net,
    sel: Seq<nat>,
    consts: Seq<u64>,
    k: nat,
    inputs: Seq<bool>,
    index: nat,
)
    requires
        ready(net, inputs),
        net.base >= 2,
        !wire_values(net.gates, inputs)[1],
        selects(net, sel, inputs, index),
        consts.len() == sel.len(),
    ensures
        ({
            let (later, bits) = mux_net(net, sel, consts, k);
            &&& ready(later, inputs)
            &&& continues(net, later, inputs)
            &&& bits.len() == k
            &&& spells(later, bits, consts, inputs, index)
        }),
    decreases k,
{
    if k > 0 {
        let j = (k - 1) as nat;
        lemma_mux(net, sel, consts, j, inputs, index);
        let (n0, bits) = mux_net(net, sel, consts, j);
        lemma_selects_on(net, n0, sel, inputs, index);
        lemma_mux_bit(n0, sel, consts, j, consts.len(), inputs, index);
        let (n1, acc) = mux_bit_net(n0, sel, consts, j, consts.len());
        lemma_continues_trans(net, n0, n1, inputs);
        lemma_spells_on(n0, n1, bits, consts, inputs, index);
    }
}

proof fn lemma_selected_number(
    net: Net,
    bits: Seq<nat>,
    consts: Seq<u64>,
    inputs: Seq<bool>,
    index: nat,
)
    requires
        spells(net, bits, consts, inputs, index),
        bits.len() == VALUE_BITS,
    ensures
        wire_number(wire_values(net.gates, inputs), bits, VALUE_BITS as nat) == if index
            < consts.len() {
            consts[index as int] as nat % pow2(VALUE_BITS as nat)
        } else {
            0
        },
{
    let v = wire_values(net.gates, inputs);
    if index < consts.len() {
        lemma_wire_number_bits(v, bits, consts[index as int] as nat, VALUE_BITS as nat);
    } else {
        lemma_wire_number_zero(v, bits, VALUE_BITS as nat);
    }
}

/// The winner circuit computes the winner predicate: for every draw position and
/// every claimed index, the verdict wire carries true exactly when the position
/// lies in the band of the entry that the claim names.
pub proof fn theorem_circuit_decides_claim(
    lo: Seq<u64>,
    hi: Seq<u64>,
    width: nat,
    rg: nat,
    w: nat,
)
    requires
        lo.len() == hi.len(),
        is_index_width(lo.len(), width),
    ensures
        ({
            let (net, valid) = winner_net(lo, hi, width);
            let inputs = input_values(rg, w, width);
            &&& net.ordered()
            &&& net.base == inputs.len()
            &&& valid < net.next()
            &&& wire_values(net.gates, inputs).len() == net.next()
            &&& wire_values(net.gates, inputs)[valid as int] == claim_holds(lo, hi, width, rg, w)
        }),
{
    let inputs = input_values(rg, w, width);
    let start = input_net(width);
    let index = w % pow2(width);
    assert(wire_values(start.gates, inputs) == inputs);
    assert(ready(start, inputs));
    assert forall|k: nat| k < VALUE_BITS implies inputs[#[trigger] rg_wire(k) as int] == bit(
        rg,
        k,
    ) by {
        assert(rg_wire(k) - 2 == k);
    }
    assert forall|k: nat| k < width implies inputs[#[trigger] w_wire(k) as int] == bit(w, k) by {
        assert(w_wire(k) - 2 - VALUE_BITS == k);
    }
    assert(carries_inputs(start, inputs, rg, w, width));
    lemma_selectors(start, width, lo.len(), inputs, rg, w);
    let (n0, sel) = selectors_net(start, width, lo.len());
    lemma_mux(n0, sel, lo, VALUE_BITS as nat, inputs, index);
    let (n1, lo_w) = mux_net(n0, sel, lo, VALUE_BITS as nat);
    lemma_selects_on(n0, n1, sel, inputs, index);
    lemma_carries_on(n0, n1, inputs, rg, w, width);
    lemma_mux(n1, sel, hi, VALUE_BITS as nat, inputs, index);
    let (n2, hi_w) = mux_net(n1, sel, hi, VALUE_BITS as nat);
    lemma_carries_on(n1, n2, inputs, rg, w, width);
    lemma_spells_on(n1, n2, lo_w, lo, inputs, index);
    let rgs = rg_wires();
    assert forall|j: int| 0 <= j < VALUE_BITS implies #[trigger] rgs[j] < n2.next() by {
        assert(rgs[j] == rg_wire(j as nat));
    }
    let v2 = wire_values(n2.gates, inputs);
    assert forall|j: int| 0 <= j < VALUE_BITS implies v2[(#[trigger] rgs[j]) as int] == bit(
        rg,
        j as nat,
    ) by {
        assert(rgs[j] == rg_wire(j as nat));
    }
    lemma_wire_number_bits(v2, rgs, rg, VALUE_BITS as nat);
    lemma_selected_number(n2, lo_w, lo, inputs, index);
    lemma_less_than(n2, rgs, lo_w, VALUE_BITS as nat, inputs);
    let (n3, lt_lo) = less_than_net(n2, rgs, lo_w, VALUE_BITS as nat);
    lemma_spells_on(n2, n3, hi_w, hi, inputs, index);
    lemma_wire_number_stable(n2, n3, inputs, rgs, VALUE_BITS as nat);
    lemma_selected_number(n3, hi_w, hi, inputs, index);
    assert forall|j: int| 0 <= j < VALUE_BITS implies #[trigger] rgs[j] < n3.next() by {
        assert(rgs[j] < n2.next());
    }
    lemma_less_than(n3, rgs, hi_w, VALUE_BITS as nat, inputs);
    let (n4, lt_hi) = less_than_net(n3, rgs, hi_w, VALUE_BITS as nat);
    lemma_gate(n4, inputs, lt_lo, one_wire(), GateKind::Xor);
    let n5 = n4.with_gate(lt_lo, one_wire(), GateKind::Xor);
    lemma_gate(n5, inputs, n4.next(), lt_hi, GateKind::And);
}

} // verus!

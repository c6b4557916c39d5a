//! Garbled disprovable computation.
//!
//! An engine garbles a verifier of its own claim. The single output wire of the
//! circuit has a "valid" and an "invalid" label; whoever evaluates the garbled
//! circuit on public inputs learns exactly one of them, and the invalid one only
//! if the claim is wrong. That label opens a hash lock. The circuit is the lottery
//! winner predicate `lo[w] <= rg < hi[w]`, with the bands baked in as constants.
use vstd::prelude::*;
use vstd::arithmetic::power2::{pow2, lemma_pow2_pos, lemma_pow2_unfold};
use vstd::arithmetic::power::pow;
use crate::bytes::{
    bytes_eq, le_bytes, le_nat, push_le, push_slice, theorem_le_round_trip,
};
use crate::hash::{sha256, sha256_of};
use crate::winner_net::{
    bit, claim_holds, further_ones, gate_truth, input_net, input_values, is_index_width, less_than_net,
    literal_net, mux_bit_net, mux_net, rg_wire, rg_wires, selectors_net, term_net,
    theorem_circuit_size, theorem_claims_are_judged_by_bands, winner_net, wire_values,
    zero_bits_below, zero_wire, GateKind, GateModel, Net, VALUE_BITS,
};
use crate::winner_proof::theorem_circuit_decides_claim;

verus! {

/// A wire label.
pub type Label = [u8; 32];

/// The domain separators of a gate's row tags and row pads: `tag` and `enc`.
pub const TAG_KIND: [u8; 3] = [0x74, 0x61, 0x67];

pub const ENC_KIND: [u8; 3] = [0x65, 0x6e, 0x63];

/// The bytewise exclusive or of two labels.
pub open spec fn xor_of(a: Seq<u8>, b: Seq<u8>) -> Seq<u8> {
    Seq::new(32, |i: int| a[i] ^ b[i])
}

/// The hash of two wire labels for one gate and one purpose.
pub open spec fn key_stream(a: Seq<u8>, b: Seq<u8>, gate: u32, kind: Seq<u8>) -> Seq<u8> {
    sha256_of(a + b + le_bytes(gate as nat, 4) + kind)
}

fn xor(a: &Label, b: &Label) -> (r: Label)
    ensures
        r@ == xor_of(a@, b@),
{
    let mut o: [u8; 32] = [0u8; 32];
    let mut i: usize = 0;
    while i < 32
        invariant
            i <= 32,
            forall|j: int| 0 <= j < i ==> o@[j] == a@[j] ^ b@[j],
        decreases 32 - i,
    {
        o[i] = a[i] ^ b[i];
        i = i + 1;
    }
    assert(o@ =~= xor_of(a@, b@));
    o
}

fn ks(a: &Label, b: &Label, gate: u32, kind: &[u8]) -> (r: Label)
    ensures
        r@ == key_stream(a@, b@, gate, kind@),
{
    let mut p: Vec<u8> = Vec::with_capacity(72);
    push_slice(&mut p, a);
    push_slice(&mut p, b);
    push_le(&mut p, gate as u64, 4);
    push_slice(&mut p, kind);
    assert(p@ =~= a@ + b@ + le_bytes(gate as nat, 4) + kind@);
    sha256(&p)
}

/// One row of a garbled gate.
#[derive(Clone)]
pub struct Row {
    pub tag: Label,
    pub ct: Label,
}

/// A row as byte sequences.
pub struct RowModel {
    pub tag: Seq<u8>,
    pub ct: Seq<u8>,
}

impl View for Row {
    type V = RowModel;

    open spec fn view(&self) -> RowModel {
        RowModel { tag: self.tag@, ct: self.ct@ }
    }
}

/// Garbled tables as byte sequences.
pub open spec fn tables_model(tables: Seq<Vec<Row>>) -> Seq<Seq<RowModel>> {
    Seq::new(tables.len(), |k: int| rows_model(tables[k]@))
}

pub open spec fn rows_model(rows: Seq<Row>) -> Seq<RowModel> {
    Seq::new(rows.len(), |r: int| rows[r]@)
}

/// The label of wire `x` for the given truth value.
pub open spec fn label_of(wires: Seq<[Label; 2]>, x: int, value: bool) -> Seq<u8> {
    wires[x]@[if value {
        1
    } else {
        0
    }]@
}

/// The identifier of gate `k`: its position, as 32 bits.
pub open spec fn gate_id(k: int) -> u32 {
    k as u32
}

/// The row of gate `k` for the input values `x` and `y`.
pub open spec fn gate_row(
    net: Net,
    wires: Seq<[Label; 2]>,
    k: int,
    x: bool,
    y: bool,
) -> RowModel {
    let g = net.gates[k];
    let la = label_of(wires, g.a as int, x);
    let lb = label_of(wires, g.b as int, y);
    let lo = label_of(wires, net.base + k, gate_truth(g.kind, x, y));
    RowModel {
        tag: key_stream(la, lb, gate_id(k), TAG_KIND@),
        ct: xor_of(key_stream(la, lb, gate_id(k), ENC_KIND@), lo),
    }
}

/// The garbled table of gate `k`: its four rows, rotated left by the identifier.
pub open spec fn gate_table(net: Net, wires: Seq<[Label; 2]>, k: int) -> Seq<RowModel> {
    Seq::new(
        4,
        |r: int|
            {
                let s = (r + gate_id(k) % 4) % 4;
                gate_row(net, wires, k, s / 2 == 1, s % 2 == 1)
            },
    )
}

/// All garbled tables of a net.
pub open spec fn garbled(net: Net, wires: Seq<[Label; 2]>) -> Seq<Seq<RowModel>> {
    Seq::new(net.gates.len(), |k: int| gate_table(net, wires, k))
}

/// The first row from `r` on that carries the tag.
pub open spec fn opening_row(table: Seq<RowModel>, tag: Seq<u8>, r: nat) -> Option<nat>
    decreases table.len() - r,
{
    if r >= table.len() {
        None
    } else if table[r as int].tag == tag {
        Some(r)
    } else {
        opening_row(table, tag, r + 1)
    }
}

/// The labels that an evaluator holds after working through the gates, from the
/// labels of the input wires; `None` if some gate has no row that opens.
pub open spec fn active_labels(
    gates: Seq<GateModel>,
    tables: Seq<Seq<RowModel>>,
    inputs: Seq<Seq<u8>>,
) -> Option<Seq<Seq<u8>>>
    decreases gates.len(),
{
    if gates.len() == 0 {
        Some(inputs)
    } else {
        match active_labels(gates.drop_last(), tables, inputs) {
            None => None,
            Some(active) => {
                let k = gates.len() - 1;
                let la = active[gates.last().a as int];
                let lb = active[gates.last().b as int];
                match opening_row(tables[k], key_stream(la, lb, gate_id(k), TAG_KIND@), 0) {
                    None => None,
                    Some(r) => Some(
                        active.push(
                            xor_of(
                                tables[k][r as int].ct,
                                key_stream(la, lb, gate_id(k), ENC_KIND@),
                            ),
                        ),
                    ),
                }
            },
        }
    }
}

/// The labels of the input wires for a draw position and a claimed index.
pub open spec fn input_labels(wires: Seq<[Label; 2]>, rg: nat, w: nat, width: nat) -> Seq<
    Seq<u8>,
> {
    Seq::new(
        input_values(rg, w, width).len(),
        |x: int| label_of(wires, x, input_values(rg, w, width)[x]),
    )
}

/// No two rows of a gate carry the same tag.
pub open spec fn tags_distinct(net: Net, wires: Seq<[Label; 2]>) -> bool {
    forall|k: int, x: bool, y: bool, u: bool, v: bool|
        #![trigger gate_row(net, wires, k, x, y), gate_row(net, wires, k, u, v)]
        0 <= k < net.gates.len() && (x != u || y != v) ==> gate_row(net, wires, k, x, y).tag
            != gate_row(net, wires, k, u, v).tag
}

/// The label preimage of wire `x` of an instance: seed, wire number and bit.
pub open spec fn derived_label(seed: u64, x: int, value: u8) -> Seq<u8> {
    sha256_of(le_bytes(seed as nat, 8) + le_bytes((x as u32) as nat, 4) + seq![value])
}

/// The concatenated tags and ciphertexts of the rows of one table.
pub open spec fn rows_bytes(rows: Seq<RowModel>) -> Seq<u8>
    decreases rows.len(),
{
    if rows.len() == 0 {
        Seq::empty()
    } else {
        rows_bytes(rows.drop_last()) + rows.last().tag + rows.last().ct
    }
}

/// The concatenated rows of all tables.
pub open spec fn tables_bytes(tables: Seq<Seq<RowModel>>) -> Seq<u8>
    decreases tables.len(),
{
    if tables.len() == 0 {
        Seq::empty()
    } else {
        tables_bytes(tables.drop_last()) + rows_bytes(tables.last())
    }
}

/// A gate of the circuit.
#[derive(Clone, Copy)]
struct Gate {
    a: usize,
    b: usize,
    kind: GateKind,
}

impl Gate {
    spec fn model(self) -> GateModel {
        GateModel { a: self.a as nat, b: self.b as nat, kind: self.kind }
    }
}

spec fn gates_model(gates: Seq<Gate>) -> Seq<GateModel> {
    Seq::new(gates.len(), |k: int| gates[k].model())
}

/// The index width for `n` entries.
fn bits_for(n: usize) -> (b: usize)
    requires
        n <= usize::MAX / 2 + 1,
    ensures
        is_index_width(n as nat, b as nat),
        b <= 64,
{
    let mut b: usize = 1;
    let mut p: usize = 2;
    proof {
        vstd::arithmetic::power2::lemma2_to64();
    }
    while p < n
        invariant
            n <= usize::MAX / 2 + 1,
            b >= 1,
            p == pow2(b as nat),
            b == 1 || pow2((b - 1) as nat) < n,
            b <= 64,
            b == 64 ==> p >= n,
        decreases 64 - b,
    {
        proof {
            lemma_pow2_unfold((b + 1) as nat);
            lemma_pow2_pos(b as nat);
            assert(b < 63) by {
                if b == 63 {
                    vstd::arithmetic::power2::lemma2_to64();
                    vstd::arithmetic::power2::lemma2_to64_rest();
                }
            }
        }
        p = p * 2;
        b = b + 1;
    }
    b
}

/// Bit `k` of a number.
fn bit_at(x: u64, k: usize) -> (r: bool)
    requires
        k < 64,
    ensures
        r == bit(x as nat, k as nat),
{
    let y: u64 = x >> (k as u64);
    proof {
        vstd::bits::lemma_u64_shr_is_div(x, k as u64);
        assert(y & 1 == y % 2) by (bit_vector);
    }
    y & 1 == 1
}

/// A net under construction.
struct NetBuilder {
    base: usize,
    gates: Vec<Gate>,
}

impl NetBuilder {
    spec fn net(&self) -> Net {
        Net { base: self.base as nat, gates: gates_model(self.gates@) }
    }

    fn next(&self) -> (r: usize)
        requires
            self.base + self.gates@.len() <= usize::MAX,
        ensures
            r == self.net().next(),
    {
        self.base + self.gates.len()
    }

    fn gate(&mut self, a: usize, b: usize, kind: GateKind) -> (o: usize)
        requires
            old(self).net().next() < usize::MAX,
        ensures
            final(self).net() == old(self).net().with_gate(a as nat, b as nat, kind),
            o == old(self).net().next(),
    {
        let o: usize = self.next();
        self.gates.push(Gate { a, b, kind });
        assert(gates_model(self.gates@) =~= gates_model(old(self).gates@).push(
            GateModel { a: a as nat, b: b as nat, kind },
        ));
        o
    }

    fn less_than(&mut self, a: &Vec<usize>, b: &Vec<usize>) -> (lt: usize)
        requires
            a@.len() == VALUE_BITS,
            b@.len() == VALUE_BITS,
            old(self).net().next() + 6 * VALUE_BITS <= usize::MAX,
        ensures
            (final(self).net(), lt as nat) == less_than_net(
                old(self).net(),
                nats(a@),
                nats(b@),
                VALUE_BITS as nat,
            ),
            final(self).net().next() == old(self).net().next() + 6 * VALUE_BITS,
    {
        let ghost start = self.net();
        let mut lt: usize = 1;
        let mut i: usize = 0;
        while i < VALUE_BITS
            invariant
                i <= VALUE_BITS,
                a@.len() == VALUE_BITS,
                b@.len() == VALUE_BITS,
                (self.net(), lt as nat) == less_than_net(start, nats(a@), nats(b@), i as nat),
                self.net().next() == start.next() + 6 * i,
                start.next() + 6 * VALUE_BITS <= usize::MAX,
            decreases VALUE_BITS - i,
        {
            let na = self.gate(a[i], 0, GateKind::Xor);
            let alb = self.gate(na, b[i], GateKind::And);
            let axb = self.gate(a[i], b[i], GateKind::Xor);
            let eq = self.gate(axb, 0, GateKind::Xor);
            let eal = self.gate(eq, lt, GateKind::And);
            lt = self.gate(alb, eal, GateKind::Or);
            i = i + 1;
        }
        lt
    }

    fn literal(&mut self, i: usize, k: usize) -> (lit: usize)
        requires
            k < 64,
            old(self).net().next() < usize::MAX,
        ensures
            (final(self).net(), lit as nat) == literal_net(old(self).net(), i as nat, k as nat),
            old(self).net().next() <= final(self).net().next() <= old(self).net().next() + 1,
    {
        let wire: usize = 2 + VALUE_BITS + k;
        if bit_at(i as u64, k) {
            wire
        } else {
            self.gate(wire, 0, GateKind::Xor)
        }
    }

    fn term(&mut self, i: usize, width: usize) -> (term: usize)
        requires
            1 <= width <= 64,
            old(self).net().next() + 2 * width <= usize::MAX,
        ensures
            (final(self).net(), term as nat) == term_net(
                old(self).net(),
                i as nat,
                width as nat,
            ),
            old(self).net().next() <= final(self).net().next() <= old(self).net().next() + 2
                * width,
    {
        let ghost start = self.net();
        let mut term: usize = self.literal(i, 0);
        let mut k: usize = 1;
        while k < width
            invariant
                1 <= k <= width <= 64,
                (self.net(), term as nat) == term_net(start, i as nat, k as nat),
                start.next() <= self.net().next() <= start.next() + 2 * k,
                start.next() + 2 * width <= usize::MAX,
            decreases width - k,
        {
            let lit = self.literal(i, k);
            term = self.gate(term, lit, GateKind::And);
            k = k + 1;
        }
        term
    }

    fn selectors(&mut self, n: usize, width: usize) -> (sel: Vec<usize>)
        requires
            1 <= width <= 64,
            old(self).net().next() + 128 * n <= usize::MAX,
        ensures
            (final(self).net(), nats(sel@)) == selectors_net(
                old(self).net(),
                width as nat,
                n as nat,
            ),
            old(self).net().next() <= final(self).net().next() <= old(self).net().next() + 128 * n,
            sel@.len() == n,
    {
        let ghost start = self.net();
        let mut sel: Vec<usize> = Vec::new();
        assert(nats(sel@) =~= Seq::<nat>::empty());
        let mut i: usize = 0;
        while i < n
            invariant
                i <= n,
                1 <= width <= 64,
                sel@.len() == i,
                (self.net(), nats(sel@)) == selectors_net(start, width as nat, i as nat),
                start.next() <= self.net().next() <= start.next() + 128 * i,
                start.next() + 128 * n <= usize::MAX,
            decreases n - i,
        {
            let ghost before = sel@;
            let term = self.term(i, width);
            sel.push(term);
            assert(nats(sel@) =~= nats(before).push(term as nat));
            i = i + 1;
        }
        sel
    }

    fn mux_bit(&mut self, sel: &Vec<usize>, consts: &[u64], k: usize) -> (out: usize)
        requires
            sel@.len() == consts@.len(),
            k < 64,
            old(self).net().next() + consts@.len() <= usize::MAX,
        ensures
            ({
                let (net, acc) = mux_bit_net(
                    old(self).net(),
                    nats(sel@),
                    consts@,
                    k as nat,
                    consts@.len(),
                );
                &&& final(self).net() == net
                &&& out as nat == match acc {
                    None => zero_wire(),
                    Some(x) => x,
                }
            }),
            old(self).net().next() <= final(self).net().next() <= old(self).net().next()
                + consts@.len(),
    {
        let ghost start = self.net();
        let mut acc: Option<usize> = None;
        let mut i: usize = 0;
        while i < consts.len()
            invariant
                i <= consts@.len(),
                sel@.len() == consts@.len(),
                k < 64,
                ({
                    let (net, at) = mux_bit_net(start, nats(sel@), consts@, k as nat, i as nat);
                    &&& self.net() == net
                    &&& at == match acc {
                        None => None::<nat>,
                        Some(x) => Some(x as nat),
                    }
                }),
                start.next() <= self.net().next() <= start.next() + i,
                start.next() + consts@.len() <= usize::MAX,
            decreases consts@.len() - i,
        {
            if bit_at(consts[i], k) {
                acc = match acc {
                    None => Some(sel[i]),
                    Some(x) => Some(self.gate(x, sel[i], GateKind::Or)),
                };
            }
            i = i + 1;
        }
        match acc {
            None => 1,
            Some(x) => x,
        }
    }

    fn mux(&mut self, sel: &Vec<usize>, consts: &[u64]) -> (bits: Vec<usize>)
        requires
            sel@.len() == consts@.len(),
            old(self).net().next() + 32 * consts@.len() <= usize::MAX,
        ensures
            (final(self).net(), nats(bits@)) == mux_net(
                old(self).net(),
                nats(sel@),
                consts@,
                VALUE_BITS as nat,
            ),
            bits@.len() == VALUE_BITS,
            old(self).net().next() <= final(self).net().next() <= old(self).net().next() + 32
                * consts@.len(),
    {
        let ghost start = self.net();
        let mut bits: Vec<usize> = Vec::new();
        assert(nats(bits@) =~= Seq::<nat>::empty());
        let mut k: usize = 0;
        while k < VALUE_BITS
            invariant
                k <= VALUE_BITS,
                sel@.len() == consts@.len(),
                bits@.len() == k,
                (self.net(), nats(bits@)) == mux_net(start, nats(sel@), consts@, k as nat),
                start.next() <= self.net().next() <= start.next() + k * consts@.len(),
                start.next() + 32 * consts@.len() <= usize::MAX,
            decreases VALUE_BITS - k,
        {
            proof {
                assert(k * consts@.len() + consts@.len() == (k + 1) * consts@.len())
                    by (nonlinear_arith);
                assert((k + 1) * consts@.len() <= 32 * consts@.len()) by (nonlinear_arith)
                    requires
                        k + 1 <= 32,
                ;
            }
            let ghost before = bits@;
            let out = self.mux_bit(sel, consts, k);
            bits.push(out);
            assert(nats(bits@) =~= nats(before).push(out as nat));
            k = k + 1;
        }
        bits
    }
}

/// Wire numbers as natural numbers.
spec fn nats(s: Seq<usize>) -> Seq<nat> {
    Seq::new(s.len(), |i: int| s[i] as nat)
}

/// The winner circuit of a round. Everyone builds the same circuit from the
/// round's bands.
pub struct WinnerVerifier {
    gates: Vec<Gate>,
    w_bits: usize,
    valid: usize,
}

impl WinnerVerifier {
    /// The circuit's net.
    pub closed spec fn net(&self) -> Net {
        Net { base: (2 + VALUE_BITS + self.w_bits) as nat, gates: gates_model(self.gates@) }
    }

    /// The number of bits of the claimed index.
    pub closed spec fn width(&self) -> nat {
        self.w_bits as nat
    }

    /// The wire of the verdict.
    pub closed spec fn verdict(&self) -> nat {
        self.valid as nat
    }

    #[verifier::type_invariant]
    pub closed spec fn well_formed(&self) -> bool {
        &&& self.net().ordered()
        &&& self.w_bits <= 64
        &&& self.net().next() <= usize::MAX
        &&& self.valid < self.net().next()
    }

    /// Builds the circuit for a round whose entry `i` has the band
    /// `[lo[i], hi[i])`.
    pub fn new(lo: &[u64], hi: &[u64]) -> (r: WinnerVerifier)
        requires
            lo@.len() == hi@.len(),
            lo@.len() >= 1,
            200 * lo@.len() + 1000 <= usize::MAX,
        ensures
            is_index_width(lo@.len(), r.width()),
            (r.net(), r.verdict()) == winner_net(lo@, hi@, r.width()),
    {
        let n: usize = lo.len();
        let w_bits = bits_for(n);
        let mut b = NetBuilder { base: 2 + VALUE_BITS + w_bits, gates: Vec::new() };
        assert(b.net().gates =~= input_net(w_bits as nat).gates);
        let mut rg: Vec<usize> = Vec::new();
        let mut k: usize = 0;
        while k < VALUE_BITS
            invariant
                k <= VALUE_BITS,
                rg@.len() == k,
                forall|j: int| 0 <= j < k ==> rg@[j] == rg_wire(j as nat),
            decreases VALUE_BITS - k,
        {
            rg.push(2 + k);
            k = k + 1;
        }
        assert(nats(rg@) =~= rg_wires());
        let sel = b.selectors(n, w_bits);
        let lo_w = b.mux(&sel, lo);
        let hi_w = b.mux(&sel, hi);
        let rg_lt_lo = b.less_than(&rg, &lo_w);
        let rg_lt_hi = b.less_than(&rg, &hi_w);
        let ge_lo = b.gate(rg_lt_lo, 0, GateKind::Xor);
        let valid = b.gate(ge_lo, rg_lt_hi, GateKind::And);
        proof {
            theorem_circuit_decides_claim(lo@, hi@, w_bits as nat, 0, 0);
        }
        WinnerVerifier { gates: b.gates, w_bits, valid }
    }

    /// The number of gates.
    pub fn gate_count(&self) -> (r: usize)
        ensures
            r == self.net().gates.len(),
    {
        self.gates.len()
    }

    /// Derives an instance's wire labels from its seed.
    pub fn wires(&self, seed: u64) -> (r: Vec<[Label; 2]>)
        ensures
            r@.len() == self.net().next(),
            forall|x: int|
                0 <= x < r@.len() ==> #[trigger] label_of(r@, x, false) == derived_label(seed, x, 0),
            forall|x: int|
                0 <= x < r@.len() ==> #[trigger] label_of(r@, x, true) == derived_label(seed, x, 1),
    {
        proof {
            use_type_invariant(self);
        }
        let total: usize = 2 + VALUE_BITS + self.w_bits + self.gates.len();
        let mut r: Vec<[Label; 2]> = Vec::new();
        let mut x: usize = 0;
        while x < total
            invariant
                x <= total,
                r@.len() == x,
                forall|j: int|
                    0 <= j < x ==> #[trigger] label_of(r@, j, false) == derived_label(seed, j, 0),
                forall|j: int|
                    0 <= j < x ==> #[trigger] label_of(r@, j, true) == derived_label(seed, j, 1),
            decreases total - x,
        {
            let ghost before = r@;
            let pair: [Label; 2] = [derive_label(seed, x, 0), derive_label(seed, x, 1)];
            r.push(pair);
            assert forall|j: int| 0 <= j < x + 1 implies #[trigger] label_of(r@, j, false)
                == derived_label(seed, j, 0) by {
                if j < x {
                    assert(label_of(before, j, false) == derived_label(seed, j, 0));
                } else {
                    assert(r@[j]@[0] == pair@[0]);
                }
            }
            assert forall|j: int| 0 <= j < x + 1 implies #[trigger] label_of(r@, j, true)
                == derived_label(seed, j, 1) by {
                if j < x {
                    assert(label_of(before, j, true) == derived_label(seed, j, 1));
                } else {
                    assert(r@[j]@[1] == pair@[1]);
                }
            }
            x = x + 1;
        }
        r
    }

    /// Garbles every gate into a table of four rows.
    pub fn garble(&self, wires: &[[Label; 2]]) -> (tables: Vec<Vec<Row>>)
        requires
            wires@.len() >= self.net().next(),
        ensures
            tables_model(tables@) == garbled(self.net(), wires@),
    {
        proof {
            use_type_invariant(self);
        }
        let base: usize = 2 + VALUE_BITS + self.w_bits;
        let ghost net = self.net();
        let mut tables: Vec<Vec<Row>> = Vec::new();
        let mut k: usize = 0;
        while k < self.gates.len()
            invariant
                k <= self.gates@.len(),
                net == self.net(),
                net.ordered(),
                base == net.base,
                net.next() <= usize::MAX,
                wires@.len() >= net.next(),
                tables@.len() == k,
                forall|j: int| 0 <= j < k ==> rows_model(#[trigger] tables@[j]@) == gate_table(
                    net,
                    wires@,
                    j,
                ),
            decreases self.gates@.len() - k,
        {
            let ghost before = tables@;
            let g: Gate = self.gates[k];
            assert(g.model() == net.gates[k as int]);
            let id: u32 = k as u32;
            let turn: usize = (id % 4) as usize;
            let mut rows: Vec<Row> = Vec::with_capacity(4);
            let mut r: usize = 0;
            while r < 4
                invariant
                    r <= 4,
                    k < self.gates@.len(),
                    net == self.net(),
                    net.ordered(),
                    base == net.base,
                    wires@.len() >= net.next(),
                    net.next() <= usize::MAX,
                    g.model() == net.gates[k as int],
                    g.a < base + k,
                    g.b < base + k,
                    id == gate_id(k as int),
                    turn == id % 4,
                    rows@.len() == r,
                    forall|j: int| 0 <= j < r ==> (#[trigger] rows@[j])@ == gate_table(
                        net,
                        wires@,
                        k as int,
                    )[j],
                decreases 4 - r,
            {
                let s: usize = (r + turn) % 4;
                let i: usize = s / 2;
                let j: usize = s % 2;
                let al: Label = wires[g.a][i];
                let bl: Label = wires[g.b][j];
                let t: bool = match g.kind {
                    GateKind::Xor => i != j,
                    GateKind::And => i == 1 && j == 1,
                    GateKind::Or => i == 1 || j == 1,
                };
                let ol: Label = wires[base + k][if t {
                    1
                } else {
                    0
                }];
                let row = Row { tag: ks(&al, &bl, id, &TAG_KIND), ct: xor(
                    &ks(&al, &bl, id, &ENC_KIND),
                    &ol,
                ) };
                assert(row@ == gate_row(net, wires@, k as int, i == 1, j == 1));
                rows.push(row);
                r = r + 1;
            }
            assert(rows_model(rows@) =~= gate_table(net, wires@, k as int));
            tables.push(rows);
            k = k + 1;
        }
        assert(tables_model(tables@) =~= garbled(net, wires@));
        tables
    }

    /// What an evaluation yields: the label of the verdict wire, or `None` where
    /// some gate has no row that opens.
    pub open spec fn evaluation(
        &self,
        wires: Seq<[Label; 2]>,
        tables: Seq<Seq<RowModel>>,
        rg: u64,
        w: u64,
    ) -> Option<Seq<u8>> {
        match active_labels(
            self.net().gates,
            tables,
            input_labels(wires, rg as nat, w as nat, self.width()),
        ) {
            None => None,
            Some(active) => Some(active[self.verdict() as int]),
        }
    }

    fn run(&self, wires: &[[Label; 2]], tables: &[Vec<Row>], rg: u64, w: u64) -> (out: Option<
        Label,
    >)
        requires
            wires@.len() >= self.net().base,
            tables@.len() >= self.net().gates.len(),
        ensures
            match out {
                None => self.evaluation(wires@, tables_model(tables@), rg, w) is None,
                Some(l) => self.evaluation(wires@, tables_model(tables@), rg, w) == Some(l@),
            },
    {
        proof {
            use_type_invariant(self);
        }
        let base: usize = 2 + VALUE_BITS + self.w_bits;
        let ghost net = self.net();
        let ghost model = tables_model(tables@);
        let ghost inputs = input_labels(wires@, rg as nat, w as nat, self.width());
        let mut active: Vec<Label> = Vec::new();
        let mut x: usize = 0;
        while x < base
            invariant
                x <= base,
                base == 2 + VALUE_BITS + self.w_bits,
                self.w_bits <= 64,
                wires@.len() >= base,
                inputs == input_labels(wires@, rg as nat, w as nat, self.width()),
                active@.len() == x,
                forall|j: int| 0 <= j < x ==> (#[trigger] active@[j])@ == inputs[j],
            decreases base - x,
        {
            let value: bool = if x < 2 {
                x == 0
            } else if x < 2 + VALUE_BITS {
                bit_at(rg, x - 2)
            } else {
                bit_at(w, x - 2 - VALUE_BITS)
            };
            let l: Label = wires[x][if value {
                1
            } else {
                0
            }];
            active.push(l);
            x = x + 1;
        }
        assert(labels_model(active@) =~= inputs);
        assert(net.gates.take(0) =~= Seq::<GateModel>::empty());
        let mut k: usize = 0;
        while k < self.gates.len()
            invariant
                k <= self.gates@.len(),
                net == self.net(),
                net.ordered(),
                base == net.base,
                net.next() <= usize::MAX,
                model == tables_model(tables@),
                tables@.len() >= net.gates.len(),
                active@.len() == base + k,
                active_labels(net.gates.take(k as int), model, inputs) == Some(
                    labels_model(active@),
                ),
                inputs == input_labels(wires@, rg as nat, w as nat, self.width()),
            decreases self.gates@.len() - k,
        {
            let g: Gate = self.gates[k];
            assert(g.model() == net.gates[k as int]);
            let ghost upto = net.gates.take(k + 1);
            proof {
                assert(upto.drop_last() =~= net.gates.take(k as int));
                assert(upto.last() == g.model());
                assert(model[k as int] == rows_model(tables@[k as int]@));
            }
            let id: u32 = k as u32;
            let la: Label = active[g.a];
            let lb: Label = active[g.b];
            let tag = ks(&la, &lb, id, &TAG_KIND);
            let rows: &Vec<Row> = &tables[k];
            let mut r: usize = 0;
            while r < rows.len() && !bytes_eq(&rows[r].tag, &tag)
                invariant
                    r <= rows@.len(),
                    opening_row(rows_model(rows@), tag@, 0) == opening_row(
                        rows_model(rows@),
                        tag@,
                        r as nat,
                    ),
                decreases rows@.len() - r,
            {
                r = r + 1;
            }
            if r >= rows.len() {
                proof {
                    lemma_blocked(net.gates, model, inputs, (k + 1) as nat);
                }
                return None;
            }
            assert(opening_row(model[k as int], tag@, 0) == Some(r as nat));
            let ghost before = active@;
            let l: Label = xor(&rows[r].ct, &ks(&la, &lb, id, &ENC_KIND));
            active.push(l);
            assert(labels_model(active@) =~= labels_model(before).push(l@));
            k = k + 1;
        }
        assert(net.gates.take(k as int) =~= net.gates);
        Some(active[self.valid])
    }

    /// Evaluates the garbled circuit on the public draw position `rg` and the
    /// claimed winner index `w`: the label of the verdict wire.
    pub fn evaluate(
        &self,
        wires: &[[Label; 2]],
        tables: &[Vec<Row>],
        rg: u64,
        w: u64,
    ) -> (out: Label)
        requires
            wires@.len() >= self.net().base,
            tables@.len() >= self.net().gates.len(),
            self.evaluation(wires@, tables_model(tables@), rg, w) is Some,
        ensures
            self.evaluation(wires@, tables_model(tables@), rg, w) == Some(out@),
    {
        match self.run(wires, tables, rg, w) {
            Some(l) => l,
            None => [0u8; 32],
        }
    }

    /// [`WinnerVerifier::evaluate`] on tables of any origin: `None` where some
    /// gate has no row that opens.
    pub fn evaluate_checked(
        &self,
        wires: &[[Label; 2]],
        tables: &[Vec<Row>],
        rg: u64,
        w: u64,
    ) -> (out: Option<Label>)
        requires
            wires@.len() >= self.net().base,
            tables@.len() >= self.net().gates.len(),
        ensures
            match out {
                None => self.evaluation(wires@, tables_model(tables@), rg, w) is None,
                Some(l) => self.evaluation(wires@, tables_model(tables@), rg, w) == Some(l@),
            },
    {
        match self.run(wires, tables, rg, w) {
            Some(_) => Some(self.evaluate(wires, tables, rg, w)),
            None => None,
        }
    }

    /// The label that a correct claim yields.
    pub fn valid_label(&self, wires: &[[Label; 2]]) -> (r: Label)
        requires
            self.verdict() < wires@.len(),
        ensures
            r@ == label_of(wires@, self.verdict() as int, true),
    {
        wires[self.valid][1]
    }

    /// The disprove secret: the label that a wrong claim yields.
    pub fn invalid_label(&self, wires: &[[Label; 2]]) -> (r: Label)
        requires
            self.verdict() < wires@.len(),
        ensures
            r@ == label_of(wires@, self.verdict() as int, false),
    {
        wires[self.valid][0]
    }

    /// The hash lock that the disprove secret opens.
    pub fn disprove_hash(&self, wires: &[[Label; 2]]) -> (r: [u8; 32])
        requires
            self.verdict() < wires@.len(),
        ensures
            r@ == sha256_of(label_of(wires@, self.verdict() as int, false)),
    {
        let l = self.invalid_label(wires);
        sha256(&l)
    }

    /// The label commitments of each bit of the draw position: the hashes of its
    /// two labels, low bit first.
    pub fn rg_commitments(&self, wires: &[[Label; 2]]) -> (r: Vec<(Label, Label)>)
        requires
            wires@.len() >= 2 + VALUE_BITS,
        ensures
            r@.len() == VALUE_BITS,
            forall|k: int|
                0 <= k < VALUE_BITS ==> (#[trigger] r@[k]).0@ == sha256_of(
                    label_of(wires@, rg_wire(k as nat) as int, false),
                ) && r@[k].1@ == sha256_of(label_of(wires@, rg_wire(k as nat) as int, true)),
    {
        let mut r: Vec<(Label, Label)> = Vec::new();
        let mut k: usize = 0;
        while k < VALUE_BITS
            invariant
                k <= VALUE_BITS,
                wires@.len() >= 2 + VALUE_BITS,
                r@.len() == k,
                forall|j: int|
                    0 <= j < k ==> (#[trigger] r@[j]).0@ == sha256_of(
                        label_of(wires@, rg_wire(j as nat) as int, false),
                    ) && r@[j].1@ == sha256_of(label_of(wires@, rg_wire(j as nat) as int, true)),
            decreases VALUE_BITS - k,
        {
            let pair: [Label; 2] = wires[2 + k];
            r.push((sha256(&pair[0]), sha256(&pair[1])));
            k = k + 1;
        }
        r
    }

    /// The commitment to garbled tables: the hash of all tags and ciphertexts.
    pub fn tables_commit(&self, tables: &[Vec<Row>]) -> (r: Label)
        ensures
            r@ == sha256_of(tables_bytes(tables_model(tables@))),
    {
        let ghost model = tables_model(tables@);
        let mut p: Vec<u8> = Vec::new();
        let mut k: usize = 0;
        assert(model.take(0) =~= Seq::<Seq<RowModel>>::empty());
        while k < tables.len()
            invariant
                k <= tables@.len(),
                model == tables_model(tables@),
                p@ == tables_bytes(model.take(k as int)),
            decreases tables@.len() - k,
        {
            let rows: &Vec<Row> = &tables[k];
            let ghost table = rows_model(rows@);
            let ghost before = p@;
            let mut r: usize = 0;
            assert(table.take(0) =~= Seq::<RowModel>::empty());
            assert(p@ =~= before + rows_bytes(table.take(0)));
            while r < rows.len()
                invariant
                    r <= rows@.len(),
                    table == rows_model(rows@),
                    p@ == before + rows_bytes(table.take(r as int)),
                decreases rows@.len() - r,
            {
                push_slice(&mut p, &rows[r].tag);
                push_slice(&mut p, &rows[r].ct);
                proof {
                    let upto = table.take(r + 1);
                    assert(upto.drop_last() =~= table.take(r as int));
                    assert(upto.last() == rows@[r as int]@);
                    assert(p@ =~= before + rows_bytes(upto));
                }
                r = r + 1;
            }
            proof {
                assert(table.take(r as int) =~= table);
                let upto = model.take(k + 1);
                assert(upto.drop_last() =~= model.take(k as int));
                assert(upto.last() == table);
            }
            k = k + 1;
        }
        assert(model.take(k as int) =~= model);
        sha256(&p)
    }
}

/// Labels as byte sequences.
spec fn labels_model(labels: Seq<Label>) -> Seq<Seq<u8>> {
    Seq::new(labels.len(), |i: int| labels[i]@)
}

/// A gate that no row opens ends the evaluation.
proof fn lemma_blocked(
    gates: Seq<GateModel>,
    tables: Seq<Seq<RowModel>>,
    inputs: Seq<Seq<u8>>,
    k: nat,
)
    requires
        k <= gates.len(),
        active_labels(gates.take(k as int), tables, inputs) is None,
    ensures
        active_labels(gates, tables, inputs) is None,
    decreases gates.len() - k,
{
    if k == gates.len() {
        assert(gates.take(k as int) =~= gates);
    } else {
        let upto = gates.take((k + 1) as int);
        assert(upto.drop_last() =~= gates.take(k as int));
        lemma_blocked(gates, tables, inputs, k + 1);
    }
}

fn derive_label(seed: u64, x: usize, value: u8) -> (r: Label)
    ensures
        r@ == derived_label(seed, x as int, value),
{
    let mut p: Vec<u8> = Vec::with_capacity(13);
    push_le(&mut p, seed, 8);
    push_le(&mut p, (x as u32) as u64, 4);
    p.push(value);
    assert(p@ =~= le_bytes(seed as nat, 8) + le_bytes((x as u32) as nat, 4) + seq![value]);
    sha256(&p)
}

/// A per-instance commitment of a cut-and-choose run.
pub struct InstanceCommit {
    pub tables_commit: Label,
    pub disprove_hash: [u8; 32],
}

/// The concatenated commitments of the instances.
pub open spec fn commits_bytes(commits: Seq<InstanceCommit>) -> Seq<u8>
    decreases commits.len(),
{
    if commits.len() == 0 {
        Seq::empty()
    } else {
        commits_bytes(commits.drop_last()) + commits.last().tables_commit@
            + commits.last().disprove_hash@
    }
}

/// Which of `k` instances a cut-and-choose run opens, derived from the hash of the
/// commitments so that the choice cannot be known before committing.
pub fn fiat_shamir_open(commits: &[InstanceCommit], k: usize) -> (open: Vec<bool>)
    ensures
        open@.len() == k,
        forall|i: int|
            0 <= i < k ==> #[trigger] open@[i] == bit(
                sha256_of(commits_bytes(commits@))[i % 32] as nat,
                (i % 8) as nat,
            ),
{
    let mut p: Vec<u8> = Vec::new();
    let mut c: usize = 0;
    assert(commits@.take(0) =~= Seq::<InstanceCommit>::empty());
    while c < commits.len()
        invariant
            c <= commits@.len(),
            p@ == commits_bytes(commits@.take(c as int)),
        decreases commits@.len() - c,
    {
        push_slice(&mut p, &commits[c].tables_commit);
        push_slice(&mut p, &commits[c].disprove_hash);
        proof {
            let upto = commits@.take(c + 1);
            assert(upto.drop_last() =~= commits@.take(c as int));
            assert(upto.last() == commits@[c as int]);
        }
        c = c + 1;
    }
    assert(commits@.take(c as int) =~= commits@);
    let h = sha256(&p);
    let mut open: Vec<bool> = Vec::new();
    let mut i: usize = 0;
    while i < k
        invariant
            i <= k,
            h@ == sha256_of(commits_bytes(commits@)),
            open@.len() == i,
            forall|j: int|
                0 <= j < i ==> #[trigger] open@[j] == bit(h@[j % 32] as nat, (j % 8) as nat),
        decreases k - i,
    {
        open.push(bit_at(h[i % 32] as u64, i % 8));
        i = i + 1;
    }
    open
}

/// An evaluator of honestly garbled tables holds, on every wire, the label of the
/// value that the wire carries: here for the first `k` gates.
proof fn lemma_evaluation_follows_values(
    net: Net,
    wires: Seq<[Label; 2]>,
    rg: nat,
    w: nat,
    width: nat,
    k: nat,
)
    requires
        net.ordered(),
        net.base == input_values(rg, w, width).len(),
        k <= net.gates.len(),
        tags_distinct(net, wires),
    ensures
        ({
            let values = wire_values(net.gates.take(k as int), input_values(rg, w, width));
            &&& values.len() == net.base + k
            &&& active_labels(
                net.gates.take(k as int),
                garbled(net, wires),
                input_labels(wires, rg, w, width),
            ) == Some(Seq::new(values.len(), |x: int| label_of(wires, x, values[x])))
        }),
    decreases k,
{
    let inputs = input_values(rg, w, width);
    let labels = input_labels(wires, rg, w, width);
    let tables = garbled(net, wires);
    let upto = net.gates.take(k as int);
    if k == 0 {
        assert(labels =~= Seq::new(inputs.len(), |x: int| label_of(wires, x, inputs[x])));
    } else {
        let j = (k - 1) as nat;
        lemma_evaluation_follows_values(net, wires, rg, w, width, j);
        assert(upto.drop_last() =~= net.gates.take(j as int));
        let g = net.gates[j as int];
        assert(upto.last() == g);
        let values = wire_values(net.gates.take(j as int), inputs);
        let active = Seq::new(values.len(), |x: int| label_of(wires, x, values[x]));
        let x = values[g.a as int];
        let y = values[g.b as int];
        let row = gate_row(net, wires, j as int, x, y);
        let table = gate_table(net, wires, j as int);
        assert(tables[j as int] == table);
        let turn = gate_id(j as int) % 4;
        let place = (if x {
            2int
        } else {
            0
        }) + (if y {
            1int
        } else {
            0
        });
        let r = (place + 4 - turn) % 4;
        assert((r + turn) % 4 == place);
        assert(table[r] == row);
        assert forall|q: int| 0 <= q < r implies (#[trigger] table[q]).tag != row.tag by {
            let s = (q + turn) % 4;
            assert(s != place);
            assert(table[q] == gate_row(net, wires, j as int, s / 2 == 1, s % 2 == 1));
        }
        lemma_opening_row(table, row.tag, 0, r as nat);
        let la = active[g.a as int];
        let lb = active[g.b as int];
        let pad = key_stream(la, lb, gate_id(j as int), ENC_KIND@);
        let truth = gate_truth(g.kind, x, y);
        let lo = label_of(wires, (net.base + j) as int, truth);
        assert(xor_of(row.ct, pad) =~= lo) by {
            assert forall|i: int| 0 <= i < 32 implies xor_of(row.ct, pad)[i] == lo[i] by {
                let p = pad[i];
                let o = lo[i];
                assert((p ^ o) ^ p == o) by (bit_vector);
            }
        }
        let after = wire_values(upto, inputs);
        assert(after =~= values.push(truth));
        assert(active.push(lo) =~= Seq::new(after.len(), |z: int| label_of(wires, z, after[z])));
    }
}

/// The first row with a tag is the one before which no row has it.
proof fn lemma_opening_row(table: Seq<RowModel>, tag: Seq<u8>, from: nat, r: nat)
    requires
        from <= r < table.len(),
        table[r as int].tag == tag,
        forall|q: int| from <= q < r ==> (#[trigger] table[q]).tag != tag,
    ensures
        opening_row(table, tag, from) == Some(r),
    decreases r - from,
{
    if from < r {
        lemma_opening_row(table, tag, from + 1, r);
    }
}

/// Whoever evaluates honestly garbled tables on a public draw position and a
/// claimed index learns exactly the label of the claim's truth value: the valid
/// label if the claim holds, the disprove secret if it does not. The tags of a
/// gate's rows have to differ, so that the evaluator opens the right one.
pub proof fn theorem_evaluation_reveals_verdict(
    verifier: &WinnerVerifier,
    lo: Seq<u64>,
    hi: Seq<u64>,
    wires: Seq<[Label; 2]>,
    rg: u64,
    w: u64,
)
    requires
        lo.len() == hi.len(),
        is_index_width(lo.len(), verifier.width()),
        (verifier.net(), verifier.verdict()) == winner_net(lo, hi, verifier.width()),
        tags_distinct(verifier.net(), wires),
    ensures
        verifier.evaluation(wires, garbled(verifier.net(), wires), rg, w) == Some(
            label_of(
                wires,
                verifier.verdict() as int,
                claim_holds(lo, hi, verifier.width(), rg as nat, w as nat),
            ),
        ),
{
    let net = verifier.net();
    theorem_circuit_decides_claim(lo, hi, verifier.width(), rg as nat, w as nat);
    lemma_evaluation_follows_values(
        net,
        wires,
        rg as nat,
        w as nat,
        verifier.width(),
        net.gates.len(),
    );
    assert(net.gates.take(net.gates.len() as int) =~= net.gates);
}

/// The labels of an instance are hashes of 13 bytes that spell its seed, the number of
/// the wire and the value: no two wires, no two values of a wire and no two seeds share
/// what their labels are hashed from.
pub proof fn theorem_labels_are_hashed_apart(
    verifier: &WinnerVerifier,
    seed: u64,
    wires: Vec<[Label; 2]>,
    x: int,
    value: bool,
)
    requires
        call_ensures(WinnerVerifier::wires, (verifier, seed), wires),
        0 <= x < wires@.len(),
        x < 0x1_0000_0000,
    ensures
        exists|p: Seq<u8>|
            {
                &&& #[trigger] sha256_of(p) == wires@[x]@[if value {
                    1int
                } else {
                    0
                }]@
                &&& p.len() == 13
                &&& le_nat(p.subrange(0, 8)) == seed
                &&& le_nat(p.subrange(8, 12)) == x
                &&& p[12] == if value {
                    1u8
                } else {
                    0u8
                }
            },
{
    let b: u8 = if value {
        1u8
    } else {
        0u8
    };
    lemma_label_preimage(seed, x, b);
    assert(label_of(wires@, x, value) == derived_label(seed, x, b));
}

proof fn lemma_label_preimage(seed: u64, x: int, value: u8)
    requires
        0 <= x < 0x1_0000_0000,
    ensures
        exists|p: Seq<u8>|
            {
                &&& #[trigger] sha256_of(p) == derived_label(seed, x, value)
                &&& p.len() == 13
                &&& le_nat(p.subrange(0, 8)) == seed
                &&& le_nat(p.subrange(8, 12)) == x
                &&& p[12] == value
            },
{
    assert(pow(256, 8) == 0x1_0000_0000_0000_0000 && pow(256, 4) == 0x1_0000_0000) by {
        reveal_with_fuel(pow, 9);
    }
    let p = le_bytes(seed as nat, 8) + le_bytes((x as u32) as nat, 4) + seq![value];
    theorem_le_round_trip(seed as nat, 8);
    theorem_le_round_trip((x as u32) as nat, 4);
    assert(p.subrange(0, 8) =~= le_bytes(seed as nat, 8));
    assert(p.subrange(8, 12) =~= le_bytes((x as u32) as nat, 4));
    assert(sha256_of(p) == derived_label(seed, x, value));
}

/// Two labels that differ in seed, wire or value are hashes of different bytes.
pub proof fn theorem_labels_differ_in_preimage(
    seed1: u64,
    x1: int,
    value1: u8,
    seed2: u64,
    x2: int,
    value2: u8,
)
    requires
        0 <= x1 < 0x1_0000_0000,
        0 <= x2 < 0x1_0000_0000,
        seed1 != seed2 || x1 != x2 || value1 != value2,
    ensures
        exists|p: Seq<u8>, q: Seq<u8>|
            {
                &&& #[trigger] sha256_of(p) == derived_label(seed1, x1, value1)
                &&& #[trigger] sha256_of(q) == derived_label(seed2, x2, value2)
                &&& p != q
            },
{
    lemma_label_preimage(seed1, x1, value1);
    lemma_label_preimage(seed2, x2, value2);
    let p = choose|p: Seq<u8>|
        {
            &&& #[trigger] sha256_of(p) == derived_label(seed1, x1, value1)
            &&& p.len() == 13
            &&& le_nat(p.subrange(0, 8)) == seed1
            &&& le_nat(p.subrange(8, 12)) == x1
            &&& p[12] == value1
        };
    let q = choose|q: Seq<u8>|
        {
            &&& #[trigger] sha256_of(q) == derived_label(seed2, x2, value2)
            &&& q.len() == 13
            &&& le_nat(q.subrange(0, 8)) == seed2
            &&& le_nat(q.subrange(8, 12)) == x2
            &&& q[12] == value2
        };
    assert(p != q);
    assert(sha256_of(p) == derived_label(seed1, x1, value1));
    assert(sha256_of(q) == derived_label(seed2, x2, value2));
}

/// What opens a row of a gate: the tag and the pad of a row are hashes of both input
/// labels, a gate number and a purpose, and the two purposes differ.
pub proof fn theorem_rows_are_keyed_by_both_labels(
    a: Seq<u8>,
    b: Seq<u8>,
    gate: u32,
)
    requires
        a.len() == 32,
        b.len() == 32,
    ensures
        exists|p: Seq<u8>|
            {
                &&& #[trigger] sha256_of(p) == key_stream(a, b, gate, TAG_KIND@)
                &&& p.len() == 71
                &&& p.subrange(0, 32) == a
                &&& p.subrange(32, 64) == b
                &&& le_nat(p.subrange(64, 68)) == gate
                &&& p.subrange(68, 71) == seq![0x74u8, 0x61u8, 0x67u8]
            },
        exists|p: Seq<u8>|
            {
                &&& #[trigger] sha256_of(p) == key_stream(a, b, gate, ENC_KIND@)
                &&& p.len() == 71
                &&& p.subrange(0, 32) == a
                &&& p.subrange(32, 64) == b
                &&& le_nat(p.subrange(64, 68)) == gate
                &&& p.subrange(68, 71) == seq![0x65u8, 0x6eu8, 0x63u8]
            },
{
    assert(pow(256, 4) == 0x1_0000_0000) by {
        reveal_with_fuel(pow, 5);
    }
    theorem_le_round_trip(gate as nat, 4);
    assert(TAG_KIND@ =~= seq![0x74u8, 0x61u8, 0x67u8]);
    assert(ENC_KIND@ =~= seq![0x65u8, 0x6eu8, 0x63u8]);
    let p = a + b + le_bytes(gate as nat, 4) + TAG_KIND@;
    let q = a + b + le_bytes(gate as nat, 4) + ENC_KIND@;
    assert(p.subrange(0, 32) =~= a);
    assert(p.subrange(32, 64) =~= b);
    assert(p.subrange(64, 68) =~= le_bytes(gate as nat, 4));
    assert(p.subrange(68, 71) =~= TAG_KIND@);
    assert(q.subrange(0, 32) =~= a);
    assert(q.subrange(32, 64) =~= b);
    assert(q.subrange(64, 68) =~= le_bytes(gate as nat, 4));
    assert(q.subrange(68, 71) =~= ENC_KIND@);
    assert(sha256_of(p) == key_stream(a, b, gate, TAG_KIND@));
    assert(sha256_of(q) == key_stream(a, b, gate, ENC_KIND@));
}

/// A garbled gate has four rows, one for each pair of input values, and each hides the
/// label of its own output: the tag is the one that the two input labels give, and the
/// ciphertext differs from the pad that they give in the output label, byte by byte.
pub proof fn theorem_rows_hide_their_output(
    verifier: &WinnerVerifier,
    wires: &[[Label; 2]],
    tables: Vec<Vec<Row>>,
    k: int,
    x: bool,
    y: bool,
)
    requires
        call_ensures(WinnerVerifier::garble, (verifier, wires), tables),
        0 <= k < verifier.net().gates.len(),
        k < 0x1_0000_0000,
    ensures
        tables@.len() == verifier.net().gates.len(),
        tables@[k]@.len() == 4,
        ({
            let g = verifier.net().gates[k];
            let place = (if x {
                2int
            } else {
                0
            }) + (if y {
                1int
            } else {
                0
            });
            let row = tables@[k]@[(place + 4 - k % 4) % 4];
            let la = label_of(wires@, g.a as int, x);
            let lb = label_of(wires@, g.b as int, y);
            let truth = match g.kind {
                GateKind::Xor => x != y,
                GateKind::And => x && y,
                GateKind::Or => x || y,
            };
            let out = label_of(wires@, verifier.net().base + k, truth);
            &&& row.tag@ == key_stream(la, lb, k as u32, TAG_KIND@)
            &&& forall|i: int|
                0 <= i < 32 ==> #[trigger] row.ct@[i] == key_stream(la, lb, k as u32, ENC_KIND@)[i]
                    ^ out[i]
        }),
{
    let model = tables_model(tables@);
    assert(model.len() == tables@.len());
    assert(model[k] == rows_model(tables@[k]@));
    assert(model[k] == gate_table(verifier.net(), wires@, k));
    assert(rows_model(tables@[k]@).len() == tables@[k]@.len());
    let place = (if x {
        2int
    } else {
        0
    }) + (if y {
        1int
    } else {
        0
    });
    let r = (place + 4 - k % 4) % 4;
    assert(gate_id(k) as int == k);
    assert((r + gate_id(k) % 4) % 4 == place);
    assert(model[k][r] == gate_row(verifier.net(), wires@, k, x, y));
    assert(tables@[k]@[r]@ == model[k][r]);
}

/// The commitment to tables is a hash of all their rows in order: the bytes of two lists
/// of tables follow each other, a table is its rows, and a row its tag and ciphertext.
pub proof fn theorem_commitment_covers_all_rows(
    a: Seq<Seq<RowModel>>,
    b: Seq<Seq<RowModel>>,
    rows1: Seq<RowModel>,
    rows2: Seq<RowModel>,
    row: RowModel,
)
    ensures
        tables_bytes(a + b) == tables_bytes(a) + tables_bytes(b),
        tables_bytes(seq![rows1]) == rows_bytes(rows1),
        rows_bytes(rows1 + rows2) == rows_bytes(rows1) + rows_bytes(rows2),
        rows_bytes(seq![row]) == row.tag + row.ct,
    decreases b.len() + rows2.len(),
{
    reveal_with_fuel(tables_bytes, 2);
    reveal_with_fuel(rows_bytes, 2);
    assert(seq![rows1].drop_last() =~= Seq::empty());
    assert(seq![row].drop_last() =~= Seq::empty());
    assert(Seq::<u8>::empty() + rows_bytes(rows1) =~= rows_bytes(rows1));
    assert(Seq::<u8>::empty() + row.tag + row.ct =~= row.tag + row.ct);
    if b.len() == 0 {
        assert(a + b =~= a);
        assert(tables_bytes(a) + tables_bytes(b) =~= tables_bytes(a));
    } else {
        theorem_commitment_covers_all_rows(a, b.drop_last(), rows1, rows2, row);
        assert((a + b).drop_last() =~= a + b.drop_last());
        assert((a + b).last() == b.last());
        assert(tables_bytes(a + b) =~= tables_bytes(a) + tables_bytes(b));
    }
    if rows2.len() == 0 {
        assert(rows1 + rows2 =~= rows1);
        assert(rows_bytes(rows1) + rows_bytes(rows2) =~= rows_bytes(rows1));
    } else {
        theorem_commitment_covers_all_rows(a, b, rows1, rows2.drop_last(), row);
        assert((rows1 + rows2).drop_last() =~= rows1 + rows2.drop_last());
        assert((rows1 + rows2).last() == rows2.last());
        assert(rows_bytes(rows1 + rows2) =~= rows_bytes(rows1) + rows_bytes(rows2));
    }
}

/// The choice of a cut-and-choose run depends on every commitment: different commitments
/// of as many instances are hashed from different bytes, and each instance is 64 of them.
pub proof fn theorem_choice_covers_all_commitments(
    a: Seq<InstanceCommit>,
    b: Seq<InstanceCommit>,
    i: int,
)
    requires
        a.len() == b.len(),
        0 <= i < a.len(),
    ensures
        commits_bytes(a).len() == 64 * a.len(),
        commits_bytes(a).subrange(64 * i, 64 * i + 32) == a[i].tables_commit@,
        commits_bytes(a).subrange(64 * i + 32, 64 * i + 64) == a[i].disprove_hash@,
        commits_bytes(a) == commits_bytes(b) ==> a[i].tables_commit@ == b[i].tables_commit@
            && a[i].disprove_hash@ == b[i].disprove_hash@,
{
    lemma_commits_at(a, i);
    lemma_commits_at(b, i);
}

proof fn lemma_commits_at(a: Seq<InstanceCommit>, i: int)
    ensures
        commits_bytes(a).len() == 64 * a.len(),
        0 <= i < a.len() ==> {
            &&& commits_bytes(a).subrange(64 * i, 64 * i + 32) == a[i].tables_commit@
            &&& commits_bytes(a).subrange(64 * i + 32, 64 * i + 64) == a[i].disprove_hash@
        },
    decreases a.len(),
{
    if a.len() > 0 {
        let before = a.drop_last();
        lemma_commits_at(before, i);
        let n = 64 * (a.len() - 1);
        if 0 <= i < before.len() {
            assert(commits_bytes(a).subrange(64 * i, 64 * i + 32) =~= commits_bytes(
                before,
            ).subrange(64 * i, 64 * i + 32));
            assert(commits_bytes(a).subrange(64 * i + 32, 64 * i + 64) =~= commits_bytes(
                before,
            ).subrange(64 * i + 32, 64 * i + 64));
        } else if i == before.len() {
            assert(commits_bytes(a).subrange(n, n + 32) =~= a.last().tables_commit@);
            assert(commits_bytes(a).subrange(n + 32, n + 64) =~= a.last().disprove_hash@);
        }
    }
}

/// The choice of a cut-and-choose run is read off a hash: the instance at a position is
/// opened as the bit of its number in eight of the byte of its number in 32 says.
pub proof fn theorem_choice_is_the_hash(
    commits: &[InstanceCommit],
    k: usize,
    open: Vec<bool>,
    i: int,
)
    requires
        call_ensures(fiat_shamir_open, (commits, k), open),
        0 <= i < k,
    ensures
        open@.len() == k,
        open@[i] <==> (sha256_of(commits_bytes(commits@))[i % 32] as nat / pow2((i % 8) as nat)) % 2
            == 1,
{
}

/// A claim is judged by its band: whoever evaluates the circuit of a round on a draw and
/// a claimed entry holds the valid label if the draw lies in the band of the entry, and
/// the disprove secret if it does not.
pub proof fn theorem_evaluation_judges_by_bands(
    lo: &[u64],
    hi: &[u64],
    verifier: WinnerVerifier,
    wires: &[[Label; 2]],
    tables: Vec<Vec<Row>>,
    given: &[Vec<Row>],
    rg: u64,
    w: u64,
    valid: Label,
    invalid: Label,
    out: Option<Label>,
)
    requires
        lo@.len() == hi@.len(),
        w < lo@.len(),
        rg < 0x1_0000_0000,
        forall|i: int| 0 <= i < lo@.len() ==> (#[trigger] lo@[i]) < 0x1_0000_0000,
        forall|i: int| 0 <= i < hi@.len() ==> (#[trigger] hi@[i]) < 0x1_0000_0000,
        call_ensures(WinnerVerifier::new, (lo, hi), verifier),
        tags_distinct(verifier.net(), wires@),
        call_ensures(WinnerVerifier::garble, (&verifier, wires), tables),
        call_ensures(WinnerVerifier::valid_label, (&verifier, wires), valid),
        call_ensures(WinnerVerifier::invalid_label, (&verifier, wires), invalid),
        call_ensures(
            WinnerVerifier::evaluate_checked,
            (&verifier, wires, given, rg, w),
            out,
        ),
        given@ == tables@,
    ensures
        out is Some,
        lo@[w as int] <= rg < hi@[w as int] ==> out->0@ == valid@,
        !(lo@[w as int] <= rg < hi@[w as int]) ==> out->0@ == invalid@,
{
    theorem_evaluation_reveals_verdict(&verifier, lo@, hi@, wires@, rg, w);
    theorem_claims_are_judged_by_bands(lo@, hi@, verifier.width(), rg as nat, w as nat);
}

/// The labels that a claim can yield: the valid and the invalid label are the pair of one
/// wire, the disprove hash is the hash of the invalid one, and each bit of the draw is
/// committed to by the hashes of the pair of its wire.
pub proof fn theorem_verdict_labels_are_a_pair(
    verifier: &WinnerVerifier,
    wires: &[[Label; 2]],
    valid: Label,
    invalid: Label,
    lock: [u8; 32],
    commitments: Vec<(Label, Label)>,
    k: int,
)
    requires
        call_ensures(WinnerVerifier::valid_label, (verifier, wires), valid),
        call_ensures(WinnerVerifier::invalid_label, (verifier, wires), invalid),
        call_ensures(WinnerVerifier::disprove_hash, (verifier, wires), lock),
        call_ensures(WinnerVerifier::rg_commitments, (verifier, wires), commitments),
        0 <= k < 32,
    ensures
        valid@ == wires@[verifier.verdict() as int]@[1]@,
        invalid@ == wires@[verifier.verdict() as int]@[0]@,
        lock@ == sha256_of(invalid@),
        commitments@.len() == 32,
        commitments@[k].0@ == sha256_of(wires@[2 + k]@[0]@),
        commitments@[k].1@ == sha256_of(wires@[2 + k]@[1]@),
{
}

/// Of the draw and the bounds the low 32 bits count, whatever they are, and a claim for an
/// index without an entry is not valid.
pub proof fn theorem_evaluation_goes_by_low_bits(
    lo: &[u64],
    hi: &[u64],
    verifier: WinnerVerifier,
    wires: &[[Label; 2]],
    tables: Vec<Vec<Row>>,
    given: &[Vec<Row>],
    rg: u64,
    w: u64,
    valid: Label,
    invalid: Label,
    out: Option<Label>,
)
    requires
        lo@.len() == hi@.len(),
        lo@.len() >= 1,
        w < pow2(verifier.width()),
        call_ensures(WinnerVerifier::new, (lo, hi), verifier),
        tags_distinct(verifier.net(), wires@),
        call_ensures(WinnerVerifier::garble, (&verifier, wires), tables),
        call_ensures(WinnerVerifier::valid_label, (&verifier, wires), valid),
        call_ensures(WinnerVerifier::invalid_label, (&verifier, wires), invalid),
        call_ensures(
            WinnerVerifier::evaluate_checked,
            (&verifier, wires, given, rg, w),
            out,
        ),
        given@ == tables@,
    ensures
        out is Some,
        w < lo@.len() && lo@[w as int] % 0x1_0000_0000 <= rg % 0x1_0000_0000 < hi@[w as int]
            % 0x1_0000_0000 ==> out->0@ == valid@,
        w >= lo@.len() || !(lo@[w as int] % 0x1_0000_0000 <= rg % 0x1_0000_0000 < hi@[w as int]
            % 0x1_0000_0000) ==> out->0@ == invalid@,
{
    theorem_evaluation_reveals_verdict(&verifier, lo@, hi@, wires@, rg, w);
    vstd::arithmetic::power2::lemma2_to64();
    vstd::arithmetic::power2::lemma_pow2_pos(verifier.width());
    vstd::arithmetic::div_mod::lemma_small_mod(w as nat, pow2(verifier.width()));
}

/// Evaluating tables that are known to open and tables of any origin gives the same label;
/// an evaluation fails where no row of a gate opens, such as with an empty table.
pub proof fn theorem_evaluations_agree(
    verifier: WinnerVerifier,
    wires: &[[Label; 2]],
    tables: &[Vec<Row>],
    rg: u64,
    w: u64,
    out: Option<Label>,
    label: Label,
    k: int,
)
    requires
        call_ensures(WinnerVerifier::evaluate_checked, (&verifier, wires, tables, rg, w), out),
        out is Some ==> call_ensures(
            WinnerVerifier::evaluate,
            (&verifier, wires, tables, rg, w),
            label,
        ),
        0 <= k < verifier.net().gates.len(),
        tables@.len() >= verifier.net().gates.len(),
    ensures
        out is Some ==> label@ == out->0@,
        tables@[k]@.len() == 0 ==> out is None,
{
    let gates = verifier.net().gates;
    let model = tables_model(tables@);
    let inputs = input_labels(wires@, rg as nat, w as nat, verifier.width());
    if tables@[k]@.len() == 0 {
        let upto = gates.take(k + 1);
        assert(upto.drop_last() =~= gates.take(k));
        assert(model[k] == rows_model(tables@[k]@));
        assert(model[k].len() == 0);
        lemma_blocked(gates, model, inputs, (k + 1) as nat);
    }
}

/// A row opens if and only if it is the first one of its table with the tag that is looked
/// for.
pub proof fn theorem_first_matching_row_opens(table: Seq<RowModel>, tag: Seq<u8>, r: nat)
    requires
        r <= table.len(),
        forall|q: int| 0 <= q < r ==> (#[trigger] table[q]).tag != tag,
    ensures
        r < table.len() && table[r as int].tag == tag ==> opening_row(table, tag, 0) == Some(r),
        r == table.len() ==> opening_row(table, tag, 0) is None,
{
    if r < table.len() && table[r as int].tag == tag {
        lemma_opening_row(table, tag, 0, r);
    } else if r == table.len() {
        lemma_no_opening_row(table, tag, 0);
    }
}

proof fn lemma_no_opening_row(table: Seq<RowModel>, tag: Seq<u8>, from: nat)
    requires
        forall|q: int| from <= q < table.len() ==> (#[trigger] table[q]).tag != tag,
    ensures
        opening_row(table, tag, from) is None,
    decreases table.len() - from,
{
    if from < table.len() {
        lemma_no_opening_row(table, tag, from + 1);
    }
}

/// There is one garbled table for each gate, and a pair of labels for each wire: two for
/// the constants, 32 for the draw, those of the index, and one for each gate.
pub proof fn theorem_gates_and_wires_are_counted(
    verifier: WinnerVerifier,
    seed: u64,
    count: usize,
    wires: Vec<[Label; 2]>,
    given: &[[Label; 2]],
    tables: Vec<Vec<Row>>,
)
    requires
        call_ensures(WinnerVerifier::gate_count, (&verifier,), count),
        call_ensures(WinnerVerifier::wires, (&verifier, seed), wires),
        given@ == wires@,
        call_ensures(WinnerVerifier::garble, (&verifier, given), tables),
    ensures
        tables@.len() == count,
        wires@.len() == 34 + verifier.width() + count,
{
    assert(tables_model(tables@).len() == tables@.len());
}

/// The number of gates of the circuit of a round.
pub proof fn theorem_gate_count(lo: &[u64], hi: &[u64], verifier: WinnerVerifier, count: usize)
    requires
        call_ensures(WinnerVerifier::new, (lo, hi), verifier),
        call_ensures(WinnerVerifier::gate_count, (&verifier,), count),
    ensures
        count == zero_bits_below(lo@.len(), verifier.width()) + lo@.len() * (verifier.width() - 1)
            + further_ones(lo@, 32) + further_ones(hi@, 32) + 386,
{
    theorem_circuit_size(lo@, hi@, verifier.width());
}

} // verus!

//! Bitcoin transactions: outpoints, outputs, their encodings and taproot sighashes.
use vstd::prelude::*;
use vstd::arithmetic::power::pow;
use crate::bytes::{
    bytes_eq, joined, le_bytes, le_nat, lemma_joined_step, push_le, push_slice,
    theorem_joined_parts, theorem_le_round_trip, to_vec,
};
use crate::hash::{sha256, sha256_of, tagged_hash, tagged_hash_of};
use crate::varint::{push_varint, theorem_varint_unambiguous, varint};

verus! {

pub const N_VERSION: [u8; 4] = [0x02, 0x00, 0x00, 0x00];

pub const N_LOCKTIME: [u8; 4] = [0x00, 0x00, 0x00, 0x00];

pub const N_SEQUENCE_MAX: [u8; 4] = [0xff, 0xff, 0xff, 0xff];

/// An outpoint: a transaction id, in the byte order of the wire, and an output index.
pub struct OutPointModel {
    pub txid: Seq<u8>,
    pub vout: u32,
}

/// An output.
pub struct TxOutModel {
    pub value: u64,
    pub script_pubkey: Seq<u8>,
}

/// An input: the outpoint that it spends and the output there.
pub struct TxInModel {
    pub outpoint: OutPointModel,
    pub txout: TxOutModel,
}

/// An outpoint.
#[derive(Clone, Copy)]
pub struct OutPoint {
    pub txid: [u8; 32],
    pub vout: u32,
}

impl View for OutPoint {
    type V = OutPointModel;

    open spec fn view(&self) -> OutPointModel {
        OutPointModel { txid: self.txid@, vout: self.vout }
    }
}

impl OutPoint {
    /// Whether two outpoints are the same.
    pub fn same(&self, other: &OutPoint) -> (r: bool)
        ensures
            r == (self@ == other@),
    {
        self.vout == other.vout && bytes_eq(&self.txid, &other.txid)
    }
}

/// A transaction output.
pub struct TxOut {
    pub value: u64,
    pub script_pubkey: Vec<u8>,
}

impl View for TxOut {
    type V = TxOutModel;

    open spec fn view(&self) -> TxOutModel {
        TxOutModel { value: self.value, script_pubkey: self.script_pubkey@ }
    }
}

impl TxOut {
    /// A copy.
    pub fn copy(&self) -> (r: TxOut)
        ensures
            r@ == self@,
    {
        TxOut { value: self.value, script_pubkey: to_vec(&self.script_pubkey) }
    }
}

/// Outputs by their models.
pub open spec fn outputs_view(outputs: Seq<TxOut>) -> Seq<TxOutModel> {
    Seq::new(outputs.len(), |i: int| outputs[i]@)
}

/// Inputs by their models.
pub open spec fn inputs_view(inputs: Seq<(OutPoint, TxOut)>) -> Seq<TxInModel> {
    Seq::new(inputs.len(), |i: int| TxInModel { outpoint: inputs[i].0@, txout: inputs[i].1@ })
}

/// A copy of outputs.
pub fn copy_outputs(outputs: &Vec<TxOut>) -> (r: Vec<TxOut>)
    ensures
        outputs_view(r@) == outputs_view(outputs@),
{
    let mut r: Vec<TxOut> = Vec::new();
    let mut i: usize = 0;
    while i < outputs.len()
        invariant
            i <= outputs@.len(),
            r@.len() == i,
            forall|j: int| 0 <= j < i ==> (#[trigger] r@[j])@ == outputs@[j]@,
        decreases outputs@.len() - i,
    {
        r.push(outputs[i].copy());
        i = i + 1;
    }
    assert(outputs_view(r@) =~= outputs_view(outputs@));
    r
}

/// The encoding of an outpoint.
pub open spec fn outpoint_bytes(o: OutPointModel) -> Seq<u8> {
    o.txid + le_bytes(o.vout as nat, 4)
}

/// The encoding of an input without its witness: the outpoint, an empty script and the
/// final sequence number.
pub open spec fn txin_bytes(o: OutPointModel) -> Seq<u8> {
    outpoint_bytes(o) + seq![0u8] + N_SEQUENCE_MAX@
}

/// A byte string behind its length.
pub open spec fn prefixed(bytes: Seq<u8>) -> Seq<u8> {
    varint(bytes.len()) + bytes
}

/// The encoding of an output.
pub open spec fn txout_bytes(t: TxOutModel) -> Seq<u8> {
    le_bytes(t.value as nat, 8) + prefixed(t.script_pubkey)
}

/// The encoding of a witness stack: the number of items, then each behind its length.
pub open spec fn witness_bytes(witness: Seq<Seq<u8>>) -> Seq<u8> {
    varint(witness.len()) + joined(Seq::new(witness.len(), |i: int| prefixed(witness[i])))
}

/// Appends the encoding of an outpoint.
pub fn push_outpoint(buf: &mut Vec<u8>, outpoint: &OutPoint)
    ensures
        final(buf)@ == old(buf)@ + outpoint_bytes(outpoint@),
{
    push_slice(buf, &outpoint.txid);
    push_le(buf, outpoint.vout as u64, 4);
    assert(buf@ =~= old(buf)@ + outpoint_bytes(outpoint@));
}

/// Appends the encoding of an input without its witness.
pub fn push_legacy_txin(buf: &mut Vec<u8>, outpoint: &OutPoint)
    ensures
        final(buf)@ == old(buf)@ + txin_bytes(outpoint@),
{
    push_outpoint(buf, outpoint);
    buf.push(0x00);
    push_slice(buf, &N_SEQUENCE_MAX);
    assert(buf@ =~= old(buf)@ + txin_bytes(outpoint@));
}

/// Appends a byte string behind its length.
pub fn push_prefixed(buf: &mut Vec<u8>, bytes: &[u8])
    ensures
        final(buf)@ == old(buf)@ + prefixed(bytes@),
{
    push_varint(buf, bytes.len() as u64);
    push_slice(buf, bytes);
    assert(buf@ =~= old(buf)@ + prefixed(bytes@));
}

/// Appends the encoding of an output.
pub fn push_txout(buf: &mut Vec<u8>, txout: &TxOut)
    ensures
        final(buf)@ == old(buf)@ + txout_bytes(txout@),
{
    push_le(buf, txout.value, 8);
    push_prefixed(buf, &txout.script_pubkey);
    assert(buf@ =~= old(buf)@ + txout_bytes(txout@));
}

/// A witness stack by its items.
pub open spec fn witness_view(witness: Seq<Vec<u8>>) -> Seq<Seq<u8>> {
    Seq::new(witness.len(), |i: int| witness[i]@)
}

/// Appends the encoding of a witness stack.
pub fn push_witness(buf: &mut Vec<u8>, witness: &Vec<Vec<u8>>)
    ensures
        final(buf)@ == old(buf)@ + witness_bytes(witness_view(witness@)),
{
    let ghost items = witness_view(witness@);
    let ghost parts = Seq::new(items.len(), |i: int| prefixed(items[i]));
    push_varint(buf, witness.len() as u64);
    let ghost start = buf@;
    let mut i: usize = 0;
    assert(buf@ =~= start + joined(parts.take(0)));
    while i < witness.len()
        invariant
            i <= witness@.len(),
            items == witness_view(witness@),
            parts == Seq::new(items.len(), |i: int| prefixed(items[i])),
            buf@ == start + joined(parts.take(i as int)),
        decreases witness@.len() - i,
    {
        push_prefixed(buf, &witness[i]);
        proof {
            lemma_joined_step(parts, i as int);
        }
        i = i + 1;
        assert(buf@ =~= start + joined(parts.take(i as int)));
    }
    assert(parts.take(i as int) =~= parts);
    assert(buf@ =~= old(buf)@ + witness_bytes(items));
}

/// The encodings of outputs one after the other.
pub open spec fn outputs_bytes(outputs: Seq<TxOutModel>) -> Seq<u8> {
    joined(Seq::new(outputs.len(), |i: int| txout_bytes(outputs[i])))
}

/// Appends the encodings of outputs.
pub fn push_outputs(buf: &mut Vec<u8>, outputs: &Vec<TxOut>)
    ensures
        final(buf)@ == old(buf)@ + outputs_bytes(outputs_view(outputs@)),
{
    let ghost items = outputs_view(outputs@);
    let ghost parts = Seq::new(items.len(), |i: int| txout_bytes(items[i]));
    let ghost start = buf@;
    let mut i: usize = 0;
    assert(buf@ =~= start + joined(parts.take(0)));
    while i < outputs.len()
        invariant
            i <= outputs@.len(),
            items == outputs_view(outputs@),
            parts == Seq::new(items.len(), |i: int| txout_bytes(items[i])),
            buf@ == start + joined(parts.take(i as int)),
        decreases outputs@.len() - i,
    {
        push_txout(buf, &outputs[i]);
        proof {
            lemma_joined_step(parts, i as int);
        }
        i = i + 1;
        assert(buf@ =~= start + joined(parts.take(i as int)));
    }
    assert(parts.take(i as int) =~= parts);
}

/// A transaction without signatures: inputs and outputs.
pub struct UnsignedModel {
    pub inputs: Seq<TxInModel>,
    pub outputs: Seq<TxOutModel>,
}

impl UnsignedModel {
    pub open spec fn prevouts(self) -> Seq<u8> {
        joined(Seq::new(self.inputs.len(), |i: int| outpoint_bytes(self.inputs[i].outpoint)))
    }

    pub open spec fn amounts(self) -> Seq<u8> {
        joined(
            Seq::new(self.inputs.len(), |i: int| le_bytes(self.inputs[i].txout.value as nat, 8)),
        )
    }

    pub open spec fn script_pubkeys(self) -> Seq<u8> {
        joined(
            Seq::new(self.inputs.len(), |i: int| prefixed(self.inputs[i].txout.script_pubkey)),
        )
    }

    pub open spec fn sequences(self) -> Seq<u8> {
        joined(Seq::new(self.inputs.len(), |i: int| N_SEQUENCE_MAX@))
    }

    /// What the taproot sighash of an input is the hash of (BIP-341, default sighash
    /// type, no annex); with the hash of a leaf for a script-path spend (BIP-342).
    pub open spec fn sighash_preimage(self, index: u32, leaf: Option<Seq<u8>>) -> Seq<u8> {
        let common = seq![0u8, 0u8] + N_VERSION@ + N_LOCKTIME@ + sha256_of(self.prevouts())
            + sha256_of(self.amounts()) + sha256_of(self.script_pubkeys()) + sha256_of(
            self.sequences(),
        ) + sha256_of(outputs_bytes(self.outputs));
        match leaf {
            None => common + seq![0u8] + le_bytes(index as nat, 4),
            Some(hash) => common + seq![2u8] + le_bytes(index as nat, 4) + hash + seq![0u8]
                + N_SEQUENCE_MAX@,
        }
    }

    /// The taproot sighash of an input; `None` where there is no such input.
    pub open spec fn taproot_sighash(self, index: u32, leaf: Option<Seq<u8>>) -> Option<Seq<u8>> {
        if index < self.inputs.len() {
            Some(tagged_hash_of("TapSighash", self.sighash_preimage(index, leaf)))
        } else {
            None
        }
    }
}

/// A batch transaction without signatures.
pub struct UnsignedBatchTxn {
    pub tx_inputs: Vec<(OutPoint, TxOut)>,
    pub tx_outputs: Vec<TxOut>,
}

impl View for UnsignedBatchTxn {
    type V = UnsignedModel;

    open spec fn view(&self) -> UnsignedModel {
        UnsignedModel {
            inputs: inputs_view(self.tx_inputs@),
            outputs: outputs_view(self.tx_outputs@),
        }
    }
}

/// An optional hash by its bytes.
pub open spec fn hash_view(hash: Option<[u8; 32]>) -> Option<Seq<u8>> {
    match hash {
        None => None,
        Some(h) => Some(h@),
    }
}

impl UnsignedBatchTxn {
    /// The digests of prevouts, amounts, scriptpubkeys and sequence numbers.
    fn input_digests(&self) -> (r: ([u8; 32], [u8; 32], [u8; 32], [u8; 32]))
        ensures
            r.0@ == sha256_of(self@.prevouts()),
            r.1@ == sha256_of(self@.amounts()),
            r.2@ == sha256_of(self@.script_pubkeys()),
            r.3@ == sha256_of(self@.sequences()),
    {
        let ghost m = self@;
        let ghost n = m.inputs.len();
        let ghost p = Seq::new(n, |i: int| outpoint_bytes(m.inputs[i].outpoint));
        let ghost a = Seq::new(n, |i: int| le_bytes(m.inputs[i].txout.value as nat, 8));
        let ghost s = Seq::new(n, |i: int| prefixed(m.inputs[i].txout.script_pubkey));
        let ghost q = Seq::new(n, |i: int| N_SEQUENCE_MAX@);
        let mut prevouts: Vec<u8> = Vec::new();
        let mut amounts: Vec<u8> = Vec::new();
        let mut spks: Vec<u8> = Vec::new();
        let mut sequences: Vec<u8> = Vec::new();
        let mut i: usize = 0;
        while i < self.tx_inputs.len()
            invariant
                i <= self.tx_inputs@.len(),
                m == self@,
                n == m.inputs.len(),
                p == Seq::new(n, |i: int| outpoint_bytes(m.inputs[i].outpoint)),
                a == Seq::new(n, |i: int| le_bytes(m.inputs[i].txout.value as nat, 8)),
                s == Seq::new(n, |i: int| prefixed(m.inputs[i].txout.script_pubkey)),
                q == Seq::new(n, |i: int| N_SEQUENCE_MAX@),
                prevouts@ == joined(p.take(i as int)),
                amounts@ == joined(a.take(i as int)),
                spks@ == joined(s.take(i as int)),
                sequences@ == joined(q.take(i as int)),
            decreases self.tx_inputs@.len() - i,
        {
            let input = &self.tx_inputs[i];
            push_outpoint(&mut prevouts, &input.0);
            push_le(&mut amounts, input.1.value, 8);
            push_prefixed(&mut spks, &input.1.script_pubkey);
            push_slice(&mut sequences, &N_SEQUENCE_MAX);
            proof {
                lemma_joined_step(p, i as int);
                lemma_joined_step(a, i as int);
                lemma_joined_step(s, i as int);
                lemma_joined_step(q, i as int);
            }
            i = i + 1;
        }
        assert(p.take(i as int) =~= p);
        assert(a.take(i as int) =~= a);
        assert(s.take(i as int) =~= s);
        assert(q.take(i as int) =~= q);
        (sha256(&prevouts), sha256(&amounts), sha256(&spks), sha256(&sequences))
    }

    /// The taproot sighash of an input: for the key path, or for the script path of a
    /// leaf. Fails where there is no such input.
    pub fn taproot_sighash(&self, index: u32, leaf: Option<[u8; 32]>) -> (r: Option<[u8; 32]>)
        ensures
            hash_view(r) == self@.taproot_sighash(index, hash_view(leaf)),
    {
        if index as u64 >= self.tx_inputs.len() as u64 {
            return None;
        }
        let (prevouts, amounts, spks, sequences) = self.input_digests();
        let mut outputs: Vec<u8> = Vec::new();
        push_outputs(&mut outputs, &self.tx_outputs);
        assert(outputs@ =~= outputs_bytes(self@.outputs));
        let mut preimage: Vec<u8> = Vec::new();
        preimage.push(0x00);
        preimage.push(0x00);
        push_slice(&mut preimage, &N_VERSION);
        push_slice(&mut preimage, &N_LOCKTIME);
        push_slice(&mut preimage, &prevouts);
        push_slice(&mut preimage, &amounts);
        push_slice(&mut preimage, &spks);
        push_slice(&mut preimage, &sequences);
        push_slice(&mut preimage, &sha256(&outputs));
        match leaf {
            None => {
                preimage.push(0x00);
                push_le(&mut preimage, index as u64, 4);
            },
            Some(hash) => {
                preimage.push(0x02);
                push_le(&mut preimage, index as u64, 4);
                push_slice(&mut preimage, &hash);
                preimage.push(0x00);
                push_slice(&mut preimage, &N_SEQUENCE_MAX);
            },
        }
        assert(preimage@ =~= self@.sighash_preimage(index, hash_view(leaf)));
        Some(tagged_hash("TapSighash", &preimage))
    }
}

/// The encoding of an output is its value in eight bytes, the length of its scriptpubkey,
/// and the scriptpubkey. It is read back, and can be told from what follows it.
pub proof fn theorem_outputs_are_read_back(
    a: TxOutModel,
    b: TxOutModel,
    s: Seq<u8>,
    t: Seq<u8>,
)
    requires
        a.script_pubkey.len() <= u64::MAX,
        b.script_pubkey.len() <= u64::MAX,
    ensures
        le_nat(txout_bytes(a).take(8)) == a.value,
        txout_bytes(a).skip(8) == varint(a.script_pubkey.len()) + a.script_pubkey,
        txout_bytes(a) + s == txout_bytes(b) + t ==> a == b && s == t,
{
    assert(pow(256, 8) == 0x1_0000_0000_0000_0000) by {
        reveal_with_fuel(pow, 9);
    }
    theorem_le_round_trip(a.value as nat, 8);
    theorem_le_round_trip(b.value as nat, 8);
    assert(txout_bytes(a).take(8) =~= le_bytes(a.value as nat, 8));
    assert(txout_bytes(b).take(8) =~= le_bytes(b.value as nat, 8));
    assert(txout_bytes(a).skip(8) =~= prefixed(a.script_pubkey));
    if txout_bytes(a) + s == txout_bytes(b) + t {
        let x = txout_bytes(a) + s;
        let y = txout_bytes(b) + t;
        assert(x.take(8) =~= txout_bytes(a).take(8));
        assert(y.take(8) =~= txout_bytes(b).take(8));
        assert(x.skip(8) =~= prefixed(a.script_pubkey) + s);
        assert(y.skip(8) =~= prefixed(b.script_pubkey) + t);
        theorem_prefixed_unambiguous(a.script_pubkey, b.script_pubkey, s, t);
    }
}

/// A byte string behind its length can be told from what follows it.
pub proof fn theorem_prefixed_unambiguous(a: Seq<u8>, b: Seq<u8>, s: Seq<u8>, t: Seq<u8>)
    requires
        a.len() <= u64::MAX,
        b.len() <= u64::MAX,
        prefixed(a) + s == prefixed(b) + t,
    ensures
        a == b,
        s == t,
{
    assert(prefixed(a) + s =~= varint(a.len()) + (a + s));
    assert(prefixed(b) + t =~= varint(b.len()) + (b + t));
    theorem_varint_unambiguous(a.len(), b.len(), a + s, b + t);
    let n = a.len() as int;
    assert((a + s).take(n) =~= a);
    assert((b + t).take(n) =~= b);
    assert((a + s).skip(n) =~= s);
    assert((b + t).skip(n) =~= t);
}

/// The encoding of an outpoint is the transaction id and the output index in four bytes.
/// It is read back.
pub proof fn theorem_outpoints_are_read_back(a: OutPointModel, b: OutPointModel)
    requires
        a.txid.len() == 32,
        b.txid.len() == 32,
    ensures
        outpoint_bytes(a).len() == 36,
        outpoint_bytes(a).take(32) == a.txid,
        le_nat(outpoint_bytes(a).skip(32)) == a.vout,
        txin_bytes(a).len() == 41,
        txin_bytes(a).take(36) == outpoint_bytes(a),
        txin_bytes(a).skip(36) == seq![0u8, 255u8, 255u8, 255u8, 255u8],
        outpoint_bytes(a) == outpoint_bytes(b) ==> a == b,
        txin_bytes(a) == txin_bytes(b) ==> a == b,
{
    assert(pow(256, 4) == 0x1_0000_0000) by {
        reveal_with_fuel(pow, 5);
    }
    theorem_le_round_trip(a.vout as nat, 4);
    theorem_le_round_trip(b.vout as nat, 4);
    assert(outpoint_bytes(a).take(32) =~= a.txid);
    assert(outpoint_bytes(b).take(32) =~= b.txid);
    assert(outpoint_bytes(a).skip(32) =~= le_bytes(a.vout as nat, 4));
    assert(outpoint_bytes(b).skip(32) =~= le_bytes(b.vout as nat, 4));
    assert(N_SEQUENCE_MAX@ =~= seq![255u8, 255u8, 255u8, 255u8]);
    assert(txin_bytes(a).take(36) =~= outpoint_bytes(a));
    assert(txin_bytes(b).take(36) =~= outpoint_bytes(b));
    assert(txin_bytes(a).skip(36) =~= seq![0u8, 255u8, 255u8, 255u8, 255u8]);
}

/// A witness stack is encoded with all its items: it is read back, and can be told from
/// what follows it.
pub proof fn theorem_witnesses_are_read_back(
    a: Seq<Seq<u8>>,
    b: Seq<Seq<u8>>,
    s: Seq<u8>,
    t: Seq<u8>,
)
    requires
        a.len() <= u64::MAX,
        b.len() <= u64::MAX,
        forall|i: int| 0 <= i < a.len() ==> (#[trigger] a[i]).len() <= u64::MAX,
        forall|i: int| 0 <= i < b.len() ==> (#[trigger] b[i]).len() <= u64::MAX,
        witness_bytes(a) + s == witness_bytes(b) + t,
    ensures
        a == b,
        s == t,
{
    let x = Seq::new(a.len(), |i: int| prefixed(a[i]));
    let y = Seq::new(b.len(), |i: int| prefixed(b[i]));
    assert(witness_bytes(a) + s =~= varint(a.len()) + (joined(x) + s));
    assert(witness_bytes(b) + t =~= varint(b.len()) + (joined(y) + t));
    theorem_varint_unambiguous(a.len(), b.len(), joined(x) + s, joined(y) + t);
    lemma_items_unambiguous(a, b, s, t);
}

proof fn lemma_items_unambiguous(a: Seq<Seq<u8>>, b: Seq<Seq<u8>>, s: Seq<u8>, t: Seq<u8>)
    requires
        a.len() == b.len(),
        forall|i: int| 0 <= i < a.len() ==> (#[trigger] a[i]).len() <= u64::MAX,
        forall|i: int| 0 <= i < b.len() ==> (#[trigger] b[i]).len() <= u64::MAX,
        joined(Seq::new(a.len(), |i: int| prefixed(a[i]))) + s == joined(
            Seq::new(b.len(), |i: int| prefixed(b[i])),
        ) + t,
    ensures
        a == b,
        s == t,
    decreases a.len(),
{
    let x = Seq::new(a.len(), |i: int| prefixed(a[i]));
    let y = Seq::new(b.len(), |i: int| prefixed(b[i]));
    if a.len() == 0 {
        assert(joined(x) + s =~= s);
        assert(joined(y) + t =~= t);
        assert(a =~= b);
    } else {
        let ra = a.drop_first();
        let rb = b.drop_first();
        let rx = Seq::new(ra.len(), |i: int| prefixed(ra[i]));
        let ry = Seq::new(rb.len(), |i: int| prefixed(rb[i]));
        assert(x =~= seq![prefixed(a[0])] + rx);
        assert(y =~= seq![prefixed(b[0])] + ry);
        theorem_joined_parts(seq![prefixed(a[0])], rx, prefixed(a[0]));
        theorem_joined_parts(seq![prefixed(b[0])], ry, prefixed(b[0]));
        assert(joined(x) + s =~= prefixed(a[0]) + (joined(rx) + s));
        assert(joined(y) + t =~= prefixed(b[0]) + (joined(ry) + t));
        theorem_prefixed_unambiguous(a[0], b[0], joined(rx) + s, joined(ry) + t);
        lemma_items_unambiguous(ra, rb, s, t);
        assert(a =~= seq![a[0]] + ra);
        assert(b =~= seq![b[0]] + rb);
    }
}

/// The encodings of outputs follow each other in order, and nothing of them is lost: as
/// many outputs are read back, and can be told from what follows them.
pub proof fn theorem_output_lists_are_read_back(
    a: Seq<TxOutModel>,
    b: Seq<TxOutModel>,
    s: Seq<u8>,
    t: Seq<u8>,
)
    requires
        forall|i: int| 0 <= i < a.len() ==> (#[trigger] a[i]).script_pubkey.len() <= u64::MAX,
        forall|i: int| 0 <= i < b.len() ==> (#[trigger] b[i]).script_pubkey.len() <= u64::MAX,
    ensures
        outputs_bytes(a + b) == outputs_bytes(a) + outputs_bytes(b),
        a.len() == 1 ==> outputs_bytes(a) == txout_bytes(a[0]),
        a.len() == b.len() && outputs_bytes(a) + s == outputs_bytes(b) + t ==> a == b && s == t,
    decreases a.len(),
{
    let x = Seq::new(a.len(), |i: int| txout_bytes(a[i]));
    let y = Seq::new(b.len(), |i: int| txout_bytes(b[i]));
    assert(Seq::new((a + b).len(), |i: int| txout_bytes((a + b)[i])) =~= x + y);
    theorem_joined_parts(x, y, txout_bytes(a[0]));
    if a.len() == 1 {
        assert(x =~= seq![txout_bytes(a[0])]);
    }
    if a.len() == b.len() && outputs_bytes(a) + s == outputs_bytes(b) + t {
        if a.len() == 0 {
            assert(joined(x) + s =~= s);
            assert(joined(y) + t =~= t);
            assert(a =~= b);
        } else {
            let ra = a.drop_first();
            let rb = b.drop_first();
            let rx = Seq::new(ra.len(), |i: int| txout_bytes(ra[i]));
            let ry = Seq::new(rb.len(), |i: int| txout_bytes(rb[i]));
            assert(x =~= seq![txout_bytes(a[0])] + rx);
            assert(y =~= seq![txout_bytes(b[0])] + ry);
            theorem_joined_parts(seq![txout_bytes(a[0])], rx, txout_bytes(a[0]));
            theorem_joined_parts(seq![txout_bytes(b[0])], ry, txout_bytes(b[0]));
            assert(joined(x) + s =~= txout_bytes(a[0]) + (joined(rx) + s));
            assert(joined(y) + t =~= txout_bytes(b[0]) + (joined(ry) + t));
            theorem_outputs_are_read_back(a[0], b[0], joined(rx) + s, joined(ry) + t);
            theorem_output_lists_are_read_back(ra, rb, s, t);
            assert(a =~= seq![a[0]] + ra);
            assert(b =~= seq![b[0]] + rb);
        }
    }
}

/// The digests that a sighash is taken of run over all inputs in order: those of two
/// lists of inputs follow each other, and those of one input are its outpoint, its value
/// in eight bytes, its scriptpubkey behind its length, and the final sequence number.
pub proof fn theorem_sighash_covers_every_input(a: UnsignedModel, b: UnsignedModel, input: TxInModel)
    ensures
        ({
            let ab = UnsignedModel { inputs: a.inputs + b.inputs, outputs: a.outputs };
            let one = UnsignedModel { inputs: seq![input], outputs: a.outputs };
            &&& ab.prevouts() == a.prevouts() + b.prevouts()
            &&& ab.amounts() == a.amounts() + b.amounts()
            &&& ab.script_pubkeys() == a.script_pubkeys() + b.script_pubkeys()
            &&& ab.sequences() == a.sequences() + b.sequences()
            &&& one.prevouts() == outpoint_bytes(input.outpoint)
            &&& one.amounts().len() == 8
            &&& le_nat(one.amounts()) == input.txout.value
            &&& one.script_pubkeys() == varint(input.txout.script_pubkey.len())
                + input.txout.script_pubkey
            &&& one.sequences() == seq![255u8, 255u8, 255u8, 255u8]
        }),
{
    assert(pow(256, 8) == 0x1_0000_0000_0000_0000) by {
        reveal_with_fuel(pow, 9);
    }
    theorem_le_round_trip(input.txout.value as nat, 8);
    let ab = UnsignedModel { inputs: a.inputs + b.inputs, outputs: a.outputs };
    let one = UnsignedModel { inputs: seq![input], outputs: a.outputs };
    let value = le_bytes(input.txout.value as nat, 8);
    let spk = prefixed(input.txout.script_pubkey);
    let out = outpoint_bytes(input.outpoint);
    let pa = Seq::new(a.inputs.len(), |i: int| outpoint_bytes(a.inputs[i].outpoint));
    let pb = Seq::new(b.inputs.len(), |i: int| outpoint_bytes(b.inputs[i].outpoint));
    let va = Seq::new(a.inputs.len(), |i: int| le_bytes(a.inputs[i].txout.value as nat, 8));
    let vb = Seq::new(b.inputs.len(), |i: int| le_bytes(b.inputs[i].txout.value as nat, 8));
    let sa = Seq::new(a.inputs.len(), |i: int| prefixed(a.inputs[i].txout.script_pubkey));
    let sb = Seq::new(b.inputs.len(), |i: int| prefixed(b.inputs[i].txout.script_pubkey));
    let qa = Seq::new(a.inputs.len(), |i: int| N_SEQUENCE_MAX@);
    let qb = Seq::new(b.inputs.len(), |i: int| N_SEQUENCE_MAX@);
    theorem_joined_parts(pa, pb, out);
    theorem_joined_parts(va, vb, value);
    theorem_joined_parts(sa, sb, spk);
    theorem_joined_parts(qa, qb, N_SEQUENCE_MAX@);
    let n = ab.inputs.len();
    assert(Seq::new(n, |i: int| outpoint_bytes(ab.inputs[i].outpoint)) =~= pa + pb);
    assert(Seq::new(n, |i: int| le_bytes(ab.inputs[i].txout.value as nat, 8)) =~= va + vb);
    assert(Seq::new(n, |i: int| prefixed(ab.inputs[i].txout.script_pubkey)) =~= sa + sb);
    assert(Seq::new(n, |i: int| N_SEQUENCE_MAX@) =~= qa + qb);
    assert(Seq::new(1, |i: int| outpoint_bytes(one.inputs[i].outpoint)) =~= seq![out]);
    assert(Seq::new(1, |i: int| le_bytes(one.inputs[i].txout.value as nat, 8)) =~= seq![value]);
    assert(Seq::new(1, |i: int| prefixed(one.inputs[i].txout.script_pubkey)) =~= seq![spk]);
    assert(Seq::new(1, |i: int| N_SEQUENCE_MAX@) =~= seq![N_SEQUENCE_MAX@]);
    assert(N_SEQUENCE_MAX@ =~= seq![255u8, 255u8, 255u8, 255u8]);
}

/// The sighash of an input is the tagged hash of what BIP-341 asks for: the default
/// sighash type, version two and no lock time, the five digests, and the index of the
/// input; a script path adds its leaf. There is one for every input and for no other.
pub proof fn theorem_sighash_commits_to_transaction(txn: UnsignedModel, index: u32, leaf: Seq<u8>)
    ensures
        index >= txn.inputs.len() ==> txn.taproot_sighash(index, None) is None
            && txn.taproot_sighash(index, Some(leaf)) is None,
        index < txn.inputs.len() ==> {
            let digests = sha256_of(txn.prevouts()) + sha256_of(txn.amounts()) + sha256_of(
                txn.script_pubkeys(),
            ) + sha256_of(txn.sequences()) + sha256_of(outputs_bytes(txn.outputs));
            exists|at: Seq<u8>|
                {
                    &&& #[trigger] at.len() == 4
                    &&& le_nat(at) == index
                    &&& txn.taproot_sighash(index, None) == Some(
                        tagged_hash_of(
                            "TapSighash",
                            seq![0u8, 0u8, 2u8, 0u8, 0u8, 0u8, 0u8, 0u8, 0u8, 0u8] + digests
                                + seq![0u8] + at,
                        ),
                    )
                    &&& txn.taproot_sighash(index, Some(leaf)) == Some(
                        tagged_hash_of(
                            "TapSighash",
                            seq![0u8, 0u8, 2u8, 0u8, 0u8, 0u8, 0u8, 0u8, 0u8, 0u8] + digests
                                + seq![2u8] + at + leaf + seq![0u8, 255u8, 255u8, 255u8, 255u8],
                        ),
                    )
                }
        },
{
    if index < txn.inputs.len() {
        assert(pow(256, 4) == 0x1_0000_0000) by {
            reveal_with_fuel(pow, 5);
        }
        theorem_le_round_trip(index as nat, 4);
        let at = le_bytes(index as nat, 4);
        let digests = sha256_of(txn.prevouts()) + sha256_of(txn.amounts()) + sha256_of(
            txn.script_pubkeys(),
        ) + sha256_of(txn.sequences()) + sha256_of(outputs_bytes(txn.outputs));
        let head = seq![0u8, 0u8, 2u8, 0u8, 0u8, 0u8, 0u8, 0u8, 0u8, 0u8];
        assert(N_VERSION@ =~= seq![2u8, 0u8, 0u8, 0u8]);
        assert(N_LOCKTIME@ =~= seq![0u8, 0u8, 0u8, 0u8]);
        assert(N_SEQUENCE_MAX@ =~= seq![255u8, 255u8, 255u8, 255u8]);
        assert(txn.sighash_preimage(index, None) =~= head + digests + seq![0u8] + at);
        assert(txn.sighash_preimage(index, Some(leaf)) =~= head + digests + seq![2u8] + at + leaf
            + seq![0u8, 255u8, 255u8, 255u8, 255u8]);
        assert(at.len() == 4);
    }
}

/// Outpoints are the same if and only if transaction and position are; copies of outputs
/// have their values and scriptpubkeys, in order.
pub proof fn theorem_outpoints_and_copies(
    a: OutPoint,
    b: OutPoint,
    same: bool,
    outputs: Vec<TxOut>,
    copies: Vec<TxOut>,
    i: int,
)
    requires
        call_ensures(OutPoint::same, (&a, &b), same),
        call_ensures(copy_outputs, (&outputs,), copies),
        0 <= i < outputs@.len(),
    ensures
        same <==> a.txid@ == b.txid@ && a.vout == b.vout,
        copies@.len() == outputs@.len(),
        copies@[i].value == outputs@[i].value,
        copies@[i].script_pubkey@ == outputs@[i].script_pubkey@,
{
    assert(outputs_view(copies@).len() == copies@.len());
    assert(outputs_view(outputs@).len() == outputs@.len());
    assert(outputs_view(copies@)[i] == copies@[i]@);
    assert(outputs_view(outputs@)[i] == outputs@[i]@);
}

} // verus!

//! Tapscripts: building blocks and the spending clauses of a contract output.
use vstd::prelude::*;
use crate::bytes::le_nat;
use crate::curve::{even_point, is_point};
use crate::hash::{ripemd160, ripemd160_of, sha256_of};

verus! {

pub const OP_DROP: u8 = 0x75;

pub const OP_EQUALVERIFY: u8 = 0x88;

pub const OP_HASH160: u8 = 0xa9;

pub const OP_CHECKSIG: u8 = 0xac;

pub const OP_CLTV: u8 = 0xb1;

pub const OP_CSV: u8 = 0xb2;

/// The first number that a lock time reads as a time rather than a height.
pub const LOCK_TIME_THRESHOLD: u32 = 500_000_000;

/// A script number: little-endian, with the sign in the top bit of the last byte.
pub open spec fn script_number(n: nat) -> Seq<u8>
    decreases n,
{
    if n < 0x80 {
        seq![n as u8]
    } else {
        seq![(n % 256) as u8] + script_number(n / 256)
    }
}

/// The instruction that pushes a number: an opcode of its own up to 16, else the
/// script number behind its length.
pub open spec fn int_push(n: nat) -> Seq<u8> {
    if n == 0 {
        seq![0u8]
    } else if n <= 16 {
        seq![(0x50 + n) as u8]
    } else {
        seq![script_number(n).len() as u8] + script_number(n)
    }
}

/// `bitcoin::script::Builder::push_int`, for numbers that are not negative: appends
/// the instruction that pushes the number.
#[verifier::external_body]
fn outside_push_int(script: Vec<u8>, n: i64) -> (r: Vec<u8>)
    requires
        n >= 0,
    ensures
        r@ == script@ + int_push(n as nat),
{
    bitcoin::script::Builder::from(script).push_int(n).into_bytes()
}

/// `bitcoin::script::Builder::push_opcode`: appends the opcode.
#[verifier::external_body]
fn outside_push_opcode(script: Vec<u8>, opcode: u8) -> (r: Vec<u8>)
    ensures
        r@ == script@.push(opcode),
{
    bitcoin::script::Builder::from(script)
        .push_opcode(bitcoin::opcodes::Opcode::from(opcode))
        .into_bytes()
}

/// `bitcoin::XOnlyPublicKey::from_slice`: reads 32 bytes if and only if they are the
/// X coordinate of a point.
#[verifier::external_body]
fn outside_xonly_valid(key: &[u8; 32]) -> (r: bool)
    ensures
        r == is_point(even_point(key@)),
{
    bitcoin::XOnlyPublicKey::from_slice(key).is_ok()
}

/// `bitcoin::script::Builder::push_x_only_key`: appends the instruction that pushes
/// the 32 bytes of the key.
#[verifier::external_body]
fn outside_push_x_only_key(script: Vec<u8>, key: &[u8; 32]) -> (r: Vec<u8>)
    requires
        is_point(even_point(key@)),
    ensures
        r@ == script@ + seq![0x20u8] + key@,
{
    bitcoin::script::Builder::from(script)
        .push_x_only_key(&bitcoin::XOnlyPublicKey::from_slice(key).unwrap())
        .into_bytes()
}

/// `bitcoin::script::Builder::push_slice`, for 20 bytes: appends the instruction that
/// pushes them.
#[verifier::external_body]
fn outside_push_slice(script: Vec<u8>, data: &[u8; 20]) -> (r: Vec<u8>)
    ensures
        r@ == script@ + seq![0x14u8] + data@,
{
    bitcoin::script::Builder::from(script).push_slice(data).into_bytes()
}

/// `bitcoin::absolute::LockTime::from_height`: a height below the threshold is its own
/// consensus encoding.
#[verifier::external_body]
fn outside_lock_time(height: u32) -> (r: u32)
    requires
        height < LOCK_TIME_THRESHOLD,
    ensures
        r == height,
{
    bitcoin::absolute::LockTime::from_height(height).unwrap().to_consensus_u32()
}

/// `bitcoin::Sequence::from_height`: a delay in blocks is its own consensus encoding.
#[verifier::external_body]
fn outside_sequence(delay: u16) -> (r: u32)
    ensures
        r == delay,
{
    bitcoin::Sequence::from_height(delay).to_consensus_u32()
}

/// Whether 32 bytes are an X-only public key.
pub fn xonly(key: &[u8; 32]) -> (r: bool)
    ensures
        r == is_point(even_point(key@)),
{
    outside_xonly_valid(key)
}

/// `<n> <lock opcode> OP_DROP <key> OP_CHECKSIG`.
pub open spec fn lock_clause(n: nat, lock: u8, key: Seq<u8>) -> Seq<u8> {
    int_push(n) + seq![lock, OP_DROP, 0x20u8] + key + seq![OP_CHECKSIG]
}

/// The expiry clause: `<height> OP_CLTV OP_DROP <key> OP_CHECKSIG`.
pub open spec fn expiry_clause(height: u32, key: Seq<u8>) -> Seq<u8> {
    lock_clause(height as nat, OP_CLTV, key)
}

/// The unilateral-exit clause: `<delay> OP_CSV OP_DROP <key> OP_CHECKSIG`.
pub open spec fn exit_clause(delay: u16, key: Seq<u8>) -> Seq<u8> {
    lock_clause(delay as nat, OP_CSV, key)
}

/// The disprove clause:
/// `OP_HASH160 <ripemd160(disprove_hash)> OP_EQUALVERIFY <key> OP_CHECKSIG`.
pub open spec fn disprove_clause(disprove_hash: Seq<u8>, key: Seq<u8>) -> Seq<u8> {
    seq![OP_HASH160, 0x14u8] + ripemd160_of(disprove_hash) + seq![OP_EQUALVERIFY, 0x20u8] + key
        + seq![OP_CHECKSIG]
}

fn lock_script(n: u32, lock: u8, key: &[u8; 32]) -> (r: Vec<u8>)
    requires
        is_point(even_point(key@)),
    ensures
        r@ == lock_clause(n as nat, lock, key@),
{
    let mut script = outside_push_int(Vec::new(), n as i64);
    script = outside_push_opcode(script, lock);
    script = outside_push_opcode(script, OP_DROP);
    script = outside_push_x_only_key(script, key);
    script = outside_push_opcode(script, OP_CHECKSIG);
    assert(script@ =~= lock_clause(n as nat, lock, key@));
    script
}

/// Builds the expiry clause.
pub fn expiry_script(height: u32, key: &[u8; 32]) -> (r: Vec<u8>)
    requires
        height < LOCK_TIME_THRESHOLD,
        is_point(even_point(key@)),
    ensures
        r@ == expiry_clause(height, key@),
{
    lock_script(outside_lock_time(height), OP_CLTV, key)
}

/// Builds the unilateral-exit clause.
pub fn exit_script(delay: u16, key: &[u8; 32]) -> (r: Vec<u8>)
    requires
        is_point(even_point(key@)),
    ensures
        r@ == exit_clause(delay, key@),
{
    lock_script(outside_sequence(delay), OP_CSV, key)
}

/// Builds the disprove clause.
pub fn disprove_script(disprove_hash: &[u8; 32], key: &[u8; 32]) -> (r: Vec<u8>)
    requires
        is_point(even_point(key@)),
    ensures
        r@ == disprove_clause(disprove_hash@, key@),
{
    let digest = ripemd160(disprove_hash);
    let mut script = outside_push_opcode(Vec::new(), OP_HASH160);
    script = outside_push_slice(script, &digest);
    script = outside_push_opcode(script, OP_EQUALVERIFY);
    script = outside_push_x_only_key(script, key);
    script = outside_push_opcode(script, OP_CHECKSIG);
    assert(script@ =~= disprove_clause(disprove_hash@, key@));
    script
}

/// The hash that `OP_HASH160` computes.
pub open spec fn hash160_of(message: Seq<u8>) -> Seq<u8> {
    ripemd160_of(sha256_of(message))
}

/// The disprove clause asks for a secret by its `OP_HASH160`: where the disprove hash is
/// the SHA-256 of a secret, it is that secret which opens the clause.
pub proof fn theorem_disprove_clause_asks_for_secret(secret: Seq<u8>, key: Seq<u8>)
    ensures
        disprove_clause(sha256_of(secret), key) == seq![OP_HASH160, 0x14u8] + hash160_of(secret)
            + seq![OP_EQUALVERIFY, 0x20u8] + key + seq![OP_CHECKSIG],
{
}

proof fn lemma_script_number(n: nat)
    ensures
        script_number(n).len() >= 1,
        le_nat(script_number(n)) == n,
    decreases n,
{
    if n < 0x80 {
        assert(script_number(n).drop_first() =~= Seq::empty());
        assert(le_nat(script_number(n)) == n + 256 * le_nat(Seq::empty()));
    } else {
        lemma_script_number(n / 256);
        assert(script_number(n).drop_first() =~= script_number(n / 256));
    }
}

proof fn lemma_script_number_len(n: nat)
    requires
        n < 0x1_0000_0000,
    ensures
        script_number(n).len() <= 5,
{
    reveal_with_fuel(script_number, 6);
}

proof fn lemma_int_push_unambiguous(m: nat, n: nat, s: Seq<u8>, t: Seq<u8>)
    requires
        m < 0x1_0000_0000,
        n < 0x1_0000_0000,
        int_push(m) + s == int_push(n) + t,
    ensures
        m == n,
        s == t,
{
    let all = int_push(m) + s;
    let other = int_push(n) + t;
    lemma_script_number(m);
    lemma_script_number(n);
    lemma_script_number_len(m);
    lemma_script_number_len(n);
    assert(all[0] == int_push(m)[0]);
    assert(other[0] == int_push(n)[0]);
    let k = int_push(m).len() as int;
    assert(int_push(n).len() == k);
    assert(all.take(k) =~= int_push(m));
    assert(other.take(k) =~= int_push(n));
    assert(all.skip(k) =~= s);
    assert(other.skip(k) =~= t);
    if m > 16 {
        assert(int_push(m).drop_first() =~= script_number(m));
        assert(int_push(n).drop_first() =~= script_number(n));
    }
}

/// The lock of a clause is read back: an expiry clause tells its height and an exit clause
/// its delay, each with the one key that may sign, and neither is the other.
pub proof fn theorem_lock_clauses_are_told_apart(
    height1: u32,
    height2: u32,
    delay1: u16,
    delay2: u16,
    key1: Seq<u8>,
    key2: Seq<u8>,
)
    requires
        key1.len() == 32,
        key2.len() == 32,
    ensures
        expiry_clause(height1, key1) == expiry_clause(height2, key2) ==> height1 == height2 && key1
            == key2,
        exit_clause(delay1, key1) == exit_clause(delay2, key2) ==> delay1 == delay2 && key1 == key2,
        expiry_clause(height1, key1) != exit_clause(delay2, key2),
{
    let t1 = seq![OP_DROP, 0x20u8] + key1 + seq![OP_CHECKSIG];
    let t2 = seq![OP_DROP, 0x20u8] + key2 + seq![OP_CHECKSIG];
    assert(t1.subrange(2, 34) =~= key1);
    assert(t2.subrange(2, 34) =~= key2);
    let e1 = seq![OP_CLTV] + t1;
    let e2 = seq![OP_CLTV] + t2;
    let x1 = seq![OP_CSV] + t1;
    let x2 = seq![OP_CSV] + t2;
    assert(e1.drop_first() =~= t1);
    assert(e2.drop_first() =~= t2);
    assert(x1.drop_first() =~= t1);
    assert(x2.drop_first() =~= t2);
    assert(expiry_clause(height1, key1) =~= int_push(height1 as nat) + e1);
    assert(expiry_clause(height2, key2) =~= int_push(height2 as nat) + e2);
    assert(exit_clause(delay1, key1) =~= int_push(delay1 as nat) + x1);
    assert(exit_clause(delay2, key2) =~= int_push(delay2 as nat) + x2);
    if expiry_clause(height1, key1) == expiry_clause(height2, key2) {
        lemma_int_push_unambiguous(height1 as nat, height2 as nat, e1, e2);
    }
    if exit_clause(delay1, key1) == exit_clause(delay2, key2) {
        lemma_int_push_unambiguous(delay1 as nat, delay2 as nat, x1, x2);
    }
    if expiry_clause(height1, key1) == exit_clause(delay2, key2) {
        lemma_int_push_unambiguous(height1 as nat, delay2 as nat, e1, x2);
        assert(e1[0] == x2[0]);
    }
}

/// How the clauses end: each drops its lock and checks the signature of one key of 32
/// bytes; the lock of an expiry is `OP_CHECKLOCKTIMEVERIFY`, that of an exit
/// `OP_CHECKSEQUENCEVERIFY`, and a disprove clause asks for a preimage instead.
pub proof fn theorem_clauses_check_one_key(
    height: u32,
    delay: u16,
    disprove_hash: Seq<u8>,
    key: Seq<u8>,
)
    requires
        key.len() == 32,
    ensures
        ({
            let e = expiry_clause(height, key);
            let x = exit_clause(delay, key);
            let d = disprove_clause(disprove_hash, key);
            &&& e.skip(e.len() - 36) == seq![0xb1u8, 0x75u8, 0x20u8] + key + seq![0xacu8]
            &&& x.skip(x.len() - 36) == seq![0xb2u8, 0x75u8, 0x20u8] + key + seq![0xacu8]
            &&& d.skip(d.len() - 35) == seq![0x88u8, 0x20u8] + key + seq![0xacu8]
            &&& d.take(d.len() - 35) == seq![0xa9u8, 0x14u8] + ripemd160_of(disprove_hash)
        }),
{
    let e = expiry_clause(height, key);
    let x = exit_clause(delay, key);
    let d = disprove_clause(disprove_hash, key);
    assert(e.skip(e.len() - 36) =~= seq![0xb1u8, 0x75u8, 0x20u8] + key + seq![0xacu8]);
    assert(x.skip(x.len() - 36) =~= seq![0xb2u8, 0x75u8, 0x20u8] + key + seq![0xacu8]);
    assert(d.skip(d.len() - 35) =~= seq![0x88u8, 0x20u8] + key + seq![0xacu8]);
    assert(d.take(d.len() - 35) =~= seq![0xa9u8, 0x14u8] + ripemd160_of(disprove_hash));
}

/// The number that a clause locks by is read back from what it pushes: nothing but a zero
/// byte for zero, an opcode of its own up to 16, and else a length and as many bytes that
/// spell the number from the lowest on. Of an expiry it is the height, of an exit the
/// delay.
pub proof fn theorem_clauses_push_their_lock(
    height: u32,
    delay: u16,
    key: [u8; 32],
    expiry: Vec<u8>,
    exit: Vec<u8>,
)
    requires
        call_ensures(expiry_script, (height, &key), expiry),
        call_ensures(exit_script, (delay, &key), exit),
    ensures
        height == 0 ==> expiry@.take(expiry@.len() - 36) == seq![0u8],
        1 <= height <= 16 ==> expiry@.take(expiry@.len() - 36) == seq![(0x50 + height) as u8],
        height > 16 ==> {
            &&& expiry@[0] == expiry@.len() - 37
            &&& le_nat(expiry@.subrange(1, expiry@.len() - 36)) == height
            &&& expiry@[expiry@.len() - 37] < 0x80
        },
        delay == 0 ==> exit@.take(exit@.len() - 36) == seq![0u8],
        1 <= delay <= 16 ==> exit@.take(exit@.len() - 36) == seq![(0x50 + delay) as u8],
        delay > 16 ==> {
            &&& exit@[0] == exit@.len() - 37
            &&& le_nat(exit@.subrange(1, exit@.len() - 36)) == delay
            &&& exit@[exit@.len() - 37] < 0x80
        },
        expiry@.skip(expiry@.len() - 36) == seq![0xb1u8, 0x75u8, 0x20u8] + key@ + seq![0xacu8],
        exit@.skip(exit@.len() - 36) == seq![0xb2u8, 0x75u8, 0x20u8] + key@ + seq![0xacu8],
{
    theorem_clauses_check_one_key(height, delay, Seq::empty(), key@);
    lemma_pushed_number(height as nat);
    lemma_pushed_number(delay as nat);
    let h = int_push(height as nat);
    let d = int_push(delay as nat);
    assert(expiry@.len() == h.len() + 36);
    assert(exit@.len() == d.len() + 36);
    assert(expiry@.take(expiry@.len() - 36) =~= h);
    assert(exit@.take(exit@.len() - 36) =~= d);
    assert(expiry@.subrange(1, expiry@.len() - 36) =~= h.drop_first());
    assert(exit@.subrange(1, exit@.len() - 36) =~= d.drop_first());
}

proof fn lemma_pushed_number(n: nat)
    requires
        n < 0x1_0000_0000,
    ensures
        n > 16 ==> {
            &&& int_push(n).len() == int_push(n)[0] + 1
            &&& le_nat(int_push(n).drop_first()) == n
            &&& int_push(n).last() < 0x80
        },
{
    lemma_script_number(n);
    lemma_script_number_len(n);
    lemma_script_number_sign(n);
    if n > 16 {
        assert(int_push(n).drop_first() =~= script_number(n));
    }
}

proof fn lemma_script_number_sign(n: nat)
    ensures
        script_number(n).len() >= 1,
        script_number(n).last() < 0x80,
    decreases n,
{
    if n >= 0x80 {
        lemma_script_number_sign(n / 256);
        assert(script_number(n).last() == script_number(n / 256).last());
    }
}

/// The disprove clause asks for a preimage of its own disprove hash, and then for the
/// signature of its key; whether a key is one is what the curve says.
pub proof fn theorem_disprove_script_is_bound(
    disprove_hash: [u8; 32],
    key: [u8; 32],
    script: Vec<u8>,
    valid: bool,
)
    requires
        call_ensures(disprove_script, (&disprove_hash, &key), script),
        call_ensures(xonly, (&key,), valid),
    ensures
        script@ == seq![0xa9u8, 0x14u8] + ripemd160_of(disprove_hash@) + (seq![0x88u8, 0x20u8]
            + key@ + seq![0xacu8]),
        valid <==> is_point(seq![2u8] + key@),
{
    assert(script@ =~= seq![0xa9u8, 0x14u8] + ripemd160_of(disprove_hash@) + (seq![0x88u8, 0x20u8]
        + key@ + seq![0xacu8]));
}

} // verus!

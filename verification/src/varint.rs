//! Variable-length integers of the Bitcoin wire format.
use vstd::prelude::*;
use vstd::arithmetic::power::pow;
use crate::bytes::{le_bytes, le_nat, lemma_le_bytes_len, push_le, theorem_le_round_trip};

verus! {

/// The encoding of an integer: one byte below 253, else a marker byte and the
/// integer in 2, 4 or 8 little-endian bytes.
pub open spec fn varint(x: nat) -> Seq<u8> {
    if x < 0xfd {
        seq![x as u8]
    } else if x <= 0xffff {
        seq![0xfdu8] + le_bytes(x, 2)
    } else if x <= 0xffff_ffff {
        seq![0xfeu8] + le_bytes(x, 4)
    } else {
        seq![0xffu8] + le_bytes(x, 8)
    }
}

/// Appends the encoding of an integer.
pub fn push_varint(buf: &mut Vec<u8>, x: u64)
    ensures
        final(buf)@ == old(buf)@ + varint(x as nat),
{
    if x < 0xfd {
        buf.push(x as u8);
    } else if x <= 0xffff {
        buf.push(0xfd);
        push_le(buf, x, 2);
    } else if x <= 0xffff_ffff {
        buf.push(0xfe);
        push_le(buf, x, 4);
    } else {
        buf.push(0xff);
        push_le(buf, x, 8);
    }
    assert(buf@ =~= old(buf)@ + varint(x as nat));
}

/// Encodes an integer.
pub fn encode_varint(x: u64) -> (r: Vec<u8>)
    ensures
        r@ == varint(x as nat),
{
    let mut buf: Vec<u8> = Vec::new();
    push_varint(&mut buf, x);
    assert(buf@ =~= varint(x as nat));
    buf
}

proof fn lemma_widths()
    ensures
        pow(256, 2) == 0x1_0000,
        pow(256, 4) == 0x1_0000_0000,
        pow(256, 8) == 0x1_0000_0000_0000_0000,
{
    reveal_with_fuel(pow, 9);
}

/// An integer is written in the fewest bytes that hold it, and read back from them: one
/// byte that is the integer, or a marker and the integer in two, four or eight bytes.
pub proof fn theorem_varint_spells_integer(x: nat)
    requires
        x <= u64::MAX,
    ensures
        x < 253 ==> varint(x).len() == 1 && varint(x)[0] == x,
        253 <= x < 0x1_0000 ==> varint(x).len() == 3 && varint(x)[0] == 253,
        0x1_0000 <= x < 0x1_0000_0000 ==> varint(x).len() == 5 && varint(x)[0] == 254,
        0x1_0000_0000 <= x ==> varint(x).len() == 9 && varint(x)[0] == 255,
        x >= 253 ==> le_nat(varint(x).drop_first()) == x,
{
    lemma_widths();
    lemma_le_bytes_len(x, 2);
    lemma_le_bytes_len(x, 4);
    lemma_le_bytes_len(x, 8);
    if x < 253 {
    } else if x <= 0xffff {
        theorem_le_round_trip(x, 2);
        assert(varint(x).drop_first() =~= le_bytes(x, 2));
    } else if x <= 0xffff_ffff {
        theorem_le_round_trip(x, 4);
        assert(varint(x).drop_first() =~= le_bytes(x, 4));
    } else {
        theorem_le_round_trip(x, 8);
        assert(varint(x).drop_first() =~= le_bytes(x, 8));
    }
}

/// An integer can be told from what follows it.
pub proof fn theorem_varint_unambiguous(x: nat, y: nat, s: Seq<u8>, t: Seq<u8>)
    requires
        x <= u64::MAX,
        y <= u64::MAX,
        varint(x) + s == varint(y) + t,
    ensures
        x == y,
        s == t,
{
    theorem_varint_spells_integer(x);
    theorem_varint_spells_integer(y);
    let all = varint(x) + s;
    assert(all[0] == varint(x)[0]);
    assert((varint(y) + t)[0] == varint(y)[0]);
    let n = varint(x).len() as int;
    assert(varint(y).len() == n);
    assert(all.subrange(0, n) =~= varint(x));
    assert((varint(y) + t).subrange(0, n) =~= varint(y));
    assert(all.subrange(n, all.len() as int) =~= s);
    assert((varint(y) + t).subrange(n, all.len() as int) =~= t);
}

} // verus!

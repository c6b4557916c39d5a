//! Byte sequences: fixed-width integer encodings and buffer building.
use vstd::prelude::*;
use vstd::arithmetic::div_mod::lemma_div_denominator;
use vstd::arithmetic::power::{lemma_pow0, lemma_pow1, lemma_pow_adds, lemma_pow_positive, pow};

verus! {

/// The `n`-byte little-endian encoding of `x` (its low `8 * n` bits).
pub open spec fn le_bytes(x: nat, n: nat) -> Seq<u8>
    decreases n,
{
    if n == 0 {
        Seq::empty()
    } else {
        seq![(x % 256) as u8] + le_bytes(x / 256, (n - 1) as nat)
    }
}

/// The `n`-byte big-endian encoding of `x` (its low `8 * n` bits).
pub open spec fn be_bytes(x: nat, n: nat) -> Seq<u8>
    decreases n,
{
    if n == 0 {
        Seq::empty()
    } else {
        be_bytes(x / 256, (n - 1) as nat).push((x % 256) as u8)
    }
}

/// Byte sequences one after the other.
pub open spec fn joined(parts: Seq<Seq<u8>>) -> Seq<u8>
    decreases parts.len(),
{
    if parts.len() == 0 {
        Seq::empty()
    } else {
        joined(parts.drop_last()) + parts.last()
    }
}

/// The natural number that a byte sequence spells in big-endian order.
pub open spec fn be_nat(s: Seq<u8>) -> nat
    decreases s.len(),
{
    if s.len() == 0 {
        0
    } else {
        be_nat(s.drop_last()) * 256 + s.last() as nat
    }
}

/// The natural number that a byte sequence spells in little-endian order.
pub open spec fn le_nat(s: Seq<u8>) -> nat
    decreases s.len(),
{
    if s.len() == 0 {
        0
    } else {
        s[0] as nat + 256 * le_nat(s.drop_first())
    }
}

pub proof fn lemma_be_bytes_len(x: nat, n: nat)
    ensures
        be_bytes(x, n).len() == n,
    decreases n,
{
    if n > 0 {
        lemma_be_bytes_len(x / 256, (n - 1) as nat);
    }
}

/// The encoding of the number that a byte sequence spells is that sequence.
pub proof fn lemma_be_bytes_of_nat(s: Seq<u8>)
    ensures
        be_bytes(be_nat(s), s.len()) == s,
    decreases s.len(),
{
    if s.len() > 0 {
        lemma_be_bytes_of_nat(s.drop_last());
        assert((be_nat(s.drop_last()) * 256 + s.last() as nat) / 256 == be_nat(s.drop_last()));
        assert(s =~= s.drop_last().push(s.last()));
    } else {
        assert(s =~= Seq::<u8>::empty());
    }
}

/// One more part comes behind the others.
pub proof fn lemma_joined_step(parts: Seq<Seq<u8>>, i: int)
    requires
        0 <= i < parts.len(),
    ensures
        joined(parts.take(i + 1)) == joined(parts.take(i)) + parts[i],
{
    assert(parts.take(i + 1).drop_last() =~= parts.take(i));
}

/// What `n` bytes can count up to.
pub open spec fn byte_limit(n: nat) -> nat
    decreases n,
{
    if n == 0 {
        1
    } else {
        256 * byte_limit((n - 1) as nat)
    }
}

/// An encoding that is wide enough spells the number again.
pub proof fn lemma_be_nat_of_bytes(x: nat, n: nat)
    requires
        x < byte_limit(n),
    ensures
        be_nat(be_bytes(x, n)) == x,
    decreases n,
{
    if n > 0 {
        lemma_be_nat_of_bytes(x / 256, (n - 1) as nat);
        let s = be_bytes(x, n);
        assert(s.drop_last() =~= be_bytes(x / 256, (n - 1) as nat));
    }
}

/// Zero bytes spell zero.
pub proof fn lemma_be_nat_zeros(s: Seq<u8>)
    requires
        forall|i: int| 0 <= i < s.len() ==> s[i] == 0,
    ensures
        be_nat(s) == 0,
    decreases s.len(),
{
    if s.len() > 0 {
        lemma_be_nat_zeros(s.drop_last());
    }
}

/// Two byte sequences of the same length that spell the same number are equal.
pub proof fn lemma_be_nat_injective(s: Seq<u8>, t: Seq<u8>)
    requires
        s.len() == t.len(),
        be_nat(s) == be_nat(t),
    ensures
        s == t,
{
    lemma_be_bytes_of_nat(s);
    lemma_be_bytes_of_nat(t);
}

/// Appends a copy of `other` to `buf`.
pub fn push_slice(buf: &mut Vec<u8>, other: &[u8])
    ensures
        final(buf)@ == old(buf)@ + other@,
{
    buf.extend_from_slice(other);
    assert(buf@ =~= old(buf)@ + other@);
}

/// A copy of `s` in a vector of its own.
pub fn to_vec(s: &[u8]) -> (r: Vec<u8>)
    ensures
        r@ == s@,
{
    let mut r: Vec<u8> = Vec::new();
    push_slice(&mut r, s);
    assert(r@ =~= s@);
    r
}

/// Appends the `n`-byte little-endian encoding of `x` to `buf`.
pub fn push_le(buf: &mut Vec<u8>, x: u64, n: usize)
    ensures
        final(buf)@ == old(buf)@ + le_bytes(x as nat, n as nat),
{
    let ghost start = buf@;
    let mut rest: u64 = x;
    let mut left: usize = n;
    while left > 0
        invariant
            left <= n,
            buf@ + le_bytes(rest as nat, left as nat) == start + le_bytes(x as nat, n as nat),
        decreases left,
    {
        let ghost before = buf@;
        buf.push((rest % 256) as u8);
        proof {
            let tail = le_bytes((rest / 256) as nat, (left - 1) as nat);
            assert(buf@ + tail =~= before + (seq![(rest as nat % 256) as u8] + tail));
        }
        rest = rest / 256;
        left = left - 1;
    }
    assert(buf@ =~= buf@ + le_bytes(rest as nat, 0));
}

/// Appends the `n`-byte big-endian encoding of `x` to `buf`.
pub fn push_be(buf: &mut Vec<u8>, x: u64, n: usize)
    ensures
        final(buf)@ == old(buf)@ + be_bytes(x as nat, n as nat),
    decreases n,
{
    if n > 0 {
        push_be(buf, x / 256, n - 1);
        let ghost before = buf@;
        buf.push((x % 256) as u8);
        assert(buf@ =~= old(buf)@ + be_bytes(x as nat, n as nat));
    } else {
        assert(buf@ =~= old(buf)@ + be_bytes(x as nat, 0));
    }
}

/// The 32 bytes of `s` from position `from` on.
pub fn array32(s: &[u8], from: usize) -> (r: [u8; 32])
    requires
        from + 32 <= s@.len(),
    ensures
        r@ == s@.subrange(from as int, from + 32),
{
    let total: usize = s.len();
    let mut r: [u8; 32] = [0u8; 32];
    let mut i: usize = 0;
    while i < 32
        invariant
            from + 32 <= s@.len(),
            total == s@.len(),
            i <= 32,
            forall|j: int| 0 <= j < i ==> r@[j] == s@[from + j],
        decreases 32 - i,
    {
        r[i] = s[from + i];
        i = i + 1;
    }
    assert(r@ =~= s@.subrange(from as int, from + 32));
    r
}

/// Two 32-byte strings, one after the other.
pub fn join64(a: &[u8; 32], b: &[u8; 32]) -> (r: [u8; 64])
    ensures
        r@ == a@ + b@,
{
    let mut r: [u8; 64] = [0u8; 64];
    let mut i: usize = 0;
    while i < 32
        invariant
            i <= 32,
            forall|j: int| 0 <= j < i ==> r@[j] == a@[j] && r@[32 + j] == b@[j],
        decreases 32 - i,
    {
        r[i] = a[i];
        r[32 + i] = b[i];
        i = i + 1;
    }
    assert(r@ =~= a@ + b@);
    r
}

/// Whether two byte slices hold the same bytes.
pub fn bytes_eq(a: &[u8], b: &[u8]) -> (r: bool)
    ensures
        r == (a@ == b@),
{
    if a.len() != b.len() {
        return false;
    }
    let mut i: usize = 0;
    while i < a.len()
        invariant
            a@.len() == b@.len(),
            i <= a@.len(),
            forall|j: int| 0 <= j < i ==> a@[j] == b@[j],
        decreases a@.len() - i,
    {
        if a[i] != b[i] {
            return false;
        }
        i = i + 1;
    }
    assert(a@ =~= b@);
    true
}

/// The bytes of a little-endian encoding are the digits of the number to the base 256,
/// the lowest first.
pub proof fn theorem_le_digits(x: nat, n: nat, i: nat)
    requires
        i < n,
    ensures
        le_bytes(x, n).len() == n,
        le_bytes(x, n)[i as int] as int == (x as int / pow(256, i)) % 256,
    decreases n,
{
    lemma_le_bytes_len(x, n);
    let tail = le_bytes(x / 256, (n - 1) as nat);
    if i == 0 {
        lemma_pow0(256);
    } else {
        theorem_le_digits(x / 256, (n - 1) as nat, (i - 1) as nat);
        assert(le_bytes(x, n)[i as int] == tail[i - 1]);
        lemma_pow_adds(256, 1, (i - 1) as nat);
        lemma_pow1(256);
        lemma_pow_positive(256, (i - 1) as nat);
        lemma_div_denominator(x as int, 256, pow(256, (i - 1) as nat));
    }
}

pub proof fn lemma_le_bytes_len(x: nat, n: nat)
    ensures
        le_bytes(x, n).len() == n,
    decreases n,
{
    if n > 0 {
        lemma_le_bytes_len(x / 256, (n - 1) as nat);
    }
}

/// The bytes of a big-endian encoding are the digits of the number to the base 256, the
/// lowest last.
pub proof fn theorem_be_digits(x: nat, n: nat, i: nat)
    requires
        i < n,
    ensures
        be_bytes(x, n).len() == n,
        be_bytes(x, n)[n - 1 - i] as int == (x as int / pow(256, i)) % 256,
    decreases n,
{
    lemma_be_bytes_len(x, n);
    lemma_be_bytes_len(x / 256, (n - 1) as nat);
    let head = be_bytes(x / 256, (n - 1) as nat);
    if i == 0 {
        lemma_pow0(256);
    } else {
        theorem_be_digits(x / 256, (n - 1) as nat, (i - 1) as nat);
        assert(be_bytes(x, n)[n - 1 - i] == head[n - 1 - i]);
        lemma_pow_adds(256, 1, (i - 1) as nat);
        lemma_pow1(256);
        lemma_pow_positive(256, (i - 1) as nat);
        lemma_div_denominator(x as int, 256, pow(256, (i - 1) as nat));
    }
}

/// An encoding that is wide enough is read back.
pub proof fn theorem_le_round_trip(x: nat, n: nat)
    requires
        x < pow(256, n),
    ensures
        le_bytes(x, n).len() == n,
        le_nat(le_bytes(x, n)) == x,
    decreases n,
{
    lemma_le_bytes_len(x, n);
    if n == 0 {
        lemma_pow0(256);
    } else {
        lemma_pow_adds(256, 1, (n - 1) as nat);
        lemma_pow1(256);
        theorem_le_round_trip(x / 256, (n - 1) as nat);
        assert(le_bytes(x, n).drop_first() =~= le_bytes(x / 256, (n - 1) as nat));
    }
}

/// The value of a byte string in either order: a byte in front of a little-endian string
/// shifts it up by one place, a byte behind a big-endian one too.
pub proof fn theorem_byte_values(b: u8, s: Seq<u8>)
    ensures
        le_nat(seq![b] + s) == b + 256 * le_nat(s),
        be_nat(s.push(b)) == 256 * be_nat(s) + b,
        le_nat(Seq::empty()) == 0,
        be_nat(Seq::empty()) == 0,
{
    assert((seq![b] + s).drop_first() =~= s);
    assert(s.push(b).drop_last() =~= s);
}

/// Joining keeps every part in its place: the parts of two lists follow each other, and
/// one part alone stays as it is.
pub proof fn theorem_joined_parts(a: Seq<Seq<u8>>, b: Seq<Seq<u8>>, part: Seq<u8>)
    ensures
        joined(a + b) == joined(a) + joined(b),
        joined(seq![part]) == part,
        joined(a.push(part)) == joined(a) + part,
        joined(Seq::empty()) == Seq::<u8>::empty(),
    decreases b.len(),
{
    reveal_with_fuel(joined, 2);
    assert(a.push(part).drop_last() =~= a);
    assert(seq![part].drop_last() =~= Seq::empty());
    assert(Seq::<u8>::empty() + part =~= part);
    if b.len() == 0 {
        assert(a + b =~= a);
        assert(joined(a) + joined(b) =~= joined(a));
    } else {
        theorem_joined_parts(a, b.drop_last(), part);
        assert((a + b).drop_last() =~= a + b.drop_last());
        assert((a + b).last() == b.last());
        assert(joined(a + b) =~= joined(a) + joined(b));
    }
}

/// Bytes are the same if and only if there are as many and each is the same; what is
/// copied, cut out or joined is what it is made of, byte by byte.
pub proof fn theorem_bytes_are_kept(
    a: &[u8],
    b: &[u8],
    from: usize,
    i: int,
    x: [u8; 32],
    y: [u8; 32],
    same: bool,
    copy: Vec<u8>,
    part: [u8; 32],
    both: [u8; 64],
)
    requires
        from + 32 <= a@.len(),
        call_ensures(bytes_eq, (a, b), same),
        call_ensures(to_vec, (a,), copy),
        call_ensures(array32, (a, from), part),
        call_ensures(join64, (&x, &y), both),
    ensures
        same <==> a@.len() == b@.len() && forall|j: int|
            0 <= j < a@.len() ==> #[trigger] a@[j] == b@[j],
        copy@.len() == a@.len(),
        0 <= i < a@.len() ==> copy@[i] == a@[i],
        0 <= i < 32 ==> part@[i] == a@[from + i] && both@[i] == x@[i] && both@[32 + i] == y@[i],
{
    if a@.len() == b@.len() && forall|j: int| 0 <= j < a@.len() ==> #[trigger] a@[j] == b@[j] {
        assert(a@ =~= b@);
    }
}

} // verus!

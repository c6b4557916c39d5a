//! Hexadecimal text.
use vstd::prelude::*;
use vstd::slice::slice_subrange;
use vstd::string::StringSliceAdditionalSpecFns;

verus! {

/// A digit, in lower case.
pub open spec fn hex_digit(n: int) -> char {
    if n < 10 {
        (0x30 + n) as char
    } else {
        (0x57 + n) as char
    }
}

/// Bytes as text, two digits each.
pub open spec fn hex_of(bytes: Seq<u8>) -> Seq<char> {
    Seq::new(
        2 * bytes.len(),
        |i: int|
            hex_digit(
                if i % 2 == 0 {
                    bytes[i / 2] as int / 16
                } else {
                    bytes[i / 2] as int % 16
                },
            ),
    )
}

/// The value of a digit, in either case.
pub open spec fn digit_value(c: u8) -> Option<int> {
    if 0x30 <= c <= 0x39 {
        Some(c - 0x30)
    } else if 0x41 <= c <= 0x46 {
        Some(c - 0x41 + 10)
    } else if 0x61 <= c <= 0x66 {
        Some(c - 0x61 + 10)
    } else {
        None
    }
}

/// Whether text is an even number of digits.
pub open spec fn is_hex(text: Seq<u8>) -> bool {
    &&& text.len() % 2 == 0
    &&& forall|i: int| 0 <= i < text.len() ==> digit_value(#[trigger] text[i]) is Some
}

/// The bytes that text spells.
pub open spec fn unhex(text: Seq<u8>) -> Option<Seq<u8>> {
    if is_hex(text) {
        Some(
            Seq::new(
                text.len() / 2,
                |i: int|
                    (16 * digit_value(text[2 * i])->0 + digit_value(text[2 * i + 1])->0) as u8,
            ),
        )
    } else {
        None
    }
}

/// Text without its leading `0x` marks.
pub open spec fn without_marks(text: Seq<u8>) -> Seq<u8>
    decreases text.len(),
{
    if text.len() >= 2 && text[0] == 0x30 && text[1] == 0x78 {
        without_marks(text.subrange(2, text.len() as int))
    } else {
        text
    }
}

/// The `n` bytes that text spells behind its marks.
pub open spec fn parsed_hex(text: Seq<u8>, n: nat) -> Option<Seq<u8>> {
    match unhex(without_marks(text)) {
        None => None,
        Some(bytes) => if bytes.len() == n {
            Some(bytes)
        } else {
            None
        },
    }
}

/// `hex::encode`: bytes as lower-case text, two digits each.
#[verifier::external_body]
fn outside_hex_encode(bytes: &[u8]) -> (r: String)
    ensures
        r@ == hex_of(bytes@),
{
    hex::encode(bytes)
}

/// `hex::decode`: the bytes that text spells, if it is an even number of digits.
#[verifier::external_body]
fn outside_hex_decode(text: &[u8]) -> (r: Option<Vec<u8>>)
    ensures
        match r {
            None => unhex(text@) is None,
            Some(bytes) => unhex(text@) == Some(bytes@),
        },
{
    hex::decode(text).ok()
}

/// Bytes as text.
pub fn hex_encode(bytes: &[u8]) -> (r: String)
    ensures
        r@ == hex_of(bytes@),
{
    outside_hex_encode(bytes)
}

/// Reads `n` bytes of text, which may have `0x` marks in front.
pub fn parse_hex(s: &str, n: usize) -> (r: Option<Vec<u8>>)
    ensures
        match r {
            None => parsed_hex(s.spec_bytes(), n as nat) is None,
            Some(bytes) => parsed_hex(s.spec_bytes(), n as nat) == Some(bytes@),
        },
{
    let text = s.as_bytes();
    let count: usize = text.len();
    let mut start: usize = 0;
    assert(text@.subrange(0, count as int) =~= text@);
    while count - start >= 2 && text[start] == 0x30 && text[start + 1] == 0x78
        invariant
            count == text@.len(),
            start <= count,
            without_marks(text@) == without_marks(text@.subrange(start as int, count as int)),
        decreases count - start,
    {
        proof {
            let rest = text@.subrange(start as int, count as int);
            assert(rest.subrange(2, rest.len() as int) =~= text@.subrange(start + 2, count as int));
        }
        start = start + 2;
    }
    let digits = slice_subrange(text, start, count);
    assert(without_marks(digits@) == digits@);
    match outside_hex_decode(digits) {
        None => None,
        Some(bytes) => if bytes.len() == n {
            Some(bytes)
        } else {
            None
        },
    }
}

/// Text as bytes: every character below 256.
pub open spec fn text_bytes(text: Seq<char>) -> Seq<u8> {
    Seq::new(text.len(), |i: int| text[i] as u8)
}

/// Reading gives back what was written.
pub proof fn theorem_hex_round_trip(bytes: Seq<u8>)
    ensures
        unhex(text_bytes(hex_of(bytes))) == Some(bytes),
{
    let text = text_bytes(hex_of(bytes));
    assert forall|i: int| 0 <= i < text.len() implies digit_value(#[trigger] text[i]) == Some(
        if i % 2 == 0 {
            bytes[i / 2] as int / 16
        } else {
            bytes[i / 2] as int % 16
        },
    ) by {
        let n = if i % 2 == 0 {
            bytes[i / 2] as int / 16
        } else {
            bytes[i / 2] as int % 16
        };
        assert(0 <= n < 16);
        assert(hex_of(bytes)[i] == hex_digit(n));
    }
    assert forall|i: int| 0 <= i < bytes.len() implies (16 * digit_value(text[2 * i])->0
        + digit_value(text[2 * i + 1])->0) as u8 == #[trigger] bytes[i] by {
        assert(digit_value(text[2 * i]) == Some(bytes[i] as int / 16));
        assert(digit_value(text[2 * i + 1]) == Some(bytes[i] as int % 16));
    }
    assert(unhex(text)->0 =~= bytes);
}

/// Marks in front of text do not count, however many there are, and without marks text is
/// read as it is: digits in pairs, and as many bytes as are asked for.
pub proof fn theorem_marks_do_not_count(text: Seq<u8>, n: nat)
    ensures
        parsed_hex(seq![0x30u8, 0x78u8] + text, n) == parsed_hex(text, n),
        text.len() < 2 || text[0] != 0x30 || text[1] != 0x78 ==> {
            &&& parsed_hex(text, n) is Some <==> unhex(text) is Some && text.len() == 2 * n
            &&& parsed_hex(text, n) is Some ==> parsed_hex(text, n) == unhex(text)
        },
        parsed_hex(text, n) is Some ==> parsed_hex(text, n)->0.len() == n,
{
    let marked = seq![0x30u8, 0x78u8] + text;
    assert(marked.subrange(2, marked.len() as int) =~= text);
}

/// Two digits are a byte, the high one first, in either case; there is nothing to read
/// where a character is not a digit or their number is odd.
pub proof fn theorem_digits_spell_bytes(text: Seq<u8>, i: int)
    ensures
        unhex(text) is Some ==> {
            &&& unhex(text)->0.len() * 2 == text.len()
            &&& 0 <= i < unhex(text)->0.len() ==> unhex(text)->0[i] == 16 * digit_value(
                text[2 * i],
            )->0 + digit_value(text[2 * i + 1])->0
        },
        text.len() % 2 == 1 ==> unhex(text) is None,
        0 <= i < text.len() && digit_value(text[i]) is None ==> unhex(text) is None,
        unhex(text) is None ==> text.len() % 2 == 1 || exists|j: int|
            0 <= j < text.len() && digit_value(#[trigger] text[j]) is None,
{
    if unhex(text) is Some && 0 <= i < text.len() / 2 {
        assert(digit_value(text[2 * i]) is Some);
        assert(digit_value(text[2 * i + 1]) is Some);
    }
}

/// What is written is read back, with or without a mark.
pub proof fn theorem_written_hex_is_parsed(bytes: Seq<u8>)
    requires
        bytes.len() > 0,
    ensures
        parsed_hex(text_bytes(hex_of(bytes)), bytes.len()) == Some(bytes),
        parsed_hex(seq![0x30u8, 0x78u8] + text_bytes(hex_of(bytes)), bytes.len()) == Some(bytes),
{
    let text = text_bytes(hex_of(bytes));
    theorem_hex_round_trip(bytes);
    theorem_marks_do_not_count(text, bytes.len());
    let n = bytes[0] as int % 16;
    assert(hex_of(bytes)[1] == hex_digit(n));
    assert(text[1] != 0x78);
}

/// Bytes are written with two characters each, of the digits and the letters from a to f.
pub proof fn theorem_hex_is_lower_case(bytes: &[u8], r: String, i: int)
    requires
        call_ensures(hex_encode, (bytes,), r),
        0 <= i < r@.len(),
    ensures
        r@.len() == 2 * bytes@.len(),
        0x30 <= r@[i] as int <= 0x39 || 0x61 <= r@[i] as int <= 0x66,
{
}

} // verus!

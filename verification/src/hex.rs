//! Hexadecimal text for byte strings: lower case out, either case in.

use crate::ascii::{ascii_string, is_ascii};
use vstd::prelude::*;
use vstd::utf8::encode_utf8;

verus! {

/// The lower-case hexadecimal digit of a value below sixteen, as an ASCII byte.
pub open spec fn hex_digit(n: u8) -> u8 {
    if n < 10 {
        (0x30 + n) as u8
    } else {
        (0x57 + n) as u8
    }
}

/// The value of one hexadecimal digit, upper or lower case.
pub open spec fn hex_value(c: u8) -> Option<u8> {
    if 0x30 <= c <= 0x39 {
        Some((c - 0x30) as u8)
    } else if 0x61 <= c <= 0x66 {
        Some((c - 0x57) as u8)
    } else if 0x41 <= c <= 0x46 {
        Some((c - 0x37) as u8)
    } else {
        None
    }
}

/// Two digits for each byte, high half first.
pub open spec fn hex(b: Seq<u8>) -> Seq<u8> {
    Seq::new(
        2 * b.len(),
        |i: int|
            if i % 2 == 0 {
                hex_digit(b[i / 2] / 16)
            } else {
                hex_digit(b[i / 2] % 16)
            },
    )
}

/// Every byte of the text is a hexadecimal digit, and their number is even.
pub open spec fn is_hex(t: Seq<u8>) -> bool {
    t.len() % 2 == 0 && forall|i: int| 0 <= i < t.len() ==> hex_value(#[trigger] t[i]) is Some
}

/// The bytes that hexadecimal text spells, if it is such text.
pub open spec fn unhex(t: Seq<u8>) -> Option<Seq<u8>> {
    if is_hex(t) {
        Some(
            Seq::new(
                (t.len() / 2) as nat,
                |i: int| (hex_value(t[2 * i])->0 * 16 + hex_value(t[2 * i + 1])->0) as u8,
            ),
        )
    } else {
        None
    }
}

/// Reading back what was written gives the bytes.
pub proof fn lemma_unhex_hex(b: Seq<u8>)
    ensures
        unhex(hex(b)) == Some(b),
        is_ascii(hex(b)),
{
    let t = hex(b);
    assert forall|i: int| 0 <= i < t.len() implies hex_value(#[trigger] t[i]) is Some && t[i]
        < 128 by {
        assert(0 <= i / 2 < b.len());
    }
    assert(is_hex(t));
    let r = unhex(t)->0;
    assert forall|i: int| 0 <= i < b.len() implies r[i] == b[i] by {
        assert(t[2 * i] == hex_digit(b[i] / 16));
        assert(t[2 * i + 1] == hex_digit(b[i] % 16));
    }
    assert(r =~= b);
}

fn digit_of(n: u8) -> (c: u8)
    requires
        n < 16,
    ensures
        c == hex_digit(n),
{
    if n < 10 {
        0x30 + n
    } else {
        0x57 + n
    }
}

fn value_of(c: u8) -> (r: Option<u8>)
    ensures
        r == hex_value(c),
        r matches Some(v) ==> v < 16,
{
    if 0x30 <= c && c <= 0x39 {
        Some(c - 0x30)
    } else if 0x61 <= c && c <= 0x66 {
        Some(c - 0x57)
    } else if 0x41 <= c && c <= 0x46 {
        Some(c - 0x37)
    } else {
        None
    }
}

/// Writes bytes as hexadecimal ASCII text.
pub fn hex_bytes(bytes: &[u8]) -> (r: Vec<u8>)
    ensures
        r@ == hex(bytes@),
{
    let mut out: Vec<u8> = Vec::new();
    let mut i: usize = 0;
    while i < bytes.len()
        invariant
            i <= bytes.len(),
            out.len() == 2 * i,
            forall|j: int| 0 <= j < 2 * i ==> out@[j] == hex(bytes@)[j],
        decreases bytes.len() - i,
    {
        let b = bytes[i];
        out.push(digit_of(b / 16));
        out.push(digit_of(b % 16));
        proof {
            assert(hex(bytes@)[2 * i] == hex_digit(b / 16));
            assert(hex(bytes@)[2 * i + 1] == hex_digit(b % 16));
        }
        i += 1;
    }
    assert(out@ =~= hex(bytes@));
    out
}

/// Reads hexadecimal ASCII text.
pub fn unhex_bytes(text: &[u8]) -> (r: Option<Vec<u8>>)
    ensures
        match r {
            Some(b) => unhex(text@) == Some(b@),
            None => unhex(text@) is None,
        },
{
    if text.len() % 2 != 0 {
        return None;
    }
    let n = text.len() / 2;
    let mut out: Vec<u8> = Vec::new();
    let mut i: usize = 0;
    while i < n
        invariant
            text.len() == 2 * n,
            i <= n,
            out.len() == i,
            forall|j: int| 0 <= j < 2 * i ==> hex_value(#[trigger] text@[j]) is Some,
            forall|j: int|
                0 <= j < i ==> out@[j] == (hex_value(text@[2 * j])->0 * 16 + hex_value(
                    text@[2 * j + 1],
                )->0) as u8,
        decreases n - i,
    {
        let hi = match value_of(text[2 * i]) {
            Some(v) => v,
            None => {
                return None;
            },
        };
        let lo = match value_of(text[2 * i + 1]) {
            Some(v) => v,
            None => {
                return None;
            },
        };
        out.push(hi * 16 + lo);
        i += 1;
    }
    assert(is_hex(text@));
    assert(out@ =~= unhex(text@)->0);
    Some(out)
}

/// The hexadecimal text of a byte string.
pub fn to_hex(bytes: &[u8]) -> (r: String)
    ensures
        encode_utf8(r@) == hex(bytes@),
{
    let v = hex_bytes(bytes);
    proof {
        lemma_unhex_hex(bytes@);
    }
    ascii_string(v)
}

/// The byte string that hexadecimal text spells; `None` where the text
/// holds anything but an even number of hexadecimal digits.
pub fn from_hex(text: &str) -> (r: Option<Vec<u8>>)
    ensures
        match r {
            Some(b) => unhex(encode_utf8(text@)) == Some(b@),
            None => unhex(encode_utf8(text@)) is None,
        },
{
    unhex_bytes(text.as_bytes())
}

} // verus!

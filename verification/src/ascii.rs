//! ASCII text held as bytes, and its passage to and from `String`.

use vstd::prelude::*;
use vstd::utf8::{
    encode_utf8, encode_utf8_valid_utf8, is_ascii_chars, is_ascii_chars_encode_utf8, valid_utf8,
};

verus! {

/// Every byte is below 128.
pub open spec fn is_ascii(b: Seq<u8>) -> bool {
    forall|i: int| 0 <= i < b.len() ==> #[trigger] b[i] < 128
}

/// The characters that ASCII bytes stand for.
pub open spec fn chars_of(b: Seq<u8>) -> Seq<char> {
    Seq::new(b.len(), |i: int| b[i] as char)
}

/// ASCII bytes are the UTF-8 encoding of their characters.
pub proof fn lemma_ascii_is_utf8(b: Seq<u8>)
    requires
        is_ascii(b),
    ensures
        encode_utf8(chars_of(b)) == b,
        valid_utf8(b),
{
    let c = chars_of(b);
    assert(is_ascii_chars(c)) by {
        assert forall|i: int| 0 <= i < c.len() implies '\0' <= #[trigger] c[i] <= '\u{7f}' by {
            assert(b[i] < 128);
        }
    }
    is_ascii_chars_encode_utf8(c);
    assert forall|i: int| 0 <= i < b.len() implies encode_utf8(c)[i] == b[i] by {
        assert(c[i] as u8 == encode_utf8(c)[i]);
        assert(b[i] < 128);
        assert((b[i] as char) as u8 == b[i]);
    }
    assert(encode_utf8(c) =~= b);
    encode_utf8_valid_utf8(c);
}

/// `String::from_utf8` on bytes that are valid UTF-8: the string whose
/// encoding they are.
#[verifier::external_body]
fn string_of_utf8(v: Vec<u8>) -> (r: String)
    requires
        valid_utf8(v@),
    ensures
        encode_utf8(r@) == v@,
{
    String::from_utf8(v).unwrap_or_default()
}

/// The string that ASCII bytes spell.
pub(crate) fn ascii_string(v: Vec<u8>) -> (r: String)
    requires
        is_ascii(v@),
    ensures
        encode_utf8(r@) == v@,
{
    proof {
        lemma_ascii_is_utf8(v@);
    }
    string_of_utf8(v)
}

} // verus!

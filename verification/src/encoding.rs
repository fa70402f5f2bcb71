//! Percent-encoding of query components.

use vstd::prelude::*;
use vstd::utf8::encode_utf8;

verus! {

/// Whether a byte stands for itself in a query component: the ASCII letters
/// and digits and `-`, `.`, `_`, `~`.
pub open spec fn is_unreserved(byte: u8) -> bool {
    ||| 0x30 <= byte <= 0x39
    ||| 0x41 <= byte <= 0x5a
    ||| 0x61 <= byte <= 0x7a
    ||| byte == 0x2d
    ||| byte == 0x2e
    ||| byte == 0x5f
    ||| byte == 0x7e
}

/// The upper-case hexadecimal digit for `nibble`, which is below sixteen.
pub open spec fn hex_digit(nibble: u8) -> char {
    if nibble < 10 {
        (0x30 + nibble) as char
    } else {
        (0x37 + nibble) as char
    }
}

/// One byte encoded: itself where unreserved, else `%` and two hex digits.
pub open spec fn encoded_byte(byte: u8) -> Seq<char> {
    if is_unreserved(byte) {
        seq![byte as char]
    } else {
        seq!['%', hex_digit(byte / 16), hex_digit(byte % 16)]
    }
}

/// The bytes encoded one by one.
pub open spec fn percent_encoded(bytes: Seq<u8>) -> Seq<char> {
    bytes.map_values(|byte: u8| encoded_byte(byte)).flatten()
}

/// The percent-encoding of the UTF-8 bytes of `text`.
pub open spec fn query_encoded(text: Seq<char>) -> Seq<char> {
    percent_encoded(encode_utf8(text))
}

/// `urlencoding::encode`: every byte of the UTF-8 form of `text` but the
/// ASCII letters and digits and `-`, `.`, `_`, `~` becomes `%` followed by
/// its two upper-case hexadecimal digits; those bytes stay as they are.
#[verifier::external_body]
pub(crate) fn percent_encode(text: &str) -> (encoded: String)
    ensures
        encoded@ == query_encoded(text@),
{
    urlencoding::encode(text).into_owned()
}

/// A query component ready to stand in a URL.
pub fn query_component(text: &str) -> (encoded: String)
    ensures
        encoded@ == query_encoded(text@),
{
    percent_encode(text)
}

} // verus!

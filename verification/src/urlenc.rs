//! Percent-encoding of URL components.

use vstd::prelude::*;
use vstd::utf8::encode_utf8;

verus! {

/// Bytes left as they are: ASCII letters and digits and `-`, `.`, `_`, `~`.
pub open spec fn unreserved(b: u8) -> bool {
    (48 <= b <= 57) || (65 <= b <= 90) || (97 <= b <= 122) || b == 45 || b == 46 || b == 95 || b == 126
}

/// The uppercase hexadecimal digit for `d < 16`.
pub open spec fn hex_digit(d: u8) -> char {
    if d < 10 {
        ((48 + d) as u8) as char
    } else {
        ((55 + d) as u8) as char
    }
}

/// The encoding of one byte: itself if unreserved, else `%` and two
/// uppercase hexadecimal digits.
pub open spec fn encode_byte(b: u8) -> Seq<char> {
    if unreserved(b) {
        seq![b as char]
    } else {
        seq!['%', hex_digit(b / 16), hex_digit(b % 16)]
    }
}

/// The percent-encoding of a byte sequence.
pub open spec fn encode_bytes(bs: Seq<u8>) -> Seq<char>
    decreases bs.len(),
{
    if bs.len() == 0 {
        Seq::empty()
    } else {
        encode_byte(bs[0]) + encode_bytes(bs.drop_first())
    }
}

/// The percent-encoding of the UTF-8 bytes of a string.
pub open spec fn url_encoded(s: Seq<char>) -> Seq<char> {
    encode_bytes(encode_utf8(s))
}

/// Calls `urlencoding::encode`, which percent-encodes every UTF-8 byte of
/// its argument except ASCII letters and digits and `-`, `_`, `.`, `~`,
/// with uppercase hexadecimal digits.
#[verifier::external_body]
pub(crate) fn encode(data: &str) -> (res: String)
    ensures
        res@ == url_encoded(data@),
{
    urlencoding::encode(data)
}

} // verus!

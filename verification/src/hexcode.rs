//! Hexadecimal text, as the `hex` crate writes and reads it.

use vstd::prelude::*;
use vstd::utf8::{encode_utf8, is_ascii_chars};

verus! {

/// The lowercase hexadecimal digit for a value below sixteen.
pub open spec fn hex_digit(v: int) -> u8 {
    if v < 10 {
        (48 + v) as u8
    } else {
        (87 + v) as u8
    }
}

/// Two lowercase digits for each byte, the high half first.
#[verifier::opaque]
pub open spec fn hex_text(data: Seq<u8>) -> Seq<u8> {
    Seq::new(
        2 * data.len(),
        |i: int|
            if i % 2 == 0 {
                hex_digit(data[i / 2] as int / 16)
            } else {
                hex_digit(data[i / 2] as int % 16)
            },
    )
}

/// `hex_text`, as characters.
pub open spec fn hex_chars(data: Seq<u8>) -> Seq<char> {
    Seq::new(2 * data.len(), |i: int| hex_text(data)[i] as char)
}

/// The value of a hexadecimal digit of either case.
pub open spec fn digit_value(c: u8) -> Option<int> {
    if 48 <= c <= 57 {
        Some(c - 48)
    } else if 97 <= c <= 102 {
        Some(c - 87)
    } else if 65 <= c <= 70 {
        Some(c - 55)
    } else {
        None
    }
}

/// Whether `text` is an even number of hexadecimal digits.
pub open spec fn is_hex(text: Seq<u8>) -> bool {
    text.len() % 2 == 0 && forall|i: int| 0 <= i < text.len() ==> digit_value(#[trigger] text[i])
        is Some
}

/// The bytes that `text` writes, where it is an even number of hexadecimal
/// digits.
#[verifier::opaque]
pub open spec fn hex_decoded(text: Seq<u8>) -> Option<Seq<u8>> {
    if is_hex(text) {
        Some(
            Seq::new(
                text.len() / 2,
                |i: int|
                    (16 * digit_value(text[2 * i]).unwrap() + digit_value(
                        text[2 * i + 1],
                    ).unwrap()) as u8,
            ),
        )
    } else {
        None
    }
}

/// `hex::encode`: two lowercase hexadecimal digits for each byte, the high
/// half first.
#[verifier::external_body]
fn hex_encode(data: &[u8]) -> (s: String)
    ensures
        s@ == hex_chars(data@),
{
    hex::encode(data)
}

/// `hex::decode`: the bytes written by an even number of hexadecimal digits
/// of either case, and nothing for any other input.
#[verifier::external_body]
fn hex_decode(text: &[u8]) -> (r: Option<Vec<u8>>)
    ensures
        match r {
            Some(v) => hex_decoded(text@) == Some(v@),
            None => hex_decoded(text@) is None,
        },
{
    hex::decode(text).ok()
}

/// Hexadecimal text is ASCII, so its bytes are its characters.
pub proof fn lemma_hex_chars_bytes(data: Seq<u8>)
    ensures
        is_ascii_chars(hex_chars(data)),
        encode_utf8(hex_chars(data)) == hex_text(data),
{
    reveal(hex_text);
    let c = hex_chars(data);
    assert(is_ascii_chars(c)) by {
        assert forall|i: int| 0 <= i < c.len() implies '\0' <= #[trigger] c[i] <= '\u{7f}' by {
            assert(c[i] == hex_text(data)[i] as char);
        }
    }
    vstd::utf8::is_ascii_chars_encode_utf8(c);
    assert(encode_utf8(c) =~= hex_text(data)) by {
        assert forall|i: int| 0 <= i < c.len() implies encode_utf8(c)[i] == hex_text(data)[i] by {
            assert(c[i] as u8 == encode_utf8(c)[i]);
        }
    }
}

/// Reading what was written gives the bytes back.
pub proof fn lemma_hex_roundtrip(data: Seq<u8>)
    ensures
        hex_decoded(hex_text(data)) == Some(data),
        hex_text(data).len() == 2 * data.len(),
{
    reveal(hex_text);
    reveal(hex_decoded);
    let t = hex_text(data);
    assert(is_hex(t)) by {
        assert forall|i: int| 0 <= i < t.len() implies digit_value(#[trigger] t[i]) is Some by {}
    }
    assert(hex_decoded(t).unwrap() =~= data) by {
        assert forall|i: int| 0 <= i < data.len() implies hex_decoded(t).unwrap()[i] == data[i] by {
            let hi = data[i] as int / 16;
            let lo = data[i] as int % 16;
            assert(t[2 * i] == hex_digit(hi));
            assert(t[2 * i + 1] == hex_digit(lo));
        }
    }
}

/// Every byte of hexadecimal text is a digit or a letter from `a` to `f`.
pub proof fn lemma_hex_text_alphabet(data: Seq<u8>)
    ensures
        hex_text(data).len() == 2 * data.len(),
        forall|i: int|
            0 <= i < hex_text(data).len() ==> 48 <= (#[trigger] hex_text(data)[i]) && hex_text(
                data,
            )[i] <= 102,
{
    reveal(hex_text);
}

/// What is read from hexadecimal text is half as long as the text.
pub proof fn lemma_hex_decoded_len(text: Seq<u8>)
    ensures
        hex_decoded(text) matches Some(v) ==> 2 * v.len() == text.len(),
{
    reveal(hex_decoded);
}

/// The hexadecimal text of `data`, as a string.
pub fn encode_hex(data: &[u8]) -> (s: String)
    ensures
        s@ == hex_chars(data@),
        encode_utf8(s@) == hex_text(data@),
{
    proof {
        lemma_hex_chars_bytes(data@);
    }
    hex_encode(data)
}

/// Appends the hexadecimal text of `data`.
pub fn push_hex(out: &mut Vec<u8>, data: &[u8])
    ensures
        final(out)@ == old(out)@ + hex_text(data@),
{
    let s = encode_hex(data);
    crate::bytes::append(out, s.as_str().as_bytes());
}

/// The bytes that hexadecimal `text` writes.
pub fn decode_hex(text: &[u8]) -> (r: Option<Vec<u8>>)
    ensures
        match r {
            Some(v) => hex_decoded(text@) == Some(v@),
            None => hex_decoded(text@) is None,
        },
{
    hex_decode(text)
}

} // verus!

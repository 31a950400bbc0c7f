//! Text inside objects: UTF-8 strings and decimal numbers.

use crate::error::GitError;
use vstd::prelude::*;
use vstd::utf8::{decode_utf8, encode_utf8, valid_utf8};

verus! {

/// The text that `bytes` encode, where they are UTF-8.
pub open spec fn text_of(bytes: Seq<u8>) -> Result<Seq<char>, GitError> {
    if valid_utf8(bytes) {
        Ok(decode_utf8(bytes))
    } else {
        Err(GitError::InvalidUtf8)
    }
}

/// Bytes below 128 are valid UTF-8.
pub proof fn lemma_ascii_valid(bytes: Seq<u8>)
    requires
        forall|i: int| 0 <= i < bytes.len() ==> bytes[i] < 128,
    ensures
        valid_utf8(bytes),
{
    let chars = Seq::new(bytes.len(), |i: int| bytes[i] as char);
    assert(vstd::utf8::is_ascii_chars(chars));
    vstd::utf8::is_ascii_chars_encode_utf8(chars);
    assert(encode_utf8(chars) =~= bytes) by {
        assert forall|i: int| 0 <= i < bytes.len() implies encode_utf8(chars)[i] == bytes[i] by {
            assert(chars[i] as u8 == encode_utf8(chars)[i]);
        }
    }
    vstd::utf8::encode_utf8_valid_utf8(chars);
}

/// `String::from_utf8` of std: a string exactly when the bytes are valid
/// UTF-8, and then the string they encode.
#[verifier::external_body]
fn string_from_utf8(bytes: Vec<u8>) -> (r: Option<String>)
    ensures
        match r {
            Some(s) => valid_utf8(bytes@) && s@ == decode_utf8(bytes@),
            None => !valid_utf8(bytes@),
        },
{
    String::from_utf8(bytes).ok()
}

/// Turns bytes into the string they encode.
pub fn from_utf8_with_context(input: Vec<u8>) -> (r: Result<String, GitError>)
    ensures
        match text_of(input@) {
            Ok(chars) => r matches Ok(s) && s@ == chars,
            Err(e) => r == Err::<String, GitError>(e),
        },
{
    match string_from_utf8(input) {
        Some(s) => Ok(s),
        None => Err(GitError::InvalidUtf8),
    }
}

/// Whether `b` is an ASCII decimal digit.
pub open spec fn is_digit(b: u8) -> bool {
    48 <= b <= 57
}

/// Whether `s` holds decimal digits only.
pub open spec fn all_digits(s: Seq<u8>) -> bool {
    forall|i: int| 0 <= i < s.len() ==> is_digit(#[trigger] s[i])
}

/// The number that the digits of `s` write.
pub open spec fn digits_value(s: Seq<u8>) -> nat
    decreases s.len(),
{
    if s.len() == 0 {
        0
    } else {
        10 * digits_value(s.drop_last()) + (s.last() - 48) as nat
    }
}

/// The number that `s` writes, where `s` is one or more decimal digits.
pub open spec fn decimal_value(s: Seq<u8>) -> Option<nat> {
    if s.len() > 0 && all_digits(s) {
        Some(digits_value(s))
    } else {
        None
    }
}

/// The decimal digits of `n`, without leading zeros.
pub open spec fn decimal_text(n: nat) -> Seq<u8>
    decreases n,
{
    if n < 10 {
        seq![(48 + n) as u8]
    } else {
        decimal_text(n / 10).push((48 + n % 10) as u8)
    }
}

/// Reading the digits of a number gives the number back.
pub proof fn lemma_decimal_roundtrip(n: nat)
    ensures
        decimal_value(decimal_text(n)) == Some(n),
        all_digits(decimal_text(n)),
        decimal_text(n).len() > 0,
    decreases n,
{
    if n < 10 {
        let s = seq![(48 + n) as u8];
        assert(s.drop_last() =~= Seq::<u8>::empty());
        assert(digits_value(s.drop_last()) == 0);
    } else {
        lemma_decimal_roundtrip(n / 10);
        let p = decimal_text(n / 10);
        let s = p.push((48 + n % 10) as u8);
        assert(s.drop_last() =~= p);
        assert(all_digits(s)) by {
            assert forall|i: int| 0 <= i < s.len() implies is_digit(#[trigger] s[i]) by {
                if i < p.len() {
                    assert(s[i] == p[i]);
                }
            }
        }
    }
}

/// A prefix of digits writes no more than the whole.
pub proof fn lemma_digits_prefix(s: Seq<u8>, i: int)
    requires
        0 <= i <= s.len(),
        all_digits(s),
    ensures
        digits_value(s.take(i)) <= digits_value(s),
    decreases s.len() - i,
{
    if i < s.len() {
        lemma_digits_prefix(s, i + 1);
        assert(s.take(i + 1).drop_last() =~= s.take(i));
    } else {
        assert(s.take(i) =~= s);
    }
}

/// The number `text` writes, where it is decimal and fits 64 bits.
pub open spec fn spec_parse_u64(text: Seq<u8>) -> Result<u64, GitError> {
    match decimal_value(text) {
        Some(v) => if v <= u64::MAX {
            Ok(v as u64)
        } else {
            Err(GitError::InvalidNumber)
        },
        None => Err(GitError::InvalidNumber),
    }
}

/// Reads an unsigned decimal number.
pub fn parse_u64(text: &[u8]) -> (r: Result<u64, GitError>)
    ensures
        r == spec_parse_u64(text@),
{
    if text.len() == 0 {
        return Err(GitError::InvalidNumber);
    }
    let mut acc: u64 = 0;
    let mut i: usize = 0;
    assert(text@.take(0) =~= Seq::<u8>::empty());
    while i < text.len()
        invariant
            i <= text@.len(),
            all_digits(text@.take(i as int)),
            acc == digits_value(text@.take(i as int)),
        decreases text@.len() - i,
    {
        let b = text[i];
        if b < 48 || b > 57 {
            assert(!is_digit(text@[i as int]));
            return Err(GitError::InvalidNumber);
        }
        let d: u64 = (b - 48) as u64;
        proof {
            assert(text@.take(i + 1).drop_last() =~= text@.take(i as int));
            assert(text@.take(i + 1).last() == b);
            assert(all_digits(text@.take(i + 1))) by {
                assert forall|j: int| 0 <= j < i + 1 implies is_digit(
                    #[trigger] text@.take(i + 1)[j],
                ) by {
                    if j < i {
                        assert(text@.take(i as int)[j] == text@[j]);
                    }
                }
            }
            if all_digits(text@) {
                lemma_digits_prefix(text@, i + 1);
            }
        }
        if acc > (u64::MAX - d) / 10 {
            return Err(GitError::InvalidNumber);
        }
        acc = acc * 10 + d;
        i += 1;
    }
    assert(text@.take(i as int) =~= text@);
    Ok(acc)
}

/// Appends the decimal digits of `n`.
pub fn push_decimal(out: &mut Vec<u8>, n: u64)
    ensures
        final(out)@ == old(out)@ + decimal_text(n as nat),
    decreases n,
{
    if n >= 10 {
        push_decimal(out, n / 10);
    }
    let d: u8 = (n % 10) as u8;
    out.push(48 + d);
    proof {
        if n >= 10 {
            assert(out@ =~= old(out)@ + decimal_text(n as nat));
        } else {
            assert(out@ =~= old(out)@ + decimal_text(n as nat));
        }
    }
}

/// Values that are read from text.
pub trait FromText: Sized {
    /// The value that `text` writes, or why it writes none.
    spec fn spec_from_text(text: Seq<u8>) -> Result<Self, GitError>;

    /// Reads a value.
    fn from_text(text: &[u8]) -> (r: Result<Self, GitError>)
        ensures
            r == Self::spec_from_text(text@),
    ;
}

impl FromText for u64 {
    open spec fn spec_from_text(text: Seq<u8>) -> Result<u64, GitError> {
        spec_parse_u64(text)
    }

    fn from_text(text: &[u8]) -> (r: Result<u64, GitError>) {
        parse_u64(text)
    }
}

impl FromText for usize {
    open spec fn spec_from_text(text: Seq<u8>) -> Result<usize, GitError> {
        match spec_parse_u64(text) {
            Ok(v) => if v <= usize::MAX {
                Ok(v as usize)
            } else {
                Err(GitError::InvalidNumber)
            },
            Err(e) => Err(e),
        }
    }

    fn from_text(text: &[u8]) -> (r: Result<usize, GitError>) {
        match parse_u64(text) {
            Ok(v) => if v <= usize::MAX as u64 {
                Ok(v as usize)
            } else {
                Err(GitError::InvalidNumber)
            },
            Err(e) => Err(e),
        }
    }
}

/// Reads a value from a string.
pub fn parse_with_context<Output: FromText>(input: &str) -> (r: Result<Output, GitError>)
    ensures
        r == Output::spec_from_text(encode_utf8(input@)),
{
    Output::from_text(input.as_bytes())
}

/// Reads a value from bytes that must be UTF-8 text.
pub fn parse_bytes_with_context<Output: FromText>(input: Vec<u8>) -> (r: Result<Output, GitError>)
    ensures
        r == if valid_utf8(input@) {
            Output::spec_from_text(input@)
        } else {
            Err(GitError::InvalidUtf8)
        },
{
    let ghost bytes = input@;
    match from_utf8_with_context(input) {
        Ok(s) => {
            proof {
                vstd::utf8::decode_utf8_encode_utf8(bytes);
            }
            parse_with_context(s.as_str())
        },
        Err(e) => Err(e),
    }
}

} // verus!

use crate::error::GitError;
use crate::hexcode::{decode_hex, encode_hex, hex_chars, hex_decoded};
use sha::sha1::Sha1;
use sha::utils::Digest;
use vstd::prelude::*;
use vstd::std_specs::cmp::PartialEqSpecImpl;
use vstd::std_specs::convert::FromSpecImpl;

verus! {

/// The twenty-byte identity of an object.
#[derive(Debug, Clone, Copy, Eq, Hash)]
pub struct Sha(pub [u8; 20]);

impl View for Sha {
    type V = Seq<u8>;

    open spec fn view(&self) -> Seq<u8> {
        self.0@
    }
}

impl PartialEq for Sha {
    fn eq(&self, other: &Sha) -> (r: bool) {
        let mut i: usize = 0;
        while i < 20
            invariant
                i <= 20,
                forall|j: int| 0 <= j < i ==> self.0[j] == other.0[j],
            decreases 20 - i,
        {
            if self.0[i] != other.0[i] {
                return false;
            }
            i += 1;
        }
        assert(self.0@ =~= other.0@);
        true
    }
}

impl PartialEqSpecImpl for Sha {
    open spec fn obeys_eq_spec() -> bool {
        true
    }

    open spec fn eq_spec(&self, other: &Sha) -> bool {
        self@ == other@
    }
}

impl From<[u8; 20]> for Sha {
    fn from(value: [u8; 20]) -> (r: Sha) {
        Sha(value)
    }
}

impl FromSpecImpl<[u8; 20]> for Sha {
    open spec fn obeys_from_spec() -> bool {
        true
    }

    open spec fn from_spec(value: [u8; 20]) -> Sha {
        Sha(value)
    }
}

impl Sha {
    /// The twenty bytes, as a slice.
    pub fn as_ref(&self) -> (r: &[u8])
        ensures
            r@ == self@,
    {
        self.0.as_slice()
    }
}

/// The SHA-1 digest of `data`: twenty bytes.
pub uninterp spec fn sha1_of(data: Seq<u8>) -> Seq<u8>;

/// The longest input the digest routine takes: below 2^61 bytes, so that its
/// length in bits fits 64 bits.
pub open spec fn digest_limit() -> int {
    0x2000_0000_0000_0000
}

/// `Digest::digest` of `sha::sha1::Sha1`: the five words of the state after
/// `data`, each written most significant byte first.
#[verifier::external_body]
fn sha1_digest(data: &[u8]) -> (r: [u8; 20])
    requires
        data@.len() < digest_limit(),
    ensures
        r@ == sha1_of(data@),
{
    let words = Sha1::default().digest(data).0;
    let bytes: Vec<u8> = words.into_iter().flat_map(|v| v.to_be_bytes()).collect();
    bytes.try_into().unwrap()
}

/// The identity that `text` writes: forty hexadecimal digits.
pub open spec fn spec_from_hex(text: Seq<u8>) -> Result<Seq<u8>, GitError> {
    match hex_decoded(text) {
        None => Err(GitError::InvalidHex),
        Some(bytes) => if bytes.len() == 20 {
            Ok(bytes)
        } else {
            Err(GitError::WrongHashLength)
        },
    }
}

impl Sha {
    /// The digest of `data`, where it is short enough to digest.
    pub fn digest(data: &[u8]) -> (r: Result<Sha, GitError>)
        ensures
            data@.len() < digest_limit() ==> (r matches Ok(sha) && sha@ == sha1_of(data@)),
            data@.len() >= digest_limit() ==> r == Err::<Sha, GitError>(GitError::TooLarge),
    {
        if data.len() as u64 >= 0x2000_0000_0000_0000 {
            Err(GitError::TooLarge)
        } else {
            Ok(Sha(sha1_digest(data)))
        }
    }

    /// Forty lowercase hexadecimal digits.
    pub fn to_hex(&self) -> (s: String)
        ensures
            s@ == hex_chars(self@),
    {
        encode_hex(self.as_ref())
    }

    /// Reads forty hexadecimal digits.
    pub fn from_hex(text: &[u8]) -> (r: Result<Sha, GitError>)
        ensures
            match spec_from_hex(text@) {
                Ok(bytes) => r matches Ok(sha) && sha@ == bytes,
                Err(e) => r == Err::<Sha, GitError>(e),
            },
    {
        match decode_hex(text) {
            None => Err(GitError::InvalidHex),
            Some(bytes) => Sha::from_bytes(bytes.as_slice()),
        }
    }

    /// The identity made of `bytes`, where they are twenty.
    pub fn from_bytes(bytes: &[u8]) -> (r: Result<Sha, GitError>)
        ensures
            bytes@.len() == 20 ==> (r matches Ok(sha) && sha@ == bytes@),
            bytes@.len() != 20 ==> r == Err::<Sha, GitError>(GitError::WrongHashLength),
    {
        if bytes.len() != 20 {
            return Err(GitError::WrongHashLength);
        }
        let mut out = [0u8;20];
        let mut i: usize = 0;
        while i < 20
            invariant
                i <= 20,
                bytes@.len() == 20,
                forall|j: int| 0 <= j < i ==> out@[j] == bytes@[j],
            decreases 20 - i,
        {
            out[i] = bytes[i];
            i += 1;
        }
        assert(out@ =~= bytes@);
        Ok(Sha(out))
    }
}

/// Two identities with the same bytes are the same identity.
pub proof fn lemma_sha_ext(a: Sha, b: Sha)
    requires
        a@ == b@,
    ensures
        a == b,
{
    assert(a.0 =~= b.0);
}

} // verus!

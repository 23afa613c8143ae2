//! SHA-1 digests and their canonical Base32 text form.
//!
//! The CDX index provides a digest for each page in its search results. In
//! most cases these are Base32-encoded SHA-1 digests, but some use unknown
//! encodings, so [`Digest`] keeps malformed digest text losslessly instead of
//! failing.

use crate::base32::{base32_chars, base32_decoded, base32_decode, base32_encode};
use crate::text::{chars_to_string, str_to_chars};
use vstd::prelude::*;

verus! {

/// The SHA-1 digest of a byte sequence.
///
/// The function itself is left uninterpreted: the library relies on the
/// `sha1` crate to compute it, and states only that the result depends on the
/// input bytes alone.
pub uninterp spec fn sha1_of(bytes: Seq<u8>) -> Seq<u8>;

/// Relies on `sha1::Sha1` (the RustCrypto SHA-1 implementation): the 20-byte
/// digest of the input, a function of the input bytes alone.
#[verifier::external_body]
fn sha1_digest_bytes(bytes: &[u8]) -> (r: [u8; 20])
    ensures
        r@ == sha1_of(bytes@),
{
    let out = <sha1::Sha1 as sha1::Digest>::digest(bytes);
    out.into()
}

/// Errors of digest parsing.
#[derive(Clone, Debug, PartialEq, Eq)]
pub enum Error {
    /// Digest text whose length is not 32, with the text.
    InvalidLength(String),
    /// 32-character digest text with a character outside the Base32 alphabet,
    /// with the text.
    InvalidCharacter(String),
    /// A byte string of a length other than 20.
    InvalidBytesLength(Vec<u8>),
}

/// A 20-byte SHA-1 digest value, ordered byte-lexicographically.
#[derive(Clone, Copy, Debug, PartialEq, Eq, PartialOrd, Ord, Hash)]
pub struct Sha1Digest(pub [u8; 20]);

impl View for Sha1Digest {
    type V = Seq<u8>;

    open spec fn view(&self) -> Seq<u8> {
        self.0@
    }
}

/// Byte-lexicographic strict order on 20-byte digests.
pub open spec fn digest_lt(a: Seq<u8>, b: Seq<u8>) -> bool {
    exists|i: int|
        0 <= i < 20 && a[i] < b[i] && (forall|j: int| 0 <= j < i ==> a[j] == b[j])
}

impl Sha1Digest {
    /// The smallest digest value, a scan and merge bound.
    pub fn min_value() -> (r: Sha1Digest)
        ensures
            r@ =~= Seq::new(20, |i: int| 0u8),
    {
        Sha1Digest([0u8; 20])
    }

    /// The largest digest value, a scan and merge bound.
    pub fn max_value() -> (r: Sha1Digest)
        ensures
            r@ =~= Seq::new(20, |i: int| 255u8),
    {
        Sha1Digest([255u8; 20])
    }

    /// The canonical 32-character Base32 text of the digest.
    pub fn to_display_string(&self) -> (r: String)
        ensures
            r@ == base32_chars(self@),
            r@.len() == 32,
    {
        let chars = base32_encode(&self.0);
        chars_to_string(&chars)
    }

    /// Parses the canonical 32-character Base32 text form.
    pub fn parse_str(input: &str) -> (r: Result<Sha1Digest, Error>)
        ensures
            match r {
                Ok(d) => base32_decoded(input@) == Some(d@),
                Err(Error::InvalidLength(s)) => s@ == input@ && input@.len() != 32,
                Err(Error::InvalidCharacter(s)) => s@ == input@ && input@.len() == 32
                    && base32_decoded(input@) is None,
                Err(_) => false,
            },
    {
        let chars = str_to_chars(input);
        if chars.len() != 32 {
            return Err(Error::InvalidLength(input.to_owned()));
        }
        match base32_decode(&chars) {
            Some(bytes) => Ok(Sha1Digest(bytes)),
            None => Err(Error::InvalidCharacter(input.to_owned())),
        }
    }

    /// Copies a 20-byte slice into a digest value.
    pub fn from_bytes(value: &[u8]) -> (r: Result<Sha1Digest, Error>)
        ensures
            match r {
                Ok(d) => value@.len() == 20 && d@ == value@,
                Err(Error::InvalidBytesLength(v)) => v@ == value@ && value@.len() != 20,
                Err(_) => false,
            },
    {
        if value.len() != 20 {
            let mut copy: Vec<u8> = Vec::new();
            let mut i: usize = 0;
            while i < value.len()
                invariant
                    i <= value@.len(),
                    copy@ == value@.subrange(0, i as int),
                decreases value@.len() - i,
            {
                copy.push(value[i]);
                assert(value@.subrange(0, i as int).push(value@[i as int]) =~= value@.subrange(
                    0,
                    i + 1 as int,
                ));
                i += 1;
            }
            assert(copy@ =~= value@);
            return Err(Error::InvalidBytesLength(copy));
        }
        let mut bytes: [u8; 20] = [0u8; 20];
        let mut i: usize = 0;
        while i < 20
            invariant
                i <= 20,
                value@.len() == 20,
                forall|j: int| 0 <= j < i ==> bytes@[j] == value@[j],
            decreases 20 - i,
        {
            bytes[i] = value[i];
            i += 1;
        }
        assert(bytes@ =~= value@);
        Ok(Sha1Digest(bytes))
    }

    /// Whether the digests are equal.
    pub fn equals(&self, other: &Sha1Digest) -> (r: bool)
        ensures
            r == (self@ == other@),
    {
        let mut i: usize = 0;
        while i < 20
            invariant
                i <= 20,
                forall|j: int| 0 <= j < i ==> self@[j] == other@[j],
            decreases 20 - i,
        {
            if self.0[i] != other.0[i] {
                assert(self@[i as int] != other@[i as int]);
                return false;
            }
            i += 1;
        }
        assert(self@ =~= other@);
        true
    }

    /// Whether `self` is strictly below `other` in byte-lexicographic order.
    pub fn lt(&self, other: &Sha1Digest) -> (r: bool)
        ensures
            r == digest_lt(self@, other@),
    {
        let mut i: usize = 0;
        while i < 20
            invariant
                i <= 20,
                forall|j: int| 0 <= j < i ==> self@[j] == other@[j],
        decreases 20 - i,
        {
            if self.0[i] < other.0[i] {
                assert(digest_lt(self@, other@));
                return true;
            }
            if self.0[i] > other.0[i] {
                proof {
                    if digest_lt(self@, other@) {
                        let k = choose|k: int|
                            0 <= k < 20 && self@[k] < other@[k] && (forall|j: int|
                                0 <= j < k ==> self@[j] == other@[j]);
                        if k < i {
                            assert(self@[k] == other@[k]);
                        } else if k > i {
                            assert(self@[i as int] == other@[i as int]);
                        }
                        assert(false);
                    }
                }
                return false;
            }
            i += 1;
        }
        assert(!digest_lt(self@, other@));
        false
    }
}

/// The value of a digest column: either a well-formed SHA-1 digest or the
/// verbatim text of one that is not, kept losslessly.
#[derive(Clone, Debug, PartialEq, Eq, PartialOrd, Ord, Hash)]
pub enum Digest {
    Valid(Sha1Digest),
    Invalid(String),
}

/// The mathematical value of a [`Digest`].
pub enum DigestModel {
    Valid(Seq<u8>),
    Invalid(Seq<char>),
}

impl View for Digest {
    type V = DigestModel;

    open spec fn view(&self) -> DigestModel {
        match self {
            Digest::Valid(d) => DigestModel::Valid(d@),
            Digest::Invalid(s) => DigestModel::Invalid(s@),
        }
    }
}

/// The digest denoted by a digest column's text: 32 characters of Base32
/// decode to a valid digest; anything else is kept as invalid text.
pub open spec fn digest_of_text(s: Seq<char>) -> DigestModel {
    match base32_decoded(s) {
        Some(b) => DigestModel::Valid(b),
        None => DigestModel::Invalid(s),
    }
}

impl Digest {
    /// The digest value, when the text was well-formed.
    pub fn valid(&self) -> (r: Option<Sha1Digest>)
        ensures
            match r {
                Some(d) => self@ matches DigestModel::Valid(b) && b == d@,
                None => self@ is Invalid,
            },
    {
        match self {
            Digest::Valid(digest) => Some(*digest),
            Digest::Invalid(_) => None,
        }
    }

    /// The verbatim text, when the text was not a well-formed digest.
    pub fn invalid(&self) -> (r: Option<&str>)
        ensures
            match r {
                Some(s) => self@ matches DigestModel::Invalid(t) && t == s@,
                None => self@ is Valid,
            },
    {
        match self {
            Digest::Valid(_) => None,
            Digest::Invalid(digest) => Some(digest.as_str()),
        }
    }

    /// Whether the text was a well-formed digest.
    pub fn is_valid(&self) -> (r: bool)
        ensures
            r == (self@ is Valid),
    {
        match self {
            Digest::Valid(_) => true,
            Digest::Invalid(_) => false,
        }
    }

    /// Parses a digest column's text. Malformed digests are expected noise in
    /// real index data, so they are kept, never rejected.
    pub fn parse_str(input: &str) -> (r: Digest)
        ensures
            r@ == digest_of_text(input@),
    {
        let chars = str_to_chars(input);
        if chars.len() != 32 {
            return Digest::Invalid(input.to_owned());
        }
        match base32_decode(&chars) {
            Some(bytes) => Digest::Valid(Sha1Digest(bytes)),
            None => Digest::Invalid(input.to_owned()),
        }
    }

    /// The canonical text: the Base32 form of a valid digest, or the verbatim
    /// invalid text. Round-trips exactly for both variants.
    pub fn to_display_string(&self) -> (r: String)
        ensures
            match self@ {
                DigestModel::Valid(b) => r@ == base32_chars(b),
                DigestModel::Invalid(s) => r@ == s,
            },
    {
        match self {
            Digest::Valid(digest) => digest.to_display_string(),
            Digest::Invalid(text) => text.clone(),
        }
    }

    /// The value as an owned record; ownership is already plain here, so
    /// this is the value itself.
    pub fn into_owned(self) -> (r: Digest)
        ensures
            r@ == self@,
    {
        self
    }

    /// The digest value, or the result of `op` on the invalid text.
    pub fn map_err<E, F: FnOnce(&str) -> E>(&self, op: F) -> (r: Result<Sha1Digest, E>)
        requires
            forall|s: &str| self@ matches DigestModel::Invalid(t) && s@ == t ==> op.requires((s,)),
        ensures
            match self@ {
                DigestModel::Valid(b) => r matches Ok(d) && d@ == b,
                DigestModel::Invalid(t) => r matches Err(e) && exists|s: &str|
                    s@ == t && op.ensures((s,), e),
            },
    {
        match self {
            Digest::Valid(digest) => Ok(*digest),
            Digest::Invalid(digest) => Err(op(digest.as_str())),
        }
    }
}

/// A strictly smaller digest is a different digest.
pub proof fn lemma_digest_lt_neq(a: Seq<u8>, b: Seq<u8>)
    requires
        digest_lt(a, b),
    ensures
        a != b,
{
    let i = choose|i: int|
        0 <= i < 20 && a[i] < b[i] && (forall|j: int| 0 <= j < i ==> a[j] == b[j]);
    assert(a[i] != b[i]);
}

/// Byte-lexicographic order on digests is transitive.
pub proof fn lemma_digest_lt_trans(a: Seq<u8>, b: Seq<u8>, c: Seq<u8>)
    requires
        digest_lt(a, b),
        digest_lt(b, c),
    ensures
        digest_lt(a, c),
{
    let i1 = choose|i: int|
        0 <= i < 20 && a[i] < b[i] && (forall|j: int| 0 <= j < i ==> a[j] == b[j]);
    let i2 = choose|i: int|
        0 <= i < 20 && b[i] < c[i] && (forall|j: int| 0 <= j < i ==> b[j] == c[j]);
    if i1 < i2 {
        assert(a[i1] < c[i1] && (forall|j: int| 0 <= j < i1 ==> a[j] == c[j]));
    } else if i2 < i1 {
        assert(a[i2] < c[i2] && (forall|j: int| 0 <= j < i2 ==> a[j] == c[j]));
    } else {
        assert(a[i1] < c[i1] && (forall|j: int| 0 <= j < i1 ==> a[j] == c[j]));
    }
}

/// Parsing the text of any digest gives the digest back.
///
/// Together with the canonicity of the Base32 text form this is the digest
/// text round trip: valid digests re-stringify to their 32-character form and
/// parse back to the same value, and invalid text is kept verbatim.
pub proof fn lemma_digest_text_round_trip(d: Seq<u8>)
    requires
        d.len() == 20,
    ensures
        digest_of_text(base32_chars(d)) == DigestModel::Valid(d),
{
    crate::base32::lemma_base32_round_trip(d);
}

/// Computes SHA-1 digests over in-memory byte strings.
///
/// A shared, lock-guarded resettable hashing context would only be a
/// convenience pool; this computer obtains a fresh context for each call, so
/// two concurrent computations can never observe each other's partial state.
#[derive(Clone)]
pub struct Sha1Computer {
}

impl Sha1Computer {
    /// The digest of `input`, through a one-off computer.
    pub fn compute_digest(input: &[u8]) -> (r: Sha1Digest)
        ensures
            r@ == sha1_of(input@),
    {
        Sha1Computer {  }.digest(input)
    }

    /// The raw digest bytes of `input`.
    pub fn digest_bytes(&self, input: &[u8]) -> (r: [u8; 20])
        ensures
            r@ == sha1_of(input@),
    {
        sha1_digest_bytes(input)
    }

    /// The digest of `input`.
    pub fn digest(&self, input: &[u8]) -> (r: Sha1Digest)
        ensures
            r@ == sha1_of(input@),
    {
        Sha1Digest(self.digest_bytes(input))
    }

    /// The digest of `input`, encoded as its Base32 text.
    pub fn digest_base32(&self, input: &[u8]) -> (r: String)
        ensures
            r@ == base32_chars(sha1_of(input@)),
    {
        let bytes = self.digest_bytes(input);
        let chars = base32_encode(&bytes);
        chars_to_string(&chars)
    }
}

impl Default for Sha1Computer {
    fn default() -> (r: Sha1Computer) {
        Sha1Computer {  }
    }
}

} // verus!

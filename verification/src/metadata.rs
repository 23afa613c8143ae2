//! Per-digest capture metadata recovered from index rows, used to enhance
//! stored snapshot lines with timestamps and URLs.

use crate::digest::Sha1Digest;
use crate::text::{chars_to_string, chars_have_at, push_chars, str_to_chars, has_at};
use crate::timestamp::Timestamp;
use vstd::prelude::*;

verus! {

/// Capture metadata for one digest: the capture timestamp, an optional
/// corrected digest, and the captured URL where it cannot be inferred.
#[derive(Clone, Debug, PartialEq, Eq)]
pub struct Metadata {
    pub expected_digest: Option<Sha1Digest>,
    pub timestamp: Timestamp,
    pub url_path: Option<String>,
}

/// The stored URL path for a captured URL: a site-local path when the URL is
/// on the expected host, dropped entirely when it matches the inferred path,
/// and the verbatim URL otherwise.
pub open spec fn url_path_of(url: Seq<char>, inferred: Option<Seq<char>>) -> Option<Seq<char>> {
    if has_at(url, 0, "https://twitter.com"@) {
        let path = url.skip("https://twitter.com"@.len() as int);
        if inferred == Some(path) {
            None
        } else {
            Some(path)
        }
    } else {
        Some(url)
    }
}

/// The full URL denoted by a stored path: kept verbatim when it is already a
/// URL, else prefixed with the expected host.
pub open spec fn url_of_path(path: Seq<char>) -> Seq<char> {
    if has_at(path, 0, "https:"@) {
        path
    } else {
        "https://twitter.com"@ + path
    }
}

impl Metadata {
    /// Builds metadata for a capture, dropping the URL path when the inferred
    /// path already matches.
    pub fn new(timestamp: Timestamp, url: &str, inferred_url_path: Option<&str>) -> (r: Metadata)
        ensures
            r.expected_digest is None,
            r.timestamp == timestamp,
            (match r.url_path {
                Some(p) => url_path_of(
                    url@,
                    match inferred_url_path {
                        Some(q) => Some(q@),
                        None => None,
                    },
                ) == Some(p@),
                None => url_path_of(
                    url@,
                    match inferred_url_path {
                        Some(q) => Some(q@),
                        None => None,
                    },
                ) is None,
            }),
    {
        let chars = str_to_chars(url);
        let prefix = str_to_chars("https://twitter.com");
        proof {
            reveal_strlit("https://twitter.com");
        }
        let url_path: Option<String> = if chars_have_at(&chars, 0, &prefix) {
            let path_chars = crate::text::chars_slice(&chars, prefix.len(), chars.len());
            let matches_inferred = match inferred_url_path {
                Some(inferred) => {
                    let inferred_chars = str_to_chars(inferred);
                    crate::text::chars_eq(&path_chars, &inferred_chars)
                },
                None => false,
            };
            if matches_inferred {
                None
            } else {
                Some(chars_to_string(&path_chars))
            }
        } else {
            Some(url.to_owned())
        };
        Metadata { expected_digest: None, timestamp, url_path }
    }

    /// The same metadata with a corrected digest recorded.
    pub fn with_expected_digest(self, expected_digest: Sha1Digest) -> (r: Metadata)
        ensures
            r.expected_digest == Some(expected_digest),
            r.timestamp == self.timestamp,
            r.url_path == self.url_path,
    {
        Metadata { expected_digest: Some(expected_digest), ..self }
    }

    /// The captured URL, when one is recorded.
    pub fn url(&self) -> (r: Option<String>)
        ensures
            match (&r, &self.url_path) {
                (Some(u), Some(p)) => u@ == url_of_path(p@),
                (None, None) => true,
                _ => false,
            },
    {
        match &self.url_path {
            Some(path) => {
                let chars = str_to_chars(path.as_str());
                let prefix = str_to_chars("https:");
                proof {
                    reveal_strlit("https:");
                }
                if chars_have_at(&chars, 0, &prefix) {
                    Some(path.clone())
                } else {
                    let mut out: Vec<char> = Vec::new();
                    push_chars(&mut out, "https://twitter.com");
                    push_chars(&mut out, path.as_str());
                    proof {
                        assert(out@ =~= "https://twitter.com"@ + path@);
                    }
                    Some(chars_to_string(&out))
                }
            },
            None => None,
        }
    }
}

} // verus!

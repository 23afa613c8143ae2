//! Wayback item URLs: the captured URL and its timestamp, and the rendered
//! archive URL form.

use crate::digest::Digest;
use crate::text::{chars_to_string, digit_to_char, has_at, chars_have_at, push_chars,
    str_to_chars};
use crate::timestamp::{timestamp_at_chars, parse_timestamp_chars, Timestamp};
use vstd::prelude::*;

verus! {

/// Errors of wayback URL parsing.
#[derive(Clone, Debug, PartialEq, Eq)]
pub enum Error {
    /// Text that does not match the wayback URL form, with the text.
    InvalidUrl(String),
    /// A timestamp part that is not a valid date and time, with the text.
    InvalidTimestamp(String),
}

/// A captured URL and the capture's timestamp.
#[derive(Clone, Debug, PartialEq, Eq, PartialOrd, Ord, Hash)]
pub struct UrlParts {
    pub url: String,
    pub timestamp: Timestamp,
}

/// The mathematical value of a [`UrlParts`].
#[verifier::ext_equal]
pub struct UrlPartsModel {
    pub url: Seq<char>,
    pub timestamp: Timestamp,
}

impl View for UrlParts {
    type V = UrlPartsModel;

    open spec fn view(&self) -> UrlPartsModel {
        UrlPartsModel { url: self.url@, timestamp: self.timestamp }
    }
}

/// The text of a wayback URL: the scheme, the archive host and timestamp, an
/// `id_` marker for the original bytes, and the captured URL.
pub open spec fn wb_url_chars(m: UrlPartsModel, https: bool, original: bool) -> Seq<char> {
    (if https {
        "https"@
    } else {
        "http"@
    }) + "://web.archive.org/web/"@ + m.timestamp.chars() + (if original {
        "id_"@
    } else {
        Seq::empty()
    }) + seq!['/'] + m.url
}

/// The outcome of scanning a wayback URL: the parts, a timestamp part that is
/// not a valid date and time, or no match at all.
pub enum WbUrlOutcome {
    Parts(UrlPartsModel),
    BadTimestamp,
    NoMatch,
}

/// The wayback URL grammar: `http`, an optional `s` (with an optional stray
/// colon before it), `://web.archive.org/web/`, fourteen digits, an optional
/// `id_`, a slash, and a nonempty captured URL.
pub open spec fn wb_url_of_chars(s: Seq<char>) -> WbUrlOutcome {
    if !has_at(s, 0, "http"@) {
        WbUrlOutcome::NoMatch
    } else {
        let p = if has_at(s, 4, ":s"@) {
            6
        } else if has_at(s, 4, "s"@) {
            5
        } else {
            4int
        };
        if !has_at(s, p, "://web.archive.org/web/"@) {
            WbUrlOutcome::NoMatch
        } else {
            let q = p + 23;
            if q + 14 > s.len() {
                WbUrlOutcome::NoMatch
            } else {
                let r = q + 14;
                let after = if has_at(s, r, "id_"@) {
                    r + 3
                } else {
                    r
                };
                if !(after < s.len() && s[after] == '/' && after + 1 < s.len()) {
                    WbUrlOutcome::NoMatch
                } else {
                    match timestamp_at_chars(s, q) {
                        None => WbUrlOutcome::BadTimestamp,
                        Some(t) => WbUrlOutcome::Parts(
                            UrlPartsModel {
                                url: s.subrange(after + 1, s.len() as int),
                                timestamp: t,
                            },
                        ),
                    }
                }
            }
        }
    }
}

impl UrlParts {
    /// Builds the parts from a captured URL and a timestamp.
    pub fn new(url: String, timestamp: Timestamp) -> (r: UrlParts)
        ensures
            r@.url == url@,
            r@.timestamp == timestamp,
    {
        UrlParts { url, timestamp }
    }

    /// The wayback URL of the parts.
    pub fn to_wb_url(&self, https: bool, original: bool) -> (r: String)
        requires
            self@.timestamp.wf(),
        ensures
            r@ == wb_url_chars(self@, https, original),
    {
        let mut out: Vec<char> = Vec::new();
        if https {
            push_chars(&mut out, "https");
        } else {
            push_chars(&mut out, "http");
        }
        push_chars(&mut out, "://web.archive.org/web/");
        let ts = self.timestamp.to_display_string();
        push_chars(&mut out, ts.as_str());
        if original {
            push_chars(&mut out, "id_");
        }
        out.push('/');
        push_chars(&mut out, self.url.as_str());
        proof {
            assert(out@ =~= wb_url_chars(self@, https, original));
        }
        chars_to_string(&out)
    }

    /// Parses a wayback URL into its parts.
    pub fn parse_str(input: &str) -> (r: Result<UrlParts, Error>)
        ensures
            match r {
                Ok(parts) => wb_url_of_chars(input@) == WbUrlOutcome::Parts(parts@),
                Err(Error::InvalidUrl(t)) => t@ == input@ && wb_url_of_chars(input@) is NoMatch,
                Err(Error::InvalidTimestamp(t)) => t@ == input@ && wb_url_of_chars(
                    input@,
                ) is BadTimestamp,
            },
    {
        let s = str_to_chars(input);
        let n = s.len();
        let http = str_to_chars("http");
        let colon_s = str_to_chars(":s");
        let just_s = str_to_chars("s");
        let host = str_to_chars("://web.archive.org/web/");
        let id_marker = str_to_chars("id_");
        proof {
            reveal_strlit("http");
            reveal_strlit(":s");
            reveal_strlit("s");
            reveal_strlit("://web.archive.org/web/");
            reveal_strlit("id_");
        }
        if !chars_have_at(&s, 0, &http) {
            return Err(Error::InvalidUrl(input.to_owned()));
        }
        let p: usize = if chars_have_at(&s, 4, &colon_s) {
            6
        } else if chars_have_at(&s, 4, &just_s) {
            5
        } else {
            4
        };
        if !chars_have_at(&s, p, &host) {
            return Err(Error::InvalidUrl(input.to_owned()));
        }
        let q = p + 23;
        if n - q < 14 {
            return Err(Error::InvalidUrl(input.to_owned()));
        }
        let r = q + 14;
        let after: usize = if chars_have_at(&s, r, &id_marker) {
            r + 3
        } else {
            r
        };
        if !(after < n && s[after] == '/' && after + 1 < n) {
            return Err(Error::InvalidUrl(input.to_owned()));
        }
        let t = match parse_timestamp_chars(&s, q) {
            Some(t) => t,
            None => {
                return Err(Error::InvalidTimestamp(input.to_owned()));
            },
        };
        let url_chars = crate::text::chars_slice(&s, after + 1, n);
        Ok(UrlParts { url: chars_to_string(&url_chars), timestamp: t })
    }
}

/// The identity of a captured item: its URL parts and the digest the index
/// claims for it.
#[derive(Clone, Debug, PartialEq, Eq, PartialOrd, Ord, Hash)]
pub struct ItemInfo {
    pub url_parts: UrlParts,
    pub expected_digest: Digest,
}

} // verus!

//! The digest-stable snapshot line codec.
//!
//! A snapshot line is a fixed-schema, hand-scanned record, JSON-like in
//! surface syntax but defined by literal field order: `digest`, then
//! optionally `expected_digest`, `closing_whitespace`, `timestamp`, `url`
//! (each only if present, in this order), then mandatory `content`. The
//! content's characters are copied verbatim on encode and decode, never
//! re-serialized through a generic JSON writer, because the record's digest
//! is defined over those exact bytes.

use crate::base32::{base32_chars, base32_decoded, base32_decode, base32_encode};
use crate::digest::{sha1_of, Sha1Computer, Sha1Digest};
use crate::text::{chars_to_string, has_at, chars_have_at, is_digit, str_to_chars};
use crate::timestamp::{timestamp_at_chars, parse_timestamp_chars, Timestamp};
use vstd::prelude::*;
use vstd::string::StrSliceExecFns;

verus! {

/// Errors of line parsing.
#[derive(Clone, Debug, PartialEq, Eq)]
pub enum Error {
    /// A line that does not match the record grammar.
    InvalidLine,
    /// Escaped closing whitespace holding an escape other than `\n` or `\r`,
    /// with the text.
    InvalidClosingWhitespace(String),
}

/// A snapshot line record.
///
/// `digest` is always the SHA-1 of `content` followed by the whitespace
/// trailer: the recorded `closing_whitespace`, or the default `\r\r\n` when
/// none is recorded.
#[derive(Clone, Debug, PartialEq, Eq)]
pub struct SnapshotLine {
    pub digest: Sha1Digest,
    pub expected_digest: Option<Sha1Digest>,
    pub closing_whitespace: Option<Vec<char>>,
    pub timestamp: Option<Timestamp>,
    pub url: Option<String>,
    pub content: String,
}

/// The mathematical value of a [`SnapshotLine`].
#[verifier::ext_equal]
pub struct LineModel {
    pub digest: Seq<u8>,
    pub expected_digest: Option<Seq<u8>>,
    pub closing_whitespace: Option<Seq<char>>,
    pub timestamp: Option<Timestamp>,
    pub url: Option<Seq<char>>,
    pub content: Seq<char>,
}

impl View for SnapshotLine {
    type V = LineModel;

    open spec fn view(&self) -> LineModel {
        LineModel {
            digest: self.digest@,
            expected_digest: match self.expected_digest {
                Some(d) => Some(d@),
                None => None,
            },
            closing_whitespace: match self.closing_whitespace {
                Some(w) => Some(w@),
                None => None,
            },
            timestamp: self.timestamp,
            url: match self.url {
                Some(u) => Some(u@),
                None => None,
            },
            content: self.content@,
        }
    }
}

/// Whether `c` is a carriage return or line feed.
pub open spec fn is_crlf(c: char) -> bool {
    c == '\r' || c == '\n'
}

/// Whether every character is a carriage return or line feed.
pub open spec fn all_crlf_seq(w: Seq<char>) -> bool {
    forall|i: int| 0 <= i < w.len() ==> is_crlf(#[trigger] w[i])
}

/// Whether no character is a double quote.
pub open spec fn no_quote_seq(u: Seq<char>) -> bool {
    forall|i: int| 0 <= i < u.len() ==> #[trigger] u[i] != '"'
}

impl LineModel {
    /// Well-formed record values: the fields a parse can produce.
    pub open spec fn wf(&self) -> bool {
        &&& self.digest.len() == 20
        &&& match self.expected_digest {
            Some(d) => d.len() == 20,
            None => true,
        }
        &&& match self.closing_whitespace {
            Some(w) => all_crlf_seq(w),
            None => true,
        }
        &&& match self.timestamp {
            Some(t) => t.wf(),
            None => true,
        }
        &&& match self.url {
            Some(u) => no_quote_seq(u),
            None => true,
        }
    }
}

/// The opening literal up to the first digest character.
pub open spec fn digest_prefix() -> Seq<char> {
    "{\"digest\":\""@
}

/// The `expected_digest` key with its closing quote, colon and opening quote.
pub open spec fn expected_digest_key() -> Seq<char> {
    "expected_digest\":\""@
}

/// The `closing_whitespace` key with its closing quote, colon and opening
/// quote.
pub open spec fn closing_whitespace_key() -> Seq<char> {
    "closing_whitespace\":\""@
}

/// The `timestamp` key with its closing quote, colon and opening quote.
pub open spec fn timestamp_key() -> Seq<char> {
    "timestamp\":\""@
}

/// The `url` key with its closing quote, colon and opening quote.
pub open spec fn url_key() -> Seq<char> {
    "url\":\""@
}

/// The `content` key with its closing quote and colon; the value follows
/// unquoted.
pub open spec fn content_key() -> Seq<char> {
    "content\":"@
}

/// The separator after a quoted value: its closing quote, a comma, and the
/// opening quote of the next key.
pub open spec fn field_sep() -> Seq<char> {
    "\",\""@
}

/// Makes the line literals' characters and lengths available to a proof.
pub proof fn reveal_line_literals()
    ensures
        digest_prefix().len() == 11,
        expected_digest_key().len() == 18,
        closing_whitespace_key().len() == 21,
        timestamp_key().len() == 12,
        url_key().len() == 6,
        content_key().len() == 9,
        field_sep().len() == 3,
        digest_prefix()[0] == '{',
        expected_digest_key()[0] == 'e',
        closing_whitespace_key()[0] == 'c',
        closing_whitespace_key()[1] == 'l',
        timestamp_key()[0] == 't',
        url_key()[0] == 'u',
        content_key()[0] == 'c',
        content_key()[1] == 'o',
        field_sep()[0] == '"',
        field_sep()[1] == ',',
        field_sep()[2] == '"',
{
    reveal_strlit("{\"digest\":\"");
    reveal_strlit("expected_digest\":\"");
    reveal_strlit("closing_whitespace\":\"");
    reveal_strlit("timestamp\":\"");
    reveal_strlit("url\":\"");
    reveal_strlit("content\":");
    reveal_strlit("\",\"");
}

/// The escaped text of closing whitespace: `\n` and `\r`, two characters each.
pub open spec fn escape_ws(w: Seq<char>) -> Seq<char>
    decreases w.len(),
{
    if w.len() == 0 {
        Seq::empty()
    } else {
        (if w[0] == '\n' {
            seq!['\\', 'n']
        } else {
            seq!['\\', 'r']
        }) + escape_ws(w.drop_first())
    }
}

/// The serialized text of a record: the digest field, then the optional
/// fields' tail.
pub open spec fn render_spec(m: LineModel) -> Seq<char> {
    digest_prefix() + base32_chars(m.digest) + field_sep() + tail_expected(m)
}

/// The serialized text from the `expected_digest` field on.
pub open spec fn tail_expected(m: LineModel) -> Seq<char> {
    match m.expected_digest {
        Some(d) => expected_digest_key() + base32_chars(d) + field_sep() + tail_closing(m),
        None => tail_closing(m),
    }
}

/// The serialized text from the `closing_whitespace` field on.
pub open spec fn tail_closing(m: LineModel) -> Seq<char> {
    match m.closing_whitespace {
        Some(w) => closing_whitespace_key() + escape_ws(w) + field_sep() + tail_timestamp(m),
        None => tail_timestamp(m),
    }
}

/// The serialized text from the `timestamp` field on.
pub open spec fn tail_timestamp(m: LineModel) -> Seq<char> {
    match m.timestamp {
        Some(t) => timestamp_key() + t.chars() + field_sep() + tail_url(m),
        None => tail_url(m),
    }
}

/// The serialized text from the `url` field on.
pub open spec fn tail_url(m: LineModel) -> Seq<char> {
    match m.url {
        Some(u) => url_key() + u + field_sep() + tail_content(m),
        None => tail_content(m),
    }
}

/// The serialized text of the mandatory `content` field.
pub open spec fn tail_content(m: LineModel) -> Seq<char> {
    content_key() + m.content + seq!['}']
}

/// Scans escaped whitespace from `p` to an unescaped closing quote: the
/// decoded whitespace characters and the position after the quote, or `None`
/// on any other escape or a missing quote.
pub open spec fn scan_escaped_ws(s: Seq<char>, p: int) -> Option<(Seq<char>, int)>
    decreases s.len() - p,
{
    if p < 0 || p >= s.len() {
        None
    } else if s[p] == '"' {
        Some((Seq::empty(), p + 1))
    } else if s[p] == '\\' && p + 1 < s.len() && (s[p + 1] == 'n' || s[p + 1] == 'r') {
        match scan_escaped_ws(s, p + 2) {
            Some((w, q)) => Some(
                (seq![
                    if s[p + 1] == 'n' {
                        '\n'
                    } else {
                        '\r'
                    },
                ] + w, q),
            ),
            None => None,
        }
    } else {
        None
    }
}

/// Scans from `p` to the next quote: the characters before it and the
/// position after it, or `None` when no quote follows.
pub open spec fn scan_until_quote(s: Seq<char>, p: int) -> Option<(Seq<char>, int)>
    decreases s.len() - p,
{
    if p < 0 || p >= s.len() {
        None
    } else if s[p] == '"' {
        Some((Seq::empty(), p + 1))
    } else {
        match scan_until_quote(s, p + 1) {
            Some((u, q)) => Some((seq![s[p]] + u, q)),
            None => None,
        }
    }
}

/// The record denoted by a line's text, scanned by the fixed field grammar.
pub open spec fn parse_spec(s: Seq<char>) -> Option<LineModel> {
    if !has_at(s, 0, digest_prefix()) || s.len() < 46 {
        None
    } else {
        match base32_decoded(s.subrange(11, 43)) {
            None => None,
            Some(digest) => {
                if !has_at(s, 43, field_sep()) {
                    None
                } else {
                    parse_expected_at(s, 46, digest)
                }
            },
        }
    }
}

/// Stage of [`parse_spec`] at the `expected_digest` field.
pub open spec fn parse_expected_at(s: Seq<char>, p: int, digest: Seq<u8>) -> Option<LineModel> {
    if has_at(s, p, expected_digest_key()) {
        let q = p + 18;
        if q + 35 > s.len() {
            None
        } else {
            match base32_decoded(s.subrange(q, q + 32)) {
                None => None,
                Some(d) => {
                    if !has_at(s, q + 32, field_sep()) {
                        None
                    } else {
                        parse_closing_at(s, q + 35, digest, Some(d))
                    }
                },
            }
        }
    } else {
        parse_closing_at(s, p, digest, None)
    }
}

/// Stage of [`parse_spec`] at the `closing_whitespace` field.
pub open spec fn parse_closing_at(
    s: Seq<char>,
    p: int,
    digest: Seq<u8>,
    expected: Option<Seq<u8>>,
) -> Option<LineModel> {
    if has_at(s, p, closing_whitespace_key()) {
        match scan_escaped_ws(s, p + 21) {
            None => None,
            Some((w, q)) => {
                if q + 2 > s.len() || s[q] != ',' || s[q + 1] != '"' {
                    None
                } else {
                    parse_timestamp_at(s, q + 2, digest, expected, Some(w))
                }
            },
        }
    } else {
        parse_timestamp_at(s, p, digest, expected, None)
    }
}

/// Stage of [`parse_spec`] at the `timestamp` field.
pub open spec fn parse_timestamp_at(
    s: Seq<char>,
    p: int,
    digest: Seq<u8>,
    expected: Option<Seq<u8>>,
    closing: Option<Seq<char>>,
) -> Option<LineModel> {
    if has_at(s, p, timestamp_key()) {
        let q = p + 12;
        if q + 17 > s.len() {
            None
        } else {
            match timestamp_at_chars(s, q) {
                None => None,
                Some(t) => {
                    if !has_at(s, q + 14, field_sep()) {
                        None
                    } else {
                        parse_url_at(s, q + 17, digest, expected, closing, Some(t))
                    }
                },
            }
        }
    } else {
        parse_url_at(s, p, digest, expected, closing, None)
    }
}

/// Stage of [`parse_spec`] at the `url` field.
pub open spec fn parse_url_at(
    s: Seq<char>,
    p: int,
    digest: Seq<u8>,
    expected: Option<Seq<u8>>,
    closing: Option<Seq<char>>,
    timestamp: Option<Timestamp>,
) -> Option<LineModel> {
    if has_at(s, p, url_key()) {
        match scan_until_quote(s, p + 6) {
            None => None,
            Some((u, q)) => {
                if q + 2 > s.len() || s[q] != ',' || s[q + 1] != '"' {
                    None
                } else {
                    parse_content_at(s, q + 2, digest, expected, closing, timestamp, Some(u))
                }
            },
        }
    } else {
        parse_content_at(s, p, digest, expected, closing, timestamp, None)
    }
}

/// Splitting closing whitespace splits its escaped text.
pub proof fn lemma_escape_ws_append(a: Seq<char>, b: Seq<char>)
    ensures
        escape_ws(a + b) == escape_ws(a) + escape_ws(b),
    decreases a.len(),
{
    if a.len() == 0 {
        assert(a + b =~= b);
        assert(escape_ws(a) + escape_ws(b) =~= escape_ws(b));
    } else {
        lemma_escape_ws_append(a.drop_first(), b);
        assert((a + b).drop_first() =~= a.drop_first() + b);
        assert(escape_ws(a) + escape_ws(b) =~= (if a[0] == '\n' {
            seq!['\\', 'n']
        } else {
            seq!['\\', 'r']
        }) + (escape_ws(a.drop_first()) + escape_ws(b)));
    }
}

/// Stage of [`parse_spec`] at the mandatory `content` field.
pub open spec fn parse_content_at(
    s: Seq<char>,
    p: int,
    digest: Seq<u8>,
    expected: Option<Seq<u8>>,
    closing: Option<Seq<char>>,
    timestamp: Option<Timestamp>,
    url: Option<Seq<char>>,
) -> Option<LineModel> {
    if has_at(s, p, content_key()) && p + 9 <= s.len() - 1 && s[s.len() - 1] == '}' {
        Some(
            LineModel {
                digest,
                expected_digest: expected,
                closing_whitespace: closing,
                timestamp,
                url,
                content: s.subrange(p + 9, s.len() - 1),
            },
        )
    } else {
        None
    }
}

/// Appends the escaped text of closing whitespace to `out`.
fn push_escaped_ws(out: &mut Vec<char>, w: &Vec<char>)
    requires
        forall|i: int| 0 <= i < w@.len() ==> is_crlf(#[trigger] w@[i]),
    ensures
        final(out)@ == old(out)@ + escape_ws(w@),
{
    let mut i: usize = 0;
    while i < w.len()
        invariant
            i <= w@.len(),
            forall|j: int| 0 <= j < w@.len() ==> is_crlf(#[trigger] w@[j]),
            out@ == old(out)@ + escape_ws(w@.take(i as int)),
        decreases w@.len() - i,
    {
        out.push('\\');
        if w[i] == '\n' {
            out.push('n');
        } else {
            out.push('r');
        }
        proof {
            lemma_escape_ws_append(w@.take(i as int), seq![w@[i as int]]);
            assert(w@.take(i as int) + seq![w@[i as int]] =~= w@.take(i + 1 as int));
            assert(escape_ws(seq![w@[i as int]]) == (if w@[i as int] == '\n' {
                seq!['\\', 'n']
            } else {
                seq!['\\', 'r']
            }) + escape_ws(seq![w@[i as int]].drop_first()));
            assert(seq![w@[i as int]].drop_first() =~= Seq::<char>::empty());
            assert(out@ =~= old(out)@ + escape_ws(w@.take(i + 1 as int)));
        }
        i += 1;
    }
    assert(w@.take(w@.len() as int) =~= w@);
}

impl SnapshotLine {
    /// The serialized line text of the record.
    #[verifier::rlimit(100)]
    pub fn to_line_string(&self) -> (r: String)
        requires
            self@.wf(),
        ensures
            r@ == render_spec(self@),
    {
        let mut out: Vec<char> = Vec::new();
        crate::text::push_chars(&mut out, "{\"digest\":\"");
        let digest_chars = base32_encode(&self.digest.0);
        crate::text::push_char_vec(&mut out, &digest_chars);
        crate::text::push_chars(&mut out, "\",");
        proof {
            reveal_line_literals();
            reveal_strlit("{\"digest\":\"");
            reveal_strlit("\",");
            reveal_strlit("\",\"");
            assert("\","@ =~= field_sep().take(2));
        }
        match &self.expected_digest {
            Some(d) => {
                crate::text::push_chars(&mut out, "\"expected_digest\":\"");
                let chars = base32_encode(&d.0);
                crate::text::push_char_vec(&mut out, &chars);
                crate::text::push_chars(&mut out, "\",");
                proof {
                    reveal_strlit("\"expected_digest\":\"");
                    reveal_strlit("expected_digest\":\"");
                    assert("\"expected_digest\":\""@ =~= seq!['"'] + expected_digest_key());
                }
            },
            None => {
            },
        }
        match &self.closing_whitespace {
            Some(w) => {
                assert(self@.closing_whitespace == Some(w@));
                assert forall|i: int| 0 <= i < w@.len() implies is_crlf(w@[i]) by {
                    if let Some(w2) = self@.closing_whitespace {
                        assert(is_crlf(w2[i]));
                    }
                }
                crate::text::push_chars(&mut out, "\"closing_whitespace\":\"");
                push_escaped_ws(&mut out, w);
                crate::text::push_chars(&mut out, "\",");
                proof {
                    reveal_strlit("\"closing_whitespace\":\"");
                    reveal_strlit("closing_whitespace\":\"");
                    assert("\"closing_whitespace\":\""@ =~= seq!['"'] + closing_whitespace_key());
                }
            },
            None => {
            },
        }
        match &self.timestamp {
            Some(t) => {
                crate::text::push_chars(&mut out, "\"timestamp\":\"");
                let text = t.to_display_string();
                crate::text::push_chars(&mut out, text.as_str());
                crate::text::push_chars(&mut out, "\",");
                proof {
                    reveal_strlit("\"timestamp\":\"");
                    reveal_strlit("timestamp\":\"");
                    assert("\"timestamp\":\""@ =~= seq!['"'] + timestamp_key());
                }
            },
            None => {
            },
        }
        match &self.url {
            Some(u) => {
                crate::text::push_chars(&mut out, "\"url\":\"");
                crate::text::push_chars(&mut out, u.as_str());
                crate::text::push_chars(&mut out, "\",");
                proof {
                    reveal_strlit("\"url\":\"");
                    reveal_strlit("url\":\"");
                    assert("\"url\":\""@ =~= seq!['"'] + url_key());
                }
            },
            None => {
            },
        }
        crate::text::push_chars(&mut out, "\"content\":");
        crate::text::push_chars(&mut out, self.content.as_str());
        out.push('}');
        proof {
            reveal_strlit("\"content\":");
            reveal_strlit("content\":");
            assert("\"content\":"@ =~= seq!['"'] + content_key());
            assert(out@ =~= render_spec(self@));
        }
        chars_to_string(&out)
    }

    /// Parses a line's text into a record.
    pub fn parse(line: &str) -> (r: Result<SnapshotLine, Error>)
        ensures
            match r {
                Ok(l) => parse_spec(line@) == Some(l@) && l@.wf(),
                Err(_) => parse_spec(line@) is None,
            },
    {
        let s = str_to_chars(line);
        let prefix = str_to_chars("{\"digest\":\"");
        assert(prefix@ == digest_prefix());
        if !chars_have_at(&s, 0, &prefix) {
            return Err(Error::InvalidLine);
        }
        if s.len() < 46 {
            return Err(Error::InvalidLine);
        }
        let digest_text = crate::text::chars_slice(&s, 11, 43);
        let digest = match base32_decode(&digest_text) {
            Some(bytes) => Sha1Digest(bytes),
            None => {
                return Err(Error::InvalidLine);
            },
        };
        let sep = str_to_chars("\",\"");
        assert(sep@ == field_sep());
        if !chars_have_at(&s, 43, &sep) {
            return Err(Error::InvalidLine);
        }
        parse_expected(&s, 46, digest)
    }
}

/// Exec stage of [`parse_expected_at`].
fn parse_expected(s: &Vec<char>, p: usize, digest: Sha1Digest) -> (r: Result<SnapshotLine, Error>)
    requires
        p <= s@.len(),
    ensures
        match r {
            Ok(l) => parse_expected_at(s@, p as int, digest@) == Some(l@) && l@.wf(),
            Err(_) => parse_expected_at(s@, p as int, digest@) is None,
        },
{
    proof {
        reveal_line_literals();
    }
    let key = str_to_chars("expected_digest\":\"");
    assert(key@ == expected_digest_key());
    let n = s.len();
    if chars_have_at(s, p, &key) {
        assert(p + 18 <= n);
        let q = p + 18;
        if n - q < 35 {
            return Err(Error::InvalidLine);
        }
        let text = crate::text::chars_slice(s, q, q + 32);
        let d = match base32_decode(&text) {
            Some(bytes) => Sha1Digest(bytes),
            None => {
                return Err(Error::InvalidLine);
            },
        };
        let sep = str_to_chars("\",\"");
        assert(sep@ == field_sep());
        if !chars_have_at(s, q + 32, &sep) {
            return Err(Error::InvalidLine);
        }
        parse_closing(s, q + 35, digest, Some(d))
    } else {
        parse_closing(s, p, digest, None)
    }
}

/// Exec stage of [`parse_closing_at`].
fn parse_closing(s: &Vec<char>, p: usize, digest: Sha1Digest, expected: Option<Sha1Digest>) -> (r:
    Result<SnapshotLine, Error>)
    requires
        p <= s@.len(),
    ensures
        match r {
            Ok(l) => parse_closing_at(s@, p as int, digest@, view_opt_digest(expected)) == Some(
                l@,
            ) && l@.wf(),
            Err(_) => parse_closing_at(s@, p as int, digest@, view_opt_digest(expected)) is None,
        },
{
    proof {
        reveal_line_literals();
    }
    let key = str_to_chars("closing_whitespace\":\"");
    assert(key@ == closing_whitespace_key());
    let n = s.len();
    if chars_have_at(s, p, &key) {
        assert(p + 21 <= n);
        match scan_escaped(s, p + 21) {
            None => Err(Error::InvalidLine),
            Some((w, q)) => {
                if n - q < 2 || s[q] != ',' || s[q + 1] != '"' {
                    return Err(Error::InvalidLine);
                }
                parse_timestamp(s, q + 2, digest, expected, Some(w))
            },
        }
    } else {
        parse_timestamp(s, p, digest, expected, None)
    }
}

/// Exec stage of [`parse_timestamp_at`].
fn parse_timestamp(
    s: &Vec<char>,
    p: usize,
    digest: Sha1Digest,
    expected: Option<Sha1Digest>,
    closing: Option<Vec<char>>,
) -> (r: Result<SnapshotLine, Error>)
    requires
        p <= s@.len(),
        closing matches Some(w) ==> forall|i: int| 0 <= i < w@.len() ==> is_crlf(#[trigger] w@[i]),
    ensures
        match r {
            Ok(l) => parse_timestamp_at(
                s@,
                p as int,
                digest@,
                view_opt_digest(expected),
                view_opt_chars(closing),
            ) == Some(l@) && l@.wf(),
            Err(_) => parse_timestamp_at(
                s@,
                p as int,
                digest@,
                view_opt_digest(expected),
                view_opt_chars(closing),
            ) is None,
        },
{
    proof {
        reveal_line_literals();
    }
    let key = str_to_chars("timestamp\":\"");
    assert(key@ == timestamp_key());
    let n = s.len();
    if chars_have_at(s, p, &key) {
        assert(p + 12 <= n);
        let q = p + 12;
        if n - q < 17 {
            return Err(Error::InvalidLine);
        }
        let t = match parse_timestamp_chars(s, q) {
            Some(t) => t,
            None => {
                return Err(Error::InvalidLine);
            },
        };
        let sep = str_to_chars("\",\"");
        assert(sep@ == field_sep());
        if !chars_have_at(s, q + 14, &sep) {
            return Err(Error::InvalidLine);
        }
        parse_url(s, q + 17, digest, expected, closing, Some(t))
    } else {
        parse_url(s, p, digest, expected, closing, None)
    }
}

/// Exec stage of [`parse_url_at`].
fn parse_url(
    s: &Vec<char>,
    p: usize,
    digest: Sha1Digest,
    expected: Option<Sha1Digest>,
    closing: Option<Vec<char>>,
    timestamp: Option<Timestamp>,
) -> (r: Result<SnapshotLine, Error>)
    requires
        p <= s@.len(),
        closing matches Some(w) ==> forall|i: int| 0 <= i < w@.len() ==> is_crlf(#[trigger] w@[i]),
        timestamp matches Some(t) ==> t.wf(),
    ensures
        match r {
            Ok(l) => parse_url_at(
                s@,
                p as int,
                digest@,
                view_opt_digest(expected),
                view_opt_chars(closing),
                timestamp,
            ) == Some(l@) && l@.wf(),
            Err(_) => parse_url_at(
                s@,
                p as int,
                digest@,
                view_opt_digest(expected),
                view_opt_chars(closing),
                timestamp,
            ) is None,
        },
{
    proof {
        reveal_line_literals();
    }
    let key = str_to_chars("url\":\"");
    assert(key@ == url_key());
    let n = s.len();
    if chars_have_at(s, p, &key) {
        assert(p + 6 <= n);
        match scan_quote(s, p + 6) {
            None => Err(Error::InvalidLine),
            Some((u, q)) => {
                if n - q < 2 || s[q] != ',' || s[q + 1] != '"' {
                    return Err(Error::InvalidLine);
                }
                parse_content(s, q + 2, digest, expected, closing, timestamp, Some(u))
            },
        }
    } else {
        parse_content(s, p, digest, expected, closing, timestamp, None)
    }
}

/// Exec stage of [`parse_content_at`].
fn parse_content(
    s: &Vec<char>,
    p: usize,
    digest: Sha1Digest,
    expected: Option<Sha1Digest>,
    closing: Option<Vec<char>>,
    timestamp: Option<Timestamp>,
    url: Option<Vec<char>>,
) -> (r: Result<SnapshotLine, Error>)
    requires
        p <= s@.len(),
        closing matches Some(w) ==> forall|i: int| 0 <= i < w@.len() ==> is_crlf(#[trigger] w@[i]),
        timestamp matches Some(t) ==> t.wf(),
        url matches Some(u) ==> forall|i: int| 0 <= i < u@.len() ==> #[trigger] u@[i] != '"',
    ensures
        match r {
            Ok(l) => parse_content_at(
                s@,
                p as int,
                digest@,
                view_opt_digest(expected),
                view_opt_chars(closing),
                timestamp,
                view_opt_chars(url),
            ) == Some(l@) && l@.wf(),
            Err(_) => parse_content_at(
                s@,
                p as int,
                digest@,
                view_opt_digest(expected),
                view_opt_chars(closing),
                timestamp,
                view_opt_chars(url),
            ) is None,
        },
{
    proof {
        reveal_line_literals();
    }
    let key = str_to_chars("content\":");
    assert(key@ == content_key());
    let n = s.len();
    if !chars_have_at(s, p, &key) {
        return Err(Error::InvalidLine);
    }
    assert(p + 9 <= n);
    if n - (p + 9) < 1 || s[n - 1] != '}' {
        return Err(Error::InvalidLine);
    }
    let content_chars = crate::text::chars_slice(s, p + 9, n - 1);
    let line = SnapshotLine {
        digest,
        expected_digest: expected,
        closing_whitespace: closing,
        timestamp,
        url: match url {
            Some(u) => Some(chars_to_string(&u)),
            None => None,
        },
        content: chars_to_string(&content_chars),
    };
    Ok(line)
}

/// The view of an optional digest.
pub open spec fn view_opt_digest(d: Option<Sha1Digest>) -> Option<Seq<u8>> {
    match d {
        Some(d) => Some(d@),
        None => None,
    }
}

/// The view of an optional character vector.
pub open spec fn view_opt_chars(v: Option<Vec<char>>) -> Option<Seq<char>> {
    match v {
        Some(v) => Some(v@),
        None => None,
    }
}

/// Exec scan of escaped closing whitespace, mirroring [`scan_escaped_ws`].
fn scan_escaped(s: &Vec<char>, p: usize) -> (r: Option<(Vec<char>, usize)>)
    requires
        p <= s@.len(),
    ensures
        match r {
            Some((w, q)) => scan_escaped_ws(s@, p as int) == Some((w@, q as int)) && p < q
                <= s@.len() && (forall|i: int| 0 <= i < w@.len() ==> is_crlf(#[trigger] w@[i])),
            None => scan_escaped_ws(s@, p as int) is None,
        },
{
    let n = s.len();
    let mut acc: Vec<char> = Vec::new();
    let mut j = p;
    loop
        invariant
            p <= j <= n,
            n == s@.len(),
            scan_escaped_ws(s@, p as int) == (match scan_escaped_ws(s@, j as int) {
                Some((w, q)) => Some((acc@ + w, q)),
                None => None::<(Seq<char>, int)>,
            }),
            forall|i: int| 0 <= i < acc@.len() ==> is_crlf(#[trigger] acc@[i]),
        decreases n - j,
    {
        if j >= n {
            return None;
        }
        if s[j] == '"' {
            assert(scan_escaped_ws(s@, j as int) == Some((Seq::<char>::empty(), j + 1 as int)));
            assert(acc@ + Seq::<char>::empty() =~= acc@);
            return Some((acc, j + 1));
        }
        if s[j] != '\\' || j + 1 >= n || (s[j + 1] != 'n' && s[j + 1] != 'r') {
            return None;
        }
        let c: char = if s[j + 1] == 'n' {
            '\n'
        } else {
            '\r'
        };
        acc.push(c);
        proof {
            let ghost old_acc = acc@.drop_last();
            assert(old_acc.push(c) == acc@);
            match scan_escaped_ws(s@, j + 2 as int) {
                Some((w, q)) => {
                    assert(scan_escaped_ws(s@, j as int) == Some((seq![c] + w, q)));
                    assert(old_acc + (seq![c] + w) =~= acc@ + w);
                },
                None => {
                    assert(scan_escaped_ws(s@, j as int) is None);
                },
            }
        }
        j += 2;
    }
}

/// Exec scan to the next quote, mirroring [`scan_until_quote`].
fn scan_quote(s: &Vec<char>, p: usize) -> (r: Option<(Vec<char>, usize)>)
    requires
        p <= s@.len(),
    ensures
        match r {
            Some((u, q)) => scan_until_quote(s@, p as int) == Some((u@, q as int)) && p < q
                <= s@.len() && (forall|i: int| 0 <= i < u@.len() ==> #[trigger] u@[i] != '"'),
            None => scan_until_quote(s@, p as int) is None,
        },
{
    let n = s.len();
    let mut acc: Vec<char> = Vec::new();
    let mut j = p;
    loop
        invariant
            p <= j <= n,
            n == s@.len(),
            scan_until_quote(s@, p as int) == (match scan_until_quote(s@, j as int) {
                Some((u, q)) => Some((acc@ + u, q)),
                None => None::<(Seq<char>, int)>,
            }),
            forall|i: int| 0 <= i < acc@.len() ==> #[trigger] acc@[i] != '"',
        decreases n - j,
    {
        if j >= n {
            return None;
        }
        if s[j] == '"' {
            assert(scan_until_quote(s@, j as int) == Some((Seq::<char>::empty(), j + 1 as int)));
            assert(acc@ + Seq::<char>::empty() =~= acc@);
            return Some((acc, j + 1));
        }
        let c = s[j];
        acc.push(c);
        proof {
            let ghost old_acc = acc@.drop_last();
            assert(old_acc.push(c) == acc@);
            match scan_until_quote(s@, j + 1 as int) {
                Some((u, q)) => {
                    assert(scan_until_quote(s@, j as int) == Some((seq![c] + u, q)));
                    assert(old_acc + (seq![c] + u) =~= acc@ + u);
                },
                None => {
                    assert(scan_until_quote(s@, j as int) is None);
                },
            }
        }
        j += 1;
    }
}


/// Whether the characters of `s` from `p` to its end are exactly `t`.
pub open spec fn tail_at(s: Seq<char>, p: int, t: Seq<char>) -> bool {
    &&& 0 <= p <= s.len()
    &&& s.len() == p + t.len()
    &&& s.subrange(p, s.len() as int) == t
}

/// Peels a prefix off a tail: the prefix stands at `p`, and the rest is the
/// tail at `p + pre.len()`.
proof fn lemma_peel(s: Seq<char>, p: int, pre: Seq<char>, rest: Seq<char>)
    requires
        tail_at(s, p, pre + rest),
    ensures
        has_at(s, p, pre),
        tail_at(s, p + pre.len(), rest),
        forall|i: int| 0 <= i < pre.len() ==> s[p + i] == #[trigger] pre[i],
{
    let t = pre + rest;
    assert forall|i: int| 0 <= i < pre.len() implies s[p + i] == #[trigger] pre[i] by {
        assert(s.subrange(p, s.len() as int)[i] == t[i]);
    }
    assert(s.subrange(p, p + pre.len() as int) =~= pre);
    assert forall|i: int|
        0 <= i < rest.len() implies s.subrange(p + pre.len(), s.len() as int)[i] == #[trigger] rest[i] by {
        assert(s.subrange(p, s.len() as int)[pre.len() + i] == t[pre.len() + i]);
    }
    assert(s.subrange(p + pre.len(), s.len() as int) =~= rest);
}

proof fn lemma_tail_content_head(m: LineModel)
    ensures
        tail_content(m).len() >= 2,
        tail_content(m)[0] == 'c',
        tail_content(m)[1] == 'o',
{
    reveal_line_literals();
    reveal_strlit("content\":");
    assert(tail_content(m)[0] == content_key()[0]);
    assert(tail_content(m)[1] == content_key()[1]);
}

proof fn lemma_tail_url_head(m: LineModel)
    ensures
        tail_url(m).len() >= 2,
        tail_url(m)[0] != 't',
        tail_url(m)[0] != 'e',
        tail_url(m)[0] != 'c' || tail_url(m)[1] != 'l',
{
    reveal_line_literals();
    lemma_tail_content_head(m);
    match m.url {
        Some(u) => {
            assert(tail_url(m)[0] == url_key()[0]);
        },
        None => {
        },
    }
}

proof fn lemma_tail_timestamp_head(m: LineModel)
    ensures
        tail_timestamp(m).len() >= 2,
        tail_timestamp(m)[0] != 'e',
        tail_timestamp(m)[0] != 'c' || tail_timestamp(m)[1] != 'l',
{
    reveal_line_literals();
    lemma_tail_url_head(m);
    match m.timestamp {
        Some(t) => {
            assert(tail_timestamp(m)[0] == timestamp_key()[0]);
        },
        None => {
        },
    }
}

proof fn lemma_tail_closing_head(m: LineModel)
    ensures
        tail_closing(m).len() >= 2,
        tail_closing(m)[0] != 'e',
{
    reveal_line_literals();
    lemma_tail_timestamp_head(m);
    match m.closing_whitespace {
        Some(w) => {
            assert(tail_closing(m)[0] == closing_whitespace_key()[0]);
        },
        None => {
        },
    }
}

/// A mismatch of the first characters refutes `has_at`.
proof fn lemma_not_at(s: Seq<char>, p: int, key: Seq<char>, t: Seq<char>, k: int)
    requires
        tail_at(s, p, t),
        0 <= k < key.len(),
        k < t.len(),
        t[k] != key[k],
    ensures
        !has_at(s, p, key),
{
    if has_at(s, p, key) {
        assert(s.subrange(p, p + key.len() as int)[k] == key[k]);
        assert(s.subrange(p, s.len() as int)[k] == t[k]);
        assert(false);
    }
}

/// Scanning the escaped text of whitespace, up to a following quote, yields
/// the whitespace.
proof fn lemma_scan_escaped_rt(s: Seq<char>, p: int, w: Seq<char>, rest: Seq<char>)
    requires
        tail_at(s, p, escape_ws(w) + rest),
        rest.len() > 0,
        rest[0] == '"',
        forall|i: int| 0 <= i < w.len() ==> is_crlf(#[trigger] w[i]),
    ensures
        escape_ws(w).len() == 2 * w.len(),
        scan_escaped_ws(s, p) == Some((w, p + 2 * w.len() + 1)),
    decreases w.len(),
{
    if w.len() == 0 {
        assert(escape_ws(w) + rest =~= rest);
        assert(s[p] == s.subrange(p, s.len() as int)[0]);
        assert(scan_escaped_ws(s, p) == Some((Seq::<char>::empty(), p + 1)));
        assert(Seq::<char>::empty() =~= w);
    } else {
        let pair: Seq<char> = if w[0] == '\n' {
            seq!['\\', 'n']
        } else {
            seq!['\\', 'r']
        };
        let w2 = w.drop_first();
        assert(escape_ws(w) == pair + escape_ws(w2));
        assert(escape_ws(w) + rest =~= pair + (escape_ws(w2) + rest));
        lemma_peel(s, p, pair, escape_ws(w2) + rest);
        lemma_scan_escaped_rt(s, p + 2, w2, rest);
        assert(s[p] == pair[0]);
        assert(s[p + 1] == pair[1]);
        assert(s[p] == '\\' && s[p] != '"');
        let c: char = if s[p + 1] == 'n' {
            '\n'
        } else {
            '\r'
        };
        assert(c == w[0]);
        assert(scan_escaped_ws(s, p) == Some((seq![c] + w2, p + 2 + 2 * w2.len() + 1)));
        assert(seq![c] + w2 =~= w);
    }
}

/// Scanning to the next quote over quote-free text yields the text.
proof fn lemma_scan_quote_rt(s: Seq<char>, p: int, u: Seq<char>, rest: Seq<char>)
    requires
        tail_at(s, p, u + rest),
        rest.len() > 0,
        rest[0] == '"',
        forall|i: int| 0 <= i < u.len() ==> #[trigger] u[i] != '"',
    ensures
        scan_until_quote(s, p) == Some((u, p + u.len() + 1)),
    decreases u.len(),
{
    if u.len() == 0 {
        assert(u + rest =~= rest);
        assert(s[p] == s.subrange(s.len() - rest.len(), s.len() as int)[0]);
        assert(scan_until_quote(s, p) == Some((Seq::<char>::empty(), p + 1)));
        assert(Seq::<char>::empty() =~= u);
    } else {
        let u2 = u.drop_first();
        assert(u + rest =~= seq![u[0]] + (u2 + rest));
        lemma_peel(s, p, seq![u[0]], u2 + rest);
        lemma_scan_quote_rt(s, p + 1, u2, rest);
        assert(seq![u[0]][0] == u[0]);
        assert(s[p + 0] == seq![u[0]][0]);
        assert(s[p] == u[0]);
        assert(s[p] != '"');
        assert(scan_until_quote(s, p) == Some((seq![s[p]] + u2, p + 1 + u2.len() + 1)));
        assert(seq![s[p]] + u2 =~= u);
    }
}

/// A timestamp window in a larger text parses to the timestamp.
proof fn lemma_timestamp_window(s: Seq<char>, q: int, t: Timestamp)
    requires
        t.wf(),
        0 <= q,
        q + 14 <= s.len(),
        s.subrange(q, q + 14) == t.chars(),
    ensures
        timestamp_at_chars(s, q) == Some(t),
{
    crate::timestamp::lemma_timestamp_round_trip(t);
    let c = t.chars();
    assert forall|i: int| 0 <= i < 14 implies s[q + i] == #[trigger] c[i] by {
        assert(s.subrange(q, q + 14)[i] == c[i]);
    }
    assert(s[q + 0] == c[0]);
    assert(s[q + 1] == c[1]);
    assert(s[q + 2] == c[2]);
    assert(s[q + 3] == c[3]);
    assert(s[q + 4] == c[4]);
    assert(s[q + 5] == c[5]);
    assert(s[q + 6] == c[6]);
    assert(s[q + 7] == c[7]);
    assert(s[q + 8] == c[8]);
    assert(s[q + 9] == c[9]);
    assert(s[q + 10] == c[10]);
    assert(s[q + 11] == c[11]);
    assert(s[q + 12] == c[12]);
    assert(s[q + 13] == c[13]);
    assert(forall|i: int| q <= i < q + 14 ==> is_digit(#[trigger] s[i]));
    assert(crate::timestamp::four_digits(s, q) == crate::timestamp::four_digits(c, 0));
    assert(crate::timestamp::two_digits(s, q + 4) == crate::timestamp::two_digits(c, 4));
    assert(crate::timestamp::two_digits(s, q + 6) == crate::timestamp::two_digits(c, 6));
    assert(crate::timestamp::two_digits(s, q + 8) == crate::timestamp::two_digits(c, 8));
    assert(crate::timestamp::two_digits(s, q + 10) == crate::timestamp::two_digits(c, 10));
    assert(crate::timestamp::two_digits(s, q + 12) == crate::timestamp::two_digits(c, 12));
}

proof fn lemma_rt_content(s: Seq<char>, p: int, m: LineModel)
    requires
        m.wf(),
        tail_at(s, p, tail_content(m)),
    ensures
        parse_content_at(
            s,
            p,
            m.digest,
            m.expected_digest,
            m.closing_whitespace,
            m.timestamp,
            m.url,
        ) == Some(m),
{
    reveal_line_literals();
    assert(tail_content(m) =~= content_key() + (m.content + seq!['}']));
    lemma_peel(s, p, content_key(), m.content + seq!['}']);
    lemma_peel(s, p + 9, m.content, seq!['}']);
    assert(s[s.len() - 1] == '}') by {
        assert(s.subrange(p + 9 + m.content.len() as int, s.len() as int)[0] == '}');
    }
    assert(s.subrange(p + 9, s.len() - 1) =~= m.content) by {
        assert forall|i: int| 0 <= i < m.content.len() implies s.subrange(p + 9, s.len() - 1)[i]
            == m.content[i] by {
            assert(s[p + 9 + i] == m.content[i]);
        }
    }
    let r = parse_content_at(
        s,
        p,
        m.digest,
        m.expected_digest,
        m.closing_whitespace,
        m.timestamp,
        m.url,
    );
    assert(r matches Some(m2) && m2 =~= m);
}

proof fn lemma_rt_url(s: Seq<char>, p: int, m: LineModel)
    requires
        m.wf(),
        tail_at(s, p, tail_url(m)),
    ensures
        parse_url_at(
            s,
            p,
            m.digest,
            m.expected_digest,
            m.closing_whitespace,
            m.timestamp,
        ) == Some(m),
{
    reveal_line_literals();
    match m.url {
        Some(u) => {
            assert(tail_url(m) =~= url_key() + (u + (field_sep() + tail_content(m))));
            lemma_peel(s, p, url_key(), u + (field_sep() + tail_content(m)));
            let p2 = p + 6;
            assert(tail_at(s, p2, u + (field_sep() + tail_content(m))));
            assert((field_sep() + tail_content(m))[0] == '"');
            lemma_scan_quote_rt(s, p2, u, field_sep() + tail_content(m));
            let q = p2 + u.len() + 1;
            lemma_peel(s, p2, u, field_sep() + tail_content(m));
            lemma_peel(s, p2 + u.len(), field_sep(), tail_content(m));
            assert(s[p2 + u.len() + 1] == field_sep()[1]);
            assert(s[p2 + u.len() + 2] == field_sep()[2]);
            lemma_tail_content_head(m);
            lemma_rt_content(s, q + 2, m);
        },
        None => {
            lemma_tail_content_head(m);
            lemma_not_at(s, p, url_key(), tail_url(m), 0);
            lemma_rt_content(s, p, m);
        },
    }
}

proof fn lemma_rt_timestamp(s: Seq<char>, p: int, m: LineModel)
    requires
        m.wf(),
        tail_at(s, p, tail_timestamp(m)),
    ensures
        parse_timestamp_at(
            s,
            p,
            m.digest,
            m.expected_digest,
            m.closing_whitespace,
        ) == Some(m),
{
    reveal_line_literals();
    match m.timestamp {
        Some(t) => {
            assert(tail_timestamp(m) =~= timestamp_key() + (t.chars() + (field_sep() + tail_url(
                m,
            ))));
            lemma_peel(s, p, timestamp_key(), t.chars() + (field_sep() + tail_url(m)));
            let q = p + 12;
            crate::timestamp::lemma_timestamp_round_trip(t);
            lemma_peel(s, q, t.chars(), field_sep() + tail_url(m));
            lemma_timestamp_window(s, q, t);
            lemma_peel(s, q + 14, field_sep(), tail_url(m));
            assert(has_at(s, q + 14, field_sep()));
            lemma_tail_url_head(m);
            lemma_rt_url(s, q + 17, m);
        },
        None => {
            lemma_tail_url_head(m);
            match m.url {
                Some(u) => {
                    lemma_not_at(s, p, timestamp_key(), tail_timestamp(m), 0);
                },
                None => {
                    lemma_tail_content_head(m);
                    lemma_not_at(s, p, timestamp_key(), tail_timestamp(m), 0);
                },
            }
            lemma_rt_url(s, p, m);
        },
    }
}

proof fn lemma_rt_closing(s: Seq<char>, p: int, m: LineModel)
    requires
        m.wf(),
        tail_at(s, p, tail_closing(m)),
    ensures
        parse_closing_at(s, p, m.digest, m.expected_digest) == Some(m),
{
    reveal_line_literals();
    match m.closing_whitespace {
        Some(w) => {
            assert(tail_closing(m) =~= closing_whitespace_key() + (escape_ws(w) + (field_sep()
                + tail_timestamp(m))));
            lemma_peel(s, p, closing_whitespace_key(), escape_ws(w) + (field_sep()
                + tail_timestamp(m)));
            let p2 = p + 21;
            assert((field_sep() + tail_timestamp(m))[0] == '"');
            assert(forall|i: int| 0 <= i < w.len() ==> is_crlf(#[trigger] w[i]));
            lemma_scan_escaped_rt(s, p2, w, field_sep() + tail_timestamp(m));
            let q = p2 + 2 * w.len() + 1;
            lemma_peel(s, p2, escape_ws(w), field_sep() + tail_timestamp(m));
            lemma_peel(s, p2 + 2 * w.len(), field_sep(), tail_timestamp(m));
            assert(s[p2 + 2 * w.len() + 1] == field_sep()[1]);
            assert(s[p2 + 2 * w.len() + 2] == field_sep()[2]);
            lemma_tail_timestamp_head(m);
            lemma_rt_timestamp(s, q + 2, m);
        },
        None => {
            lemma_tail_timestamp_head(m);
            let t = tail_closing(m);
            if t[0] == 'c' {
                lemma_not_at(s, p, closing_whitespace_key(), t, 1);
            } else {
                lemma_not_at(s, p, closing_whitespace_key(), t, 0);
            }
            lemma_rt_timestamp(s, p, m);
        },
    }
}

proof fn lemma_rt_expected(s: Seq<char>, p: int, m: LineModel)
    requires
        m.wf(),
        tail_at(s, p, tail_expected(m)),
    ensures
        parse_expected_at(s, p, m.digest) == Some(m),
{
    reveal_line_literals();
    match m.expected_digest {
        Some(d) => {
            crate::base32::lemma_base32_round_trip(d);
            assert(tail_expected(m) =~= expected_digest_key() + (base32_chars(d) + (field_sep()
                + tail_closing(m))));
            lemma_peel(s, p, expected_digest_key(), base32_chars(d) + (field_sep() + tail_closing(
                m,
            )));
            let q = p + 18;
            lemma_peel(s, q, base32_chars(d), field_sep() + tail_closing(m));
            assert(s.subrange(q, q + 32) =~= base32_chars(d)) by {
                assert forall|i: int| 0 <= i < 32 implies s.subrange(q, q + 32)[i] == base32_chars(
                    d,
                )[i] by {
                    assert(s[q + i] == base32_chars(d)[i]);
                }
            }
            lemma_peel(s, q + 32, field_sep(), tail_closing(m));
            assert(has_at(s, q + 32, field_sep()));
            lemma_tail_closing_head(m);
            lemma_rt_closing(s, q + 35, m);
        },
        None => {
            lemma_tail_closing_head(m);
            lemma_not_at(s, p, expected_digest_key(), tail_expected(m), 0);
            lemma_rt_closing(s, p, m);
        },
    }
}

/// Round trip: serializing any well-formed record and parsing the text gives
/// the record back, across every combination of optional-field presence.
pub proof fn lemma_line_round_trip(m: LineModel)
    requires
        m.wf(),
    ensures
        parse_spec(render_spec(m)) == Some(m),
{
    reveal_line_literals();
    let s = render_spec(m);
    crate::base32::lemma_base32_round_trip(m.digest);
    assert(s =~= digest_prefix() + (base32_chars(m.digest) + (field_sep() + tail_expected(m))));
    assert(tail_at(s, 0, digest_prefix() + (base32_chars(m.digest) + (field_sep() + tail_expected(
        m,
    ))))) by {
        assert(s.subrange(0, s.len() as int) =~= s);
    }
    lemma_peel(s, 0, digest_prefix(), base32_chars(m.digest) + (field_sep() + tail_expected(m)));
    lemma_peel(s, 11, base32_chars(m.digest), field_sep() + tail_expected(m));
    assert(s.subrange(11, 43) =~= base32_chars(m.digest)) by {
        assert forall|i: int| 0 <= i < 32 implies s.subrange(11, 43)[i] == base32_chars(
            m.digest,
        )[i] by {
            assert(s[11 + i] == base32_chars(m.digest)[i]);
        }
    }
    lemma_peel(s, 43, field_sep(), tail_expected(m));
    lemma_tail_closing_head(m);
    match m.expected_digest {
        Some(d) => {
            crate::base32::lemma_base32_round_trip(d);
        },
        None => {
        },
    }
    assert(s.len() >= 46);
    lemma_rt_expected(s, 46, m);
}


/// The bytes of the recorded whitespace trailer, or the default `\r\r\n`.
pub open spec fn trailer_bytes(m: LineModel) -> Seq<u8> {
    match m.closing_whitespace {
        Some(w) => Seq::new(
            w.len(),
            |i: int|
                if w[i] == '\n' {
                    10u8
                } else {
                    13u8
                },
        ),
        None => seq![13u8, 13u8, 10u8],
    }
}

/// The bytes whose SHA-1 the record's digest claims to be: the content's
/// UTF-8 bytes followed by the whitespace trailer.
pub open spec fn hashed_bytes(m: LineModel) -> Seq<u8> {
    vstd::utf8::encode_utf8(m.content) + trailer_bytes(m)
}

/// The outcome of validating a record: `Ok` exactly when the recorded digest
/// is the SHA-1 of the hashed bytes, and the computed digest otherwise.
///
/// This is a function of the record value alone, so validating a record twice
/// yields the same result both times.
pub open spec fn validate_result(m: LineModel) -> Result<(), Seq<u8>> {
    if m.digest == sha1_of(hashed_bytes(m)) {
        Ok(())
    } else {
        Err(sha1_of(hashed_bytes(m)))
    }
}

/// The length of the maximal run of trailing carriage returns and line feeds.
pub open spec fn trailing_crlf_len(s: Seq<char>) -> int
    decreases s.len(),
{
    if s.len() == 0 || !is_crlf(s.last()) {
        0
    } else {
        1 + trailing_crlf_len(s.drop_last())
    }
}

proof fn lemma_trailing_crlf_run(s: Seq<char>, j: int)
    requires
        0 <= j <= s.len(),
        forall|i: int| j <= i < s.len() ==> is_crlf(#[trigger] s[i]),
        j == 0 || !is_crlf(s[j - 1]),
    ensures
        trailing_crlf_len(s) == s.len() - j,
    decreases s.len() - j,
{
    if j == s.len() {
        if s.len() != 0 {
            assert(!is_crlf(s.last()));
        }
    } else {
        assert(is_crlf(s.last()));
        assert(forall|i: int| j <= i < s.drop_last().len() ==> is_crlf(#[trigger] s.drop_last()[i]));
        if j > 0 {
            assert(s.drop_last()[j - 1] == s[j - 1]);
        }
        lemma_trailing_crlf_run(s.drop_last(), j);
    }
}

/// The record built from a digest and raw content: the whitespace trailer is
/// split off the content, so that the digest is always the SHA-1 of the
/// stored content followed by the trailer. When the content ends with the
/// default trailer preceded by another character, the trailer is left
/// implicit; otherwise the maximal trailing CR/LF run is recorded explicitly.
pub open spec fn new_line_spec(digest: Seq<u8>, c: Seq<char>) -> LineModel
    recommends
        c.len() >= 4,
{
    if c.subrange(c.len() - 3, c.len() as int) == seq!['\r', '\r', '\n'] && !is_crlf(
        c[c.len() - 4],
    ) {
        LineModel {
            digest,
            expected_digest: None,
            closing_whitespace: None,
            timestamp: None,
            url: None,
            content: c.subrange(0, c.len() - 3),
        }
    } else {
        LineModel {
            digest,
            expected_digest: None,
            closing_whitespace: Some(c.subrange(c.len() - trailing_crlf_len(c), c.len() as int)),
            timestamp: None,
            url: None,
            content: c.subrange(0, c.len() - trailing_crlf_len(c)),
        }
    }
}

/// Counters of a batch line validation.
#[derive(Clone, Debug, Default, PartialEq, Eq)]
pub struct SnapshotLineValidation {
    pub valid_count: usize,
    pub invalid_lines: Vec<usize>,
    pub unexpected_digests: Vec<(Sha1Digest, Sha1Digest)>,
    pub out_of_order: Vec<Sha1Digest>,
}

/// The mathematical state of a batch line validation.
#[verifier::ext_equal]
pub struct ValidationModel {
    pub valid_count: int,
    pub invalid_lines: Seq<int>,
    pub unexpected_digests: Seq<(Seq<u8>, Seq<u8>)>,
    pub out_of_order: Seq<Seq<u8>>,
    pub last_digest: Seq<u8>,
}

/// One step of the batch validation on the line with 1-based number
/// `idx + 1`.
pub open spec fn validation_step(v: ValidationModel, line: Seq<char>, idx: int) -> ValidationModel {
    match parse_spec(line) {
        None => ValidationModel { invalid_lines: v.invalid_lines.push(idx + 1), ..v },
        Some(m) => match validate_result(m) {
            Ok(_) => {
                if crate::digest::digest_lt(v.last_digest, m.digest) {
                    ValidationModel { valid_count: v.valid_count + 1, last_digest: m.digest, ..v }
                } else {
                    ValidationModel { out_of_order: v.out_of_order.push(m.digest), ..v }
                }
            },
            Err(d) => ValidationModel {
                unexpected_digests: v.unexpected_digests.push((m.digest, d)),
                ..v
            },
        },
    }
}

/// The batch validation state after the first `i` lines.
pub open spec fn validation_after(lines: Seq<Seq<char>>, i: int) -> ValidationModel
    decreases i,
{
    if i <= 0 {
        ValidationModel {
            valid_count: 0,
            invalid_lines: Seq::empty(),
            unexpected_digests: Seq::empty(),
            out_of_order: Seq::empty(),
            last_digest: Seq::new(20, |k: int| 0u8),
        }
    } else {
        validation_step(validation_after(lines, i - 1), lines[i - 1], i - 1)
    }
}

impl SnapshotLine {
    /// The value as an owned record; ownership is already plain here, so
    /// this is the value itself.
    pub fn into_owned(self) -> (r: SnapshotLine)
        ensures
            r@ == self@,
    {
        self
    }

    /// Builds a record from a digest and the raw content, per
    /// [`new_line_spec`].
    pub fn new(digest: Sha1Digest, content: &str) -> (r: SnapshotLine)
        requires
            content@.len() >= 4,
        ensures
            r@ == new_line_spec(digest@, content@),
            r@.wf(),
    {
        let chars = str_to_chars(content);
        let n = chars.len();
        let default_trailer = chars[n - 3] == '\r' && chars[n - 2] == '\r' && chars[n - 1] == '\n'
            && chars[n - 4] != '\r' && chars[n - 4] != '\n';
        if default_trailer {
            assert(chars@.subrange(n - 3, n as int) =~= seq!['\r', '\r', '\n']);
            let kept = crate::text::chars_slice(&chars, 0, n - 3);
            SnapshotLine {
                digest,
                expected_digest: None,
                closing_whitespace: None,
                timestamp: None,
                url: None,
                content: chars_to_string(&kept),
            }
        } else {
            assert(chars@.subrange(n - 3, n as int) != seq!['\r', '\r', '\n'] || is_crlf(
                chars@[n - 4],
            )) by {
                if !is_crlf(chars@[n - 4]) {
                    if chars@.subrange(n - 3, n as int) == seq!['\r', '\r', '\n'] {
                        assert(chars@[n - 3] == chars@.subrange(n - 3, n as int)[0]);
                        assert(chars@[n - 2] == chars@.subrange(n - 3, n as int)[1]);
                        assert(chars@[n - 1] == chars@.subrange(n - 3, n as int)[2]);
                    }
                }
            }
            let mut j: usize = n;
            loop
                invariant
                    0 <= j <= n,
                    n == chars@.len(),
                    forall|i: int| j <= i < n ==> is_crlf(#[trigger] chars@[i]),
                ensures
                    0 <= j <= n,
                    forall|i: int| j <= i < n ==> is_crlf(#[trigger] chars@[i]),
                    j == 0 || !is_crlf(chars@[j - 1]),
                decreases j,
            {
                if j == 0 {
                    break;
                }
                let c = chars[j - 1];
                if c != '\r' && c != '\n' {
                    break;
                }
                j -= 1;
            }

            proof {
                lemma_trailing_crlf_run(chars@, j as int);
            }
            let run = crate::text::chars_slice(&chars, j, n);
            let kept = crate::text::chars_slice(&chars, 0, j);
            SnapshotLine {
                digest,
                expected_digest: None,
                closing_whitespace: Some(run),
                timestamp: None,
                url: None,
                content: chars_to_string(&kept),
            }
        }
    }

    /// Recomputes the SHA-1 over the content bytes and the whitespace trailer
    /// and compares it to the recorded digest; a mismatch returns the computed
    /// digest, never silently accepted. The outcome is a function of the
    /// record alone, so validation is idempotent.
    pub fn validate(&self) -> (r: Result<(), Sha1Digest>)
        requires
            self@.wf(),
        ensures
            match r {
                Ok(_) => validate_result(self@) is Ok && self@.digest == sha1_of(
                    hashed_bytes(self@),
                ),
                Err(d) => validate_result(self@) == Err::<(), Seq<u8>>(d@),
            },
    {
        let mut bytes = self.content.as_str().as_bytes_vec();
        assert(bytes@ == vstd::utf8::encode_utf8(self@.content));
        match &self.closing_whitespace {
            Some(w) => {
                assert(self@.closing_whitespace == Some(w@));
                let ghost base = bytes@;
                let mut i: usize = 0;
                while i < w.len()
                    invariant
                        i <= w@.len(),
                        bytes@.len() == base.len() + i,
                        bytes@.subrange(0, base.len() as int) == base,
                        forall|k: int| 0 <= k < i ==> bytes@[base.len() + k] == (if w@[k] == '\n' {
                            10u8
                        } else {
                            13u8
                        }),
                    decreases w@.len() - i,
                {
                    if w[i] == '\n' {
                        bytes.push(10);
                    } else {
                        bytes.push(13);
                    }
                    assert(bytes@.subrange(0, base.len() as int) =~= base);
                    i += 1;
                }
                assert(bytes@ =~= hashed_bytes(self@)) by {
                    assert forall|k: int| 0 <= k < bytes@.len() implies bytes@[k] == hashed_bytes(
                        self@,
                    )[k] by {
                        if k < base.len() {
                            assert(bytes@[k] == bytes@.subrange(0, base.len() as int)[k]);
                        }
                    }
                }
            },
            None => {
                bytes.push(13);
                bytes.push(13);
                bytes.push(10);
                assert(bytes@ =~= hashed_bytes(self@));
            },
        }
        let computed = Sha1Computer::compute_digest(bytes.as_slice());
        if computed.equals(&self.digest) {
            Ok(())
        } else {
            Err(computed)
        }
    }

    /// Validates a batch of lines in order, counting valid lines and
    /// collecting invalid lines (by 1-based number), digest mismatches, and
    /// lines whose digest is not strictly ascending.
    pub fn validate_lines(lines: &Vec<String>) -> (r: SnapshotLineValidation)
        ensures
            ({
                let va = validation_after(
                    lines@.map_values(|l: String| l@),
                    lines@.len() as int,
                );
                &&& r.valid_count == va.valid_count
                &&& r.invalid_lines@.map_values(|x: usize| x as int) == va.invalid_lines
                &&& r.unexpected_digests@.map_values(
                    |p: (Sha1Digest, Sha1Digest)| (p.0@, p.1@),
                ) == va.unexpected_digests
                &&& r.out_of_order@.map_values(|d: Sha1Digest| d@) == va.out_of_order
            }),
    {
        let ghost model_lines = lines@.map_values(|l: String| l@);
        let mut result = SnapshotLineValidation {
            valid_count: 0,
            invalid_lines: Vec::new(),
            unexpected_digests: Vec::new(),
            out_of_order: Vec::new(),
        };
        let mut last_digest = Sha1Digest::min_value();
        let mut i: usize = 0;
        proof {
            assert(result.invalid_lines@.map_values(|x: usize| x as int) =~= Seq::<int>::empty());
            assert(result.unexpected_digests@.map_values(|p: (Sha1Digest, Sha1Digest)| (p.0@, p.1@))
                =~= Seq::<(Seq<u8>, Seq<u8>)>::empty());
            assert(result.out_of_order@.map_values(|d: Sha1Digest| d@) =~= Seq::<Seq<u8>>::empty());
        }
        while i < lines.len()
            invariant
                i <= lines@.len(),
                model_lines == lines@.map_values(|l: String| l@),
                model_lines.len() == lines@.len(),
                result.valid_count <= i,
                ({
                    let va = validation_after(model_lines, i as int);
                    &&& result.valid_count == va.valid_count
                    &&& result.invalid_lines@.map_values(|x: usize| x as int) == va.invalid_lines
                    &&& result.unexpected_digests@.map_values(
                        |p: (Sha1Digest, Sha1Digest)| (p.0@, p.1@),
                    ) == va.unexpected_digests
                    &&& result.out_of_order@.map_values(|d: Sha1Digest| d@) == va.out_of_order
                    &&& last_digest@ == va.last_digest
                }),
            decreases lines@.len() - i,
        {
            let line = &lines[i];
            assert(model_lines[i as int] == line@);
            let ghost va_before = validation_after(model_lines, i as int);
            let ghost va_after = validation_after(model_lines, i + 1 as int);
            assert(va_after == validation_step(va_before, model_lines[i as int], i as int));
            match SnapshotLine::parse(line.as_str()) {
                Ok(snapshot_line) => {
                    match snapshot_line.validate() {
                        Ok(_) => {
                            if last_digest.lt(&snapshot_line.digest) {
                                result.valid_count = result.valid_count + 1;
                                last_digest = snapshot_line.digest;
                            } else {
                                let ghost before = result.out_of_order@;
                                result.out_of_order.push(snapshot_line.digest);
                                assert(result.out_of_order@.map_values(|d: Sha1Digest| d@)
                                    =~= before.map_values(|d: Sha1Digest| d@).push(
                                    snapshot_line.digest@,
                                ));
                            }
                        },
                        Err(actual) => {
                            let ghost before = result.unexpected_digests@;
                            result.unexpected_digests.push((snapshot_line.digest, actual));
                            assert(result.unexpected_digests@.map_values(
                                |p: (Sha1Digest, Sha1Digest)| (p.0@, p.1@),
                            ) =~= before.map_values(|p: (Sha1Digest, Sha1Digest)| (p.0@, p.1@)).push(
                                (snapshot_line.digest@, actual@),
                            ));
                        },
                    }
                },
                Err(_) => {
                    let ghost before = result.invalid_lines@;
                    result.invalid_lines.push(i + 1);
                    assert(result.invalid_lines@.map_values(|x: usize| x as int) =~= before
                        .map_values(|x: usize| x as int).push(i + 1 as int));
                },
            }
            i += 1;
        }
        result
    }
}

impl SnapshotLineValidation {
    /// Whether the batch had no invalid lines, no digest mismatches, and no
    /// out-of-order lines.
    pub fn is_successful(&self) -> (r: bool)
        ensures
            r == (self.invalid_lines@.len() == 0 && self.unexpected_digests@.len() == 0
                && self.out_of_order@.len() == 0),
    {
        self.invalid_lines.len() == 0 && self.unexpected_digests.len() == 0
            && self.out_of_order.len() == 0
    }
}

} // verus!

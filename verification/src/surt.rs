//! Sort-friendly URI Reordering Transform representation.
//!
//! Only the features necessary to handle Wayback Machine CDX results are
//! implemented: a SURT is a reversed, comma-separated list of domain labels
//! terminated by `)`, followed by a verbatim path. A parsed SURT keeps its
//! source text unchanged, so re-emitting it always reproduces the input.

use crate::mime_type::str_eq;
use crate::text::{chars_to_string, push_chars, push_char_vec, str_to_chars};
use vstd::prelude::*;
use vstd::string::StrSliceExecFns;

verus! {

/// Errors of SURT parsing and URL canonicalization.
#[derive(Clone, Debug, PartialEq, Eq)]
pub enum Error {
    /// SURT text with a character outside the label grammar, with the text.
    InvalidSurt(String),
    /// A domain label longer than a label-length entry can hold, with the
    /// label.
    InvalidDomainPart(String),
    /// Text that the URL parser rejects, with the text.
    InvalidUrl(String),
    /// A parsed URL that is not a plain http or https URL with a domain and
    /// no explicit port, with the text.
    UnexpectedUrl(String),
}

/// A parsed SURT: the verbatim source text and the byte length of each domain
/// label, in stored (reversed) order.
#[derive(Clone, Debug, PartialEq, Eq, PartialOrd, Ord, Hash)]
pub struct Surt {
    source: String,
    domain_name_part_lens: Vec<u8>,
}

/// The mathematical value of a [`Surt`].
#[verifier::ext_equal]
pub struct SurtModel {
    pub source: Seq<char>,
    pub lens: Seq<u8>,
}

impl View for Surt {
    type V = SurtModel;

    closed spec fn view(&self) -> SurtModel {
        SurtModel { source: self.source@, lens: self.domain_name_part_lens@ }
    }
}

/// Whether `c` may appear in a domain label: ASCII alphanumerics and hyphens.
pub open spec fn is_label_char(c: char) -> bool {
    ('a' <= c && c <= 'z') || ('A' <= c && c <= 'Z') || ('0' <= c && c <= '9') || c == '-'
}

/// The outcome of scanning a SURT's authority section.
pub enum ScanOutcome {
    /// The label lengths, in stored order.
    Labels(Seq<u8>),
    /// A character outside the label grammar before the closing parenthesis.
    InvalidChar,
    /// A label longer than a label-length entry can hold.
    OversizedLabel,
}

/// Scans label characters from `i`, accumulating the current label's length
/// and the lengths seen so far: a comma ends a label, a closing parenthesis
/// ends the authority section, and anything else outside the label alphabet
/// is an error. Input that ends without a closing parenthesis keeps only the
/// labels ended by commas.
pub open spec fn scan_labels(s: Seq<char>, i: int, cur: int, lens: Seq<u8>) -> ScanOutcome
    recommends
        0 <= i <= s.len(),
        0 <= cur <= 255,
    decreases s.len() - i,
{
    if i < 0 || i >= s.len() {
        ScanOutcome::Labels(lens)
    } else if s[i] == ',' {
        scan_labels(s, i + 1, 0, lens.push(cur as u8))
    } else if s[i] == ')' {
        ScanOutcome::Labels(lens.push(cur as u8))
    } else if is_label_char(s[i]) {
        if cur >= 255 {
            ScanOutcome::OversizedLabel
        } else {
            scan_labels(s, i + 1, cur + 1, lens)
        }
    } else {
        ScanOutcome::InvalidChar
    }
}

/// The label lengths of a SURT's text.
pub open spec fn surt_lens_of(s: Seq<char>) -> ScanOutcome {
    scan_labels(s, 0, 0, Seq::empty())
}

/// The sum of a sequence of label lengths.
pub open spec fn lens_sum(lens: Seq<u8>) -> int
    decreases lens.len(),
{
    if lens.len() == 0 {
        0
    } else {
        lens_sum(lens.drop_last()) + lens.last()
    }
}

impl SurtModel {
    /// The offset of the path: one past the closing parenthesis.
    pub open spec fn path_start(&self) -> int {
        self.lens.len() + lens_sum(self.lens)
    }

    /// Whether the label table fits the source text with at least one label,
    /// so the labels and the path can be sliced out.
    pub open spec fn wf_parts(&self) -> bool {
        1 <= self.lens.len() && self.path_start() <= self.source.len()
    }

    /// The offset of label `j` in the source text.
    pub open spec fn label_start(&self, j: int) -> int {
        lens_sum(self.lens.take(j)) + j
    }

    /// Label `j` of the SURT, in stored order.
    pub open spec fn label_at(&self, j: int) -> Seq<char>
        recommends
            0 <= j < self.lens.len(),
    {
        self.source.subrange(self.label_start(j), self.label_start(j) + self.lens[j])
    }

    /// The path part of the SURT.
    pub open spec fn path(&self) -> Seq<char> {
        self.source.subrange(self.path_start(), self.source.len() as int)
    }
}

proof fn lemma_lens_sum_take(lens: Seq<u8>, j: int)
    requires
        0 <= j < lens.len(),
    ensures
        lens_sum(lens.take(j + 1)) == lens_sum(lens.take(j)) + lens[j],
        lens_sum(lens.take(j)) >= 0,
    decreases j,
{
    assert(lens.take(j + 1).drop_last() =~= lens.take(j));
    assert(lens.take(j + 1).last() == lens[j]);
    if j > 0 {
        lemma_lens_sum_take(lens, j - 1);
    } else {
        assert(lens.take(0) =~= Seq::<u8>::empty());
    }
}

proof fn lemma_lens_sum_prefix(lens: Seq<u8>, j: int)
    requires
        0 <= j <= lens.len(),
    ensures
        lens_sum(lens.take(j)) + j <= lens_sum(lens) + lens.len(),
        lens_sum(lens.take(j)) >= 0,
    decreases lens.len() - j,
{
    if j == lens.len() {
        assert(lens.take(j) =~= lens);
        if j > 0 {
            lemma_lens_sum_take(lens, j - 1);
        }
    } else {
        lemma_lens_sum_take(lens, j);
        lemma_lens_sum_prefix(lens, j + 1);
    }
}

proof fn lemma_scan_bound(s: Seq<char>, i: int, cur: int, lens: Seq<u8>)
    requires
        0 <= i <= s.len(),
        0 <= cur <= 255,
    ensures
        scan_labels(s, i, cur, lens) matches ScanOutcome::Labels(out) ==> out.len() + lens_sum(out)
            <= lens.len() + lens_sum(lens) + cur + (s.len() - i),
    decreases s.len() - i,
{
    if i >= s.len() {
    } else if s[i] == ',' {
        assert(lens_sum(lens.push(cur as u8)) == lens_sum(lens) + cur) by {
            assert(lens.push(cur as u8).drop_last() =~= lens);
        }
        lemma_scan_bound(s, i + 1, 0, lens.push(cur as u8));
    } else if s[i] == ')' {
        assert(lens_sum(lens.push(cur as u8)) == lens_sum(lens) + cur) by {
            assert(lens.push(cur as u8).drop_last() =~= lens);
        }
    } else if is_label_char(s[i]) && cur < 255 {
        lemma_scan_bound(s, i + 1, cur + 1, lens);
    }
}

/// A SURT scan's label table always fits the text it was scanned from.
pub proof fn lemma_surt_lens_fit(s: Seq<char>)
    ensures
        surt_lens_of(s) matches ScanOutcome::Labels(out) ==> out.len() + lens_sum(out) <= s.len(),
{
    lemma_scan_bound(s, 0, 0, Seq::empty());
}

impl Surt {
    /// The verbatim source text: always exactly the text the SURT was parsed
    /// from, byte for byte.
    pub fn as_str(&self) -> (r: &str)
        ensures
            r@ == self@.source,
    {
        self.source.as_str()
    }

    /// The offset of the path in the source text.
    fn path_start_exec(&self) -> (r: usize)
        requires
            self@.path_start() <= self@.source.len(),
        ensures
            r == self@.path_start(),
    {
        let n = self.source.as_str().unicode_len();
        let mut sum: usize = 0;
        let mut j: usize = 0;
        let k = self.domain_name_part_lens.len();
        proof {
            assert(self@.lens.take(0) =~= Seq::<u8>::empty());
        }
        while j < k
            invariant
                0 <= j <= k,
                k == self@.lens.len(),
                n == self@.source.len(),
                self@.path_start() <= n,
                sum == lens_sum(self@.lens.take(j as int)) + j,
            decreases k - j,
        {
            proof {
                lemma_lens_sum_take(self@.lens, j as int);
                lemma_lens_sum_prefix(self@.lens, j + 1 as int);
                assert(self@.lens.take(k as int) =~= self@.lens);
            }
            sum = sum + (self.domain_name_part_lens[j] as usize) + 1;
            j += 1;
        }
        proof {
            assert(self@.lens.take(k as int) =~= self@.lens);
        }
        sum
    }

    /// The path part of the SURT.
    pub fn path(&self) -> (r: &str)
        requires
            self@.path_start() <= self@.source.len(),
        ensures
            r@ == self@.path(),
    {
        let start = self.path_start_exec();
        let len = self.source.as_str().unicode_len();
        self.source.as_str().substring_char(start, len)
    }

    /// The domain labels in stored (reversed) order, as a restartable
    /// double-ended cursor.
    pub fn domain_name_parts(&self) -> (r: DomainNamePartIter)
        requires
            self@.wf_parts(),
        ensures
            r.parts@.len() == self@.lens.len(),
            forall|j: int| 0 <= j < self@.lens.len() ==> r.parts@[j]@ == self@.label_at(j),
            r.front == 0,
            r.back == r.parts@.len(),
    {
        let n = self.source.as_str().unicode_len();
        let k = self.domain_name_part_lens.len();
        let mut parts: Vec<String> = Vec::new();
        let mut start: usize = 0;
        let mut j: usize = 0;
        proof {
            assert(self@.lens.take(0) =~= Seq::<u8>::empty());
        }
        while j < k
            invariant
                0 <= j <= k,
                k == self@.lens.len(),
                self@.wf_parts(),
                n == self@.source.len(),
                start == self@.label_start(j as int),
                parts@.len() == j,
                forall|i: int| 0 <= i < j ==> parts@[i]@ == self@.label_at(i),
            decreases k - j,
        {
            let len = self.domain_name_part_lens[j] as usize;
            proof {
                lemma_lens_sum_take(self@.lens, j as int);
                lemma_lens_sum_prefix(self@.lens, j + 1 as int);
                assert(self@.lens.take(k as int) =~= self@.lens);
                assert(start + len + 1 <= self@.path_start());
            }
            let label = self.source.as_str().substring_char(start, start + len);
            parts.push(label.to_owned());
            start = start + len + 1;
            j += 1;
        }
        DomainNamePartIter { parts, front: 0, back: k }
    }

    /// Parses SURT text, keeping the source verbatim and recording the label
    /// lengths.
    pub fn parse_str(input: &str) -> (r: Result<Surt, Error>)
        ensures
            match r {
                Ok(surt) => {
                    &&& surt@.source == input@
                    &&& surt_lens_of(input@) == ScanOutcome::Labels(surt@.lens)
                    &&& surt@.path_start() <= surt@.source.len()
                },
                Err(Error::InvalidSurt(t)) => t@ == input@ && surt_lens_of(
                    input@,
                ) is InvalidChar,
                Err(Error::InvalidDomainPart(t)) => t@ == input@ && surt_lens_of(
                    input@,
                ) is OversizedLabel,
                Err(_) => false,
            },
    {
        let chars = str_to_chars(input);
        let n = chars.len();
        let mut lens: Vec<u8> = Vec::new();
        let mut cur: u8 = 0;
        let mut i: usize = 0;
        let mut closed = false;
        while i < n && !closed
            invariant
                0 <= i <= n,
                n == chars@.len(),
                chars@ == input@,
                cur <= 255,
                !closed ==> surt_lens_of(input@) == scan_labels(
                    input@,
                    i as int,
                    cur as int,
                    lens@,
                ),
                closed ==> surt_lens_of(input@) == ScanOutcome::Labels(lens@),
            decreases n - i,
        {
            let c = chars[i];
            if c == ',' {
                lens.push(cur);
                cur = 0;
            } else if c == ')' {
                lens.push(cur);
                closed = true;
            } else if ('a' <= c && c <= 'z') || ('A' <= c && c <= 'Z') || ('0' <= c && c <= '9')
                || c == '-' {
                if cur == 255 {
                    return Err(Error::InvalidDomainPart(input.to_owned()));
                }
                cur = cur + 1;
            } else {
                return Err(Error::InvalidSurt(input.to_owned()));
            }
            i += 1;
        }
        proof {
            lemma_surt_lens_fit(input@);
        }
        Ok(Surt { source: input.to_owned(), domain_name_part_lens: lens })
    }

    /// The value as an owned record; ownership is already plain here, so
    /// this is the value itself.
    pub fn into_owned(self) -> (r: Surt)
        ensures
            r@ == self@,
    {
        self
    }

    /// A copy of the SURT value.
    pub fn clone_key(&self) -> (r: Surt)
        ensures
            r@ == self@,
    {
        let mut lens: Vec<u8> = Vec::new();
        let mut i: usize = 0;
        while i < self.domain_name_part_lens.len()
            invariant
                0 <= i <= self.domain_name_part_lens@.len(),
                lens@ == self.domain_name_part_lens@.subrange(0, i as int),
            decreases self.domain_name_part_lens@.len() - i,
        {
            lens.push(self.domain_name_part_lens[i]);
            assert(self.domain_name_part_lens@.subrange(0, i as int).push(
                self.domain_name_part_lens@[i as int],
            ) =~= self.domain_name_part_lens@.subrange(0, i + 1 as int));
            i += 1;
        }
        assert(lens@ =~= self.domain_name_part_lens@);
        Surt { source: self.source.clone(), domain_name_part_lens: lens }
    }

    /// The human-facing canonical URL of the SURT: `https://`, the labels in
    /// forward order joined by dots, and the verbatim path. Lossy relative to
    /// the original scheme and any dropped `www` label.
    pub fn canonical_url(&self) -> (r: SurtCanonicalUrl)
        requires
            self@.wf_parts(),
        ensures
            r@ == canonical_url_spec(self@),
    {
        let parts = self.domain_name_parts();
        let mut out: Vec<char> = Vec::new();
        push_chars(&mut out, "https://");
        let k = parts.parts.len();
        let mut j: usize = k;
        proof {
            assert(dots_prefix(self@, k as int) == Seq::<char>::empty());
            assert(out@ =~= "https://"@ + dots_prefix(self@, k as int));
        }
        while j > 1
            invariant
                1 <= j <= k,
                k == self@.lens.len(),
                self@.wf_parts(),
                parts.parts@.len() == k,
                forall|i: int| 0 <= i < k ==> parts.parts@[i]@ == self@.label_at(i),
                out@ == "https://"@ + dots_prefix(self@, j as int),
            decreases j,
        {
            push_chars(&mut out, parts.parts[j - 1].as_str());
            out.push('.');
            proof {
                assert(out@ =~= "https://"@ + dots_prefix(self@, j - 1 as int));
            }
            j -= 1;
        }
        push_chars(&mut out, parts.parts[0].as_str());
        let path = self.path();
        push_chars(&mut out, path);
        proof {
            lemma_dots_prefix_join(self@, 1);
            assert(join_rev_labels(self@, 1) == self@.label_at(0) + Seq::<char>::empty());
            assert(join_rev_labels(self@, 1) =~= self@.label_at(0));
            assert(out@ =~= canonical_url_spec(self@));
        }
        SurtCanonicalUrl { text: chars_to_string(&out) }
    }
}

/// The labels from `j - 1` down to `0`, each but the last followed by a dot;
/// rendering from the last stored label down gives the forward domain order.
pub open spec fn join_rev_labels(m: SurtModel, j: int) -> Seq<char>
    recommends
        1 <= j <= m.lens.len(),
    decreases j,
{
    if j <= 1 {
        m.label_at(0)
    } else {
        m.label_at(j - 1) + seq!['.'] + join_rev_labels(m, j - 1)
    }
}

/// The labels from `m.lens.len() - 1` down to `j`, each followed by a dot.
pub open spec fn dots_prefix(m: SurtModel, j: int) -> Seq<char>
    recommends
        0 <= j <= m.lens.len(),
    decreases m.lens.len() - j,
{
    if j < 0 || j >= m.lens.len() {
        Seq::empty()
    } else {
        dots_prefix(m, j + 1) + m.label_at(j) + seq!['.']
    }
}

proof fn lemma_dots_prefix_join(m: SurtModel, j: int)
    requires
        1 <= j <= m.lens.len(),
    ensures
        dots_prefix(m, j) + join_rev_labels(m, j) =~= join_rev_labels(m, m.lens.len() as int),
    decreases m.lens.len() - j,
{
    let k = m.lens.len() as int;
    if j == k {
        assert(dots_prefix(m, j) == Seq::<char>::empty());
    } else {
        lemma_dots_prefix_join(m, j + 1);
        assert(join_rev_labels(m, j + 1) == m.label_at(j) + seq!['.'] + join_rev_labels(m, j));
        assert(dots_prefix(m, j) + join_rev_labels(m, j) =~= dots_prefix(m, j + 1)
            + join_rev_labels(m, j + 1));
    }
}

/// The canonical URL text of a SURT.
pub open spec fn canonical_url_spec(m: SurtModel) -> Seq<char>
    recommends
        m.wf_parts(),
{
    "https://"@ + join_rev_labels(m, m.lens.len() as int) + m.path()
}

/// The rendered canonical URL of a SURT.
pub struct SurtCanonicalUrl {
    text: String,
}

impl View for SurtCanonicalUrl {
    type V = Seq<char>;

    closed spec fn view(&self) -> Seq<char> {
        self.text@
    }
}

impl SurtCanonicalUrl {
    /// The canonical URL text.
    pub fn to_display_string(&self) -> (r: String)
        ensures
            r@ == self@,
    {
        self.text.clone()
    }
}

/// A restartable, double-ended cursor over a SURT's domain labels in stored
/// order.
pub struct DomainNamePartIter {
    pub parts: Vec<String>,
    pub front: usize,
    pub back: usize,
}

impl DomainNamePartIter {
    /// The next label from the front, in stored order.
    pub fn next(&mut self) -> (r: Option<&str>)
        ensures
            final(self).parts == old(self).parts,
            final(self).back == old(self).back,
            match r {
                Some(s) => old(self).front < old(self).back <= old(self).parts@.len() && s@ == old(
                    self,
                ).parts@[old(self).front as int]@ && final(self).front == old(self).front + 1,
                None => (old(self).front >= old(self).back || old(self).back > old(
                    self,
                ).parts@.len()) && final(self).front == old(self).front,
            },
    {
        if self.front < self.back && self.back <= self.parts.len() {
            let r = self.parts[self.front].as_str();
            self.front = self.front + 1;
            Some(r)
        } else {
            None
        }
    }

    /// The next label from the back; reverse iteration yields the forward
    /// (canonical) domain order.
    pub fn next_back(&mut self) -> (r: Option<&str>)
        ensures
            final(self).parts == old(self).parts,
            final(self).front == old(self).front,
            match r {
                Some(s) => old(self).front < old(self).back <= old(self).parts@.len() && s@ == old(
                    self,
                ).parts@[old(self).back - 1]@ && final(self).back == old(self).back - 1,
                None => (old(self).front >= old(self).back || old(self).back > old(
                    self,
                ).parts@.len()) && final(self).back == old(self).back,
            },
    {
        if self.front < self.back && self.back <= self.parts.len() {
            self.back = self.back - 1;
            Some(self.parts[self.back].as_str())
        } else {
            None
        }
    }

    /// How many labels remain.
    pub fn remaining(&self) -> (r: usize)
        ensures
            r == if self.front <= self.back {
                self.back - self.front
            } else {
                0
            },
    {
        if self.front <= self.back {
            self.back - self.front
        } else {
            0
        }
    }
}


/// The parts of a parsed absolute URL, as plain values.
pub struct ParsedUrl {
    pub scheme: String,
    pub domain: Option<String>,
    pub has_port: bool,
    pub path: String,
    pub query_pairs: Vec<(String, String)>,
}

/// The mathematical value of a [`ParsedUrl`].
#[verifier::ext_equal]
pub struct UrlModel {
    pub scheme: Seq<char>,
    pub domain: Option<Seq<char>>,
    pub has_port: bool,
    pub path: Seq<char>,
    pub query_pairs: Seq<(Seq<char>, Seq<char>)>,
}

impl View for ParsedUrl {
    type V = UrlModel;

    open spec fn view(&self) -> UrlModel {
        UrlModel {
            scheme: self.scheme@,
            domain: match self.domain {
                Some(d) => Some(d@),
                None => None,
            },
            has_port: self.has_port,
            path: self.path@,
            query_pairs: self.query_pairs@.map_values(|p: (String, String)| (p.0@, p.1@)),
        }
    }
}

/// The lowercase form of a string, as `str::to_lowercase` defines it: a
/// function of the characters alone.
pub uninterp spec fn lower_of(s: Seq<char>) -> Seq<char>;

/// The outcome of WHATWG URL parsing: a function of the input text alone.
pub uninterp spec fn url_parse_of(s: Seq<char>) -> Option<UrlModel>;

/// Relies on `str::to_lowercase`: the result depends on the characters alone.
#[verifier::external_body]
fn lowercase_str(input: &str) -> (r: String)
    ensures
        r@ == lower_of(input@),
{
    input.to_lowercase()
}

/// Relies on `url::Url::parse` and its accessors `scheme`, `domain`, `port`,
/// `path` and `query_pairs`, converted to plain values: the parse outcome is
/// a function of the input text alone.
#[verifier::external_body]
fn parse_http_url(input: &str) -> (r: Option<ParsedUrl>)
    ensures
        match r {
            Some(u) => url_parse_of(input@) == Some(u@),
            None => url_parse_of(input@) is None,
        },
{
    match url::Url::parse(input) {
        Ok(u) => Some(ParsedUrl {
            scheme: u.scheme().to_string(),
            domain: u.domain().map(|d| d.to_string()),
            has_port: u.port().is_some(),
            path: u.path().to_string(),
            query_pairs: u.query_pairs().map(|(k, v)| (k.into_owned(), v.into_owned())).collect(),
        }),
        Err(_) => None,
    }
}

/// The pieces of `s` between dots, scanning from `i` with the current piece
/// started at `start`.
pub open spec fn split_dots_from(s: Seq<char>, i: int, start: int) -> Seq<Seq<char>>
    recommends
        0 <= start <= i <= s.len(),
    decreases s.len() - i,
{
    if i < 0 || i >= s.len() {
        seq![s.subrange(start, s.len() as int)]
    } else if s[i] == '.' {
        seq![s.subrange(start, i)] + split_dots_from(s, i + 1, i + 1)
    } else {
        split_dots_from(s, i + 1, start)
    }
}

/// The dot-separated pieces of `s`.
pub open spec fn split_dots(s: Seq<char>) -> Seq<Seq<char>> {
    split_dots_from(s, 0, 0)
}

/// The index of the first label longer than a label-length entry can hold, or
/// a negative value when there is none.
pub open spec fn first_long_label(labels: Seq<Seq<char>>) -> int
    decreases labels.len(),
{
    if labels.len() == 0 {
        -1
    } else if labels[0].len() > 255 {
        0
    } else {
        let r = first_long_label(labels.drop_first());
        if r < 0 {
            -1
        } else {
            r + 1
        }
    }
}

/// Labels joined by commas and terminated by the closing parenthesis.
pub open spec fn join_labels(labels: Seq<Seq<char>>) -> Seq<char>
    decreases labels.len(),
{
    if labels.len() == 0 {
        seq![')']
    } else if labels.len() == 1 {
        labels[0] + seq![')']
    } else {
        labels[0] + seq![','] + join_labels(labels.drop_first())
    }
}

/// The structurally cleaned path: a fixed set of percent-escapes decoded back
/// to literal punctuation, embedded newlines re-escaped, and one doubled
/// slash collapsed, in this order.
pub open spec fn decode_path_spec(s: Seq<char>) -> Seq<char> {
    crate::text::replace_all(
        crate::text::replace_all(
            crate::text::replace_all(
                crate::text::replace_all(
                    crate::text::replace_all(
                        crate::text::replace_all(
                            crate::text::replace_all(
                                crate::text::replace_all(
                                    crate::text::replace_all(
                                        crate::text::replace_all(s, "%22"@, "\""@),
                                        "%2a"@,
                                        "*"@,
                                    ),
                                    "%5c"@,
                                    "\\"@,
                                ),
                                "%3c"@,
                                "<"@,
                            ),
                            "%3e"@,
                            ">"@,
                        ),
                        "%27"@,
                        "'"@,
                    ),
                    "%7b"@,
                    "{"@,
                ),
                "%7d"@,
                "}"@,
            ),
            "\n"@,
            "%0a"@,
        ),
        "//"@,
        "/"@,
    )
}

/// The re-escaped text of a query value.
pub open spec fn decode_query_value_spec(s: Seq<char>) -> Seq<char> {
    crate::text::replace_all(
        crate::text::replace_all(
            crate::text::replace_all(crate::text::replace_all(s, "+"@, "%20"@), " "@, "+"@),
            "\n"@,
            "%0a"@,
        ),
        "%5e"@,
        "^"@,
    )
}

/// Inserts a pair into a key-sorted sequence, after every pair whose key is
/// less than or equal: a stable insertion.
pub open spec fn insert_pair(
    sorted: Seq<(Seq<char>, Seq<char>)>,
    p: (Seq<char>, Seq<char>),
) -> Seq<(Seq<char>, Seq<char>)>
    decreases sorted.len(),
{
    if sorted.len() == 0 {
        seq![p]
    } else if crate::text::chars_le(sorted.last().0, p.0) {
        sorted.push(p)
    } else {
        insert_pair(sorted.drop_last(), p).push(sorted.last())
    }
}

/// The stable sort of query pairs by key: insertion of each pair in turn.
pub open spec fn sort_pairs(pairs: Seq<(Seq<char>, Seq<char>)>) -> Seq<(Seq<char>, Seq<char>)>
    decreases pairs.len(),
{
    if pairs.len() == 0 {
        Seq::empty()
    } else {
        insert_pair(sort_pairs(pairs.drop_last()), pairs.last())
    }
}

/// The text of one query pair: the key, and for a nonempty value an equals
/// sign and the re-escaped value.
pub open spec fn render_pair(p: (Seq<char>, Seq<char>)) -> Seq<char> {
    if p.1.len() == 0 {
        p.0
    } else {
        p.0 + seq!['='] + decode_query_value_spec(p.1)
    }
}

/// Query pairs joined by ampersands.
pub open spec fn join_pairs(ps: Seq<(Seq<char>, Seq<char>)>) -> Seq<char>
    decreases ps.len(),
{
    if ps.len() == 0 {
        Seq::empty()
    } else if ps.len() == 1 {
        render_pair(ps[0])
    } else {
        render_pair(ps[0]) + seq!['&'] + join_pairs(ps.drop_first())
    }
}

/// The query part of the canonical key: empty without pairs, else a question
/// mark and the pairs sorted by key.
pub open spec fn query_text(pairs: Seq<(Seq<char>, Seq<char>)>) -> Seq<char> {
    if pairs.len() == 0 {
        Seq::empty()
    } else {
        seq!['?'] + join_pairs(sort_pairs(pairs))
    }
}

/// The outcome of building a SURT from parsed URL parts.
pub enum UrlOutcome {
    /// The canonical key.
    Built(SurtModel),
    /// Not a plain http or https URL with a domain and no port.
    NotHttp,
    /// A domain label longer than a label-length entry can hold.
    Oversized(Seq<char>),
}

/// The domain labels of the canonical key: the dot-separated labels with a
/// leading `www` dropped, in reversed order.
pub open spec fn key_labels(u: UrlModel) -> Seq<Seq<char>>
    recommends
        u.domain is Some,
{
    let labels0 = split_dots(u.domain.unwrap());
    let labels = if labels0.len() > 0 && labels0[0] == "www"@ {
        labels0.drop_first()
    } else {
        labels0
    };
    labels.reverse()
}

/// The canonical key built from parsed URL parts.
pub open spec fn surt_of_parts(u: UrlModel) -> UrlOutcome {
    if !((u.scheme == "http"@ || u.scheme == "https"@) && u.domain is Some && !u.has_port) {
        UrlOutcome::NotHttp
    } else {
        let rev = key_labels(u);
        if first_long_label(rev) >= 0 {
            UrlOutcome::Oversized(rev[first_long_label(rev)])
        } else {
            let base = join_labels(rev) + decode_path_spec(u.path);
            let trimmed = if base.len() > 0 && base.last() == '/' {
                base.drop_last()
            } else {
                base
            };
            UrlOutcome::Built(
                SurtModel {
                    source: trimmed + query_text(u.query_pairs),
                    lens: rev.map_values(|l: Seq<char>| l.len() as u8),
                },
            )
        }
    }
}

/// The view of a vector of string pairs.
pub open spec fn pairs_view(v: Seq<(String, String)>) -> Seq<(Seq<char>, Seq<char>)> {
    v.map_values(|p: (String, String)| (p.0@, p.1@))
}

proof fn lemma_insert_at(sorted: Seq<(Seq<char>, Seq<char>)>, p: (Seq<char>, Seq<char>), idx: int)
    requires
        0 <= idx <= sorted.len(),
        idx > 0 ==> crate::text::chars_le(sorted[idx - 1].0, p.0),
        forall|j: int| idx <= j < sorted.len() ==> !crate::text::chars_le(
            #[trigger] sorted[j].0,
            p.0,
        ),
    ensures
        insert_pair(sorted, p) == sorted.take(idx) + seq![p] + sorted.skip(idx),
    decreases sorted.len(),
{
    if idx == sorted.len() {
        if sorted.len() == 0 {
            assert(insert_pair(sorted, p) =~= sorted.take(idx) + seq![p] + sorted.skip(idx));
        } else {
            assert(sorted.last() == sorted[idx - 1]);
            assert(insert_pair(sorted, p) == sorted.push(p));
            assert(sorted.push(p) =~= sorted.take(idx) + seq![p] + sorted.skip(idx));
        }
    } else {
        assert(!crate::text::chars_le(sorted.last().0, p.0)) by {
            assert(sorted[sorted.len() - 1] == sorted.last());
        }
        let shorter = sorted.drop_last();
        assert forall|j: int| idx <= j < shorter.len() implies !crate::text::chars_le(
            #[trigger] shorter[j].0,
            p.0,
        ) by {
            assert(shorter[j] == sorted[j]);
        }
        if idx > 0 {
            assert(shorter[idx - 1] == sorted[idx - 1]);
        }
        lemma_insert_at(shorter, p, idx);
        assert((shorter.take(idx) + seq![p] + shorter.skip(idx)).push(sorted.last()) =~= sorted.take(
            idx,
        ) + seq![p] + sorted.skip(idx));
    }
}

/// The index after every pair whose key is less than or equal to `key`,
/// scanning from the right.
fn find_insert_idx(sorted: &Vec<(String, String)>, key: &String) -> (idx: usize)
    ensures
        0 <= idx <= sorted@.len(),
        idx > 0 ==> crate::text::chars_le(sorted@[idx - 1].0@, key@),
        forall|j: int| idx <= j < sorted@.len() ==> !crate::text::chars_le(
            #[trigger] sorted@[j].0@,
            key@,
        ),
{
    let mut idx: usize = sorted.len();
    while idx > 0 && !crate::text::str_le(sorted[idx - 1].0.as_str(), key.as_str())
        invariant
            0 <= idx <= sorted@.len(),
            forall|j: int| idx <= j < sorted@.len() ==> !crate::text::chars_le(
                #[trigger] sorted@[j].0@,
                key@,
            ),
        decreases idx,
    {
        idx -= 1;
    }
    idx
}

/// Inserts a pair into a key-sorted vector, after every pair whose key is
/// less than or equal.
fn insert_pair_exec(sorted: &mut Vec<(String, String)>, p: (String, String))
    ensures
        pairs_view(final(sorted)@) == insert_pair(pairs_view(old(sorted)@), (p.0@, p.1@)),
{
    let ghost pm = (p.0@, p.1@);
    let idx = find_insert_idx(sorted, &p.0);
    proof {
        assert forall|j: int| idx <= j < sorted@.len() implies !crate::text::chars_le(
            #[trigger] pairs_view(sorted@)[j].0,
            pm.0,
        ) by {
            assert(pairs_view(sorted@)[j].0 == sorted@[j].0@);
        }
        if idx > 0 {
            assert(pairs_view(sorted@)[idx - 1].0 == sorted@[idx - 1].0@);
        }
        lemma_insert_at(pairs_view(sorted@), pm, idx as int);
    }
    let ghost before = sorted@;
    sorted.insert(idx, p);
    proof {
        assert(pairs_view(sorted@) =~= pairs_view(before).take(idx as int) + seq![pm] + pairs_view(
            before,
        ).skip(idx as int)) by {
            assert forall|j: int| 0 <= j < sorted@.len() implies pairs_view(sorted@)[j] == (
            pairs_view(before).take(idx as int) + seq![pm] + pairs_view(before).skip(idx as int))[j]
                by {
                assert(sorted@[j] == before.insert(idx as int, p)[j]);
            }
        }
    }
}

/// The stable sort of query pairs by key.
fn sort_pairs_exec(pairs: &Vec<(String, String)>) -> (r: Vec<(String, String)>)
    ensures
        pairs_view(r@) == sort_pairs(pairs_view(pairs@)),
{
    let mut r: Vec<(String, String)> = Vec::new();
    let mut i: usize = 0;
    proof {
        assert(pairs_view(r@) =~= Seq::<(Seq<char>, Seq<char>)>::empty());
        assert(pairs_view(pairs@.take(0)) =~= Seq::<(Seq<char>, Seq<char>)>::empty());
    }
    while i < pairs.len()
        invariant
            0 <= i <= pairs@.len(),
            pairs_view(r@) == sort_pairs(pairs_view(pairs@.take(i as int))),
        decreases pairs@.len() - i,
    {
        let p = (pairs[i].0.clone(), pairs[i].1.clone());
        insert_pair_exec(&mut r, p);
        proof {
            let taken = pairs_view(pairs@.take(i + 1 as int));
            assert(taken.drop_last() =~= pairs_view(pairs@.take(i as int)));
            assert(taken.last() == (pairs@[i as int].0@, pairs@[i as int].1@));
        }
        i += 1;
    }
    proof {
        assert(pairs@.take(pairs@.len() as int) =~= pairs@);
    }
    r
}


/// The views of a vector of character vectors.
pub open spec fn labels_view(v: Seq<Vec<char>>) -> Seq<Seq<char>> {
    v.map_values(|l: Vec<char>| l@)
}

/// Exec mirror of [`split_dots`].
pub(crate) fn split_dots_exec(s: &Vec<char>) -> (r: Vec<Vec<char>>)
    ensures
        labels_view(r@) == split_dots(s@),
{
    let n = s.len();
    let mut acc: Vec<Vec<char>> = Vec::new();
    let mut i: usize = 0;
    let mut start: usize = 0;
    proof {
        assert(labels_view(acc@) =~= Seq::<Seq<char>>::empty());
        assert(labels_view(acc@) + split_dots_from(s@, 0, 0) =~= split_dots_from(s@, 0, 0));
    }
    while i < n
        invariant
            0 <= start <= i <= n,
            n == s@.len(),
            split_dots(s@) == labels_view(acc@) + split_dots_from(s@, i as int, start as int),
        decreases n - i,
    {
        if s[i] == '.' {
            let ghost before = labels_view(acc@);
            let piece = crate::text::chars_slice(s, start, i);
            acc.push(piece);
            proof {
                assert(labels_view(acc@) =~= before.push(s@.subrange(start as int, i as int)));
                assert(split_dots_from(s@, i as int, start as int) == seq![
                    s@.subrange(start as int, i as int),
                ] + split_dots_from(s@, i + 1, i + 1));
                assert(before + (seq![s@.subrange(start as int, i as int)] + split_dots_from(
                    s@,
                    i + 1,
                    i + 1,
                )) =~= labels_view(acc@) + split_dots_from(s@, i + 1, i + 1));
            }
            start = i + 1;
        }
        i += 1;
    }
    let ghost before = labels_view(acc@);
    let piece = crate::text::chars_slice(s, start, n);
    acc.push(piece);
    proof {
        assert(labels_view(acc@) =~= before.push(s@.subrange(start as int, n as int)));
        assert(split_dots_from(s@, n as int, start as int) == seq![
            s@.subrange(start as int, n as int),
        ]);
        assert(before + seq![s@.subrange(start as int, n as int)] =~= labels_view(acc@));
    }
    acc
}

proof fn lemma_first_long_at(labels: Seq<Seq<char>>, j: int)
    requires
        0 <= j < labels.len(),
        forall|i: int| 0 <= i < j ==> #[trigger] labels[i].len() <= 255,
        labels[j].len() > 255,
    ensures
        first_long_label(labels) == j,
    decreases j,
{
    if j == 0 {
    } else {
        assert(labels[0].len() <= 255);
        let rest = labels.drop_first();
        assert forall|i: int| 0 <= i < j - 1 implies #[trigger] rest[i].len() <= 255 by {
            assert(rest[i] == labels[i + 1]);
        }
        assert(rest[j - 1] == labels[j]);
        lemma_first_long_at(rest, j - 1);
    }
}

proof fn lemma_first_long_none(labels: Seq<Seq<char>>)
    requires
        forall|i: int| 0 <= i < labels.len() ==> #[trigger] labels[i].len() <= 255,
    ensures
        first_long_label(labels) < 0,
    decreases labels.len(),
{
    if labels.len() > 0 {
        let rest = labels.drop_first();
        assert forall|i: int| 0 <= i < rest.len() implies #[trigger] rest[i].len() <= 255 by {
            assert(rest[i] == labels[i + 1]);
        }
        lemma_first_long_none(rest);
    }
}

/// Exec mirror of [`join_labels`].
fn join_labels_exec(labels: &Vec<Vec<char>>) -> (r: Vec<char>)
    ensures
        r@ == join_labels(labels_view(labels@)),
{
    let k = labels.len();
    let mut out: Vec<char> = Vec::new();
    if k == 0 {
        out.push(')');
        assert(out@ =~= seq![')']);
        return out;
    }
    let mut j: usize = 0;
    proof {
        assert(labels_view(labels@).skip(0) =~= labels_view(labels@));
    }
    while j < k - 1
        invariant
            0 <= j <= k - 1,
            k == labels@.len(),
            k >= 1,
            join_labels(labels_view(labels@)) == out@ + join_labels(
                labels_view(labels@).skip(j as int),
            ),
        decreases k - j,
    {
        let ghost lv = labels_view(labels@);
        crate::text::push_char_vec(&mut out, &labels[j]);
        out.push(',');
        proof {
            assert(lv.skip(j as int).len() >= 2);
            assert(lv.skip(j as int)[0] == lv[j as int]);
            assert(lv.skip(j as int).drop_first() =~= lv.skip(j + 1));
            assert(join_labels(lv.skip(j as int)) == lv[j as int] + seq![','] + join_labels(
                lv.skip(j + 1),
            ));
            assert(out@ + join_labels(lv.skip(j + 1)) =~= (out@.drop_last().subrange(
                0,
                out@.len() - 1 - labels@[j as int]@.len(),
            )) + join_labels(lv.skip(j as int))) by {
                assert(out@ =~= out@.subrange(0, out@.len() - 1 - labels@[j as int]@.len())
                    + labels@[j as int]@ + seq![',']);
            }
        }
        j += 1;
    }
    let ghost lv = labels_view(labels@);
    crate::text::push_char_vec(&mut out, &labels[k - 1]);
    out.push(')');
    proof {
        assert(lv.skip(k - 1).len() == 1);
        assert(lv.skip(k - 1)[0] == lv[k - 1]);
        assert(join_labels(lv.skip(k - 1)) == lv[k - 1] + seq![')']);
        assert(out@ =~= out@.subrange(0, out@.len() - 1 - labels@[k - 1]@.len()) + (lv[k - 1]
            + seq![')']));
    }
    out
}

/// Exec mirror of [`decode_path_spec`].
fn decode_path_exec(s: &Vec<char>) -> (r: Vec<char>)
    ensures
        r@ == decode_path_spec(s@),
{
    let mut cur = crate::text::replace_chars(s, &str_to_chars("%22"), &str_to_chars("\""));
    cur = crate::text::replace_chars(&cur, &str_to_chars("%2a"), &str_to_chars("*"));
    cur = crate::text::replace_chars(&cur, &str_to_chars("%5c"), &str_to_chars("\\"));
    cur = crate::text::replace_chars(&cur, &str_to_chars("%3c"), &str_to_chars("<"));
    cur = crate::text::replace_chars(&cur, &str_to_chars("%3e"), &str_to_chars(">"));
    cur = crate::text::replace_chars(&cur, &str_to_chars("%27"), &str_to_chars("'"));
    cur = crate::text::replace_chars(&cur, &str_to_chars("%7b"), &str_to_chars("{"));
    cur = crate::text::replace_chars(&cur, &str_to_chars("%7d"), &str_to_chars("}"));
    cur = crate::text::replace_chars(&cur, &str_to_chars("\n"), &str_to_chars("%0a"));
    cur = crate::text::replace_chars(&cur, &str_to_chars("//"), &str_to_chars("/"));
    cur
}

/// Exec mirror of [`decode_query_value_spec`].
fn decode_query_value_exec(s: &Vec<char>) -> (r: Vec<char>)
    ensures
        r@ == decode_query_value_spec(s@),
{
    let mut cur = crate::text::replace_chars(s, &str_to_chars("+"), &str_to_chars("%20"));
    cur = crate::text::replace_chars(&cur, &str_to_chars(" "), &str_to_chars("+"));
    cur = crate::text::replace_chars(&cur, &str_to_chars("\n"), &str_to_chars("%0a"));
    cur = crate::text::replace_chars(&cur, &str_to_chars("%5e"), &str_to_chars("^"));
    cur
}

impl Surt {
    /// The canonical key of a URL: fails with `UnexpectedUrl` unless the
    /// lowercased input parses as an http or https URL with a domain and no
    /// explicit port; the result reverses the domain labels (a leading `www`
    /// dropped), cleans the path structurally, and sorts any query pairs by
    /// key.
    #[verifier::rlimit(100)]
    #[verifier::loop_isolation(false)]
    pub fn from_url(input: &str) -> (r: Result<Surt, Error>)
        ensures
            match r {
                Ok(surt) => url_parse_of(lower_of(input@)) matches Some(u) && surt_of_parts(u)
                    == UrlOutcome::Built(surt@),
                Err(Error::InvalidUrl(t)) => t@ == input@ && url_parse_of(lower_of(input@)) is None,
                Err(Error::UnexpectedUrl(t)) => t@ == input@ && (url_parse_of(lower_of(input@))
                    matches Some(u) && surt_of_parts(u) is NotHttp),
                Err(Error::InvalidDomainPart(t)) => (url_parse_of(lower_of(input@)) matches Some(
                    u,
                ) && (surt_of_parts(u) matches UrlOutcome::Oversized(l) && t@ == l)),
                Err(_) => false,
            },
    {
        let lowered = lowercase_str(input);
        let parsed = match parse_http_url(lowered.as_str()) {
            Some(u) => u,
            None => {
                return Err(Error::InvalidUrl(input.to_owned()));
            },
        };
        let ghost u = parsed@;
        let scheme_ok = str_eq(parsed.scheme.as_str(), "http") || str_eq(
            parsed.scheme.as_str(),
            "https",
        );
        if !scheme_ok || parsed.has_port {
            return Err(Error::UnexpectedUrl(input.to_owned()));
        }
        let domain = match &parsed.domain {
            Some(d) => d,
            None => {
                return Err(Error::UnexpectedUrl(input.to_owned()));
            },
        };
        let dchars = str_to_chars(domain.as_str());
        let mut labels = split_dots_exec(&dchars);
        let www = str_to_chars("www");
        proof {
            reveal_strlit("www");
            assert(u.domain == Some(domain@));
            assert(labels_view(labels@) == split_dots(domain@));
        }
        let ghost labels0 = split_dots(domain@);
        let has_www = labels.len() > 0 && crate::text::chars_eq(&labels[0], &www);
        proof {
            if labels@.len() > 0 {
                assert(labels_view(labels@)[0] == labels@[0]@);
            }
            assert(has_www == (labels0.len() > 0 && labels0[0] == "www"@));
        }
        if has_www {
            let ghost before = labels_view(labels@);
            let _ = labels.remove(0);
            proof {
                assert(labels_view(labels@) =~= before.drop_first());
            }
        }
        let ghost kept = labels_view(labels@);
        proof {
            assert(kept == (if labels0.len() > 0 && labels0[0] == "www"@ {
                labels0.drop_first()
            } else {
                labels0
            }));
        }
        let mut rev: Vec<Vec<char>> = Vec::new();
        let mut j: usize = labels.len();
        while j > 0
            invariant
                0 <= j <= labels@.len(),
                kept == labels_view(labels@),
                rev@.len() == labels@.len() - j,
                forall|i: int| 0 <= i < rev@.len() ==> labels_view(rev@)[i] == kept[kept.len() - 1
                    - i],
            decreases j,
        {
            let ghost before = labels_view(rev@);
            let piece = crate::text::chars_slice(&labels[j - 1], 0, labels[j - 1].len());
            rev.push(piece);
            proof {
                assert(piece@ =~= labels@[j - 1]@);
                assert(labels_view(rev@) =~= before.push(labels@[j - 1]@));
            }
            j -= 1;
        }
        proof {
            assert(labels_view(rev@) =~= kept.reverse());
            assert(key_labels(u) == labels_view(rev@));
        }
        let ghost revv = labels_view(rev@);
        let mut lens: Vec<u8> = Vec::new();
        let mut i: usize = 0;
        while i < rev.len()
            invariant
                0 <= i <= rev@.len(),
                revv == labels_view(rev@),
                lens@.len() == i,
                forall|t: int| 0 <= t < i ==> #[trigger] revv[t].len() <= 255 && lens@[t]
                    == revv[t].len(),
            decreases rev@.len() - i,
        {
            let l = rev[i].len();
            if l > 255 {
                proof {
                    assert(labels_view(rev@)[i as int] == rev@[i as int]@);
                    lemma_first_long_at(revv, i as int);
                    assert(surt_of_parts(u) == UrlOutcome::Oversized(revv[i as int]));
                }
                return Err(Error::InvalidDomainPart(chars_to_string(&rev[i])));
            }
            lens.push(l as u8);
            i += 1;
        }
        proof {
            lemma_first_long_none(revv);
        }
        let mut out = join_labels_exec(&rev);
        let pchars = str_to_chars(parsed.path.as_str());
        let dp = decode_path_exec(&pchars);
        push_char_vec(&mut out, &dp);
        let ghost base = join_labels(revv) + decode_path_spec(u.path);
        proof {
            assert(out@ =~= base);
        }
        if out.len() > 0 {
            let last = out[out.len() - 1];
            if last == '/' {
                let _ = out.pop();
                proof {
                    assert(out@ =~= base.drop_last());
                }
            }
        }
        let ghost trimmed = if base.len() > 0 && base.last() == '/' {
            base.drop_last()
        } else {
            base
        };
        assert(out@ == trimmed);
        if parsed.query_pairs.len() > 0 {
            let sorted = sort_pairs_exec(&parsed.query_pairs);
            out.push('?');
            let ghost sortedv = pairs_view(sorted@);
            proof {
                assert(sortedv.skip(0) =~= sortedv);
                assert(out@ =~= trimmed + seq!['?']);
            }
            let mut q: usize = 0;
            while q < sorted.len()
                invariant
                    0 <= q <= sorted@.len(),
                    sorted@.len() >= 1,
                    sortedv == pairs_view(sorted@),
                    out@ + join_pairs(sortedv.skip(q as int)) == trimmed + seq!['?'] + join_pairs(
                        sortedv,
                    ),
                decreases sorted@.len() - q,
            {
                let ghost out_before = out@;
                let pair = &sorted[q];
                proof {
                    assert(sortedv[q as int] == (sorted@[q as int].0@, sorted@[q as int].1@));
                }
                push_chars(&mut out, pair.0.as_str());
                let vchars = str_to_chars(pair.1.as_str());
                if vchars.len() > 0 {
                    out.push('=');
                    let dv = decode_query_value_exec(&vchars);
                    push_char_vec(&mut out, &dv);
                    proof {
                        assert(out@ =~= out_before + (sortedv[q as int].0 + seq!['=']
                            + decode_query_value_spec(sortedv[q as int].1)));
                    }
                } else {
                    proof {
                        assert(sortedv[q as int].1.len() == 0);
                        assert(out@ =~= out_before + sortedv[q as int].0);
                    }
                }
                assert(out@ == out_before + render_pair(sortedv[q as int]));
                proof {
                    assert(sortedv.skip(q as int)[0] == sortedv[q as int]);
                    assert(sortedv.skip(q as int).drop_first() =~= sortedv.skip(q + 1));
                }
                if q + 1 < sorted.len() {
                    out.push('&');
                    proof {
                        assert(sortedv.skip(q as int).len() >= 2);
                        assert(join_pairs(sortedv.skip(q as int)) == render_pair(
                            sortedv[q as int],
                        ) + seq!['&'] + join_pairs(sortedv.skip(q + 1)));
                        assert(out@ + join_pairs(sortedv.skip(q + 1)) =~= out_before + join_pairs(
                            sortedv.skip(q as int),
                        ));
                    }
                } else {
                    proof {
                        assert(sortedv.skip(q as int).len() == 1);
                        assert(join_pairs(sortedv.skip(q as int)) == render_pair(
                            sortedv[q as int],
                        ));
                        assert(sortedv.skip(q + 1) =~= Seq::<(Seq<char>, Seq<char>)>::empty());
                        assert(out@ + join_pairs(sortedv.skip(q + 1)) =~= out_before + join_pairs(
                            sortedv.skip(q as int),
                        ));
                    }
                }
                q += 1;
            }
            proof {
                assert(sortedv.skip(sorted@.len() as int) =~= Seq::<(Seq<char>, Seq<char>)>::empty());
                assert(out@ + Seq::<char>::empty() =~= out@);
            }
            proof {
                assert(query_text(u.query_pairs) == seq!['?'] + join_pairs(sort_pairs(
                    u.query_pairs,
                )));
                assert(out@ =~= trimmed + query_text(u.query_pairs));
            }
        } else {
            proof {
                assert(query_text(u.query_pairs) =~= Seq::<char>::empty());
                assert(out@ =~= trimmed + query_text(u.query_pairs));
            }
        }
        let surt = Surt { source: chars_to_string(&out), domain_name_part_lens: lens };
        proof {
            assert(surt@.lens =~= revv.map_values(|l: Seq<char>| l.len() as u8));
            assert(surt_of_parts(u) == UrlOutcome::Built(surt@)) by {
                assert(surt@ =~= (SurtModel {
                    source: trimmed + query_text(u.query_pairs),
                    lens: revv.map_values(|l: Seq<char>| l.len() as u8),
                }));
            }
        }
        Ok(surt)
    }
}

} // verus!

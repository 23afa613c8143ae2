//! MIME types as they appear in CDX index results: a closed set of the two
//! values the pipeline routes on, with everything else kept verbatim.

use vstd::prelude::*;

verus! {

/// A MIME type column value.
#[derive(Clone, Debug, PartialEq, Eq, PartialOrd, Ord, Hash)]
pub enum MimeType {
    TextHtml,
    ApplicationJson,
    Other(String),
}

/// The mathematical value of a [`MimeType`].
pub enum MimeTypeModel {
    TextHtml,
    ApplicationJson,
    Other(Seq<char>),
}

impl View for MimeType {
    type V = MimeTypeModel;

    open spec fn view(&self) -> MimeTypeModel {
        match self {
            MimeType::TextHtml => MimeTypeModel::TextHtml,
            MimeType::ApplicationJson => MimeTypeModel::ApplicationJson,
            MimeType::Other(s) => MimeTypeModel::Other(s@),
        }
    }
}

/// The MIME type denoted by column text.
pub open spec fn mime_type_of_chars(s: Seq<char>) -> MimeTypeModel {
    if s == "text/html"@ {
        MimeTypeModel::TextHtml
    } else if s == "application/json"@ {
        MimeTypeModel::ApplicationJson
    } else {
        MimeTypeModel::Other(s)
    }
}

/// The text of a MIME type value.
pub open spec fn mime_type_chars(m: MimeTypeModel) -> Seq<char> {
    match m {
        MimeTypeModel::TextHtml => "text/html"@,
        MimeTypeModel::ApplicationJson => "application/json"@,
        MimeTypeModel::Other(s) => s,
    }
}

impl MimeType {
    /// The text of the MIME type.
    pub fn as_str(&self) -> (r: &str)
        ensures
            r@ == mime_type_chars(self@),
    {
        match self {
            MimeType::TextHtml => "text/html",
            MimeType::ApplicationJson => "application/json",
            MimeType::Other(value) => value.as_str(),
        }
    }

    /// Classifies MIME type text. Never fails: unknown values are kept
    /// verbatim.
    pub fn parse_str(input: &str) -> (r: MimeType)
        ensures
            r@ == mime_type_of_chars(input@),
    {
        let text_html: &str = "text/html";
        let application_json: &str = "application/json";
        if str_eq(input, text_html) {
            MimeType::TextHtml
        } else if str_eq(input, application_json) {
            MimeType::ApplicationJson
        } else {
            MimeType::Other(input.to_owned())
        }
    }

    /// The value as an owned record; ownership is already plain here, so
    /// this is the value itself.
    pub fn into_owned(self) -> (r: MimeType)
        ensures
            r@ == self@,
    {
        self
    }

    /// Whether this is the `application/json` value.
    pub fn is_application_json(&self) -> (r: bool)
        ensures
            r == (self@ is ApplicationJson),
    {
        match self {
            MimeType::ApplicationJson => true,
            _ => false,
        }
    }
}

/// The text of a classified MIME type value is the input text, so
/// classification is lossless, and classifying the text of a classified value
/// gives the value back.
pub proof fn lemma_mime_type_round_trip(s: Seq<char>)
    ensures
        mime_type_chars(mime_type_of_chars(s)) == s,
        mime_type_of_chars(mime_type_chars(mime_type_of_chars(s))) == mime_type_of_chars(s),
{
}

/// Character-wise string equality.
pub fn str_eq(a: &str, b: &str) -> (r: bool)
    ensures
        r == (a@ == b@),
{
    let a_chars = crate::text::str_to_chars(a);
    let b_chars = crate::text::str_to_chars(b);
    if a_chars.len() != b_chars.len() {
        return false;
    }
    let mut i: usize = 0;
    while i < a_chars.len()
        invariant
            i <= a_chars@.len(),
            a_chars@.len() == b_chars@.len(),
            a_chars@ == a@,
            b_chars@ == b@,
            forall|j: int| 0 <= j < i ==> a@[j] == b@[j],
        decreases a_chars@.len() - i,
    {
        if a_chars[i] != b_chars[i] {
            assert(a@[i as int] != b@[i as int]);
            return false;
        }
        i += 1;
    }
    assert(a@ =~= b@);
    true
}

} // verus!

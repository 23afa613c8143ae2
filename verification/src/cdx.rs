//! The streaming CDX index-result codec.
//!
//! A CDX page is an outer array whose first element is a header row fixing the
//! schema (7-column short form or 11-column extended form), followed by data
//! rows of exactly that column count; a zero-length row is a sentinel meaning
//! no more rows follow, and then exactly one more element must hold the
//! opaque resumption key. An entirely empty page decodes to an empty result.

use crate::digest::{digest_of_text, Digest, DigestModel};
use crate::item::{ItemInfo, UrlParts};
use crate::mime_type::{mime_type_of_chars, str_eq, MimeType, MimeTypeModel};
use crate::status_code::StatusCode;
use crate::surt::{surt_lens_of, ScanOutcome, Surt, SurtModel};
use crate::text::{parse_u64, str_to_chars, u64_of_chars};
use crate::timestamp::{timestamp_of_chars, Timestamp};
use vstd::prelude::*;

verus! {

/// Errors of CDX page decoding.
#[derive(Clone, Debug, PartialEq, Eq)]
pub enum Error {
    /// Input that is not an outer array of string arrays.
    Json,
    /// A first element that is neither of the two fixed header rows.
    InvalidHeader,
    /// A data row that does not match the header's schema, with its index in
    /// the outer array.
    InvalidRow(usize),
    /// A sentinel with no one-element resumption wrapper after it.
    MissingResumeKey,
    /// Elements after the resumption key.
    TrailingData,
}

/// The schema fixed by a page's header row.
#[derive(Clone, Copy, Debug, PartialEq, Eq, Structural)]
pub enum HeaderKind {
    Normal,
    Extended,
}

/// The extended-schema tail of an entry.
#[derive(Clone, Debug, PartialEq, Eq)]
pub struct ExtendedInfo {
    pub redirect: Option<String>,
    pub robot_flags: Option<String>,
    pub offset: u64,
    pub file_name: String,
}

/// The mathematical value of an [`ExtendedInfo`].
#[verifier::ext_equal]
pub struct ExtendedInfoModel {
    pub redirect: Option<Seq<char>>,
    pub robot_flags: Option<Seq<char>>,
    pub offset: u64,
    pub file_name: Seq<char>,
}

impl View for ExtendedInfo {
    type V = ExtendedInfoModel;

    open spec fn view(&self) -> ExtendedInfoModel {
        ExtendedInfoModel {
            redirect: match self.redirect {
                Some(r) => Some(r@),
                None => None,
            },
            robot_flags: match self.robot_flags {
                Some(r) => Some(r@),
                None => None,
            },
            offset: self.offset,
            file_name: self.file_name@,
        }
    }
}

/// One decoded CDX row.
#[derive(Clone, Debug, PartialEq, Eq)]
pub struct Entry {
    pub key: Surt,
    pub timestamp: Timestamp,
    pub original: String,
    pub mime_type: MimeType,
    pub status_code: StatusCode,
    pub digest: Digest,
    pub length: Option<u64>,
    pub extended_info: Option<ExtendedInfo>,
}

/// The mathematical value of an [`Entry`].
#[verifier::ext_equal]
pub struct EntryModel {
    pub key: SurtModel,
    pub timestamp: Timestamp,
    pub original: Seq<char>,
    pub mime_type: MimeTypeModel,
    pub status_code: StatusCode,
    pub digest: DigestModel,
    pub length: Option<u64>,
    pub extended_info: Option<ExtendedInfoModel>,
}

impl View for Entry {
    type V = EntryModel;

    open spec fn view(&self) -> EntryModel {
        EntryModel {
            key: self.key@,
            timestamp: self.timestamp,
            original: self.original@,
            mime_type: self.mime_type@,
            status_code: self.status_code,
            digest: self.digest@,
            length: self.length,
            extended_info: match self.extended_info {
                Some(e) => Some(e@),
                None => None,
            },
        }
    }
}

impl Entry {
    /// The identity of the captured item: its URL parts and claimed digest.
    pub fn entry_info(&self) -> (r: ItemInfo)
        ensures
            r.url_parts@.url == self@.original,
            r.url_parts@.timestamp == self@.timestamp,
            r.expected_digest@ == self@.digest,
    {
        ItemInfo {
            url_parts: UrlParts { url: self.original.clone(), timestamp: self.timestamp },
            expected_digest: self.digest.clone_value(),
        }
    }
}

impl Digest {
    /// A copy of the digest value.
    pub fn clone_value(&self) -> (r: Digest)
        ensures
            r@ == self@,
    {
        match self {
            Digest::Valid(d) => Digest::Valid(*d),
            Digest::Invalid(t) => Digest::Invalid(t.clone()),
        }
    }
}

/// A decoded CDX page: the rows in input order, the schema its header fixed,
/// and the resumption key when the page ended with the sentinel.
#[derive(Clone, Debug, PartialEq, Eq)]
pub struct EntryList {
    pub values: Vec<Entry>,
    pub header: Option<HeaderKind>,
    pub resume_key: Option<String>,
}

/// The mathematical value of an [`EntryList`].
#[verifier::ext_equal]
pub struct EntryListModel {
    pub values: Seq<EntryModel>,
    pub header: Option<HeaderKind>,
    pub resume_key: Option<Seq<char>>,
}

impl View for EntryList {
    type V = EntryListModel;

    open spec fn view(&self) -> EntryListModel {
        EntryListModel {
            values: self.values@.map_values(|e: Entry| e@),
            header: self.header,
            resume_key: match self.resume_key {
                Some(k) => Some(k@),
                None => None,
            },
        }
    }
}

/// The view of the outer array: each row as a sequence of column texts.
pub open spec fn rows_view(rows: Seq<Vec<String>>) -> Seq<Seq<Seq<char>>> {
    rows.map_values(|r: Vec<String>| r@.map_values(|s: String| s@))
}

/// The column names of the 7-column short schema, in order.
pub open spec fn normal_header() -> Seq<Seq<char>> {
    seq!["urlkey"@, "timestamp"@, "original"@, "mimetype"@, "statuscode"@, "digest"@, "length"@]
}

/// The column names of the 11-column extended schema, in order.
pub open spec fn extended_header() -> Seq<Seq<char>> {
    seq![
        "urlkey"@,
        "timestamp"@,
        "original"@,
        "mimetype"@,
        "statuscode"@,
        "digest"@,
        "redirect"@,
        "robotflags"@,
        "length"@,
        "offset"@,
        "filename"@,
    ]
}

/// The schema of a header row, when it exactly equals one of the two fixed
/// token lists.
pub open spec fn header_of(row: Seq<Seq<char>>) -> Option<HeaderKind> {
    if row == normal_header() {
        Some(HeaderKind::Normal)
    } else if row == extended_header() {
        Some(HeaderKind::Extended)
    } else {
        None
    }
}

/// An absent column: the literal `-`.
pub open spec fn is_dash(s: Seq<char>) -> bool {
    s == "-"@
}

/// An optional column value: `-` denotes absence.
pub open spec fn dash_opt(s: Seq<char>) -> Option<Seq<char>> {
    if is_dash(s) {
        None
    } else {
        Some(s)
    }
}

/// An optional length column: `-` denotes absence, anything else must be an
/// unsigned decimal.
pub open spec fn dash_u64(s: Seq<char>) -> Option<Option<u64>> {
    if is_dash(s) {
        Some(None)
    } else {
        match u64_of_chars(s) {
            Some(v) => Some(Some(v)),
            None => None,
        }
    }
}

/// The SURT key of a column's text.
pub open spec fn surt_of_column(s: Seq<char>) -> Option<SurtModel> {
    match surt_lens_of(s) {
        ScanOutcome::Labels(lens) => Some(SurtModel { source: s, lens }),
        _ => None,
    }
}

/// The entry denoted by a data row under a schema, decoded in column order:
/// key, timestamp, original URL, MIME type, status code, digest, and the
/// schema's tail.
pub open spec fn entry_of_row(row: Seq<Seq<char>>, h: HeaderKind) -> Option<EntryModel> {
    let cols: int = if h is Normal {
        7
    } else {
        11
    };
    if row.len() != cols {
        None
    } else {
        match (surt_of_column(row[0]), timestamp_of_chars(row[1]), StatusCode::of_chars(row[4])) {
            (Some(key), Some(timestamp), Some(status_code)) => {
                let base = EntryModel {
                    key,
                    timestamp,
                    original: row[2],
                    mime_type: mime_type_of_chars(row[3]),
                    status_code,
                    digest: digest_of_text(row[5]),
                    length: None,
                    extended_info: None,
                };
                if h is Normal {
                    match dash_u64(row[6]) {
                        Some(length) => Some(EntryModel { length, ..base }),
                        None => None,
                    }
                } else {
                    match (dash_u64(row[8]), u64_of_chars(row[9])) {
                        (Some(length), Some(offset)) => Some(
                            EntryModel {
                                length,
                                extended_info: Some(
                                    ExtendedInfoModel {
                                        redirect: dash_opt(row[6]),
                                        robot_flags: dash_opt(row[7]),
                                        offset,
                                        file_name: row[10],
                                    },
                                ),
                                ..base
                            },
                        ),
                        _ => None,
                    }
                }
            },
            _ => None,
        }
    }
}

/// The outcome of decoding a page's rows.
pub enum DecodeOutcome {
    /// A decoded page.
    Decoded(EntryListModel),
    /// The first element is neither fixed header row.
    BadHeader,
    /// The row at this index does not match the schema.
    BadRow(int),
    /// A sentinel with no one-element resumption wrapper after it.
    NoResumeKey,
    /// Elements after the resumption key.
    Trailing,
}

/// The header-to-sentinel state machine over the rows from index `i` on.
pub open spec fn decode_body(
    rows: Seq<Seq<Seq<char>>>,
    i: int,
    h: HeaderKind,
    acc: Seq<EntryModel>,
) -> DecodeOutcome
    decreases rows.len() - i,
{
    if i < 0 || i >= rows.len() {
        DecodeOutcome::Decoded(
            EntryListModel { values: acc, header: Some(h), resume_key: None },
        )
    } else if rows[i].len() == 0 {
        if rows.len() < i + 2 || rows[i + 1].len() != 1 {
            DecodeOutcome::NoResumeKey
        } else if rows.len() > i + 2 {
            DecodeOutcome::Trailing
        } else {
            DecodeOutcome::Decoded(
                EntryListModel { values: acc, header: Some(h), resume_key: Some(rows[i + 1][0]) },
            )
        }
    } else {
        match entry_of_row(rows[i], h) {
            None => DecodeOutcome::BadRow(i),
            Some(e) => decode_body(rows, i + 1, h, acc.push(e)),
        }
    }
}

/// The decode of a whole page: an empty page is an empty result; otherwise
/// the first row must be a header, and the rest runs the state machine.
pub open spec fn decode_rows_spec(rows: Seq<Seq<Seq<char>>>) -> DecodeOutcome {
    if rows.len() == 0 {
        DecodeOutcome::Decoded(
            EntryListModel { values: Seq::empty(), header: None, resume_key: None },
        )
    } else {
        match header_of(rows[0]) {
            None => DecodeOutcome::BadHeader,
            Some(h) => decode_body(rows, 1, h, Seq::empty()),
        }
    }
}

/// Exec check of a header row against a schema's token list.
fn check_header(row: &Vec<String>) -> (r: Option<HeaderKind>)
    ensures
        r == header_of(row@.map_values(|s: String| s@)),
{
    let ghost rv = row@.map_values(|s: String| s@);
    proof {
        reveal_strlit("urlkey");
        reveal_strlit("timestamp");
        reveal_strlit("original");
        reveal_strlit("mimetype");
        reveal_strlit("statuscode");
        reveal_strlit("digest");
        reveal_strlit("length");
        reveal_strlit("redirect");
        reveal_strlit("robotflags");
        reveal_strlit("offset");
        reveal_strlit("filename");
        assert(forall|i: int| 0 <= i < row@.len() ==> rv[i] == #[trigger] row@[i]@);
    }
    if row.len() == 7 {
        let ok = str_eq(row[0].as_str(), "urlkey") && str_eq(row[1].as_str(), "timestamp")
            && str_eq(row[2].as_str(), "original") && str_eq(row[3].as_str(), "mimetype") && str_eq(
            row[4].as_str(),
            "statuscode",
        ) && str_eq(row[5].as_str(), "digest") && str_eq(row[6].as_str(), "length");
        if ok {
            assert(rv =~= normal_header());
            proof {
                assert(rv.len() != extended_header().len());
            }
            Some(HeaderKind::Normal)
        } else {
            proof {
                if rv == normal_header() {
                    assert(rv[0] == "urlkey"@ && rv[1] == "timestamp"@ && rv[2] == "original"@
                        && rv[3] == "mimetype"@ && rv[4] == "statuscode"@ && rv[5] == "digest"@
                        && rv[6] == "length"@);
                }
                assert(rv.len() != extended_header().len());
            }
            None
        }
    } else if row.len() == 11 {
        let ok = str_eq(row[0].as_str(), "urlkey") && str_eq(row[1].as_str(), "timestamp")
            && str_eq(row[2].as_str(), "original") && str_eq(row[3].as_str(), "mimetype") && str_eq(
            row[4].as_str(),
            "statuscode",
        ) && str_eq(row[5].as_str(), "digest") && str_eq(row[6].as_str(), "redirect") && str_eq(
            row[7].as_str(),
            "robotflags",
        ) && str_eq(row[8].as_str(), "length") && str_eq(row[9].as_str(), "offset") && str_eq(
            row[10].as_str(),
            "filename",
        );
        if ok {
            assert(rv =~= extended_header());
            proof {
                assert(rv.len() != normal_header().len());
            }
            Some(HeaderKind::Extended)
        } else {
            proof {
                if rv == extended_header() {
                    assert(rv[0] == "urlkey"@ && rv[1] == "timestamp"@ && rv[2] == "original"@
                        && rv[3] == "mimetype"@ && rv[4] == "statuscode"@ && rv[5] == "digest"@
                        && rv[6] == "redirect"@ && rv[7] == "robotflags"@ && rv[8] == "length"@
                        && rv[9] == "offset"@ && rv[10] == "filename"@);
                }
                assert(rv.len() != normal_header().len());
            }
            None
        }
    } else {
        proof {
            assert(rv.len() == row@.len());
            assert(rv.len() != normal_header().len() && rv.len() != extended_header().len());
        }
        None
    }
}

/// Exec check of the `-` absence marker.
fn is_dash_exec(s: &String) -> (r: bool)
    ensures
        r == is_dash(s@),
{
    proof {
        reveal_strlit("-");
    }
    str_eq(s.as_str(), "-")
}

/// Exec decode of an optional length column.
fn parse_dash_u64(s: &String) -> (r: Option<Option<u64>>)
    ensures
        r == dash_u64(s@),
{
    if is_dash_exec(s) {
        Some(None)
    } else {
        let chars = str_to_chars(s.as_str());
        match parse_u64(&chars) {
            Some(v) => Some(Some(v)),
            None => None,
        }
    }
}

/// Exec decode of one data row under a schema.
fn parse_row(row: &Vec<String>, h: HeaderKind) -> (r: Option<Entry>)
    ensures
        match r {
            Some(e) => entry_of_row(row@.map_values(|s: String| s@), h) == Some(e@),
            None => entry_of_row(row@.map_values(|s: String| s@), h) is None,
        },
{
    let ghost rv = row@.map_values(|s: String| s@);
    proof {
        assert(forall|i: int| 0 <= i < row@.len() ==> rv[i] == #[trigger] row@[i]@);
    }
    let cols: usize = match h {
        HeaderKind::Normal => 7,
        HeaderKind::Extended => 11,
    };
    if row.len() != cols {
        return None;
    }
    let key = match Surt::parse_str(row[0].as_str()) {
        Ok(k) => k,
        Err(_) => {
            return None;
        },
    };
    let timestamp = match Timestamp::parse_str(row[1].as_str()) {
        Ok(t) => t,
        Err(_) => {
            return None;
        },
    };
    let status_code = match StatusCode::parse_str(row[4].as_str()) {
        Ok(c) => c,
        Err(_) => {
            return None;
        },
    };
    let mime_type = MimeType::parse_str(row[3].as_str());
    let digest = Digest::parse_str(row[5].as_str());
    let original = row[2].clone();
    match h {
        HeaderKind::Normal => {
            let length = match parse_dash_u64(&row[6]) {
                Some(l) => l,
                None => {
                    return None;
                },
            };
            Some(
                Entry {
                    key,
                    timestamp,
                    original,
                    mime_type,
                    status_code,
                    digest,
                    length,
                    extended_info: None,
                },
            )
        },
        HeaderKind::Extended => {
            let length = match parse_dash_u64(&row[8]) {
                Some(l) => l,
                None => {
                    return None;
                },
            };
            let offset_chars = str_to_chars(row[9].as_str());
            let offset = match parse_u64(&offset_chars) {
                Some(o) => o,
                None => {
                    return None;
                },
            };
            let redirect = if is_dash_exec(&row[6]) {
                None
            } else {
                Some(row[6].clone())
            };
            let robot_flags = if is_dash_exec(&row[7]) {
                None
            } else {
                Some(row[7].clone())
            };
            Some(
                Entry {
                    key,
                    timestamp,
                    original,
                    mime_type,
                    status_code,
                    digest,
                    length,
                    extended_info: Some(
                        ExtendedInfo {
                            redirect,
                            robot_flags,
                            offset,
                            file_name: row[10].clone(),
                        },
                    ),
                },
            )
        },
    }
}

impl EntryList {
    /// Decodes a page given as rows of column texts, preserving input row
    /// order.
    #[verifier::loop_isolation(false)]
    pub fn decode_rows(rows: &Vec<Vec<String>>) -> (r: Result<EntryList, Error>)
        ensures
            match r {
                Ok(list) => decode_rows_spec(rows_view(rows@)) == DecodeOutcome::Decoded(list@),
                Err(Error::InvalidHeader) => decode_rows_spec(rows_view(rows@)) is BadHeader,
                Err(Error::InvalidRow(i)) => decode_rows_spec(rows_view(rows@))
                    == DecodeOutcome::BadRow(i as int),
                Err(Error::MissingResumeKey) => decode_rows_spec(rows_view(rows@)) is NoResumeKey,
                Err(Error::TrailingData) => decode_rows_spec(rows_view(rows@)) is Trailing,
                Err(Error::Json) => false,
            },
    {
        let ghost rv = rows_view(rows@);
        proof {
            assert(forall|i: int| 0 <= i < rows@.len() ==> #[trigger] rv[i] == rows@[i]@.map_values(
                |s: String| s@,
            ));
        }
        let n = rows.len();
        if n == 0 {
            let list = EntryList { values: Vec::new(), header: None, resume_key: None };
            proof {
                assert(list@.values =~= Seq::<EntryModel>::empty());
                assert(decode_rows_spec(rv) == DecodeOutcome::Decoded(list@)) by {
                    assert(list@ =~= (EntryListModel {
                        values: Seq::empty(),
                        header: None,
                        resume_key: None,
                    }));
                }
            }
            return Ok(list);
        }
        let h = match check_header(&rows[0]) {
            Some(h) => h,
            None => {
                proof {
                    assert(rv[0] == rows@[0]@.map_values(|s: String| s@));
                }
                return Err(Error::InvalidHeader);
            },
        };
        proof {
            assert(rv[0] == rows@[0]@.map_values(|s: String| s@));
            assert(decode_rows_spec(rv) == decode_body(rv, 1, h, Seq::empty()));
        }
        let mut values: Vec<Entry> = Vec::new();
        let mut i: usize = 1;
        proof {
            assert(values@.map_values(|e: Entry| e@) =~= Seq::<EntryModel>::empty());
        }
        while i < n
            invariant
                1 <= i <= n,
                decode_body(rv, 1, h, Seq::empty()) == decode_body(
                    rv,
                    i as int,
                    h,
                    values@.map_values(|e: Entry| e@),
                ),
            decreases n - i,
        {
            proof {
                assert(rv[i as int] == rows@[i as int]@.map_values(|s: String| s@));
            }
            if rows[i].len() == 0 {
                // sentinel: exactly one more element, the resumption wrapper
                if n - i < 2 {
                    return Err(Error::MissingResumeKey);
                }
                proof {
                    assert(rv[i + 1 as int] == rows@[i + 1 as int]@.map_values(|s: String| s@));
                }
                if rows[i + 1].len() != 1 {
                    return Err(Error::MissingResumeKey);
                }
                if n - i > 2 {
                    return Err(Error::TrailingData);
                }
                let key = rows[i + 1][0].clone();
                proof {
                    assert(rv[i + 1 as int][0] == rows@[i + 1 as int]@[0]@);
                }
                let list = EntryList { values, header: Some(h), resume_key: Some(key) };
                proof {
                    assert(decode_body(
                        rv,
                        i as int,
                        h,
                        list.values@.map_values(|e: Entry| e@),
                    ) == DecodeOutcome::Decoded(list@)) by {
                        assert(list@ =~= (EntryListModel {
                            values: list.values@.map_values(|e: Entry| e@),
                            header: Some(h),
                            resume_key: Some(rv[i + 1 as int][0]),
                        }));
                    }
                }
                return Ok(list);
            }
            let entry = match parse_row(&rows[i], h) {
                Some(e) => e,
                None => {
                    return Err(Error::InvalidRow(i));
                },
            };
            let ghost before = values@.map_values(|e: Entry| e@);
            values.push(entry);
            proof {
                assert(values@.map_values(|e: Entry| e@) =~= before.push(entry@));
            }
            i += 1;
        }
        proof {
            assert(decode_body(rv, n as int, h, values@.map_values(|e: Entry| e@))
                == DecodeOutcome::Decoded(
                EntryListModel {
                    values: values@.map_values(|e: Entry| e@),
                    header: Some(h),
                    resume_key: None,
                },
            ));
        }
        let list = EntryList { values, header: Some(h), resume_key: None };
        Ok(list)
    }
}


/// Whether text is an outer JSON array of string arrays, and its rows: a
/// function of the text alone.
pub uninterp spec fn json_string_rows_of(s: Seq<char>) -> Option<Seq<Seq<Seq<char>>>>;

/// Relies on `serde_json::from_str::<Vec<Vec<String>>>`: the parse outcome is
/// a function of the input text alone.
#[verifier::external_body]
fn json_rows(input: &str) -> (r: Option<Vec<Vec<String>>>)
    ensures
        match r {
            Some(rows) => json_string_rows_of(input@) == Some(rows_view(rows@)),
            None => json_string_rows_of(input@) is None,
        },
{
    serde_json::from_str::<Vec<Vec<String>>>(input).ok()
}

impl EntryList {
    /// Decodes a CDX page given as its JSON text.
    pub fn decode_str(input: &str) -> (r: Result<EntryList, Error>)
        ensures
            match r {
                Ok(list) => json_string_rows_of(input@) matches Some(rows) && decode_rows_spec(
                    rows,
                ) == DecodeOutcome::Decoded(list@),
                Err(Error::Json) => json_string_rows_of(input@) is None,
                Err(Error::InvalidHeader) => json_string_rows_of(input@) matches Some(rows)
                    && decode_rows_spec(rows) is BadHeader,
                Err(Error::InvalidRow(i)) => json_string_rows_of(input@) matches Some(rows)
                    && decode_rows_spec(rows) == DecodeOutcome::BadRow(i as int),
                Err(Error::MissingResumeKey) => json_string_rows_of(input@) matches Some(rows)
                    && decode_rows_spec(rows) is NoResumeKey,
                Err(Error::TrailingData) => json_string_rows_of(input@) matches Some(rows)
                    && decode_rows_spec(rows) is Trailing,
            },
    {
        match json_rows(input) {
            Some(rows) => EntryList::decode_rows(&rows),
            None => Err(Error::Json),
        }
    }
}

/// One decoded short-schema CDX row.
#[derive(Clone, Debug, PartialEq, Eq)]
pub struct Item {
    pub key: Surt,
    pub timestamp: Timestamp,
    pub original: String,
    pub mime_type: MimeType,
    pub status_code: StatusCode,
    pub digest: Digest,
    pub length: Option<u32>,
}

/// The mathematical value of an [`Item`].
#[verifier::ext_equal]
pub struct ItemModel {
    pub key: SurtModel,
    pub timestamp: Timestamp,
    pub original: Seq<char>,
    pub mime_type: MimeTypeModel,
    pub status_code: StatusCode,
    pub digest: DigestModel,
    pub length: Option<u32>,
}

impl View for Item {
    type V = ItemModel;

    open spec fn view(&self) -> ItemModel {
        ItemModel {
            key: self.key@,
            timestamp: self.timestamp,
            original: self.original@,
            mime_type: self.mime_type@,
            status_code: self.status_code,
            digest: self.digest@,
            length: self.length,
        }
    }
}

impl Item {
    /// The value as an owned record; ownership is already plain here, so
    /// this is the value itself.
    pub fn into_owned(self) -> (r: Item)
        ensures
            r@ == self@,
    {
        self
    }

    /// The identity of the captured item: its URL parts and claimed digest.
    pub fn entry_info(&self) -> (r: ItemInfo)
        ensures
            r.url_parts@.url == self@.original,
            r.url_parts@.timestamp == self@.timestamp,
            r.expected_digest@ == self@.digest,
    {
        ItemInfo {
            url_parts: UrlParts { url: self.original.clone(), timestamp: self.timestamp },
            expected_digest: self.digest.clone_value(),
        }
    }
}

/// The short-schema item of an entry, when its length fits the narrower
/// column type.
pub open spec fn item_of_entry(e: EntryModel) -> Option<ItemModel> {
    let length = match e.length {
        Some(v) => if v > u32::MAX {
            None
        } else {
            Some(Some(v as u32))
        },
        None => Some(None),
    };
    match length {
        None => None,
        Some(length) => Some(
            ItemModel {
                key: e.key,
                timestamp: e.timestamp,
                original: e.original,
                mime_type: e.mime_type,
                status_code: e.status_code,
                digest: e.digest,
                length,
            },
        ),
    }
}

/// The short-schema items of a page's entries, or the index of the first
/// entry whose length does not fit.
pub open spec fn items_of_entries(es: Seq<EntryModel>) -> Result<Seq<ItemModel>, int>
    decreases es.len(),
{
    if es.len() == 0 {
        Ok(Seq::empty())
    } else {
        match items_of_entries(es.drop_last()) {
            Err(i) => Err(i),
            Ok(prefix) => match item_of_entry(es.last()) {
                None => Err(es.len() - 1),
                Some(it) => Ok(prefix.push(it)),
            },
        }
    }
}

/// A decoded short-schema CDX page.
#[derive(Clone, Debug, PartialEq, Eq)]
pub struct ItemList {
    pub values: Vec<Item>,
    pub resume_key: Option<String>,
}

impl ItemList {
    /// What a successful short-schema decode of `rows` produced.
    pub open spec fn decoded_from(rows: Seq<Seq<Seq<char>>>, list: &ItemList) -> bool {
        &&& decode_rows_spec(rows) matches DecodeOutcome::Decoded(l) && l.header != Some(
            HeaderKind::Extended,
        ) && items_of_entries(l.values) == Ok::<_, int>(
            list.values@.map_values(|it: Item| it@),
        ) && (match list.resume_key {
            Some(k) => l.resume_key == Some(k@),
            None => l.resume_key is None,
        })
    }

    /// Which rows a short-schema decode refuses, by error.
    pub open spec fn refused_from(rows: Seq<Seq<Seq<char>>>, e: Error) -> bool {
        match e {
            Error::InvalidHeader => decode_rows_spec(rows) is BadHeader || (decode_rows_spec(rows)
                matches DecodeOutcome::Decoded(l) && l.header == Some(HeaderKind::Extended)),
            Error::InvalidRow(i) => decode_rows_spec(rows) == DecodeOutcome::BadRow(i as int) || (
            decode_rows_spec(rows) matches DecodeOutcome::Decoded(l) && items_of_entries(l.values)
                == Err::<Seq<ItemModel>, _>(i as int)),
            Error::MissingResumeKey => decode_rows_spec(rows) is NoResumeKey,
            Error::TrailingData => decode_rows_spec(rows) is Trailing,
            Error::Json => false,
        }
    }

    /// Decodes a short-schema page given as rows of column texts: an extended
    /// header is refused.
    #[verifier::loop_isolation(false)]
    pub fn decode_rows(rows: &Vec<Vec<String>>) -> (r: Result<ItemList, Error>)
        ensures
            match r {
                Ok(list) => Self::decoded_from(rows_view(rows@), &list),
                Err(e) => Self::refused_from(rows_view(rows@), e),
            },
    {
        let list = match EntryList::decode_rows(rows) {
            Ok(list) => list,
            Err(e) => {
                return Err(e);
            },
        };
        match list.header {
            Some(HeaderKind::Extended) => {
                return Err(Error::InvalidHeader);
            },
            _ => {
            },
        }
        let mut values: Vec<Item> = Vec::new();
        let mut i: usize = 0;
        let n = list.values.len();
        proof {
            assert(list@.values.take(0) =~= Seq::<EntryModel>::empty());
            assert(values@.map_values(|it: Item| it@) =~= Seq::<ItemModel>::empty());
        }
        while i < n
            invariant
                0 <= i <= n,
                n == list.values@.len(),
                list@.values.len() == n,
                forall|j: int| 0 <= j < n ==> list@.values[j] == #[trigger] list.values@[j]@,
                items_of_entries(list@.values.take(i as int)) == Ok::<_, int>(
                    values@.map_values(|it: Item| it@),
                ),
            decreases n - i,
        {
            let entry = &list.values[i];
            let length: Option<u32> = match entry.length {
                Some(v) => {
                    if v > u32::MAX as u64 {
                        proof {
                            assert(item_of_entry(list@.values[i as int]) is None);
                            lemma_items_err(list@.values, i as int);
                        }
                        return Err(Error::InvalidRow(i));
                    } else {
                        Some(v as u32)
                    }
                },
                None => None,
            };
            let item = Item {
                key: entry.key.clone_key(),
                timestamp: entry.timestamp,
                original: entry.original.clone(),
                mime_type: entry.mime_type.clone_value(),
                status_code: entry.status_code,
                digest: entry.digest.clone_value(),
                length,
            };
            let ghost before = values@.map_values(|it: Item| it@);
            proof {
                assert(item@ =~= item_of_entry(list@.values[i as int]).unwrap());
            }
            values.push(item);
            proof {
                assert(list@.values.take(i + 1 as int).drop_last() =~= list@.values.take(i as int));
                assert(values@.map_values(|it: Item| it@) =~= before.push(item@));
            }
            i += 1;
        }
        proof {
            assert(list@.values.take(n as int) =~= list@.values);
        }
        Ok(ItemList { values, resume_key: list.resume_key })
    }

    /// Decodes a short-schema page given as its JSON text.
    pub fn decode_str(input: &str) -> (r: Result<ItemList, Error>)
        ensures
            match r {
                Ok(list) => json_string_rows_of(input@) matches Some(rows) && Self::decoded_from(
                    rows,
                    &list,
                ),
                Err(Error::Json) => json_string_rows_of(input@) is None,
                Err(e) => json_string_rows_of(input@) matches Some(rows) && Self::refused_from(
                    rows,
                    e,
                ),
            },
    {
        match json_rows(input) {
            Some(rows) => ItemList::decode_rows(&rows),
            None => Err(Error::Json),
        }
    }
}

proof fn lemma_items_err(es: Seq<EntryModel>, i: int)
    requires
        0 <= i < es.len(),
        items_of_entries(es.take(i)) is Ok,
        item_of_entry(es[i]) is None,
    ensures
        forall|m: int| i < m <= es.len() ==> items_of_entries(#[trigger] es.take(m)) == Err::<
            Seq<ItemModel>,
            _,
        >(i),
        items_of_entries(es) == Err::<Seq<ItemModel>, _>(i),
    decreases es.len(),
{
    assert forall|m: int| i < m <= es.len() implies items_of_entries(#[trigger] es.take(m)) == Err::<
        Seq<ItemModel>,
        _,
    >(i) by {
        lemma_items_err_take(es, i, m);
    }
    assert(es.take(es.len() as int) =~= es);
}

proof fn lemma_items_err_take(es: Seq<EntryModel>, i: int, m: int)
    requires
        0 <= i < m <= es.len(),
        items_of_entries(es.take(i)) is Ok,
        item_of_entry(es[i]) is None,
    ensures
        items_of_entries(es.take(m)) == Err::<Seq<ItemModel>, _>(i),
    decreases m,
{
    if m == i + 1 {
        assert(es.take(m).drop_last() =~= es.take(i));
        assert(es.take(m).last() == es[i]);
    } else {
        lemma_items_err_take(es, i, m - 1);
        assert(es.take(m).drop_last() =~= es.take(m - 1));
    }
}

impl MimeType {
    /// A copy of the MIME type value.
    pub fn clone_value(&self) -> (r: MimeType)
        ensures
            r@ == self@,
    {
        match self {
            MimeType::TextHtml => MimeType::TextHtml,
            MimeType::ApplicationJson => MimeType::ApplicationJson,
            MimeType::Other(s) => MimeType::Other(s.clone()),
        }
    }
}

/// One decoded extended-schema CDX row.
#[derive(Clone, Debug, PartialEq, Eq)]
pub struct ExtendedItem {
    pub item: Item,
    pub redirect: Option<String>,
    pub robot_flags: Option<String>,
    pub offset: u64,
    pub file_name: String,
}

/// The mathematical value of an [`ExtendedItem`].
#[verifier::ext_equal]
pub struct ExtendedItemModel {
    pub item: ItemModel,
    pub redirect: Option<Seq<char>>,
    pub robot_flags: Option<Seq<char>>,
    pub offset: u64,
    pub file_name: Seq<char>,
}

impl View for ExtendedItem {
    type V = ExtendedItemModel;

    open spec fn view(&self) -> ExtendedItemModel {
        ExtendedItemModel {
            item: self.item@,
            redirect: match self.redirect {
                Some(r) => Some(r@),
                None => None,
            },
            robot_flags: match self.robot_flags {
                Some(r) => Some(r@),
                None => None,
            },
            offset: self.offset,
            file_name: self.file_name@,
        }
    }
}

impl ExtendedItem {
    /// The value as an owned record; ownership is already plain here, so
    /// this is the value itself.
    pub fn into_owned(self) -> (r: ExtendedItem)
        ensures
            r@ == self@,
    {
        self
    }
}

/// The extended-schema item of an entry, when it carries the extended tail
/// and its length fits the narrower column type.
pub open spec fn extended_item_of_entry(e: EntryModel) -> Option<ExtendedItemModel> {
    match (item_of_entry(e), e.extended_info) {
        (Some(item), Some(ext)) => Some(
            ExtendedItemModel {
                item,
                redirect: ext.redirect,
                robot_flags: ext.robot_flags,
                offset: ext.offset,
                file_name: ext.file_name,
            },
        ),
        _ => None,
    }
}

/// The extended items of a page's entries, or the index of the first entry
/// that does not convert.
pub open spec fn extended_items_of_entries(es: Seq<EntryModel>) -> Result<
    Seq<ExtendedItemModel>,
    int,
>
    decreases es.len(),
{
    if es.len() == 0 {
        Ok(Seq::empty())
    } else {
        match extended_items_of_entries(es.drop_last()) {
            Err(i) => Err(i),
            Ok(prefix) => match extended_item_of_entry(es.last()) {
                None => Err(es.len() - 1),
                Some(it) => Ok(prefix.push(it)),
            },
        }
    }
}

/// A decoded extended-schema CDX page.
#[derive(Clone, Debug, PartialEq, Eq)]
pub struct ExtendedItemList {
    pub values: Vec<ExtendedItem>,
    pub resume_key: Option<String>,
}

impl ExtendedItemList {
    /// What a successful extended-schema decode of `rows` produced.
    pub open spec fn decoded_from(rows: Seq<Seq<Seq<char>>>, list: &ExtendedItemList) -> bool {
        &&& decode_rows_spec(rows) matches DecodeOutcome::Decoded(l) && l.header != Some(
            HeaderKind::Normal,
        ) && extended_items_of_entries(l.values) == Ok::<_, int>(
            list.values@.map_values(|it: ExtendedItem| it@),
        ) && (match list.resume_key {
            Some(k) => l.resume_key == Some(k@),
            None => l.resume_key is None,
        })
    }

    /// Which rows an extended-schema decode refuses, by error.
    pub open spec fn refused_from(rows: Seq<Seq<Seq<char>>>, e: Error) -> bool {
        match e {
            Error::InvalidHeader => decode_rows_spec(rows) is BadHeader || (decode_rows_spec(rows)
                matches DecodeOutcome::Decoded(l) && l.header == Some(HeaderKind::Normal)),
            Error::InvalidRow(i) => decode_rows_spec(rows) == DecodeOutcome::BadRow(i as int) || (
            decode_rows_spec(rows) matches DecodeOutcome::Decoded(l) && extended_items_of_entries(
                l.values,
            ) == Err::<Seq<ExtendedItemModel>, _>(i as int)),
            Error::MissingResumeKey => decode_rows_spec(rows) is NoResumeKey,
            Error::TrailingData => decode_rows_spec(rows) is Trailing,
            Error::Json => false,
        }
    }

    /// Decodes an extended-schema page given as rows of column texts: a short
    /// header is refused.
    #[verifier::loop_isolation(false)]
    pub fn decode_rows(rows: &Vec<Vec<String>>) -> (r: Result<ExtendedItemList, Error>)
        ensures
            match r {
                Ok(list) => Self::decoded_from(rows_view(rows@), &list),
                Err(e) => Self::refused_from(rows_view(rows@), e),
            },
    {
        let list = match EntryList::decode_rows(rows) {
            Ok(list) => list,
            Err(e) => {
                return Err(e);
            },
        };
        match list.header {
            Some(HeaderKind::Normal) => {
                return Err(Error::InvalidHeader);
            },
            _ => {
            },
        }
        let mut values: Vec<ExtendedItem> = Vec::new();
        let mut i: usize = 0;
        let n = list.values.len();
        proof {
            assert(list@.values.take(0) =~= Seq::<EntryModel>::empty());
            assert(values@.map_values(|it: ExtendedItem| it@) =~= Seq::<ExtendedItemModel>::empty());
        }
        while i < n
            invariant
                0 <= i <= n,
                n == list.values@.len(),
                list@.values.len() == n,
                forall|j: int| 0 <= j < n ==> list@.values[j] == #[trigger] list.values@[j]@,
                extended_items_of_entries(list@.values.take(i as int)) == Ok::<_, int>(
                    values@.map_values(|it: ExtendedItem| it@),
                ),
            decreases n - i,
        {
            let entry = &list.values[i];
            let length: Option<u32> = match entry.length {
                Some(v) => {
                    if v > u32::MAX as u64 {
                        proof {
                            assert(extended_item_of_entry(list@.values[i as int]) is None);
                            lemma_extended_items_err(list@.values, i as int);
                        }
                        return Err(Error::InvalidRow(i));
                    } else {
                        Some(v as u32)
                    }
                },
                None => None,
            };
            let ext = match &entry.extended_info {
                Some(e) => e,
                None => {
                    proof {
                        assert(extended_item_of_entry(list@.values[i as int]) is None);
                        lemma_extended_items_err(list@.values, i as int);
                    }
                    return Err(Error::InvalidRow(i));
                },
            };
            let item = Item {
                key: entry.key.clone_key(),
                timestamp: entry.timestamp,
                original: entry.original.clone(),
                mime_type: entry.mime_type.clone_value(),
                status_code: entry.status_code,
                digest: entry.digest.clone_value(),
                length,
            };
            let extended = ExtendedItem {
                item,
                redirect: match &ext.redirect {
                    Some(r) => Some(r.clone()),
                    None => None,
                },
                robot_flags: match &ext.robot_flags {
                    Some(r) => Some(r.clone()),
                    None => None,
                },
                offset: ext.offset,
                file_name: ext.file_name.clone(),
            };
            let ghost before = values@.map_values(|it: ExtendedItem| it@);
            proof {
                assert(extended@ =~= extended_item_of_entry(list@.values[i as int]).unwrap());
            }
            values.push(extended);
            proof {
                assert(list@.values.take(i + 1 as int).drop_last() =~= list@.values.take(i as int));
                assert(values@.map_values(|it: ExtendedItem| it@) =~= before.push(extended@));
            }
            i += 1;
        }
        proof {
            assert(list@.values.take(n as int) =~= list@.values);
        }
        Ok(ExtendedItemList { values, resume_key: list.resume_key })
    }

    /// Decodes an extended-schema page given as its JSON text.
    pub fn decode_str(input: &str) -> (r: Result<ExtendedItemList, Error>)
        ensures
            match r {
                Ok(list) => json_string_rows_of(input@) matches Some(rows) && Self::decoded_from(
                    rows,
                    &list,
                ),
                Err(Error::Json) => json_string_rows_of(input@) is None,
                Err(e) => json_string_rows_of(input@) matches Some(rows) && Self::refused_from(
                    rows,
                    e,
                ),
            },
    {
        match json_rows(input) {
            Some(rows) => ExtendedItemList::decode_rows(&rows),
            None => Err(Error::Json),
        }
    }
}

proof fn lemma_extended_items_err(es: Seq<EntryModel>, i: int)
    requires
        0 <= i < es.len(),
        extended_items_of_entries(es.take(i)) is Ok,
        extended_item_of_entry(es[i]) is None,
    ensures
        extended_items_of_entries(es) == Err::<Seq<ExtendedItemModel>, _>(i),
    decreases es.len(),
{
    assert forall|m: int| i < m <= es.len() implies extended_items_of_entries(
        #[trigger] es.take(m),
    ) == Err::<Seq<ExtendedItemModel>, _>(i) by {
        lemma_extended_items_err_take(es, i, m);
    }
    assert(es.take(es.len() as int) =~= es);
}

proof fn lemma_extended_items_err_take(es: Seq<EntryModel>, i: int, m: int)
    requires
        0 <= i < m <= es.len(),
        extended_items_of_entries(es.take(i)) is Ok,
        extended_item_of_entry(es[i]) is None,
    ensures
        extended_items_of_entries(es.take(m)) == Err::<Seq<ExtendedItemModel>, _>(i),
    decreases m,
{
    if m == i + 1 {
        assert(es.take(m).drop_last() =~= es.take(i));
        assert(es.take(m).last() == es[i]);
    } else {
        lemma_extended_items_err_take(es, i, m - 1);
        assert(es.take(m).drop_last() =~= es.take(m - 1));
    }
}

} // verus!

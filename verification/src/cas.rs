//! Content-addressable snapshot files: classification by name, digest
//! verification, and import aggregation.
//!
//! Each file in a store is named by the Base32 text of its SHA-1 digest, with
//! at most one extension naming a compression kind. Stray files are expected
//! and are classified as skipped, never as errors; a digest mismatch between
//! a file's name and its decompressed bytes is a hard error, since such an
//! object must never enter the content-addressed store silently.

use crate::base32::base32_decoded;
use crate::digest::{digest_lt, sha1_of, Sha1Computer, Sha1Digest};
use crate::surt::{split_dots, split_dots_exec};
use crate::text::str_to_chars;
use vstd::prelude::*;
use vstd::slice::slice_to_vec;

verus! {

/// Errors of content-addressed file verification.
#[derive(Clone, Debug, PartialEq, Eq)]
pub enum Error {
    /// A compressed payload that does not decompress.
    Decompression,
    /// Decompressed bytes whose digest is not the file's name digest.
    InvalidDigest { expected: Sha1Digest, found: Sha1Digest },
}

/// The compression kind implied by a recognized file extension.
#[derive(Clone, Copy, Debug, PartialEq, Eq, Hash, Structural)]
pub enum CompressionType {
    Zstd,
    Gzip,
}

/// A classified store file.
#[derive(Clone, Debug, PartialEq, Eq)]
pub enum File {
    /// A file whose name is a digest with at most one recognized extension.
    Valid { path: String, compression_type: Option<CompressionType>, digest: Sha1Digest },
    /// Any other file; stray files are expected, not errors.
    Skipped { path: String },
}

/// The mathematical value of a [`File`].
pub enum FileModel {
    Valid { path: Seq<char>, compression_type: Option<CompressionType>, digest: Seq<u8> },
    Skipped { path: Seq<char> },
}

impl View for File {
    type V = FileModel;

    open spec fn view(&self) -> FileModel {
        match self {
            File::Valid { path, compression_type, digest } => FileModel::Valid {
                path: path@,
                compression_type: *compression_type,
                digest: digest@,
            },
            File::Skipped { path } => FileModel::Skipped { path: path@ },
        }
    }
}

/// The index of the last slash in a path, or a negative value.
pub open spec fn last_slash(p: Seq<char>) -> int
    decreases p.len(),
{
    if p.len() == 0 {
        -1
    } else if p.last() == '/' {
        p.len() - 1
    } else {
        last_slash(p.drop_last())
    }
}

/// The file name of a path: the characters after its last slash.
pub open spec fn file_name_of(p: Seq<char>) -> Seq<char> {
    p.skip(last_slash(p) + 1)
}

/// An ASCII letter lowered; anything else unchanged.
pub open spec fn ascii_lower(c: char) -> char {
    if 'A' <= c && c <= 'Z' {
        (((c as int) + 32) as u8) as char
    } else {
        c
    }
}

/// A character sequence with its ASCII letters lowered.
pub open spec fn ascii_lower_seq(s: Seq<char>) -> Seq<char> {
    s.map_values(|c: char| ascii_lower(c))
}

/// The compression kind of a lowercased extension, when recognized.
pub open spec fn compression_of_ext(ext: Seq<char>) -> Option<CompressionType> {
    if ascii_lower_seq(ext) == "zst"@ {
        Some(CompressionType::Zstd)
    } else if ascii_lower_seq(ext) == "gz"@ {
        Some(CompressionType::Gzip)
    } else {
        None
    }
}

/// The classification of a store file by its path: the name must be a
/// 32-character digest with no extension or one recognized extension.
pub open spec fn classify_file(p: Seq<char>) -> FileModel {
    let name = file_name_of(p);
    let parts = split_dots(name);
    if parts.len() >= 3 {
        FileModel::Skipped { path: p }
    } else {
        let compression: Option<Option<CompressionType>> = if parts.len() == 1 {
            Some(None)
        } else {
            match compression_of_ext(parts[1]) {
                Some(c) => Some(Some(c)),
                None => None,
            }
        };
        match compression {
            None => FileModel::Skipped { path: p },
            Some(compression_type) => match base32_decoded(parts[0]) {
                Some(digest) => FileModel::Valid { path: p, compression_type, digest },
                None => FileModel::Skipped { path: p },
            },
        }
    }
}

/// Exec mirror of [`ascii_lower`] comparison of an extension against a
/// lowercase literal.
fn ext_matches(ext: &Vec<char>, lit: &Vec<char>) -> (r: bool)
    ensures
        r == (ascii_lower_seq(ext@) == lit@),
{
    if ext.len() != lit.len() {
        assert(ascii_lower_seq(ext@).len() == ext@.len());
        return false;
    }
    let mut i: usize = 0;
    while i < ext.len()
        invariant
            0 <= i <= ext@.len(),
            ext@.len() == lit@.len(),
            forall|j: int| 0 <= j < i ==> ascii_lower_seq(ext@)[j] == lit@[j],
        decreases ext@.len() - i,
    {
        let c = ext[i];
        let lowered: char = if 'A' <= c && c <= 'Z' {
            (((c as u8) + 32)) as char
        } else {
            c
        };
        assert(lowered == ascii_lower(ext@[i as int]));
        if lowered != lit[i] {
            assert(ascii_lower_seq(ext@)[i as int] != lit@[i as int]);
            return false;
        }
        i += 1;
    }
    assert(ascii_lower_seq(ext@) =~= lit@);
    true
}

impl File {
    /// Classifies a file by its path's name.
    pub fn new(path: &str) -> (r: File)
        ensures
            r@ == classify_file(path@),
    {
        let chars = str_to_chars(path);
        let n = chars.len();
        let mut cut: usize = n;
        loop
            invariant
                0 <= cut <= n,
                n == chars@.len(),
                forall|j: int| cut <= j < n ==> chars@[j] != '/',
            ensures
                0 <= cut <= n,
                n == chars@.len(),
                forall|j: int| cut <= j < n ==> chars@[j] != '/',
                cut == 0 || chars@[cut - 1] == '/',
            decreases cut,
        {
            if cut == 0 {
                break;
            }
            if chars[cut - 1] == '/' {
                break;
            }
            cut -= 1;
        }
        proof {
            lemma_last_slash(chars@, cut as int);
            assert(file_name_of(path@) =~= chars@.subrange(cut as int, n as int));
        }
        let name = crate::text::chars_slice(&chars, cut, n);
        let parts = split_dots_exec(&name);
        proof {
            assert(crate::surt::labels_view(parts@) == split_dots(file_name_of(path@)));
            assert(split_dots(file_name_of(path@)).len() >= 1) by {
                lemma_split_dots_nonempty(file_name_of(path@), 0, 0);
            }
        }
        if parts.len() >= 3 {
            return File::Skipped { path: path.to_owned() };
        }
        let compression_type: Option<CompressionType> = if parts.len() == 1 {
            None
        } else {
            proof {
                assert(crate::surt::labels_view(parts@)[1] == parts@[1]@);
            }
            let zst = str_to_chars("zst");
            let gz = str_to_chars("gz");
            proof {
                reveal_strlit("zst");
                reveal_strlit("gz");
            }
            if ext_matches(&parts[1], &zst) {
                Some(CompressionType::Zstd)
            } else if ext_matches(&parts[1], &gz) {
                Some(CompressionType::Gzip)
            } else {
                return File::Skipped { path: path.to_owned() };
            }
        };
        proof {
            assert(crate::surt::labels_view(parts@)[0] == parts@[0]@);
        }
        match crate::base32::base32_decode(&parts[0]) {
            Some(bytes) => File::Valid {
                path: path.to_owned(),
                compression_type,
                digest: Sha1Digest(bytes),
            },
            None => File::Skipped { path: path.to_owned() },
        }
    }

    /// The file's path.
    pub fn path(&self) -> (r: &str)
        ensures
            r@ == match self@ {
                FileModel::Valid { path, .. } => path,
                FileModel::Skipped { path } => path,
            },
    {
        match self {
            File::Valid { path, .. } => path.as_str(),
            File::Skipped { path } => path.as_str(),
        }
    }

    /// The name digest of a valid file.
    pub fn digest(&self) -> (r: Option<Sha1Digest>)
        ensures
            match r {
                Some(d) => self@ matches FileModel::Valid { digest, .. } && d@ == digest,
                None => self@ is Skipped,
            },
    {
        match self {
            File::Valid { digest, .. } => Some(*digest),
            File::Skipped { .. } => None,
        }
    }
}

proof fn lemma_last_slash(s: Seq<char>, cut: int)
    requires
        0 <= cut <= s.len(),
        forall|j: int| cut <= j < s.len() ==> s[j] != '/',
        cut == 0 || s[cut - 1] == '/',
    ensures
        last_slash(s) == cut - 1,
    decreases s.len() - cut,
{
    if cut == s.len() {
        lemma_last_slash_none(s, cut);
    } else {
        assert(s.last() != '/');
        assert(forall|j: int| cut <= j < s.drop_last().len() ==> s.drop_last()[j] != '/');
        if cut > 0 {
            assert(s.drop_last()[cut - 1] == s[cut - 1]);
        }
        lemma_last_slash(s.drop_last(), cut);
    }
}

proof fn lemma_last_slash_none(s: Seq<char>, cut: int)
    requires
        cut == s.len(),
        cut == 0 || s[cut - 1] == '/',
    ensures
        last_slash(s) == cut - 1,
{
    if s.len() == 0 {
    } else {
        assert(s.last() == '/');
    }
}

proof fn lemma_split_dots_nonempty(s: Seq<char>, i: int, start: int)
    requires
        0 <= start <= i <= s.len(),
    ensures
        crate::surt::split_dots_from(s, i, start).len() >= 1,
    decreases s.len() - i,
{
    if i < s.len() {
        if s[i] == '.' {
            lemma_split_dots_nonempty(s, i + 1, i + 1);
        } else {
            lemma_split_dots_nonempty(s, i + 1, start);
        }
    }
}

/// The zstd decompression of a byte string: a function of the bytes alone.
pub uninterp spec fn zstd_inflate_of(bytes: Seq<u8>) -> Option<Seq<u8>>;

/// Relies on `zstd::decode_all`: whether a byte string is a valid zstd frame,
/// and its decompressed bytes, depend on the bytes alone.
#[verifier::external_body]
fn zstd_decode(input: &[u8]) -> (r: Option<Vec<u8>>)
    ensures
        match r {
            Some(v) => zstd_inflate_of(input@) == Some(v@),
            None => zstd_inflate_of(input@) is None,
        },
{
    zstd::decode_all(input).ok()
}

/// The gzip decompression of a byte string: a function of the bytes alone.
pub uninterp spec fn gzip_inflate_of(bytes: Seq<u8>) -> Option<Seq<u8>>;

/// Relies on `flate2::read::GzDecoder` reading an in-memory buffer to its
/// end: whether a byte string is a valid gzip stream, and its decompressed
/// bytes, depend on the bytes alone.
#[verifier::external_body]
fn gzip_decode(input: &[u8]) -> (r: Option<Vec<u8>>)
    ensures
        match r {
            Some(v) => gzip_inflate_of(input@) == Some(v@),
            None => gzip_inflate_of(input@) is None,
        },
{
    let mut decoder = flate2::read::GzDecoder::new(input);
    let mut out = Vec::new();
    match std::io::Read::read_to_end(&mut decoder, &mut out) {
        Ok(_) => Some(out),
        Err(_) => None,
    }
}

/// The decompressed payload of a file's raw bytes under its compression kind.
pub open spec fn decompressed_of(compression: Option<CompressionType>, bytes: Seq<u8>) -> Option<
    Seq<u8>,
> {
    match compression {
        None => Some(bytes),
        Some(CompressionType::Zstd) => zstd_inflate_of(bytes),
        Some(CompressionType::Gzip) => gzip_inflate_of(bytes),
    }
}

/// Verifies a file's raw bytes against its name digest: the decompressed
/// payload must hash to exactly that digest. A mismatch carries both digests
/// and is a hard error.
pub fn validate_content(digest: &Sha1Digest, compression: Option<CompressionType>, raw: &[u8]) -> (r:
    Result<(), Error>)
    ensures
        match r {
            Ok(_) => decompressed_of(compression, raw@) matches Some(b) && sha1_of(b) == digest@,
            Err(Error::Decompression) => decompressed_of(compression, raw@) is None,
            Err(Error::InvalidDigest { expected, found }) => expected@ == digest@ && (
            decompressed_of(compression, raw@) matches Some(b) && found@ == sha1_of(b) && sha1_of(b)
                != digest@),
        },
{
    let payload: Vec<u8> = match compression {
        None => slice_to_vec(raw),
        Some(CompressionType::Zstd) => match zstd_decode(raw) {
            Some(v) => v,
            None => {
                return Err(Error::Decompression);
            },
        },
        Some(CompressionType::Gzip) => match gzip_decode(raw) {
            Some(v) => v,
            None => {
                return Err(Error::Decompression);
            },
        },
    };
    let computed = Sha1Computer::compute_digest(payload.as_slice());
    if computed.equals(digest) {
        Ok(())
    } else {
        Err(Error::InvalidDigest { expected: *digest, found: computed })
    }
}

/// One observation from walking and verifying a store directory.
pub enum ImportEvent {
    /// A classified file.
    Classified(File),
    /// A valid-looking file whose bytes hashed to a different digest.
    InvalidDigest { expected: Sha1Digest, found: Sha1Digest },
}

/// The collected outcome of a store import.
#[derive(Clone, Debug, PartialEq, Eq)]
pub struct SnapshotImport {
    /// Verified files, sorted ascending by digest.
    pub paths: Vec<(Sha1Digest, String, Option<CompressionType>)>,
    /// Paths of skipped stray files, in input order.
    pub skipped: Vec<String>,
    /// Digest mismatches, in input order.
    pub invalid_digests: Vec<(Sha1Digest, Sha1Digest)>,
}

/// The model of one verified file: its digest, path and compression kind.
pub open spec fn path_entry_view(p: (Sha1Digest, String, Option<CompressionType>)) -> (
    Seq<u8>,
    Seq<char>,
    Option<CompressionType>,
) {
    (p.0@, p.1@, p.2)
}

/// The verified files of a sequence of import events, in input order.
pub open spec fn import_paths(events: Seq<ImportEvent>) -> Seq<
    (Seq<u8>, Seq<char>, Option<CompressionType>),
>
    decreases events.len(),
{
    if events.len() == 0 {
        Seq::empty()
    } else {
        let rest = import_paths(events.drop_last());
        match events.last() {
            ImportEvent::Classified(f) => match f@ {
                FileModel::Valid { path, compression_type, digest } => rest.push(
                    (digest, path, compression_type),
                ),
                FileModel::Skipped { .. } => rest,
            },
            _ => rest,
        }
    }
}

/// The skipped paths of a sequence of import events, in input order.
pub open spec fn import_skipped(events: Seq<ImportEvent>) -> Seq<Seq<char>>
    decreases events.len(),
{
    if events.len() == 0 {
        Seq::empty()
    } else {
        let rest = import_skipped(events.drop_last());
        match events.last() {
            ImportEvent::Classified(f) => match f@ {
                FileModel::Skipped { path } => rest.push(path),
                _ => rest,
            },
            _ => rest,
        }
    }
}

/// The digest mismatches of a sequence of import events, in input order.
pub open spec fn import_invalid(events: Seq<ImportEvent>) -> Seq<(Seq<u8>, Seq<u8>)>
    decreases events.len(),
{
    if events.len() == 0 {
        Seq::empty()
    } else {
        let rest = import_invalid(events.drop_last());
        match events.last() {
            ImportEvent::InvalidDigest { expected, found } => rest.push((expected@, found@)),
            _ => rest,
        }
    }
}

/// Byte-lexicographic order, weakly, on digests.
pub open spec fn digest_le(a: Seq<u8>, b: Seq<u8>) -> bool {
    digest_lt(a, b) || a == b
}

/// Inserts a verified file into a digest-sorted sequence, after every file
/// whose digest is less than or equal: a stable insertion.
pub open spec fn insert_by_digest(
    sorted: Seq<(Seq<u8>, Seq<char>, Option<CompressionType>)>,
    p: (Seq<u8>, Seq<char>, Option<CompressionType>),
) -> Seq<(Seq<u8>, Seq<char>, Option<CompressionType>)>
    decreases sorted.len(),
{
    if sorted.len() == 0 {
        seq![p]
    } else if digest_le(sorted.last().0, p.0) {
        sorted.push(p)
    } else {
        insert_by_digest(sorted.drop_last(), p).push(sorted.last())
    }
}

/// The stable sort of verified files by digest.
pub open spec fn sort_by_digest(ps: Seq<(Seq<u8>, Seq<char>, Option<CompressionType>)>) -> Seq<
    (Seq<u8>, Seq<char>, Option<CompressionType>),
>
    decreases ps.len(),
{
    if ps.len() == 0 {
        Seq::empty()
    } else {
        insert_by_digest(sort_by_digest(ps.drop_last()), ps.last())
    }
}

proof fn lemma_insert_by_digest_at(
    sorted: Seq<(Seq<u8>, Seq<char>, Option<CompressionType>)>,
    p: (Seq<u8>, Seq<char>, Option<CompressionType>),
    idx: int,
)
    requires
        0 <= idx <= sorted.len(),
        idx > 0 ==> digest_le(sorted[idx - 1].0, p.0),
        forall|j: int| idx <= j < sorted.len() ==> !digest_le(#[trigger] sorted[j].0, p.0),
    ensures
        insert_by_digest(sorted, p) == sorted.take(idx) + seq![p] + sorted.skip(idx),
    decreases sorted.len(),
{
    if idx == sorted.len() {
        if sorted.len() == 0 {
            assert(insert_by_digest(sorted, p) =~= sorted.take(idx) + seq![p] + sorted.skip(idx));
        } else {
            assert(sorted.last() == sorted[idx - 1]);
            assert(sorted.push(p) =~= sorted.take(idx) + seq![p] + sorted.skip(idx));
        }
    } else {
        assert(!digest_le(sorted.last().0, p.0)) by {
            assert(sorted[sorted.len() - 1] == sorted.last());
        }
        let shorter = sorted.drop_last();
        assert forall|j: int| idx <= j < shorter.len() implies !digest_le(
            #[trigger] shorter[j].0,
            p.0,
        ) by {
            assert(shorter[j] == sorted[j]);
        }
        if idx > 0 {
            assert(shorter[idx - 1] == sorted[idx - 1]);
        }
        lemma_insert_by_digest_at(shorter, p, idx);
        assert((shorter.take(idx) + seq![p] + shorter.skip(idx)).push(sorted.last()) =~= sorted.take(
            idx,
        ) + seq![p] + sorted.skip(idx));
    }
}

/// The views of a vector of verified files.
pub open spec fn paths_view(v: Seq<(Sha1Digest, String, Option<CompressionType>)>) -> Seq<
    (Seq<u8>, Seq<char>, Option<CompressionType>),
> {
    v.map_values(|p: (Sha1Digest, String, Option<CompressionType>)| path_entry_view(p))
}

/// The index after every entry whose digest is less than or equal to `key`.
fn find_digest_idx(
    sorted: &Vec<(Sha1Digest, String, Option<CompressionType>)>,
    key: &Sha1Digest,
) -> (idx: usize)
    ensures
        0 <= idx <= sorted@.len(),
        idx > 0 ==> digest_le(sorted@[idx - 1].0@, key@),
        forall|j: int| idx <= j < sorted@.len() ==> !digest_le(#[trigger] sorted@[j].0@, key@),
{
    let mut idx: usize = sorted.len();
    while idx > 0 && !(sorted[idx - 1].0.lt(key) || sorted[idx - 1].0.equals(key))
        invariant
            0 <= idx <= sorted@.len(),
            forall|j: int| idx <= j < sorted@.len() ==> !digest_le(#[trigger] sorted@[j].0@, key@),
        decreases idx,
    {
        idx -= 1;
    }
    idx
}

/// Inserts a verified file into a digest-sorted vector.
fn insert_by_digest_exec(
    sorted: &mut Vec<(Sha1Digest, String, Option<CompressionType>)>,
    p: (Sha1Digest, String, Option<CompressionType>),
)
    ensures
        paths_view(final(sorted)@) == insert_by_digest(paths_view(old(sorted)@), path_entry_view(p)),
{
    let ghost pm = path_entry_view(p);
    let idx = find_digest_idx(sorted, &p.0);
    proof {
        assert forall|j: int| idx <= j < sorted@.len() implies !digest_le(
            #[trigger] paths_view(sorted@)[j].0,
            pm.0,
        ) by {
            assert(paths_view(sorted@)[j].0 == sorted@[j].0@);
        }
        if idx > 0 {
            assert(paths_view(sorted@)[idx - 1].0 == sorted@[idx - 1].0@);
        }
        lemma_insert_by_digest_at(paths_view(sorted@), pm, idx as int);
    }
    let ghost before = sorted@;
    sorted.insert(idx, p);
    proof {
        assert(paths_view(sorted@) =~= paths_view(before).take(idx as int) + seq![pm] + paths_view(
            before,
        ).skip(idx as int)) by {
            assert forall|j: int| 0 <= j < sorted@.len() implies paths_view(sorted@)[j] == (
            paths_view(before).take(idx as int) + seq![pm] + paths_view(before).skip(idx as int))[j]
                by {
                assert(sorted@[j] == before.insert(idx as int, p)[j]);
            }
        }
    }
}

/// Aggregates import events into the verified files sorted ascending by
/// digest, the skipped paths, and the digest mismatches.
#[verifier::loop_isolation(false)]
pub fn snapshot_import(events: &Vec<ImportEvent>) -> (r: SnapshotImport)
    ensures
        paths_view(r.paths@) == sort_by_digest(import_paths(events@)),
        r.skipped@.map_values(|s: String| s@) == import_skipped(events@),
        r.invalid_digests@.map_values(|p: (Sha1Digest, Sha1Digest)| (p.0@, p.1@)) == import_invalid(
            events@,
        ),
{
    let mut result = SnapshotImport {
        paths: Vec::new(),
        skipped: Vec::new(),
        invalid_digests: Vec::new(),
    };
    let n = events.len();
    let mut i: usize = 0;
    proof {
        assert(paths_view(result.paths@) =~= Seq::<
            (Seq<u8>, Seq<char>, Option<CompressionType>),
        >::empty());
        assert(result.skipped@.map_values(|s: String| s@) =~= Seq::<Seq<char>>::empty());
        assert(result.invalid_digests@.map_values(|p: (Sha1Digest, Sha1Digest)| (p.0@, p.1@)) =~= Seq::<
            (Seq<u8>, Seq<u8>),
        >::empty());
        assert(events@.take(0) =~= Seq::<ImportEvent>::empty());
    }
    while i < n
        invariant
            0 <= i <= n,
            paths_view(result.paths@) == sort_by_digest(import_paths(events@.take(i as int))),
            result.skipped@.map_values(|s: String| s@) == import_skipped(events@.take(i as int)),
            result.invalid_digests@.map_values(|p: (Sha1Digest, Sha1Digest)| (p.0@, p.1@))
                == import_invalid(events@.take(i as int)),
        decreases n - i,
    {
        proof {
            assert(events@.take(i + 1 as int).drop_last() =~= events@.take(i as int));
            assert(events@.take(i + 1 as int).last() == events@[i as int]);
        }
        match &events[i] {
            ImportEvent::Classified(file) => {
                match file {
                    File::Valid { path, compression_type, digest } => {
                        insert_by_digest_exec(
                            &mut result.paths,
                            (*digest, path.clone(), *compression_type),
                        );
                        proof {
                            let tup = (digest@, path@, *compression_type);
                            let x = import_paths(events@.take(i + 1 as int));
                            assert(x == import_paths(events@.take(i as int)).push(tup));
                            assert(x.drop_last() =~= import_paths(events@.take(i as int)));
                            assert(x.last() == tup);
                        }
                    },
                    File::Skipped { path } => {
                        let ghost before = result.skipped@;
                        result.skipped.push(path.clone());
                        proof {
                            assert(result.skipped@.map_values(|s: String| s@) =~= before.map_values(
                                |s: String| s@,
                            ).push(path@));
                        }
                    },
                }
            },
            ImportEvent::InvalidDigest { expected, found } => {
                let ghost before = result.invalid_digests@;
                result.invalid_digests.push((*expected, *found));
                proof {
                    assert(result.invalid_digests@.map_values(
                        |p: (Sha1Digest, Sha1Digest)| (p.0@, p.1@),
                    ) =~= before.map_values(|p: (Sha1Digest, Sha1Digest)| (p.0@, p.1@)).push(
                        (expected@, found@),
                    ));
                }
            },
        }
        i += 1;
    }
    proof {
        assert(events@.take(n as int) =~= events@);
    }
    result
}

} // verus!

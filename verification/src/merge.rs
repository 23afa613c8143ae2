//! Merge-deduplication of fresh content-addressed files into existing
//! snapshot stores.
//!
//! The fresh files, globally sorted ascending by digest, drive the merge.
//! For each driving digest, buffered records of the existing stores with
//! strictly smaller digests pass through unchanged; a record with exactly the
//! driving digest is copied through, trusted as already imported; otherwise
//! the fresh payload is classified by a short literal prefix and appended as
//! a new record, or dropped with a notice when its shape is unknown. After
//! the driving sequence is exhausted, every remaining buffered record is
//! flushed in order.

use crate::digest::{digest_lt, Sha1Digest};
use crate::lines::{new_line_spec, LineModel, SnapshotLine};
use crate::text::has_at;
use crate::lines_io::{write_out, SnapshotWriter};
use crate::text::{chars_have_at, str_to_chars};
use vstd::prelude::*;

verus! {

/// The payload shape of a fresh file, sniffed from a short literal prefix.
#[derive(Clone, Copy, Debug, PartialEq, Eq, Structural)]
pub enum PayloadKind {
    /// A legacy flat record: starts with `{"created_at":`.
    Flat,
    /// A structured record: starts with `{"data":`.
    Data,
    /// Content spanning several lines cannot become a line record.
    MultiLine,
    /// Any other shape, dropped with a notice; the recognized shapes are a
    /// deliberately closed set.
    Unknown,
}

/// Whether `c` is an ASCII whitespace character.
pub open spec fn is_ascii_ws(c: char) -> bool {
    c == ' ' || c == '\t' || c == '\r' || c == '\n'
}

/// The length of the leading ASCII whitespace run.
pub open spec fn leading_ws(s: Seq<char>) -> int
    decreases s.len(),
{
    if s.len() == 0 || !is_ascii_ws(s[0]) {
        0
    } else {
        1 + leading_ws(s.drop_first())
    }
}

/// The length of the trailing ASCII whitespace run.
pub open spec fn trailing_ws(s: Seq<char>) -> int
    decreases s.len(),
{
    if s.len() == 0 || !is_ascii_ws(s.last()) {
        0
    } else {
        1 + trailing_ws(s.drop_last())
    }
}

/// The content trimmed of leading and trailing ASCII whitespace.
pub open spec fn trimmed(s: Seq<char>) -> Seq<char> {
    if leading_ws(s) + trailing_ws(s) <= s.len() {
        s.subrange(leading_ws(s), s.len() - trailing_ws(s))
    } else {
        Seq::empty()
    }
}

/// The classification of a fresh payload: content whose trimmed form still
/// holds a line break cannot become a line record; otherwise the shape is
/// decided by a short literal prefix of the untrimmed content.
pub open spec fn classify_payload_spec(c: Seq<char>) -> PayloadKind {
    if exists|i: int|
        0 <= i < trimmed(c).len() && (trimmed(c)[i] == '\n' || #[trigger] trimmed(c)[i] == '\r') {
        PayloadKind::MultiLine
    } else if has_at(c, 0, "{\"created_at\":"@) {
        PayloadKind::Flat
    } else if has_at(c, 0, "{\"data\":"@) {
        PayloadKind::Data
    } else {
        PayloadKind::Unknown
    }
}

/// Exec mirror of [`classify_payload_spec`].
pub fn classify_payload(content: &str) -> (r: PayloadKind)
    ensures
        r == classify_payload_spec(content@),
{
    let chars = str_to_chars(content);
    let n = chars.len();
    let mut start: usize = 0;
    loop
        invariant
            0 <= start <= n,
            n == chars@.len(),
            forall|j: int| 0 <= j < start ==> is_ascii_ws(#[trigger] chars@[j]),
        ensures
            0 <= start <= n,
            forall|j: int| 0 <= j < start ==> is_ascii_ws(#[trigger] chars@[j]),
            start == n || !is_ascii_ws(chars@[start as int]),
        decreases n - start,
    {
        if start >= n {
            break;
        }
        let c = chars[start];
        if !(c == ' ' || c == '\t' || c == '\r' || c == '\n') {
            break;
        }
        start += 1;
    }
    proof {
        lemma_leading_ws(content@, start as int);
    }
    let mut stop: usize = n;
    loop
        invariant
            start <= stop <= n,
            n == chars@.len(),
            forall|j: int| stop <= j < n ==> is_ascii_ws(#[trigger] chars@[j]),
        ensures
            start <= stop <= n,
            forall|j: int| stop <= j < n ==> is_ascii_ws(#[trigger] chars@[j]),
            stop == start || !is_ascii_ws(chars@[stop - 1]),
        decreases stop,
    {
        if stop <= start {
            break;
        }
        let c = chars[stop - 1];
        if !(c == ' ' || c == '\t' || c == '\r' || c == '\n') {
            break;
        }
        stop -= 1;
    }
    let ghost t = trimmed(content@);
    proof {
        if stop == start {
            assert(start == n) by {
                if start < n {
                    assert(is_ascii_ws(chars@[start as int]));
                }
            }
            if n > 0 {
                assert(is_ascii_ws(content@.last()));
                lemma_trailing_ws_nonneg(content@.drop_last());
                assert(trailing_ws(content@) >= 1);
            }
            assert(t =~= chars@.subrange(start as int, stop as int));
        } else {
            lemma_trailing_ws(content@, stop as int);
            assert(t =~= chars@.subrange(start as int, stop as int));
        }
    }
    let mut i: usize = start;
    while i < stop
        invariant
            start <= i <= stop <= n,
            n == chars@.len(),
            chars@ == content@,
            t == trimmed(content@),
            t =~= chars@.subrange(start as int, stop as int),
            forall|j: int| 0 <= j < i - start ==> t[j] != '\n' && #[trigger] t[j] != '\r',
        decreases stop - i,
    {
        let c = chars[i];
        if c == '\n' || c == '\r' {
            proof {
                assert(trimmed(content@)[i - start] == '\n' || trimmed(content@)[i - start]
                    == '\r');
                assert(classify_payload_spec(content@) is MultiLine);
            }
            return PayloadKind::MultiLine;
        }
        i += 1;
    }
    assert(forall|j: int| 0 <= j < t.len() ==> t[j] != '\n' && #[trigger] t[j] != '\r');
    let flat_prefix = str_to_chars("{\"created_at\":");
    let data_prefix = str_to_chars("{\"data\":");
    proof {
        reveal_strlit("{\"created_at\":");
        reveal_strlit("{\"data\":");
    }
    if chars_have_at(&chars, 0, &flat_prefix) {
        PayloadKind::Flat
    } else if chars_have_at(&chars, 0, &data_prefix) {
        PayloadKind::Data
    } else {
        PayloadKind::Unknown
    }
}

proof fn lemma_leading_ws(s: Seq<char>, start: int)
    requires
        0 <= start <= s.len(),
        forall|j: int| 0 <= j < start ==> is_ascii_ws(#[trigger] s[j]),
        start == s.len() || !is_ascii_ws(s[start]),
    ensures
        leading_ws(s) == start,
    decreases start, s.len(),
{
    if start == 0 {
        if s.len() > 0 {
            assert(!is_ascii_ws(s[0]));
        }
    } else {
        assert(is_ascii_ws(s[0]));
        let rest = s.drop_first();
        assert(forall|j: int| 0 <= j < start - 1 ==> is_ascii_ws(#[trigger] rest[j]));
        if start < s.len() {
            assert(rest[start - 1] == s[start]);
        }
        lemma_leading_ws(rest, start - 1);
    }
}

proof fn lemma_trailing_ws(s: Seq<char>, stop: int)
    requires
        0 <= stop <= s.len(),
        forall|j: int| stop <= j < s.len() ==> is_ascii_ws(#[trigger] s[j]),
        stop == 0 || !is_ascii_ws(s[stop - 1]),
    ensures
        trailing_ws(s) == s.len() - stop,
    decreases s.len() - stop,
{
    if stop == s.len() {
        if s.len() > 0 {
            assert(!is_ascii_ws(s.last()));
        }
    } else {
        assert(is_ascii_ws(s.last()));
        let head = s.drop_last();
        assert(forall|j: int| stop <= j < head.len() ==> is_ascii_ws(#[trigger] head[j]));
        if stop > 0 {
            assert(head[stop - 1] == s[stop - 1]);
        }
        lemma_trailing_ws(head, stop);
    }
}

proof fn lemma_trailing_ws_nonneg(s: Seq<char>)
    ensures
        trailing_ws(s) >= 0,
    decreases s.len(),
{
    if !(s.len() == 0 || !is_ascii_ws(s.last())) {
        lemma_trailing_ws_nonneg(s.drop_last());
    }
}

/// The collected outcome of a merge run.
pub struct MergeOutcome {
    /// The merged flat-record output stream.
    pub flat: SnapshotWriter,
    /// The merged structured-record output stream.
    pub data: SnapshotWriter,
    /// Digests of fresh files dropped for an unknown or multi-line shape.
    pub skipped: Vec<Sha1Digest>,
    /// Digests of fresh files whose payload could not be read.
    pub unreadable: Vec<Sha1Digest>,
}

/// The mathematical state of a merge run.
#[verifier::ext_equal]
pub struct MergeModel {
    pub flat_out: Seq<LineModel>,
    pub flat_last: Option<Seq<u8>>,
    pub data_out: Seq<LineModel>,
    pub data_last: Option<Seq<u8>>,
    pub skipped: Seq<Seq<u8>>,
    pub unreadable: Seq<Seq<u8>>,
}

/// The state with every remaining record of a store written through the
/// deduplicating writer, in order.
pub open spec fn flush_store(out: Seq<LineModel>, last: Option<Seq<u8>>, store: Seq<LineModel>, i: int) -> (
    Seq<LineModel>,
    Option<Seq<u8>>,
)
    decreases store.len() - i,
{
    if i < 0 || i >= store.len() {
        (out, last)
    } else {
        let stepped = write_out(out, last, store[i]);
        flush_store(stepped.0, stepped.1, store, i + 1)
    }
}

/// One run of the merge state machine from driving index `pi` and store
/// indices `fi` and `di`: records below the driving digest pass through, a
/// record at the driving digest is copied through (the flat store first),
/// and otherwise the fresh payload is classified and appended or dropped.
pub open spec fn merge_rec(
    paths: Seq<(Seq<u8>, Option<Seq<char>>)>,
    flat: Seq<LineModel>,
    data: Seq<LineModel>,
    pi: int,
    fi: int,
    di: int,
    acc: MergeModel,
) -> MergeModel
    decreases paths.len() - pi, flat.len() - fi + data.len() - di,
{
    if pi < 0 || fi < 0 || di < 0 || fi > flat.len() || di > data.len() || pi >= paths.len() {
        let flat_done = flush_store(acc.flat_out, acc.flat_last, flat, fi);
        let data_done = flush_store(acc.data_out, acc.data_last, data, di);
        MergeModel {
            flat_out: flat_done.0,
            flat_last: flat_done.1,
            data_out: data_done.0,
            data_last: data_done.1,
            ..acc
        }
    } else {
        let d = paths[pi].0;
        if fi < flat.len() && digest_lt(flat[fi].digest, d) {
            let stepped = write_out(acc.flat_out, acc.flat_last, flat[fi]);
            merge_rec(
                paths,
                flat,
                data,
                pi,
                fi + 1,
                di,
                MergeModel { flat_out: stepped.0, flat_last: stepped.1, ..acc },
            )
        } else if di < data.len() && digest_lt(data[di].digest, d) {
            let stepped = write_out(acc.data_out, acc.data_last, data[di]);
            merge_rec(
                paths,
                flat,
                data,
                pi,
                fi,
                di + 1,
                MergeModel { data_out: stepped.0, data_last: stepped.1, ..acc },
            )
        } else if fi < flat.len() && flat[fi].digest == d {
            let stepped = write_out(acc.flat_out, acc.flat_last, flat[fi]);
            merge_rec(
                paths,
                flat,
                data,
                pi + 1,
                fi + 1,
                di,
                MergeModel { flat_out: stepped.0, flat_last: stepped.1, ..acc },
            )
        } else if di < data.len() && data[di].digest == d {
            let stepped = write_out(acc.data_out, acc.data_last, data[di]);
            merge_rec(
                paths,
                flat,
                data,
                pi + 1,
                fi,
                di + 1,
                MergeModel { data_out: stepped.0, data_last: stepped.1, ..acc },
            )
        } else {
            match paths[pi].1 {
                None => merge_rec(
                    paths,
                    flat,
                    data,
                    pi + 1,
                    fi,
                    di,
                    MergeModel { unreadable: acc.unreadable.push(d), ..acc },
                ),
                Some(c) => match classify_payload_spec(c) {
                    PayloadKind::Flat => {
                        let stepped = write_out(acc.flat_out, acc.flat_last, new_line_spec(d, c));
                        merge_rec(
                            paths,
                            flat,
                            data,
                            pi + 1,
                            fi,
                            di,
                            MergeModel { flat_out: stepped.0, flat_last: stepped.1, ..acc },
                        )
                    },
                    PayloadKind::Data => {
                        let stepped = write_out(acc.data_out, acc.data_last, new_line_spec(d, c));
                        merge_rec(
                            paths,
                            flat,
                            data,
                            pi + 1,
                            fi,
                            di,
                            MergeModel { data_out: stepped.0, data_last: stepped.1, ..acc },
                        )
                    },
                    _ => merge_rec(
                        paths,
                        flat,
                        data,
                        pi + 1,
                        fi,
                        di,
                        MergeModel { skipped: acc.skipped.push(d), ..acc },
                    ),
                },
            }
        }
    }
}

/// The model of a merge outcome.
pub open spec fn outcome_model(o: &MergeOutcome) -> MergeModel {
    MergeModel {
        flat_out: o.flat.out(),
        flat_last: o.flat.last(),
        data_out: o.data.out(),
        data_last: o.data.last(),
        skipped: o.skipped@.map_values(|d: Sha1Digest| d@),
        unreadable: o.unreadable@.map_values(|d: Sha1Digest| d@),
    }
}

/// The view of the driving sequence: each fresh digest with its payload, or
/// `None` for a payload that could not be read.
pub open spec fn paths_model(paths: Seq<(Sha1Digest, Option<String>)>) -> Seq<
    (Seq<u8>, Option<Seq<char>>),
> {
    paths.map_values(
        |p: (Sha1Digest, Option<String>)|
            (
                p.0@,
                match p.1 {
                    Some(c) => Some(c@),
                    None => None,
                },
            ),
    )
}

/// The views of a store's records.
pub open spec fn store_model(store: Seq<SnapshotLine>) -> Seq<LineModel> {
    store.map_values(|l: SnapshotLine| l@)
}

/// Merges fresh files, sorted ascending by digest, into the two existing
/// store streams, per [`merge_rec`].
#[verifier::loop_isolation(false)]
pub fn merge(
    paths: &Vec<(Sha1Digest, Option<String>)>,
    flat_in: &Vec<SnapshotLine>,
    data_in: &Vec<SnapshotLine>,
) -> (r: MergeOutcome)
    requires
        forall|i: int| 0 <= i < paths@.len() ==> (match (#[trigger] paths@[i]).1 {
            Some(c) => c@.len() >= 4,
            None => true,
        }),
    ensures
        outcome_model(&r) == merge_rec(
            paths_model(paths@),
            store_model(flat_in@),
            store_model(data_in@),
            0,
            0,
            0,
            MergeModel {
                flat_out: Seq::empty(),
                flat_last: None,
                data_out: Seq::empty(),
                data_last: None,
                skipped: Seq::empty(),
                unreadable: Seq::empty(),
            },
        ),
{
    let ghost pm = paths_model(paths@);
    let ghost fm = store_model(flat_in@);
    let ghost dm = store_model(data_in@);
    proof {
        assert(forall|i: int| 0 <= i < paths@.len() ==> #[trigger] pm[i] == (
            paths@[i].0@,
            match paths@[i].1 {
                Some(c) => Some(c@),
                None => None,
            },
        ));
        assert(forall|i: int| 0 <= i < flat_in@.len() ==> #[trigger] fm[i] == flat_in@[i]@);
        assert(forall|i: int| 0 <= i < data_in@.len() ==> #[trigger] dm[i] == data_in@[i]@);
    }
    let mut outcome = MergeOutcome {
        flat: SnapshotWriter::new(),
        data: SnapshotWriter::new(),
        skipped: Vec::new(),
        unreadable: Vec::new(),
    };
    let ghost init = MergeModel {
        flat_out: Seq::empty(),
        flat_last: None,
        data_out: Seq::empty(),
        data_last: None,
        skipped: Seq::empty(),
        unreadable: Seq::empty(),
    };
    proof {
        assert(outcome_model(&outcome) =~= init);
    }
    let mut pi: usize = 0;
    let mut fi: usize = 0;
    let mut di: usize = 0;
    while pi < paths.len()
        invariant
            0 <= pi <= paths@.len(),
            0 <= fi <= flat_in@.len(),
            0 <= di <= data_in@.len(),
            merge_rec(pm, fm, dm, 0, 0, 0, init) == merge_rec(
                pm,
                fm,
                dm,
                pi as int,
                fi as int,
                di as int,
                outcome_model(&outcome),
            ),
        decreases paths@.len() - pi, flat_in@.len() - fi + data_in@.len() - di,
    {
        let digest = paths[pi].0;
        proof {
            assert(pm[pi as int].0 == digest@);
        }
        let flat_next_lt = fi < flat_in.len() && flat_in[fi].digest.lt(&digest);
        if flat_next_lt {
            let ghost before = outcome_model(&outcome);
            outcome.flat.write_snapshot(&flat_in[fi]);
            proof {
                assert(outcome_model(&outcome) =~= (MergeModel {
                    flat_out: write_out(before.flat_out, before.flat_last, fm[fi as int]).0,
                    flat_last: write_out(before.flat_out, before.flat_last, fm[fi as int]).1,
                    ..before
                }));
            }
            fi += 1;
            continue;
        }
        let data_next_lt = di < data_in.len() && data_in[di].digest.lt(&digest);
        if data_next_lt {
            let ghost before = outcome_model(&outcome);
            outcome.data.write_snapshot(&data_in[di]);
            proof {
                assert(outcome_model(&outcome) =~= (MergeModel {
                    data_out: write_out(before.data_out, before.data_last, dm[di as int]).0,
                    data_last: write_out(before.data_out, before.data_last, dm[di as int]).1,
                    ..before
                }));
            }
            di += 1;
            continue;
        }
        let flat_next_eq = fi < flat_in.len() && flat_in[fi].digest.equals(&digest);
        if flat_next_eq {
            let ghost before = outcome_model(&outcome);
            outcome.flat.write_snapshot(&flat_in[fi]);
            proof {
                assert(outcome_model(&outcome) =~= (MergeModel {
                    flat_out: write_out(before.flat_out, before.flat_last, fm[fi as int]).0,
                    flat_last: write_out(before.flat_out, before.flat_last, fm[fi as int]).1,
                    ..before
                }));
            }
            fi += 1;
            pi += 1;
            continue;
        }
        let data_next_eq = di < data_in.len() && data_in[di].digest.equals(&digest);
        if data_next_eq {
            let ghost before = outcome_model(&outcome);
            outcome.data.write_snapshot(&data_in[di]);
            proof {
                assert(outcome_model(&outcome) =~= (MergeModel {
                    data_out: write_out(before.data_out, before.data_last, dm[di as int]).0,
                    data_last: write_out(before.data_out, before.data_last, dm[di as int]).1,
                    ..before
                }));
            }
            di += 1;
            pi += 1;
            continue;
        }
        match &paths[pi].1 {
            None => {
                let ghost before = outcome_model(&outcome);
                outcome.unreadable.push(digest);
                proof {
                    assert(outcome_model(&outcome) =~= (MergeModel {
                        unreadable: before.unreadable.push(digest@),
                        ..before
                    }));
                }
            },
            Some(content) => {
                proof {
                    assert(pm[pi as int].1 == Some(content@));
                }
                match classify_payload(content.as_str()) {
                    PayloadKind::Flat => {
                        let ghost before = outcome_model(&outcome);
                        outcome.flat.write(digest, content.as_str());
                        proof {
                            assert(outcome_model(&outcome) =~= (MergeModel {
                                flat_out: write_out(
                                    before.flat_out,
                                    before.flat_last,
                                    new_line_spec(digest@, content@),
                                ).0,
                                flat_last: write_out(
                                    before.flat_out,
                                    before.flat_last,
                                    new_line_spec(digest@, content@),
                                ).1,
                                ..before
                            }));
                        }
                    },
                    PayloadKind::Data => {
                        let ghost before = outcome_model(&outcome);
                        outcome.data.write(digest, content.as_str());
                        proof {
                            assert(outcome_model(&outcome) =~= (MergeModel {
                                data_out: write_out(
                                    before.data_out,
                                    before.data_last,
                                    new_line_spec(digest@, content@),
                                ).0,
                                data_last: write_out(
                                    before.data_out,
                                    before.data_last,
                                    new_line_spec(digest@, content@),
                                ).1,
                                ..before
                            }));
                        }
                    },
                    _ => {
                        let ghost before = outcome_model(&outcome);
                        outcome.skipped.push(digest);
                        proof {
                            assert(outcome_model(&outcome) =~= (MergeModel {
                                skipped: before.skipped.push(digest@),
                                ..before
                            }));
                        }
                    },
                }
            },
        }
        pi += 1;
    }
    while fi < flat_in.len()
        invariant
            0 <= fi <= flat_in@.len(),
            0 <= di <= data_in@.len(),
            pi == paths@.len(),
            merge_rec(pm, fm, dm, 0, 0, 0, init) == merge_rec(
                pm,
                fm,
                dm,
                pi as int,
                fi as int,
                di as int,
                outcome_model(&outcome),
            ),
        decreases flat_in@.len() - fi,
    {
        let ghost before = outcome_model(&outcome);
        outcome.flat.write_snapshot(&flat_in[fi]);
        proof {
            assert(outcome_model(&outcome) =~= (MergeModel {
                flat_out: write_out(before.flat_out, before.flat_last, fm[fi as int]).0,
                flat_last: write_out(before.flat_out, before.flat_last, fm[fi as int]).1,
                ..before
            }));
            lemma_merge_done_step(pm, fm, dm, fi as int, di as int, before);
        }
        fi += 1;
    }
    while di < data_in.len()
        invariant
            0 <= di <= data_in@.len(),
            fi == flat_in@.len(),
            pi == paths@.len(),
            merge_rec(pm, fm, dm, 0, 0, 0, init) == merge_rec(
                pm,
                fm,
                dm,
                pi as int,
                fi as int,
                di as int,
                outcome_model(&outcome),
            ),
        decreases data_in@.len() - di,
    {
        let ghost before = outcome_model(&outcome);
        outcome.data.write_snapshot(&data_in[di]);
        proof {
            assert(outcome_model(&outcome) =~= (MergeModel {
                data_out: write_out(before.data_out, before.data_last, dm[di as int]).0,
                data_last: write_out(before.data_out, before.data_last, dm[di as int]).1,
                ..before
            }));
            lemma_merge_done_step(pm, fm, dm, fi as int, di as int, before);
        }
        di += 1;
    }
    proof {
        lemma_merge_done_end(pm, fm, dm, fi as int, di as int, outcome_model(&outcome));
    }
    outcome
}

/// After the driving sequence, one flush step of either store advances the
/// state machine the same way.
proof fn lemma_merge_done_step(
    paths: Seq<(Seq<u8>, Option<Seq<char>>)>,
    flat: Seq<LineModel>,
    data: Seq<LineModel>,
    fi: int,
    di: int,
    acc: MergeModel,
)
    requires
        0 <= fi <= flat.len(),
        0 <= di <= data.len(),
    ensures
        fi < flat.len() ==> merge_rec(paths, flat, data, paths.len() as int, fi, di, acc)
            == merge_rec(
            paths,
            flat,
            data,
            paths.len() as int,
            fi + 1,
            di,
            MergeModel {
                flat_out: write_out(acc.flat_out, acc.flat_last, flat[fi]).0,
                flat_last: write_out(acc.flat_out, acc.flat_last, flat[fi]).1,
                ..acc
            },
        ),
        (fi == flat.len() && di < data.len()) ==> merge_rec(
            paths,
            flat,
            data,
            paths.len() as int,
            fi,
            di,
            acc,
        ) == merge_rec(
            paths,
            flat,
            data,
            paths.len() as int,
            fi,
            di + 1,
            MergeModel {
                data_out: write_out(acc.data_out, acc.data_last, data[di]).0,
                data_last: write_out(acc.data_out, acc.data_last, data[di]).1,
                ..acc
            },
        ),
{
    if fi < flat.len() {
        let stepped = write_out(acc.flat_out, acc.flat_last, flat[fi]);
        let acc2 = MergeModel { flat_out: stepped.0, flat_last: stepped.1, ..acc };
        assert(merge_rec(paths, flat, data, paths.len() as int, fi, di, acc).flat_out
            == merge_rec(paths, flat, data, paths.len() as int, fi + 1, di, acc2).flat_out);
        assert(merge_rec(paths, flat, data, paths.len() as int, fi, di, acc) =~= merge_rec(
            paths,
            flat,
            data,
            paths.len() as int,
            fi + 1,
            di,
            acc2,
        ));
    } else if di < data.len() {
        let stepped = write_out(acc.data_out, acc.data_last, data[di]);
        let acc2 = MergeModel { data_out: stepped.0, data_last: stepped.1, ..acc };
        assert(merge_rec(paths, flat, data, paths.len() as int, fi, di, acc) =~= merge_rec(
            paths,
            flat,
            data,
            paths.len() as int,
            fi,
            di + 1,
            acc2,
        ));
    }
}

/// With both stores exhausted, the state machine is done.
proof fn lemma_merge_done_end(
    paths: Seq<(Seq<u8>, Option<Seq<char>>)>,
    flat: Seq<LineModel>,
    data: Seq<LineModel>,
    fi: int,
    di: int,
    acc: MergeModel,
)
    requires
        fi == flat.len(),
        di == data.len(),
    ensures
        merge_rec(paths, flat, data, paths.len() as int, fi, di, acc) == acc,
{
    assert(merge_rec(paths, flat, data, paths.len() as int, fi, di, acc) =~= acc);
}


/// Strictly ascending digests over a store's records.
pub open spec fn store_ascending(store: Seq<LineModel>) -> bool {
    forall|i: int, j: int| 0 <= i < j < store.len() ==> digest_lt(
        (#[trigger] store[i]).digest,
        (#[trigger] store[j]).digest,
    )
}

/// Strictly ascending digests over the driving sequence.
pub open spec fn paths_ascending(paths: Seq<(Seq<u8>, Option<Seq<char>>)>) -> bool {
    forall|i: int, j: int| 0 <= i < j < paths.len() ==> digest_lt(
        (#[trigger] paths[i]).0,
        (#[trigger] paths[j]).0,
    )
}

/// Whether a digest appears among the store's records from index `fi` on.
pub open spec fn digest_in_suffix(flat: Seq<LineModel>, fi: int, d: Seq<u8>) -> bool {
    exists|j: int| fi <= j < flat.len() && d == (#[trigger] flat[j]).digest
}

/// Every remaining driving digest is present among the store's remaining
/// records.
pub open spec fn digests_present(
    paths: Seq<(Seq<u8>, Option<Seq<char>>)>,
    flat: Seq<LineModel>,
    pi: int,
    fi: int,
) -> bool {
    forall|k: int| pi <= k < paths.len() ==> digest_in_suffix(flat, fi, (#[trigger] paths[k]).0)
}

proof fn lemma_flush_identity(flat: Seq<LineModel>, fi: int)
    requires
        store_ascending(flat),
        0 <= fi <= flat.len(),
    ensures
        flush_store(
            flat.take(fi),
            if fi == 0 {
                None
            } else {
                Some(flat[fi - 1].digest)
            },
            flat,
            fi,
        ).0 == flat,
    decreases flat.len() - fi,
{
    let last: Option<Seq<u8>> = if fi == 0 {
        None
    } else {
        Some(flat[fi - 1].digest)
    };
    if fi == flat.len() {
        assert(flat.take(fi) =~= flat);
    } else {
        if fi > 0 {
            assert(digest_lt(flat[fi - 1].digest, flat[fi].digest));
            crate::digest::lemma_digest_lt_neq(flat[fi - 1].digest, flat[fi].digest);
        }
        assert(write_out(flat.take(fi), last, flat[fi]) == (
            flat.take(fi).push(flat[fi]),
            Some(flat[fi].digest),
        ));
        assert(flat.take(fi).push(flat[fi]) =~= flat.take(fi + 1));
        lemma_flush_identity(flat, fi + 1);
    }
}

proof fn lemma_merge_idem_rec(
    paths: Seq<(Seq<u8>, Option<Seq<char>>)>,
    flat: Seq<LineModel>,
    pi: int,
    fi: int,
    acc: MergeModel,
)
    requires
        store_ascending(flat),
        paths_ascending(paths),
        0 <= pi <= paths.len(),
        0 <= fi <= flat.len(),
        acc.flat_out == flat.take(fi),
        acc.flat_last == (if fi == 0 {
            None::<Seq<u8>>
        } else {
            Some(flat[fi - 1].digest)
        }),
        digests_present(paths, flat, pi, fi),
    ensures
        ({
            let m = merge_rec(paths, flat, Seq::empty(), pi, fi, 0, acc);
            m.flat_out == flat && m.data_out == acc.data_out && m.data_last == acc.data_last
                && m.skipped == acc.skipped && m.unreadable == acc.unreadable
        }),
    decreases paths.len() - pi, flat.len() - fi,
{
    let data = Seq::<LineModel>::empty();
    if pi >= paths.len() {
        lemma_flush_identity(flat, fi);
    } else {
        let d = paths[pi].0;
        assert(digest_in_suffix(flat, fi, d));
        let jw = choose|j: int| fi <= j < flat.len() && d == (#[trigger] flat[j]).digest;
        if fi < flat.len() && digest_lt(flat[fi].digest, d) {
            if fi > 0 {
                assert(digest_lt(flat[fi - 1].digest, flat[fi].digest));
                crate::digest::lemma_digest_lt_neq(flat[fi - 1].digest, flat[fi].digest);
            }
            crate::digest::lemma_digest_lt_neq(flat[fi].digest, d);
            let stepped = write_out(acc.flat_out, acc.flat_last, flat[fi]);
            let acc2 = MergeModel { flat_out: stepped.0, flat_last: stepped.1, ..acc };
            assert(acc2.flat_out =~= flat.take(fi + 1)) by {
                assert(flat.take(fi).push(flat[fi]) =~= flat.take(fi + 1));
            }
            assert forall|k: int| pi <= k < paths.len() implies digest_in_suffix(
                flat,
                fi + 1,
                (#[trigger] paths[k]).0,
            ) by {
                assert(digest_in_suffix(flat, fi, paths[k].0));
                let j0 = choose|j: int|
                    fi <= j < flat.len() && paths[k].0 == (#[trigger] flat[j]).digest;
                if k > pi {
                    assert(digest_lt(paths[pi].0, paths[k].0));
                    crate::digest::lemma_digest_lt_trans(flat[fi].digest, d, paths[k].0);
                    crate::digest::lemma_digest_lt_neq(flat[fi].digest, paths[k].0);
                }
                assert(j0 != fi);
                assert(fi + 1 <= j0 < flat.len() && paths[k].0 == flat[j0].digest);
            }
            assert(digests_present(paths, flat, pi, fi + 1));
            lemma_merge_idem_rec(paths, flat, pi, fi + 1, acc2);
        } else if fi < flat.len() && flat[fi].digest == d {
            if fi > 0 {
                assert(digest_lt(flat[fi - 1].digest, flat[fi].digest));
                crate::digest::lemma_digest_lt_neq(flat[fi - 1].digest, flat[fi].digest);
            }
            let stepped = write_out(acc.flat_out, acc.flat_last, flat[fi]);
            let acc2 = MergeModel { flat_out: stepped.0, flat_last: stepped.1, ..acc };
            assert(acc2.flat_out =~= flat.take(fi + 1)) by {
                assert(flat.take(fi).push(flat[fi]) =~= flat.take(fi + 1));
            }
            assert forall|k: int| pi + 1 <= k < paths.len() implies digest_in_suffix(
                flat,
                fi + 1,
                (#[trigger] paths[k]).0,
            ) by {
                assert(digest_in_suffix(flat, fi, paths[k].0));
                let j0 = choose|j: int|
                    fi <= j < flat.len() && paths[k].0 == (#[trigger] flat[j]).digest;
                assert(digest_lt(paths[pi].0, paths[k].0));
                crate::digest::lemma_digest_lt_neq(d, paths[k].0);
                assert(j0 != fi);
                assert(fi + 1 <= j0 < flat.len() && paths[k].0 == flat[j0].digest);
            }
            assert(digests_present(paths, flat, pi + 1, fi + 1));
            lemma_merge_idem_rec(paths, flat, pi + 1, fi + 1, acc2);
        } else {
            if jw == fi {
                assert(flat[fi].digest == d);
                assert(false);
            } else {
                assert(fi < jw < flat.len());
                assert(digest_lt(flat[fi].digest, flat[jw].digest));
                assert(digest_lt(flat[fi].digest, d));
                assert(false);
            }
        }
    }
}

/// Merge idempotence: merging fresh files whose every digest already exists
/// in the target store produces output identical to the store, record for
/// record, with nothing skipped and the other stream untouched.
pub proof fn lemma_merge_idempotent(paths: Seq<(Seq<u8>, Option<Seq<char>>)>, flat: Seq<LineModel>)
    requires
        store_ascending(flat),
        paths_ascending(paths),
        digests_present(paths, flat, 0, 0),
    ensures
        ({
            let m = merge_rec(
                paths,
                flat,
                Seq::empty(),
                0,
                0,
                0,
                MergeModel {
                    flat_out: Seq::empty(),
                    flat_last: None,
                    data_out: Seq::empty(),
                    data_last: None,
                    skipped: Seq::empty(),
                    unreadable: Seq::empty(),
                },
            );
            m.flat_out == flat && m.data_out == Seq::<LineModel>::empty() && m.skipped == Seq::<
                Seq<u8>,
            >::empty() && m.unreadable == Seq::<Seq<u8>>::empty()
        }),
{
    let init = MergeModel {
        flat_out: Seq::empty(),
        flat_last: None,
        data_out: Seq::empty(),
        data_last: None,
        skipped: Seq::empty(),
        unreadable: Seq::empty(),
    };
    assert(init.flat_out =~= flat.take(0));
    lemma_merge_idem_rec(paths, flat, 0, 0, init);
}

} // verus!

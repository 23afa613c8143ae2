//! Streaming access to snapshot stores: a cursor that parses lines one at a
//! time, and a write-side buffer that drops immediately consecutive repeats
//! of the same digest.

use crate::digest::Sha1Digest;
use crate::timestamp::Timestamp;
use crate::lines::{all_crlf_seq, new_line_spec, no_quote_seq, parse_spec, render_spec, Error, LineModel, SnapshotLine};
use vstd::prelude::*;

verus! {

/// A restartable cursor over a store's lines, parsing each in turn.
pub struct SnapshotReader {
    pub lines: Vec<String>,
    pub pos: usize,
}

impl SnapshotReader {
    /// A cursor at the start of the given lines.
    pub fn new(lines: Vec<String>) -> (r: SnapshotReader)
        ensures
            r.lines == lines,
            r.pos == 0,
    {
        SnapshotReader { lines, pos: 0 }
    }

    /// Parses the next line: `None` at the end of the store. A structural
    /// parse failure is surfaced, never skipped, since a corrupt store must
    /// not be silently truncated.
    pub fn next_line(&mut self) -> (r: Option<Result<SnapshotLine, Error>>)
        ensures
            final(self).lines == old(self).lines,
            match r {
                None => old(self).pos >= old(self).lines@.len() && final(self).pos == old(
                    self,
                ).pos,
                Some(parsed) => {
                    &&& old(self).pos < old(self).lines@.len()
                    &&& final(self).pos == old(self).pos + 1
                    &&& match parsed {
                        Ok(l) => parse_spec(old(self).lines@[old(self).pos as int]@) == Some(l@)
                            && l@.wf(),
                        Err(_) => parse_spec(old(self).lines@[old(self).pos as int]@) is None,
                    }
                },
            },
    {
        if self.pos >= self.lines.len() {
            return None;
        }
        let line = SnapshotLine::parse(self.lines[self.pos].as_str());
        self.pos = self.pos + 1;
        Some(line)
    }

    /// Parses the whole store, stopping at the first structural failure.
    pub fn parse_all(lines: &Vec<String>) -> (r: Result<Vec<SnapshotLine>, Error>)
        ensures
            match r {
                Ok(parsed) => parsed@.len() == lines@.len() && forall|i: int|
                    0 <= i < lines@.len() ==> parse_spec(lines@[i]@) == Some(
                        #[trigger] parsed@[i]@,
                    ) && parsed@[i]@.wf(),
                Err(_) => exists|i: int| 0 <= i < lines@.len() && parse_spec(#[trigger] lines@[i]@) is None,
            },
    {
        let mut parsed: Vec<SnapshotLine> = Vec::new();
        let mut i: usize = 0;
        while i < lines.len()
            invariant
                0 <= i <= lines@.len(),
                parsed@.len() == i,
                forall|j: int| 0 <= j < i ==> parse_spec(lines@[j]@) == Some(#[trigger] parsed@[j]@)
                    && parsed@[j]@.wf(),
            decreases lines@.len() - i,
        {
            match SnapshotLine::parse(lines[i].as_str()) {
                Ok(l) => {
                    parsed.push(l);
                },
                Err(e) => {
                    return Err(e);
                },
            }
            i += 1;
        }
        Ok(parsed)
    }
}

/// One write step of the deduplicating writer: a record whose digest equals
/// the last written digest is dropped, anything else is appended.
pub open spec fn write_out(out: Seq<LineModel>, last: Option<Seq<u8>>, m: LineModel) -> (
    Seq<LineModel>,
    Option<Seq<u8>>,
) {
    if last == Some(m.digest) {
        (out, last)
    } else {
        (out.push(m), Some(m.digest))
    }
}

/// A write-side buffer of snapshot records that tracks the last digest
/// written and silently drops an immediately consecutive repeat. This relies
/// on strictly ascending input; it is not a general set-based dedup.
pub struct SnapshotWriter {
    pub last_written: Option<Sha1Digest>,
    pub records: Vec<SnapshotLine>,
}

impl SnapshotWriter {
    /// The written records, as values.
    pub open spec fn out(&self) -> Seq<LineModel> {
        self.records@.map_values(|l: SnapshotLine| l@)
    }

    /// The last written digest, as a value.
    pub open spec fn last(&self) -> Option<Seq<u8>> {
        match self.last_written {
            Some(d) => Some(d@),
            None => None,
        }
    }

    /// An empty writer.
    pub fn new() -> (r: SnapshotWriter)
        ensures
            r.out() =~= Seq::<LineModel>::empty(),
            r.last() is None,
    {
        SnapshotWriter { last_written: None, records: Vec::new() }
    }

    /// Writes a record, ignoring consecutive values with the same digest.
    pub fn write_snapshot(&mut self, snapshot_line: &SnapshotLine) -> (r: bool)
        ensures
            (final(self).out(), final(self).last()) == write_out(
                old(self).out(),
                old(self).last(),
                snapshot_line@,
            ),
            r == (old(self).last() != Some(snapshot_line@.digest)),
    {
        let same = match &self.last_written {
            Some(d) => d.equals(&snapshot_line.digest),
            None => false,
        };
        if same {
            false
        } else {
            let ghost before = self.out();
            self.records.push(snapshot_line.clone_line());
            self.last_written = Some(snapshot_line.digest);
            proof {
                assert(self.out() =~= before.push(snapshot_line@));
            }
            true
        }
    }

    /// Builds a record from raw content and writes it, ignoring consecutive
    /// values with the same digest.
    pub fn write(&mut self, digest: Sha1Digest, content: &str) -> (r: bool)
        requires
            content@.len() >= 4,
        ensures
            (final(self).out(), final(self).last()) == write_out(
                old(self).out(),
                old(self).last(),
                new_line_spec(digest@, content@),
            ),
            r == (old(self).last() != Some(digest@)),
    {
        let same = match &self.last_written {
            Some(d) => d.equals(&digest),
            None => false,
        };
        if same {
            false
        } else {
            let line = SnapshotLine::new(digest, content);
            let ghost before = self.out();
            self.records.push(line);
            self.last_written = Some(digest);
            proof {
                assert(self.out() =~= before.push(new_line_spec(digest@, content@)));
            }
            true
        }
    }

    /// Renders the written records as lines, in order.
    pub fn rendered_lines(&self) -> (r: Vec<String>)
        requires
            forall|i: int| 0 <= i < self.out().len() ==> (#[trigger] self.out()[i]).wf(),
        ensures
            r@.len() == self.out().len(),
            forall|i: int| 0 <= i < r@.len() ==> (#[trigger] r@[i]@) == render_spec(self.out()[i]),
    {
        let mut r: Vec<String> = Vec::new();
        let mut i: usize = 0;
        while i < self.records.len()
            invariant
                0 <= i <= self.records@.len(),
                forall|j: int| 0 <= j < self.out().len() ==> (#[trigger] self.out()[j]).wf(),
                r@.len() == i,
                forall|j: int| 0 <= j < i ==> (#[trigger] r@[j]@) == render_spec(self.out()[j]),
            decreases self.records@.len() - i,
        {
            assert(self.out()[i as int] == self.records@[i as int]@);
            let line = self.records[i].to_line_string();
            r.push(line);
            i += 1;
        }
        r
    }
}

impl SnapshotLine {
    /// A copy of the record.
    pub fn clone_line(&self) -> (r: SnapshotLine)
        ensures
            r@ == self@,
    {
        SnapshotLine {
            digest: self.digest,
            expected_digest: self.expected_digest,
            closing_whitespace: match &self.closing_whitespace {
                Some(w) => Some(crate::text::chars_slice(w, 0, w.len())),
                None => None,
            },
            timestamp: self.timestamp,
            url: match &self.url {
                Some(u) => Some(u.clone()),
                None => None,
            },
            content: self.content.clone(),
        }
    }

    /// Whether the record's fields are well-formed, as an executable check.
    pub fn check_wf(&self) -> (r: bool)
        ensures
            r == self@.wf(),
    {
        let closing_ok = match &self.closing_whitespace {
            Some(w) => all_crlf(w),
            None => true,
        };
        let timestamp_ok = match &self.timestamp {
            Some(t) => timestamp_wf(t),
            None => true,
        };
        let url_ok = match &self.url {
            Some(u) => no_quote(u),
            None => true,
        };
        proof {
            match &self.closing_whitespace {
                Some(w) => {
                    assert(self@.closing_whitespace == Some(w@));
                },
                None => {
                    assert(self@.closing_whitespace is None);
                },
            }
            match &self.url {
                Some(u) => {
                    assert(self@.url == Some(u@));
                },
                None => {
                    assert(self@.url is None);
                },
            }
            assert(self@.digest.len() == 20);
            match &self.expected_digest {
                Some(d) => {
                    assert(self@.expected_digest == Some(d@) && d@.len() == 20);
                },
                None => {
                    assert(self@.expected_digest is None);
                },
            }
            assert(self@.timestamp == self.timestamp);
        }
        closing_ok && timestamp_ok && url_ok
    }
}

/// Whether every character is a carriage return or line feed.
fn all_crlf(w: &Vec<char>) -> (r: bool)
    ensures
        r == all_crlf_seq(w@),
{
    let mut i: usize = 0;
    while i < w.len()
        invariant
            0 <= i <= w@.len(),
            forall|j: int| 0 <= j < i ==> crate::lines::is_crlf(#[trigger] w@[j]),
        decreases w@.len() - i,
    {
        let c = w[i];
        if c != '\r' && c != '\n' {
            assert(!crate::lines::is_crlf(w@[i as int]));
            assert(!all_crlf_seq(w@));
            return false;
        }
        i += 1;
    }
    true
}

/// Whether the timestamp's fields form a valid date and time.
fn timestamp_wf(t: &Timestamp) -> (r: bool)
    ensures
        r == t.wf(),
{
    let ok = Timestamp::from_parts(t.year, t.month, t.day, t.hour, t.minute, t.second).is_some();
    proof {
        assert((Timestamp {
            year: t.year,
            month: t.month,
            day: t.day,
            hour: t.hour,
            minute: t.minute,
            second: t.second,
        }) == *t);
    }
    ok
}

/// Whether no character is a double quote.
fn no_quote(u: &String) -> (r: bool)
    ensures
        r == no_quote_seq(u@),
{
    let chars = crate::text::str_to_chars(u.as_str());
    let mut i: usize = 0;
    while i < chars.len()
        invariant
            0 <= i <= chars@.len(),
            chars@ == u@,
            forall|j: int| 0 <= j < i ==> #[trigger] u@[j] != '"',
        decreases chars@.len() - i,
    {
        if chars[i] == '"' {
            assert(u@[i as int] == '"');
            assert(!no_quote_seq(u@));
            return false;
        }
        i += 1;
    }
    true
}

} // verus!

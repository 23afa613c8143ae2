use archivindex::digest::{Sha1Computer, Sha1Digest};
use archivindex::lines::SnapshotLine;
use archivindex::lines_io::SnapshotReader;
use archivindex::timestamp::Timestamp;

fn digest_of(content: &str) -> Sha1Digest {
    Sha1Computer::compute_digest(content.as_bytes())
}

#[test]
fn line_round_trip_minimal() {
    let content = "{\"id\":1}\r\r\n";
    let line = SnapshotLine::new(digest_of(content), content);
    let rendered = line.to_line_string();
    let parsed = SnapshotLine::parse(&rendered).unwrap();
    assert_eq!(parsed, line);
    assert_eq!(parsed.to_line_string(), rendered);
}

#[test]
fn line_round_trip_all_fields() {
    let content = "{\"id\":1}\r\r\n";
    let mut line = SnapshotLine::new(digest_of(content), content);
    line.expected_digest =
        Some(Sha1Digest::parse_str("ZHYT52YPEOCHJD5FZINSDYXGQZI22WJ4").unwrap());
    line.timestamp = Some(Timestamp::from_parts(2016, 5, 8, 21, 55, 3).unwrap());
    line.url = Some("https://twitter.com/farleftwatch".to_string());
    let rendered = line.to_line_string();
    let parsed = SnapshotLine::parse(&rendered).unwrap();
    assert_eq!(parsed, line);
}

#[test]
fn line_round_trip_nonstandard_trailer() {
    // ends with a CR/LF run other than the default trailer
    let content = "{\"id\":2}\n\r\n";
    let line = SnapshotLine::new(digest_of(content), content);
    assert_eq!(line.closing_whitespace, Some(vec!['\n', '\r', '\n']));
    assert_eq!(line.content, "{\"id\":2}");
    let rendered = line.to_line_string();
    let parsed = SnapshotLine::parse(&rendered).unwrap();
    assert_eq!(parsed, line);
}

#[test]
fn line_round_trip_default_trailer_kept_implicit() {
    let content = "{\"id\":3}\r\r\n";
    let line = SnapshotLine::new(digest_of(content), content);
    assert_eq!(line.closing_whitespace, None);
    assert_eq!(line.content, "{\"id\":3}");
    let rendered = line.to_line_string();
    let parsed = SnapshotLine::parse(&rendered).unwrap();
    assert_eq!(parsed, line);
}

#[test]
fn validate_accepts_matching_digest() {
    let content = "{\"id\":4}\r\r\n";
    let line = SnapshotLine::new(digest_of(content), content);
    assert_eq!(line.validate(), Ok(()));
}

#[test]
fn validate_is_idempotent() {
    let content = "{\"id\":5}\n\n";
    let line = SnapshotLine::new(digest_of(content), content);
    let first = line.validate();
    let second = line.validate();
    assert_eq!(first, second);
    assert_eq!(first, Ok(()));
}

#[test]
fn validate_reports_computed_digest_on_mismatch() {
    let content = "{\"id\":6}\r\r\n";
    let wrong = Sha1Computer::compute_digest(b"something else");
    let line = SnapshotLine::new(wrong, content);
    let expected_actual = digest_of(content);
    assert_eq!(line.validate(), Err(expected_actual));
}

#[test]
fn parse_rejects_garbage() {
    assert!(SnapshotLine::parse("not a line").is_err());
    assert!(SnapshotLine::parse("{\"digest\":\"tooshort\",\"content\":x}").is_err());
}

#[test]
fn validate_lines_counts() {
    let a = "{\"id\":100}\r\r\n";
    let b = "{\"id\":200}\r\r\n";
    let la = SnapshotLine::new(digest_of(a), a);
    let lb = SnapshotLine::new(digest_of(b), b);
    let (first, second) = if la.digest.lt(&lb.digest) { (la, lb) } else { (lb, la) };
    let lines = vec![first.to_line_string(), second.to_line_string()];
    let validation = SnapshotLine::validate_lines(&lines);
    assert_eq!(validation.valid_count, 2);
    assert!(validation.is_successful());

    let reversed = vec![second.to_line_string(), first.to_line_string()];
    let validation = SnapshotLine::validate_lines(&reversed);
    assert_eq!(validation.valid_count, 1);
    assert_eq!(validation.out_of_order.len(), 1);
    assert!(!validation.is_successful());

    let broken = vec!["nonsense".to_string()];
    let validation = SnapshotLine::validate_lines(&broken);
    assert_eq!(validation.invalid_lines, vec![1]);
    assert!(!validation.is_successful());
}

#[test]
fn reader_parses_in_order() {
    let a = "{\"id\":1}\r\r\n";
    let line = SnapshotLine::new(digest_of(a), a);
    let mut reader = SnapshotReader::new(vec![line.to_line_string()]);
    let first = reader.next_line().unwrap().unwrap();
    assert_eq!(first, line);
    assert!(reader.next_line().is_none());
}

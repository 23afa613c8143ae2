use archivindex::digest::{Sha1Computer, Sha1Digest};
use archivindex::lines::SnapshotLine;
use archivindex::merge::{classify_payload, merge, PayloadKind};

fn line_of(content: &str) -> SnapshotLine {
    SnapshotLine::new(Sha1Computer::compute_digest(content.as_bytes()), content)
}

fn sorted_lines(contents: &[&str]) -> Vec<SnapshotLine> {
    let mut lines: Vec<SnapshotLine> = contents.iter().map(|c| line_of(c)).collect();
    lines.sort_by_key(|l| l.digest);
    lines
}

#[test]
fn classify_shapes() {
    assert_eq!(
        classify_payload("{\"created_at\":\"x\"}\r\r\n"),
        PayloadKind::Flat
    );
    assert_eq!(classify_payload("{\"data\":{}}\r\r\n"), PayloadKind::Data);
    assert_eq!(classify_payload("{\"other\":1}\r\r\n"), PayloadKind::Unknown);
    assert_eq!(classify_payload("{\"a\":1}\nmore\r\r\n"), PayloadKind::MultiLine);
}

#[test]
fn merge_idempotent_on_existing_store() {
    let store = sorted_lines(&[
        "{\"created_at\":\"a\"}\r\r\n",
        "{\"created_at\":\"b\"}\r\r\n",
        "{\"created_at\":\"c\"}\r\r\n",
    ]);
    let paths: Vec<(Sha1Digest, Option<String>)> =
        store.iter().map(|l| (l.digest, None)).collect();
    let outcome = merge(&paths, &store, &Vec::new());
    assert_eq!(outcome.flat.records, store);
    assert!(outcome.data.records.is_empty());
    assert!(outcome.skipped.is_empty());
    assert!(outcome.unreadable.is_empty());
}

#[test]
fn merge_appends_new_files_in_order() {
    let store = sorted_lines(&["{\"created_at\":\"a\"}\r\r\n"]);
    let fresh_flat = "{\"created_at\":\"new\"}\r\r\n".to_string();
    let fresh_data = "{\"data\":{\"id\":\"1\"}}\r\r\n".to_string();
    let fresh_junk = "{\"weird\":1}\r\r\n".to_string();
    let mut paths: Vec<(Sha1Digest, Option<String>)> = vec![
        (Sha1Computer::compute_digest(fresh_flat.as_bytes()), Some(fresh_flat.clone())),
        (Sha1Computer::compute_digest(fresh_data.as_bytes()), Some(fresh_data.clone())),
        (Sha1Computer::compute_digest(fresh_junk.as_bytes()), Some(fresh_junk.clone())),
        (store[0].digest, None),
    ];
    paths.sort_by_key(|p| p.0);
    let outcome = merge(&paths, &store, &Vec::new());

    // every store record passes through; the flat file is appended in digest order
    assert_eq!(outcome.flat.records.len(), 2);
    assert!(outcome.flat.records.contains(&store[0]));
    assert!(outcome
        .flat
        .records
        .iter()
        .any(|l| l.content.starts_with("{\"created_at\":\"new\"")));
    assert_eq!(outcome.data.records.len(), 1);
    assert_eq!(outcome.skipped.len(), 1);
    let mut digests: Vec<Sha1Digest> =
        outcome.flat.records.iter().map(|l| l.digest).collect();
    let sorted = {
        let mut s = digests.clone();
        s.sort();
        s
    };
    assert_eq!(digests, sorted);
    digests.dedup();
    assert_eq!(digests.len(), outcome.flat.records.len());
}

#[test]
fn merge_validates_round_trip_of_outputs() {
    let fresh = "{\"created_at\":\"zzz\"}\r\r\n".to_string();
    let paths = vec![(Sha1Computer::compute_digest(fresh.as_bytes()), Some(fresh))];
    let outcome = merge(&paths, &Vec::new(), &Vec::new());
    assert_eq!(outcome.flat.records.len(), 1);
    let line = &outcome.flat.records[0];
    assert_eq!(line.validate(), Ok(()));
    let rendered = line.to_line_string();
    assert_eq!(SnapshotLine::parse(&rendered).unwrap(), *line);
}

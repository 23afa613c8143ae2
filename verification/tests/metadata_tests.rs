use archivindex::metadata::Metadata;
use archivindex::digest::Sha1Computer;
use archivindex::timestamp::Timestamp;

fn ts() -> Timestamp {
    Timestamp::parse_str("20160508215503").unwrap()
}

#[test]
fn url_path_inference() {
    let inferred = Metadata::new(ts(), "https://twitter.com/a/b", Some("/a/b"));
    assert_eq!(inferred.url_path, None);
    assert_eq!(inferred.url(), None);

    let differing = Metadata::new(ts(), "https://twitter.com/a/b", Some("/other"));
    assert_eq!(differing.url_path, Some("/a/b".to_string()));
    assert_eq!(differing.url(), Some("https://twitter.com/a/b".to_string()));

    let foreign = Metadata::new(ts(), "https://example.com/x", None);
    assert_eq!(foreign.url_path, Some("https://example.com/x".to_string()));
    assert_eq!(foreign.url(), Some("https://example.com/x".to_string()));
}

#[test]
fn expected_digest_recorded() {
    let digest = Sha1Computer::compute_digest(b"payload");
    let item = Metadata::new(ts(), "https://twitter.com/a", None).with_expected_digest(digest);
    assert_eq!(item.expected_digest, Some(digest));
    assert_eq!(item.timestamp, ts());
}

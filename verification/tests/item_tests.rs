use archivindex::item::UrlParts;
use archivindex::timestamp::Timestamp;

#[test]
fn parse() {
    let url = "https://web.archive.org/web/20160508215503/https://twitter.com/roman_dmowski99/status/725877225686454272";
    let expected = UrlParts::new(
        "https://twitter.com/roman_dmowski99/status/725877225686454272".to_string(),
        Timestamp::parse_str("20160508215503").unwrap(),
    );

    let parsed = UrlParts::parse_str(url).unwrap();

    assert_eq!(parsed, expected);
}

#[test]
fn parse_original_marker() {
    let url = "http://web.archive.org/web/20160508215503id_/https://twitter.com/a";
    let parsed = UrlParts::parse_str(url).unwrap();
    assert_eq!(parsed.url, "https://twitter.com/a");
}

#[test]
fn to_wb_url_round_trip() {
    let parts = UrlParts::new(
        "https://twitter.com/a".to_string(),
        Timestamp::parse_str("20160508215503").unwrap(),
    );
    let rendered = parts.to_wb_url(true, true);
    assert_eq!(
        rendered,
        "https://web.archive.org/web/20160508215503id_/https://twitter.com/a"
    );
    assert_eq!(UrlParts::parse_str(&rendered).unwrap(), parts);
}

#[test]
fn parse_rejects_other_hosts() {
    assert!(UrlParts::parse_str("https://example.com/web/20160508215503/x").is_err());
    assert!(UrlParts::parse_str("https://web.archive.org/web/2016050821550x/abc").is_err());
}

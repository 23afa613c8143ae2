use archivindex::surt::Surt;

#[test]
fn surt_round_trip() {
    let input = "com,twitter)/farleftwatch/status/999825423977639936";
    let parsed = Surt::parse_str(input).unwrap();

    let mut parts = parsed.domain_name_parts();
    assert_eq!(parts.remaining(), 2);
    assert_eq!(parts.next(), Some("com"));
    assert_eq!(parts.next(), Some("twitter"));
    assert_eq!(parts.next(), None);

    let printed = parsed.as_str();

    assert_eq!(input, printed);
}

#[test]
fn canonical_url() {
    let input = "com,twitter)/farleftwatch/status/999825423977639936";

    let parsed = Surt::parse_str(input).unwrap();
    let expected = "https://twitter.com/farleftwatch/status/999825423977639936";

    assert_eq!(parsed.canonical_url().to_display_string(), expected);
}

#[test]
fn from_url() {
    let input = "https://twitter.com/RichardBSpencer/";
    let surt = Surt::from_url(input).unwrap();
    let expected = Surt::parse_str("com,twitter)/richardbspencer").unwrap();

    assert_eq!(surt, expected);
}

#[test]
fn from_url_drops_leading_www() {
    let surt = Surt::from_url("http://www.example.com/a/b").unwrap();
    assert_eq!(surt.as_str(), "com,example)/a/b");
}

#[test]
fn from_url_sorts_query_pairs() {
    let surt = Surt::from_url("https://example.com/p?b=2&a=1&b=3").unwrap();
    assert_eq!(surt.as_str(), "com,example)/p?a=1&b=2&b=3");
}

#[test]
fn from_url_decodes_path_escapes() {
    let surt = Surt::from_url("https://example.com/a%7Bb%7D//c").unwrap();
    assert_eq!(surt.as_str(), "com,example)/a{b}/c");
}

#[test]
fn from_url_rejects_other_schemes() {
    assert!(Surt::from_url("ftp://example.com/a").is_err());
    assert!(Surt::from_url("https://example.com:8080/a").is_err());
}

#[test]
fn parse_rejects_bad_label_characters() {
    assert!(Surt::parse_str("com,twit ter)/x").is_err());
    assert!(Surt::parse_str("com,twitter)/x").is_ok());
}

#[test]
fn path_accessor() {
    let parsed = Surt::parse_str("com,twitter)/farleftwatch?x=1").unwrap();
    assert_eq!(parsed.path(), "/farleftwatch?x=1");
}

use archivindex::timestamp::Timestamp;

#[test]
fn timestamp_round_trip() {
    let timestamp = Timestamp::from_parts(2016, 5, 8, 21, 55, 3).unwrap();

    let timestamp_str = timestamp.to_display_string();
    assert_eq!(timestamp_str, "20160508215503");

    let timestamp_parsed = Timestamp::parse_str(&timestamp_str).unwrap();

    assert_eq!(timestamp, timestamp_parsed);
}

#[test]
fn rejects_invalid_dates() {
    assert!(Timestamp::parse_str("20150230000000").is_err());
    assert!(Timestamp::parse_str("20161301000000").is_err());
    assert!(Timestamp::parse_str("2016050821550").is_err());
    assert!(Timestamp::parse_str("20160508215560").is_err());
}

#[test]
fn leap_year_handling() {
    assert!(Timestamp::parse_str("20160229000000").is_ok());
    assert!(Timestamp::parse_str("21000229000000").is_err());
    assert!(Timestamp::parse_str("20000229000000").is_ok());
}

use archivindex::digest::{Digest, Sha1Computer, Sha1Digest};

#[test]
fn digest_round_trip_sha1_digest() {
    let digest_str = "ZHYT52YPEOCHJD5FZINSDYXGQZI22WJ4";

    let digest = Sha1Digest::parse_str(digest_str).unwrap();
    let digest_string = digest.to_display_string();

    assert_eq!(digest_str, digest_string);
}

#[test]
fn digest_round_trip_digest_valid() {
    let digest_str = "ZHYT52YPEOCHJD5FZINSDYXGQZI22WJ4";

    let digest = Digest::parse_str(digest_str);
    let digest_string = digest.to_display_string();

    assert!(digest.is_valid());
    assert_eq!(digest_str, digest_string);
}

#[test]
fn digest_round_trip_digest_invalid() {
    let digest_str = "HYT52YPEOCHJD5FZINSDYXGQZI22WJ4";

    let digest = Digest::parse_str(digest_str);
    let digest_string = digest.to_display_string();

    assert!(!digest.is_valid());
    assert_eq!(digest_str, digest_string);
}

#[test]
fn digest_invalid_character() {
    let digest_str = "0HYT52YPEOCHJD5FZINSDYXGQZI22WJ4";
    assert_eq!(digest_str.len(), 32);

    let digest = Digest::parse_str(digest_str);
    assert!(!digest.is_valid());
    assert_eq!(digest_str, digest.to_display_string());
}

#[test]
fn sha1_known_answer() {
    let computer = Sha1Computer::default();
    let bytes = computer.digest_bytes(b"abc");
    let expected: [u8; 20] = [
        0xa9, 0x99, 0x3e, 0x36, 0x47, 0x06, 0x81, 0x6a, 0xba, 0x3e, 0x25, 0x71, 0x78, 0x50, 0xc2,
        0x6c, 0x9c, 0xd0, 0xd8, 0x9d,
    ];
    assert_eq!(bytes, expected);
}

#[test]
fn base32_matches_reference_encoder() {
    let bytes: [u8; 20] = [
        1, 2, 3, 4, 5, 250, 120, 0, 255, 17, 33, 99, 42, 7, 81, 200, 13, 64, 31, 90,
    ];
    let digest = Sha1Digest(bytes);
    let reference = data_encoding::BASE32.encode(&bytes);
    assert_eq!(digest.to_display_string(), reference);
}

#[test]
fn digest_base32_matches_reference() {
    let computer = Sha1Computer::default();
    let text = computer.digest_base32(b"hello world");
    let reference = data_encoding::BASE32.encode(&computer.digest_bytes(b"hello world"));
    assert_eq!(text, reference);
}

#[test]
fn digest_ordering_bounds() {
    let digest = Sha1Digest::parse_str("ZHYT52YPEOCHJD5FZINSDYXGQZI22WJ4").unwrap();
    assert!(Sha1Digest::min_value().lt(&digest));
    assert!(digest.lt(&Sha1Digest::max_value()));
    assert!(!digest.lt(&digest));
    assert!(digest.equals(&digest));
}

#[test]
fn from_bytes_length_check() {
    assert!(Sha1Digest::from_bytes(&[0u8; 20]).is_ok());
    assert!(Sha1Digest::from_bytes(&[0u8; 19]).is_err());
}

#[test]
fn map_err_returns_invalid_text() {
    let invalid = Digest::parse_str("not-a-digest");
    let mapped: Result<Sha1Digest, String> = invalid.map_err(|s| s.to_string());
    assert_eq!(mapped, Err("not-a-digest".to_string()));
}

use archivindex::mime_type::MimeType;

#[test]
fn classification_round_trip() {
    assert_eq!(MimeType::parse_str("text/html"), MimeType::TextHtml);
    assert_eq!(MimeType::parse_str("application/json"), MimeType::ApplicationJson);
    let other = MimeType::parse_str("image/png");
    assert_eq!(other, MimeType::Other("image/png".to_string()));
    assert_eq!(other.as_str(), "image/png");
    assert_eq!(MimeType::TextHtml.as_str(), "text/html");
    assert!(MimeType::ApplicationJson.is_application_json());
    assert!(!other.is_application_json());
}

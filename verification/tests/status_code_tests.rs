use archivindex::status_code::{status_code_values, StatusCode};

#[test]
fn ordering() {
    let mut values = status_code_values();

    values.sort();
    assert_eq!(values, status_code_values());

    values.sort_by_key(|status_code| status_code.value());
    assert_eq!(values, status_code_values());
}

#[test]
fn round_trip_value() {
    for status_code in status_code_values() {
        let status_code_value = status_code.value();
        let parsed = StatusCode::from_value(status_code_value);

        assert_eq!(parsed, Ok(status_code));
    }
}

#[test]
fn round_trip_str() {
    for status_code in status_code_values() {
        let status_code_str = status_code.as_str();
        let parsed = StatusCode::parse_str(status_code_str);

        assert_eq!(parsed, Ok(status_code));
    }
}

#[test]
fn rejects_unknown_values() {
    assert!(StatusCode::from_value(201).is_err());
    assert!(StatusCode::parse_str("0").is_err());
    assert!(StatusCode::parse_str("060").is_err());
    assert!(StatusCode::parse_str("").is_err());
}

#[test]
fn logical_values() {
    assert_eq!(StatusCode::Empty.logical_value(), 200);
    assert_eq!(StatusCode::CloudflareTimeout.logical_value(), 500);
    assert_eq!(StatusCode::NotFound.logical_value(), 404);
}

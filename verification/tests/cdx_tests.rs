use archivindex::cdx::{EntryList, ExtendedItemList, HeaderKind, ItemList};
use archivindex::surt::Surt;
use archivindex::mime_type::MimeType;
use archivindex::status_code::StatusCode;

const SHORT_HEADER: &str =
    "[\"urlkey\",\"timestamp\",\"original\",\"mimetype\",\"statuscode\",\"digest\",\"length\"]";
const EXTENDED_HEADER: &str = "[\"urlkey\",\"timestamp\",\"original\",\"mimetype\",\"statuscode\",\"digest\",\"redirect\",\"robotflags\",\"length\",\"offset\",\"filename\"]";

#[test]
fn entry_deserialize_empty() {
    let contents = "[]";
    let entries = EntryList::decode_str(contents).unwrap();

    assert_eq!(entries.values.len(), 0);
    assert_eq!(entries.resume_key, None);
    assert_eq!(entries.header, None);
}

#[test]
fn mod_deserialize_empty() {
    let contents = "[]";
    let items = ItemList::decode_str(contents).unwrap();

    assert_eq!(items.values.len(), 0);
    assert_eq!(items.resume_key, None);
}

#[test]
fn extended_deserialize_empty() {
    let contents = "[]";
    let items = ExtendedItemList::decode_str(contents).unwrap();

    assert_eq!(items.values.len(), 0);
}

#[test]
fn header_only_extended_with_resume_key() {
    // header, then immediately the sentinel and the one-element wrapper
    let contents = format!("[{},[],[\"NEXT-PAGE\"]]", EXTENDED_HEADER);
    let entries = EntryList::decode_str(&contents).unwrap();

    assert_eq!(entries.values.len(), 0);
    assert_eq!(entries.header, Some(HeaderKind::Extended));
    assert_eq!(entries.resume_key, Some("NEXT-PAGE".to_string()));
}

#[test]
fn short_row_decodes_all_columns() {
    let contents = format!(
        "[{},[\"com,twitter)/a\",\"20160508215503\",\"https://twitter.com/a\",\"application/json\",\"200\",\"ZHYT52YPEOCHJD5FZINSDYXGQZI22WJ4\",\"37647\"]]",
        SHORT_HEADER
    );
    let entries = EntryList::decode_str(&contents).unwrap();
    assert_eq!(entries.values.len(), 1);
    let entry = &entries.values[0];
    assert_eq!(entry.key.as_str(), "com,twitter)/a");
    assert_eq!(entry.timestamp.to_display_string(), "20160508215503");
    assert_eq!(entry.original, "https://twitter.com/a");
    assert_eq!(entry.mime_type, MimeType::ApplicationJson);
    assert_eq!(entry.status_code, StatusCode::Okay);
    assert!(entry.digest.is_valid());
    assert_eq!(entry.length, Some(37647));
    assert!(entry.extended_info.is_none());
    assert_eq!(entries.resume_key, None);
}

#[test]
fn extended_row_decodes_tail() {
    let contents = format!(
        "[{},[\"com,twitter)/a\",\"20160508215503\",\"https://twitter.com/a\",\"text/html\",\"-\",\"ZHYT52YPEOCHJD5FZINSDYXGQZI22WJ4\",\"-\",\"A\",\"-\",\"123456\",\"archive.warc.gz\"]]",
        EXTENDED_HEADER
    );
    let entries = EntryList::decode_str(&contents).unwrap();
    assert_eq!(entries.values.len(), 1);
    let entry = &entries.values[0];
    assert_eq!(entry.status_code, StatusCode::Empty);
    assert_eq!(entry.length, None);
    let extended = entry.extended_info.as_ref().unwrap();
    assert_eq!(extended.redirect, None);
    assert_eq!(extended.robot_flags, Some("A".to_string()));
    assert_eq!(extended.offset, 123456);
    assert_eq!(extended.file_name, "archive.warc.gz");
}

#[test]
fn sentinel_without_key_is_an_error() {
    let contents = format!("[{},[]]", SHORT_HEADER);
    assert!(EntryList::decode_str(&contents).is_err());
}

#[test]
fn trailing_after_key_is_an_error() {
    let contents = format!("[{},[],[\"KEY\"],[\"EXTRA\"]]", SHORT_HEADER);
    assert!(EntryList::decode_str(&contents).is_err());
}

#[test]
fn unknown_header_is_an_error() {
    let contents = "[[\"urlkey\",\"timestamp\"]]";
    assert!(EntryList::decode_str(contents).is_err());
}

#[test]
fn bad_status_code_aborts_decode() {
    let contents = format!(
        "[{},[\"com,twitter)/a\",\"20160508215503\",\"u\",\"text/html\",\"299\",\"x\",\"-\"]]",
        SHORT_HEADER
    );
    assert!(EntryList::decode_str(&contents).is_err());
}

#[test]
fn item_list_refuses_extended_header() {
    let contents = format!("[{},[],[\"KEY\"]]", EXTENDED_HEADER);
    assert!(ItemList::decode_str(&contents).is_err());
    assert!(ExtendedItemList::decode_str(&contents).is_ok());
}

#[test]
fn entry_info_carries_identity() {
    let contents = format!(
        "[{},[\"com,twitter)/a\",\"20160508215503\",\"https://twitter.com/a\",\"text/html\",\"200\",\"ZHYT52YPEOCHJD5FZINSDYXGQZI22WJ4\",\"-\"]]",
        SHORT_HEADER
    );
    let entries = EntryList::decode_str(&contents).unwrap();
    let info = entries.values[0].entry_info();
    assert_eq!(info.url_parts.url, "https://twitter.com/a");
    assert_eq!(
        info.expected_digest.to_display_string(),
        "ZHYT52YPEOCHJD5FZINSDYXGQZI22WJ4"
    );
}

#[test]
fn json_rows_recompute_to_their_keys() {
    // every row whose MIME type is application/json has a key equal to the
    // canonicalization of its original URL
    let contents = format!(
        "[{},[\"com,twitter)/richardbspencer\",\"20160508215503\",\"https://twitter.com/RichardBSpencer/\",\"application/json\",\"200\",\"ZHYT52YPEOCHJD5FZINSDYXGQZI22WJ4\",\"-\"],[\"com,twitter)/a/b?x=1\",\"20160508215503\",\"https://twitter.com/a/b/?x=1\",\"application/json\",\"200\",\"ZHYT52YPEOCHJD5FZINSDYXGQZI22WJ4\",\"-\"]]",
        SHORT_HEADER
    );
    let entries = EntryList::decode_str(&contents).unwrap();
    assert_eq!(entries.values.len(), 2);
    for entry in &entries.values {
        if entry.mime_type.is_application_json() {
            let converted = Surt::from_url(&entry.original).unwrap();
            assert_eq!(converted, entry.key);
        }
    }
}

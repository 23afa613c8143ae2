use archivindex::cas::{
    snapshot_import, validate_content, CompressionType, Error, File, ImportEvent,
};
use archivindex::digest::{Sha1Computer, Sha1Digest};

const DIGEST_TEXT: &str = "ZHYT52YPEOCHJD5FZINSDYXGQZI22WJ4";

#[test]
fn classify_plain_digest_name() {
    let path = format!("store/name/data/{}", DIGEST_TEXT);
    match File::new(&path) {
        File::Valid { compression_type, digest, .. } => {
            assert_eq!(compression_type, None);
            assert_eq!(digest.to_display_string(), DIGEST_TEXT);
        }
        File::Skipped { .. } => panic!("expected a valid file"),
    }
}

#[test]
fn classify_extensions() {
    let zst = format!("data/{}.zst", DIGEST_TEXT);
    let gz = format!("data/{}.GZ", DIGEST_TEXT);
    match File::new(&zst) {
        File::Valid { compression_type, .. } => {
            assert_eq!(compression_type, Some(CompressionType::Zstd))
        }
        _ => panic!("expected zstd"),
    }
    match File::new(&gz) {
        File::Valid { compression_type, .. } => {
            assert_eq!(compression_type, Some(CompressionType::Gzip))
        }
        _ => panic!("expected gzip"),
    }
}

#[test]
fn classify_skips_strays() {
    assert!(File::new("data/readme.txt").digest().is_none());
    assert!(File::new(&format!("data/{}.zst.bak", DIGEST_TEXT)).digest().is_none());
    assert!(File::new(&format!("data/{}.rar", DIGEST_TEXT)).digest().is_none());
    assert!(File::new("data/tooshort").digest().is_none());
}

#[test]
fn validate_content_plain() {
    let payload = b"some captured bytes";
    let digest = Sha1Computer::compute_digest(payload);
    assert_eq!(validate_content(&digest, None, payload), Ok(()));

    let wrong = Sha1Computer::compute_digest(b"other bytes");
    match validate_content(&wrong, None, payload) {
        Err(Error::InvalidDigest { expected, found }) => {
            assert_eq!(expected, wrong);
            assert_eq!(found, digest);
        }
        other => panic!("expected a digest mismatch, got {:?}", other),
    }
}

#[test]
fn validate_content_zstd() {
    let payload = b"zstd compressed payload";
    let digest = Sha1Computer::compute_digest(payload);
    let compressed = zstd::encode_all(&payload[..], 3).unwrap();
    assert_eq!(
        validate_content(&digest, Some(CompressionType::Zstd), &compressed),
        Ok(())
    );
    assert_eq!(
        validate_content(&digest, Some(CompressionType::Zstd), payload),
        Err(Error::Decompression)
    );
}

#[test]
fn validate_content_gzip() {
    let payload = b"gzip compressed payload";
    let digest = Sha1Computer::compute_digest(payload);
    let mut encoder =
        flate2::write::GzEncoder::new(Vec::new(), flate2::Compression::default());
    std::io::Write::write_all(&mut encoder, payload).unwrap();
    let compressed = encoder.finish().unwrap();
    assert_eq!(
        validate_content(&digest, Some(CompressionType::Gzip), &compressed),
        Ok(())
    );
}

#[test]
fn import_sorts_by_digest() {
    let d1 = Sha1Computer::compute_digest(b"one");
    let d2 = Sha1Computer::compute_digest(b"two");
    let (lo, hi) = if d1.lt(&d2) { (d1, d2) } else { (d2, d1) };
    let events = vec![
        ImportEvent::Classified(File::Valid {
            path: "b".to_string(),
            compression_type: None,
            digest: hi,
        }),
        ImportEvent::Classified(File::Skipped { path: "stray".to_string() }),
        ImportEvent::Classified(File::Valid {
            path: "a".to_string(),
            compression_type: None,
            digest: lo,
        }),
        ImportEvent::InvalidDigest { expected: lo, found: hi },
    ];
    let import = snapshot_import(&events);
    assert_eq!(import.paths.len(), 2);
    assert_eq!(import.paths[0].0, lo);
    assert_eq!(import.paths[1].0, hi);
    assert_eq!(import.skipped, vec!["stray".to_string()]);
    assert_eq!(import.invalid_digests, vec![(lo, hi)]);
}

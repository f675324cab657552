use base64::Engine;
use inkstone::assets::{asset_file_contents, asset_name, decode_payload, read, sanitize_ext};
use inkstone::crypto::{random_bytes, MK_LEN};

fn standard(bytes: &[u8]) -> String {
    base64::engine::general_purpose::STANDARD.encode(bytes)
}

/// What saving an asset computes: its name and its file contents.
fn save(data_base64: &str, ext: &str, key: Option<&[u8; MK_LEN]>) -> Result<(String, Vec<u8>), String> {
    let bytes = decode_payload(data_base64)?;
    let name = asset_name(&bytes, ext, key);
    Ok((name, asset_file_contents(bytes, key)))
}

#[test]
fn save_is_content_addressed_and_deduplicates() {
    let data = standard(b"picture bytes");
    let (first, _) = save(&data, "png", None).unwrap();
    let (second, _) = save(&data, "png", None).unwrap();
    assert_eq!(first, second);
    assert!(first.ends_with(".png"));
    assert_eq!(first.len(), 32 + 1 + 3);
}

#[test]
fn extension_is_sanitized() {
    let data = standard(b"x");
    let (name, _) = save(&data, "../EVIL/../png", None).unwrap();
    assert!(name.ends_with(".evilpng"));
    let (empty, _) = save(&data, "!!!", None).unwrap();
    assert!(empty.ends_with(".bin"));
}

#[test]
fn rejects_bad_base64() {
    assert!(save("not base64!!!", "png", None).is_err());
}

#[test]
fn read_roundtrips_plaintext_asset() {
    let data = standard(b"picture bytes");
    let (_name, contents) = save(&data, "png", None).unwrap();
    assert_eq!(read(contents, None).unwrap(), b"picture bytes");
}

#[test]
fn encrypted_save_dedupes_by_plaintext_hash_and_has_no_leakage() {
    let mk = random_bytes::<MK_LEN>();
    let data = standard(b"picture bytes");
    let (first, raw) = save(&data, "png", Some(&mk)).unwrap();
    let (second, _) = save(&data, "png", Some(&mk)).unwrap();
    assert_eq!(first, second);
    assert!(first.ends_with(".png.enc"));

    assert!(!raw.windows(b"picture".len()).any(|w| w == b"picture"));
}

#[test]
fn encrypted_read_roundtrip() {
    let mk = random_bytes::<MK_LEN>();
    let data = standard(b"picture bytes");
    let (_name, contents) = save(&data, "png", Some(&mk)).unwrap();
    assert_eq!(read(contents, Some(&mk)).unwrap(), b"picture bytes");
}

#[test]
fn assets_encrypted_read_rejects_wrong_key() {
    let mk = random_bytes::<MK_LEN>();
    let data = standard(b"picture bytes");
    let (_name, contents) = save(&data, "png", Some(&mk)).unwrap();
    let wrong = random_bytes::<MK_LEN>();
    assert!(read(contents, Some(&wrong)).is_err());
}

#[test]
fn asset_name_is_the_sha256_prefix() {
    // SHA-256("abc") = ba7816bf8f01cfea414140de5dae2223b00361a396177a9cb410ff61f20015ad
    assert_eq!(
        asset_name(b"abc", "PNG", None),
        "ba7816bf8f01cfea414140de5dae2223.png"
    );
    assert_eq!(
        asset_name(b"abc", "jpeg", Some(&[7u8; MK_LEN])),
        "ba7816bf8f01cfea414140de5dae2223.jpeg.enc"
    );
}

#[test]
fn sanitize_keeps_eight_lowercase_alphanumerics() {
    assert_eq!(sanitize_ext("TooLongExtension"), "toolonge");
    assert_eq!(sanitize_ext("ÄB.c"), "bc");
    assert_eq!(sanitize_ext(""), "bin");
}

#[test]
fn bad_payload_message() {
    let error = decode_payload("@@@@").unwrap_err();
    assert!(error.starts_with("invalid base64 payload: "));
    assert_eq!(decode_payload("aGk=").unwrap(), b"hi");
}

use pyin_rs::fingerprint::encode_fingerprint;

#[test]
fn empty_fingerprint_has_no_text() {
    assert_eq!(encode_fingerprint(&[]), None);
}

#[test]
fn fingerprint_text_is_base64_of_compressed_form() {
    assert_eq!(encode_fingerprint(&[1, 2, 3]), Some("AAAAA0GCAA==".to_string()));
}

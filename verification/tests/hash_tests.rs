use base64::Engine;
use postal_code::hash::build_hash_index;
use postal_code::record::{Changed, PostalCodeRecord};
use sha2::Digest;

fn rec_fields(code: &str, postal: &str, rest: [&str; 6]) -> PostalCodeRecord {
    PostalCodeRecord::new(
        code.to_string(),
        postal.to_string(),
        rest[0].to_string(),
        rest[1].to_string(),
        rest[2].to_string(),
        rest[3].to_string(),
        rest[4].to_string(),
        rest[5].to_string(),
        false,
        false,
        false,
        false,
        Changed::NoChange,
    )
}

fn expected_hash(bytes: &[u8]) -> String {
    base64::engine::general_purpose::STANDARD_NO_PAD.encode(sha2::Sha256::digest(bytes))
}

#[test]
fn empty_fields_hash_to_the_empty_stream_digest() {
    let groups = vec![(
        String::new(),
        vec![rec_fields("", "", ["", "", "", "", "", ""])],
    )];
    let (index, all) = build_hash_index(&groups);
    // the well-known digest of the empty byte string
    assert_eq!(index[0].1, "47DEQpj8HBSa+/TImW+5JCeuQeRkm5NMpJWZG3hSuFU");
    assert_eq!(all, "47DEQpj8HBSa+/TImW+5JCeuQeRkm5NMpJWZG3hSuFU");
}

#[test]
fn field_bytes_feed_the_digest_in_field_order() {
    let groups = vec![(
        "a".to_string(),
        vec![rec_fields("a", "b", ["c", "", "", "", "", ""])],
    )];
    let (index, all) = build_hash_index(&groups);
    // the digest of the concatenated field bytes "abc"
    assert_eq!(index[0].1, expected_hash(b"abc"));
    assert_eq!(all, expected_hash(b"abc"));
    assert_ne!(index[0].1, "abc");
    assert_eq!(index[0].0, "a");
}

#[test]
fn dataset_hash_spans_all_groups() {
    let g1 = rec_fields("1", "2", ["3", "", "", "", "", ""]);
    let g2 = rec_fields("4", "5", ["6", "", "", "", "", ""]);
    let groups = vec![
        ("1".to_string(), vec![g1]),
        ("4".to_string(), vec![g2]),
    ];
    let (index, all) = build_hash_index(&groups);
    assert_eq!(index.len(), 2);
    assert_eq!(index[0].1, expected_hash(b"123"));
    assert_eq!(index[1].1, expected_hash(b"456"));
    assert_eq!(all, expected_hash(b"123456"));
}

#[test]
fn hasher_add_appends_the_eight_fields() {
    let r = rec_fields("01101", "0600000", ["pk", "ck", "tk", "p", "c", "t"]);
    let mut acc = Vec::new();
    r.hasher_add(&mut acc);
    assert_eq!(acc, b"011010600000pkcktkpct".to_vec());
    // appending a second record extends the same stream
    r.hasher_add(&mut acc);
    assert_eq!(acc.len(), 2 * b"011010600000pkcktkpct".len());
}

#[test]
fn to_csv_record_quotes_every_field() {
    let r = PostalCodeRecord::new(
        "01101".to_string(),
        "0600000".to_string(),
        "pk".to_string(),
        "ck".to_string(),
        "tk".to_string(),
        "p".to_string(),
        "c".to_string(),
        "t".to_string(),
        true,
        false,
        true,
        false,
        Changed::NoChange,
    );
    assert_eq!(
        r.to_csv_record(),
        "\"01101\",\"0600000\",\"pk\",\"ck\",\"tk\",\"p\",\"c\",\"t\",\"true\",\"false\",\"true\",\"false\","
    );
}

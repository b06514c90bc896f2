use std::io::Write;

use postal_code::archive::zip_to_file_contents;
use postal_code::pipeline::ken_all_records;
use postal_code::record::Changed;
use postal_code::UpdateError;
use zip::write::SimpleFileOptions;

/// One table row in the source layout: fifteen columns, all quoted.
fn row(code: &str, postal: &str, town_kana: &str, town: &str, status: &str) -> String {
    format!(
        "\"{}\",\"060  \",\"{}\",\"ホッカイドウ\",\"サッポロシ\",\"{}\",\"北海道\",\"札幌市\",\"{}\",\"0\",\"0\",\"1\",\"0\",\"{}\",\"0\"\n",
        code, postal, town_kana, town, status
    )
}

/// A zip archive holding the given entries.
fn zip_of(entries: &[(&str, &[u8])]) -> Vec<u8> {
    let mut cursor = std::io::Cursor::new(Vec::new());
    let mut writer = zip::ZipWriter::new(&mut cursor);
    for (name, bytes) in entries {
        writer.start_file(*name, SimpleFileOptions::default()).unwrap();
        writer.write_all(bytes).unwrap();
    }
    writer.finish().unwrap();
    cursor.into_inner()
}

/// The table text, Shift-JIS encoded and zipped as the single entry.  The
/// reader takes the first physical row for a header, so a throwaway row
/// leads.
fn archive_of(rows: &[String]) -> Vec<u8> {
    let mut text = row("00000", "0000000", "HEADER", "HEADER", "0");
    for r in rows {
        text.push_str(r);
    }
    let (bytes, _, _) = encoding_rs::SHIFT_JIS.encode(&text);
    zip_of(&[("ken_all.csv", &bytes)])
}

#[test]
fn end_to_end_groups_and_hashes() {
    let rows = vec![
        row("13101", "1000001", "チヨダ", "千代田", "0"),
        row("01101", "0600000", "オオドオリ", "大通", "1"),
        row("01101", "0600042", "オオドオリニシ", "大通西", "2"),
    ];
    let data = ken_all_records(&archive_of(&rows)).unwrap();
    // grouped by administrative code, codes ordered, postals ordered inside
    assert_eq!(data.grouped_postal_code_record_list.len(), 2);
    assert_eq!(data.grouped_postal_code_record_list[0].0, "01101");
    assert_eq!(data.grouped_postal_code_record_list[1].0, "13101");
    let hokkaido = &data.grouped_postal_code_record_list[0].1;
    assert_eq!(hokkaido.len(), 2);
    assert_eq!(hokkaido[0].postal_code, "0600000");
    assert_eq!(hokkaido[0].town, "大通");
    assert_eq!(hokkaido[0].prefecture, "北海道");
    assert_eq!(hokkaido[0].town_kana, "オオドオリ");
    assert!(hokkaido[0].is_town_with_chome);
    assert!(!hokkaido[0].is_banchi_per_koaza);
    assert_eq!(hokkaido[1].postal_code, "0600042");
    // one hash per group, 43 characters of unpadded base64 each
    assert_eq!(data.national_local_government_code_to_hash.len(), 2);
    for (_, h) in &data.national_local_government_code_to_hash {
        assert_eq!(h.len(), 43);
    }
    assert_eq!(data.all_contents_hash.len(), 43);
}

#[test]
fn shuffled_source_rows_keep_the_hashes() {
    let a = vec![
        row("13101", "1000001", "チヨダ", "千代田", "0"),
        row("01101", "0600000", "オオドオリ", "大通", "0"),
    ];
    let b = vec![
        row("01101", "0600000", "オオドオリ", "大通", "0"),
        row("13101", "1000001", "チヨダ", "千代田", "0"),
    ];
    let da = ken_all_records(&archive_of(&a)).unwrap();
    let db = ken_all_records(&archive_of(&b)).unwrap();
    assert_eq!(da.all_contents_hash, db.all_contents_hash);
    assert_eq!(
        da.national_local_government_code_to_hash,
        db.national_local_government_code_to_hash
    );
}

#[test]
fn short_rows_are_skipped_silently() {
    let rows = vec![
        "\"too\",\"short\"\n".to_string(),
        row("01101", "0600000", "オオドオリ", "大通", "0"),
    ];
    let data = ken_all_records(&archive_of(&rows)).unwrap();
    assert_eq!(data.grouped_postal_code_record_list.len(), 1);
    assert_eq!(data.grouped_postal_code_record_list[0].1.len(), 1);
}

#[test]
fn change_status_reads_a_signed_decimal_integer() {
    let rows = vec![
        row("01101", "0600000", "ア", "甲", "01"),
        row("01101", "0600001", "イ", "乙", "+2"),
        row("01101", "0600002", "ウ", "丙", "-0"),
    ];
    let data = ken_all_records(&archive_of(&rows)).unwrap();
    let group = &data.grouped_postal_code_record_list[0].1;
    assert_eq!(group[0].is_change, Changed::Changed);
    assert_eq!(group[1].is_change, Changed::Deleted);
    assert_eq!(group[2].is_change, Changed::NoChange);
}

#[test]
fn unknown_change_status_is_a_schema_error() {
    let rows = vec![row("01101", "0600000", "オオドオリ", "大通", "7")];
    assert!(matches!(ken_all_records(&archive_of(&rows)), Err(UpdateError::Schema)));
}

#[test]
fn non_integer_change_status_is_a_schema_error() {
    let rows = vec![row("01101", "0600000", "オオドオリ", "大通", "x")];
    assert!(matches!(ken_all_records(&archive_of(&rows)), Err(UpdateError::Schema)));
}

#[test]
fn two_entry_archive_is_an_archive_error() {
    let bytes = zip_of(&[("a.csv", b"x".as_slice()), ("b.csv", b"y".as_slice())]);
    assert!(matches!(ken_all_records(&bytes), Err(UpdateError::Archive)));
}

#[test]
fn garbage_bytes_are_an_archive_error() {
    assert!(matches!(ken_all_records(b"not a zip archive"), Err(UpdateError::Archive)));
}

#[test]
fn single_entry_contents_decode_from_shift_jis() {
    let (bytes, _, _) = encoding_rs::SHIFT_JIS.encode("北海道,テスト\n");
    let archive = zip_of(&[("ken_all.csv", &bytes)]);
    let contents = zip_to_file_contents(&archive).unwrap();
    assert_eq!(contents, "北海道,テスト\n");
}

#[test]
fn bracket_reassembly_spans_rows_end_to_end() {
    let rows = vec![
        row("01101", "0600000", "エー", "A（foo", "0"),
        row("01101", "0600000", "バー", "bar", "0"),
        row("01101", "0600000", "バズ", "baz）", "0"),
        row("01101", "0600001", "シー", "C", "0"),
    ];
    let data = ken_all_records(&archive_of(&rows)).unwrap();
    let group = &data.grouped_postal_code_record_list[0].1;
    assert_eq!(group.len(), 2);
    assert_eq!(group[0].town, "A");
    assert_eq!(group[1].town, "C");
}

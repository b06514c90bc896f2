use postal_code::normalize::record_normalize;
use postal_code::record::{Changed, PostalCodeRecord};

fn town_row(town: &str, town_kana: &str) -> PostalCodeRecord {
    PostalCodeRecord::new(
        "01101".to_string(),
        "0600000".to_string(),
        "ホッカイドウ".to_string(),
        "サッポロシチュウオウク".to_string(),
        town_kana.to_string(),
        "北海道".to_string(),
        "札幌市中央区".to_string(),
        town.to_string(),
        false,
        false,
        false,
        false,
        Changed::NoChange,
    )
}

#[test]
fn bracket_reassembly_collapses_split_rows() {
    // three physical rows holding one split record: the first is kept,
    // truncated at the opening bracket; the continuations are dropped
    let mut rows = vec![
        town_row("A（foo", "A(foo"),
        town_row("bar", "bar"),
        town_row("baz）", "baz)"),
    ];
    record_normalize(&mut rows);
    assert_eq!(rows.len(), 1);
    assert_eq!(rows[0].town, "A");
    assert_eq!(rows[0].town_kana, "A");
}

#[test]
fn complete_annotation_is_stripped_on_one_row() {
    let mut rows = vec![town_row("銀座（１丁目）", "ギンザ(1チョウメ)")];
    record_normalize(&mut rows);
    assert_eq!(rows.len(), 1);
    assert_eq!(rows[0].town, "銀座");
    assert_eq!(rows[0].town_kana, "ギンザ");
}

#[test]
fn all_annotations_are_stripped() {
    let mut rows = vec![town_row("甲（乙）丙（丁）", "コウ(オツ)ヘイ(テイ)")];
    record_normalize(&mut rows);
    assert_eq!(rows.len(), 1);
    assert_eq!(rows[0].town, "甲丙");
    assert_eq!(rows[0].town_kana, "コウヘイ");
}

#[test]
fn no_listing_placeholder_clears_town() {
    let mut rows = vec![town_row("以下に掲載がない場合", "イカニケイサイガナイバアイ")];
    record_normalize(&mut rows);
    assert_eq!(rows.len(), 1);
    assert_eq!(rows[0].town, "");
    assert_eq!(rows[0].town_kana, "");
}

#[test]
fn banchi_follows_placeholder_clears_town() {
    let mut rows = vec![town_row("堀松の次に番地が来る場合", "ホリマツ")];
    record_normalize(&mut rows);
    assert_eq!(rows.len(), 1);
    assert_eq!(rows[0].town, "");
    assert_eq!(rows[0].town_kana, "");
}

#[test]
fn whole_area_marker_with_extra_text_clears_town() {
    let mut rows = vec![town_row("左沢一円", "アテラザワ")];
    record_normalize(&mut rows);
    assert_eq!(rows.len(), 1);
    assert_eq!(rows[0].town, "");
    assert_eq!(rows[0].town_kana, "");
}

#[test]
fn exact_whole_area_town_is_kept() {
    // the town named exactly by the marker is a real town and stays
    let mut rows = vec![town_row("一円", "イチエン")];
    record_normalize(&mut rows);
    assert_eq!(rows.len(), 1);
    assert_eq!(rows[0].town, "一円");
    assert_eq!(rows[0].town_kana, "イチエン");
}

#[test]
fn plain_rows_pass_through() {
    let mut rows = vec![town_row("大通西", "オオドオリニシ"), town_row("北一条西", "キタ1ジョウニシ")];
    record_normalize(&mut rows);
    assert_eq!(rows.len(), 2);
    assert_eq!(rows[0].town, "大通西");
    assert_eq!(rows[1].town, "北一条西");
}

use postal_code::merge::merge_by_postal_code;
use postal_code::record::{Changed, PostalCodeRecord};

fn rec(code: &str, postal: &str, prefecture: &str, city: &str, town: &str) -> PostalCodeRecord {
    PostalCodeRecord::new(
        code.to_string(),
        postal.to_string(),
        format!("{}カナ", prefecture),
        format!("{}カナ", city),
        format!("{}カナ", town),
        prefecture.to_string(),
        city.to_string(),
        town.to_string(),
        false,
        false,
        false,
        false,
        Changed::NoChange,
    )
}

#[test]
fn different_towns_blank_town_and_kana() {
    let records = vec![
        rec("01101", "0600000", "北海道", "札幌市", "大通"),
        rec("01102", "0600000", "北海道", "札幌市", "北一条"),
    ];
    let merged = merge_by_postal_code(&records);
    assert_eq!(merged.len(), 1);
    assert_eq!(merged[0].town, "");
    assert_eq!(merged[0].town_kana, "");
    // the agreeing fields keep the base's values
    assert_eq!(merged[0].city, "札幌市");
    assert_eq!(merged[0].city_kana, "札幌市カナ");
    assert_eq!(merged[0].prefecture, "北海道");
    assert_eq!(merged[0].prefecture_kana, "北海道カナ");
}

#[test]
fn different_cities_blank_city_too() {
    let records = vec![
        rec("01101", "0600000", "北海道", "札幌市", "大通"),
        rec("01202", "0600000", "北海道", "函館市", "北一条"),
    ];
    let merged = merge_by_postal_code(&records);
    assert_eq!(merged.len(), 1);
    assert_eq!(merged[0].town, "");
    assert_eq!(merged[0].town_kana, "");
    assert_eq!(merged[0].city, "");
    assert_eq!(merged[0].city_kana, "");
    assert_eq!(merged[0].prefecture, "北海道");
    assert_eq!(merged[0].prefecture_kana, "北海道カナ");
}

#[test]
fn singleton_groups_pass_through_unchanged() {
    let records = vec![
        rec("01101", "0600000", "北海道", "札幌市", "大通"),
        rec("13101", "1000001", "東京都", "千代田区", "千代田"),
    ];
    let merged = merge_by_postal_code(&records);
    assert_eq!(merged.len(), 2);
    assert_eq!(merged[0].postal_code, "0600000");
    assert_eq!(merged[0].town, "大通");
    assert_eq!(merged[1].postal_code, "1000001");
    assert_eq!(merged[1].town, "千代田");
}

#[test]
fn blanking_is_monotonic_across_later_agreement() {
    // a later member that agrees with the base does not undo the blanking
    let records = vec![
        rec("01101", "0600000", "北海道", "札幌市", "大通"),
        rec("01102", "0600000", "北海道", "札幌市", "北一条"),
        rec("01103", "0600000", "北海道", "札幌市", "大通"),
    ];
    let merged = merge_by_postal_code(&records);
    assert_eq!(merged.len(), 1);
    assert_eq!(merged[0].town, "");
    assert_eq!(merged[0].town_kana, "");
}

#[test]
fn merge_keeps_first_appearance_order() {
    let records = vec![
        rec("13101", "1000001", "東京都", "千代田区", "千代田"),
        rec("01101", "0600000", "北海道", "札幌市", "大通"),
        rec("13102", "1000001", "東京都", "千代田区", "丸の内"),
    ];
    let merged = merge_by_postal_code(&records);
    assert_eq!(merged.len(), 2);
    assert_eq!(merged[0].postal_code, "1000001");
    assert_eq!(merged[0].town, "");
    assert_eq!(merged[1].postal_code, "0600000");
}

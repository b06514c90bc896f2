use postal_code::hash::build_hash_index;
use postal_code::record::{Changed, PostalCodeRecord};
use postal_code::sort::{group_by_admin_code, sort_records};

fn rec(code: &str, postal: &str, town: &str) -> PostalCodeRecord {
    PostalCodeRecord::new(
        code.to_string(),
        postal.to_string(),
        String::new(),
        String::new(),
        String::new(),
        String::new(),
        String::new(),
        town.to_string(),
        false,
        false,
        false,
        false,
        Changed::NoChange,
    )
}

#[test]
fn sorting_orders_by_code_then_postal() {
    let records = vec![
        rec("13101", "1000002", "b"),
        rec("01101", "0600000", "a"),
        rec("13101", "1000001", "c"),
    ];
    let sorted = sort_records(&records);
    assert_eq!(sorted.len(), 3);
    assert_eq!(sorted[0].national_local_government_code, "01101");
    assert_eq!(sorted[1].postal_code, "1000001");
    assert_eq!(sorted[2].postal_code, "1000002");
}

#[test]
fn grouping_splits_runs_of_equal_code() {
    let records = vec![
        rec("01101", "0600000", "a"),
        rec("01101", "0600001", "b"),
        rec("13101", "1000001", "c"),
    ];
    let sorted = sort_records(&records);
    let groups = group_by_admin_code(&sorted);
    assert_eq!(groups.len(), 2);
    assert_eq!(groups[0].0, "01101");
    assert_eq!(groups[0].1.len(), 2);
    assert_eq!(groups[1].0, "13101");
    assert_eq!(groups[1].1.len(), 1);
}

#[test]
fn shuffled_input_yields_identical_hashes() {
    let records = vec![
        rec("01101", "0600000", "a"),
        rec("01101", "0600001", "b"),
        rec("13101", "1000001", "c"),
    ];
    let shuffled = vec![
        rec("13101", "1000001", "c"),
        rec("01101", "0600001", "b"),
        rec("01101", "0600000", "a"),
    ];
    let (index1, all1) = build_hash_index(&group_by_admin_code(&sort_records(&records)));
    let (index2, all2) = build_hash_index(&group_by_admin_code(&sort_records(&shuffled)));
    assert_eq!(all1, all2);
    assert_eq!(index1.len(), index2.len());
    for (a, b) in index1.iter().zip(index2.iter()) {
        assert_eq!(a.0, b.0);
        assert_eq!(a.1, b.1);
    }
}

#[test]
fn different_content_changes_the_hashes() {
    let records = vec![rec("01101", "0600000", "a")];
    let altered = vec![rec("01101", "0600000", "b")];
    let (index1, all1) = build_hash_index(&group_by_admin_code(&sort_records(&records)));
    let (index2, all2) = build_hash_index(&group_by_admin_code(&sort_records(&altered)));
    assert_ne!(all1, all2);
    assert_ne!(index1[0].1, index2[0].1);
}

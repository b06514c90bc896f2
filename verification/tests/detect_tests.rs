use postal_code::detect::{apply_fetched, check_cached, HashIndex, LookupOutcome};
use postal_code::hash_item_key;
use postal_code::plan::plan_run;
use postal_code::record::{Changed, PostalCodeRecord};

fn rec(code: &str, postal: &str) -> PostalCodeRecord {
    PostalCodeRecord::new(
        code.to_string(),
        postal.to_string(),
        String::new(),
        String::new(),
        String::new(),
        String::new(),
        String::new(),
        String::new(),
        false,
        false,
        false,
        false,
        Changed::NoChange,
    )
}

#[test]
fn sentinel_identifier_is_no_administrative_code() {
    let key = hash_item_key();
    assert_eq!(key, "#hash#");
    // administrative codes are all digits; the sentinel never is
    assert!(key.chars().any(|c| !c.is_ascii_digit()));
}

#[test]
fn unknown_identifier_needs_a_fetch() {
    let cache = HashIndex::new();
    let outcome = check_cached(&cache, &"01101".to_string(), &"h1".to_string());
    assert!(matches!(outcome, LookupOutcome::NeedFetch));
}

#[test]
fn fetched_match_is_cached_and_unchanged() {
    let mut cache = HashIndex::new();
    let changed = apply_fetched(
        &mut cache,
        "01101".to_string(),
        Some("h1".to_string()),
        &"h1".to_string(),
    );
    assert!(!changed);
    // the verdict is now served from the cache, without another fetch
    let outcome = check_cached(&cache, &"01101".to_string(), &"h1".to_string());
    assert!(matches!(outcome, LookupOutcome::Decided(false)));
    let outcome = check_cached(&cache, &"01101".to_string(), &"h2".to_string());
    assert!(matches!(outcome, LookupOutcome::Decided(true)));
}

#[test]
fn missing_store_entry_counts_as_changed_and_caches_a_placeholder() {
    let mut cache = HashIndex::new();
    let changed = apply_fetched(&mut cache, "01101".to_string(), None, &"h1".to_string());
    assert!(changed);
    // the empty placeholder keeps later lookups off the store
    let outcome = check_cached(&cache, &"01101".to_string(), &"h1".to_string());
    assert!(matches!(outcome, LookupOutcome::Decided(true)));
}

#[test]
fn unchanged_dataset_hash_skips_the_whole_run() {
    let merged = vec![rec("01101", "0600000"), rec("13101", "1000001")];
    let fresh = vec![
        ("01101".to_string(), "g1".to_string()),
        ("13101".to_string(), "g2".to_string()),
    ];
    let all_hash = "whole".to_string();
    let mut stored = HashIndex::new();
    stored.put(hash_item_key(), "whole".to_string());
    let plan = plan_run(&merged, &fresh, &all_hash, &stored);
    assert_eq!(plan.count, 0);
    assert_eq!(plan.address_batches.len(), 0);
    assert_eq!(plan.hash_batches.len(), 0);
}

#[test]
fn changed_groups_alone_are_written() {
    let merged = vec![rec("01101", "0600000"), rec("13101", "1000001")];
    let fresh = vec![
        ("01101".to_string(), "g1".to_string()),
        ("13101".to_string(), "g2".to_string()),
    ];
    let all_hash = "whole-new".to_string();
    let mut stored = HashIndex::new();
    stored.put(hash_item_key(), "whole-old".to_string());
    stored.put("01101".to_string(), "g1".to_string());
    stored.put("13101".to_string(), "g2-old".to_string());
    let plan = plan_run(&merged, &fresh, &all_hash, &stored);
    // only the second group changed
    assert_eq!(plan.count, 1);
    assert_eq!(plan.address_batches.len(), 1);
    assert_eq!(plan.address_batches[0].len(), 1);
    assert_eq!(plan.address_batches[0][0].postal_code, "1000001");
    // hash updates: the sentinel entry first, then the changed group
    assert_eq!(plan.hash_batches.len(), 1);
    assert_eq!(plan.hash_batches[0].len(), 2);
    assert_eq!(plan.hash_batches[0][0].0, "#hash#");
    assert_eq!(plan.hash_batches[0][0].1, "whole-new");
    assert_eq!(plan.hash_batches[0][1].0, "13101");
    assert_eq!(plan.hash_batches[0][1].1, "g2");
}

#[test]
fn missing_stored_hashes_schedule_everything() {
    let merged = vec![rec("01101", "0600000"), rec("13101", "1000001")];
    let fresh = vec![
        ("01101".to_string(), "g1".to_string()),
        ("13101".to_string(), "g2".to_string()),
    ];
    let all_hash = "whole".to_string();
    let stored = HashIndex::new();
    let plan = plan_run(&merged, &fresh, &all_hash, &stored);
    assert_eq!(plan.count, 2);
    assert_eq!(plan.address_batches.len(), 1);
    assert_eq!(plan.address_batches[0].len(), 2);
    assert_eq!(plan.hash_batches[0].len(), 3);
}

#[test]
fn second_run_after_hash_writes_plans_nothing() {
    let merged = vec![rec("01101", "0600000"), rec("13101", "1000001")];
    let fresh = vec![
        ("01101".to_string(), "g1".to_string()),
        ("13101".to_string(), "g2".to_string()),
    ];
    let all_hash = "whole".to_string();
    let stored = HashIndex::new();
    let first = plan_run(&merged, &fresh, &all_hash, &stored);
    assert!(first.count > 0);
    // apply the first run's hash writes to the store
    let mut stored_after = HashIndex::new();
    for batch in &first.hash_batches {
        for (id, h) in batch {
            stored_after.put(id.clone(), h.clone());
        }
    }
    // the same dataset a second time: nothing to write
    let second = plan_run(&merged, &fresh, &all_hash, &stored_after);
    assert_eq!(second.count, 0);
    assert_eq!(second.address_batches.len(), 0);
    assert_eq!(second.hash_batches.len(), 0);
}

use postal_code::batch::plan_batches;

#[test]
fn empty_input_needs_no_flush() {
    let batches: Vec<Vec<u32>> = plan_batches(Vec::new());
    assert_eq!(batches.len(), 0);
}

#[test]
fn twenty_five_items_are_one_flush() {
    let items: Vec<u32> = (0..25).collect();
    let batches = plan_batches(items);
    assert_eq!(batches.len(), 1);
    assert_eq!(batches[0].len(), 25);
}

#[test]
fn twenty_six_items_are_two_flushes() {
    let items: Vec<u32> = (0..26).collect();
    let batches = plan_batches(items);
    assert_eq!(batches.len(), 2);
    assert_eq!(batches[0].len(), 25);
    assert_eq!(batches[1].len(), 1);
    assert_eq!(batches[1][0], 25);
}

#[test]
fn batching_preserves_order_and_contents() {
    let items: Vec<u32> = (0..60).collect();
    let batches = plan_batches(items);
    assert_eq!(batches.len(), 3);
    assert_eq!(batches[0].len(), 25);
    assert_eq!(batches[1].len(), 25);
    assert_eq!(batches[2].len(), 10);
    let rejoined: Vec<u32> = batches.into_iter().flatten().collect();
    assert_eq!(rejoined, (0..60).collect::<Vec<u32>>());
}

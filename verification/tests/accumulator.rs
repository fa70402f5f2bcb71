use swiss_army_suite::accumulator::Accumulator;

fn strings(items: &[&str]) -> Vec<String> {
    items.iter().map(|s| s.to_string()).collect()
}

#[test]
fn new_accumulator_is_empty() {
    let acc = Accumulator::new();
    assert_eq!(acc.len(), 0);
    assert!(acc.is_empty());
    assert!(!acc.contains("a"));
}

#[test]
fn insert_says_whether_the_item_was_new() {
    let mut acc = Accumulator::new();
    assert!(acc.insert("a".to_string()));
    assert!(!acc.insert("a".to_string()));
    assert!(acc.insert("b".to_string()));
    assert_eq!(acc.len(), 2);
    assert!(acc.contains("a"));
    assert!(acc.contains("b"));
    assert!(!acc.contains("c"));
}

#[test]
fn size_after_inserts_with_duplicates_is_the_number_of_distinct_keys() {
    let mut acc = Accumulator::new();
    for key in ["x", "y", "x", "z", "y", "x", "x"] {
        acc.insert(key.to_string());
    }
    assert_eq!(acc.len(), 3);
    assert_eq!(acc.snapshot(), strings(&["x", "y", "z"]));
}

#[test]
fn extend_keeps_first_occurrences_in_order() {
    let mut acc = Accumulator::new();
    acc.extend(strings(&["b", "a", "b"]));
    acc.extend(strings(&["c", "a", "d"]));
    assert_eq!(acc.snapshot(), strings(&["b", "a", "c", "d"]));
}

#[test]
fn merge_holds_the_same_with_and_without_dedupe() {
    let mut with = Accumulator::new();
    let mut without = Accumulator::new();
    with.merge(strings(&["u", "v", "u"]), true);
    without.merge(strings(&["u", "v", "u"]), false);
    assert_eq!(with.snapshot(), strings(&["u", "v"]));
    assert_eq!(without.snapshot(), strings(&["u", "v"]));
}

#[test]
fn merge_order_does_not_change_what_is_held() {
    let mut one = Accumulator::new();
    one.merge(strings(&["a", "b"]), true);
    one.merge(strings(&["b", "c"]), true);
    let mut other = Accumulator::new();
    other.merge(strings(&["b", "c"]), true);
    other.merge(strings(&["a", "b"]), true);
    let mut left = one.snapshot();
    let mut right = other.snapshot();
    left.sort();
    right.sort();
    assert_eq!(left, right);
    assert_eq!(one.len(), 3);
}

#[test]
fn drain_hands_out_everything_and_leaves_nothing() {
    let mut acc = Accumulator::new();
    acc.extend(strings(&["a", "b", "a"]));
    assert_eq!(acc.drain(), strings(&["a", "b"]));
    assert!(acc.is_empty());
    assert_eq!(acc.drain(), Vec::<String>::new());
}

use rusty_junctions::bag::Bag;

#[test]
fn lib_test_new() {
    // When:
    let _bag: Bag<usize, char> = Bag::new();
}

#[test]
fn test_retrieving_non_existent() {
    // Given:
    let mut bag: Bag<usize, char> = Bag::new();

    // When:
    let actual = bag.retrieve(&42);

    // Then:
    assert!(actual.is_none());
}

#[test]
fn test_retrieving_existing() {
    // Given:
    let mut bag: Bag<usize, char> = Bag::new();

    // When:
    bag.add(217, 'O');

    let actual = bag.retrieve(&217);

    // Then:
    assert_eq!('O', actual.unwrap());
}

#[test]
fn test_retrieving_first() {
    // Given:
    let mut bag: Bag<usize, char> = Bag::new();

    // When:
    bag.add(217, 'O');
    bag.add(217, 'v');

    let actual = bag.retrieve(&217);

    // Then:
    assert_eq!('O', actual.unwrap());
}

#[test]
fn test_retrieving_all_fifo_order() {
    // Given:
    let mut bag: Bag<usize, char> = Bag::new();

    // When:
    bag.add(217, 'O');
    bag.add(217, 'v');

    let first = bag.retrieve(&217);
    let second = bag.retrieve(&217);

    // Then:
    assert_eq!('O', first.unwrap());
    assert_eq!('v', second.unwrap());
}

#[test]
fn test_assigned_correct_key() {
    // Given:
    let mut bag: Bag<usize, char> = Bag::new();

    // When:
    bag.add(217, 'O');
    bag.add(237, 'v');

    let first = bag.retrieve(&217);
    let second = bag.retrieve(&217);

    // Then:
    assert_eq!('O', first.unwrap());
    assert!(second.is_none());
}

#[test]
fn test_contains_items_with_no_item() {
    // Given:
    let bag: Bag<usize, char> = Bag::new();

    // Then:
    assert!(!bag.contains_items(&217));
}

#[test]
fn test_contains_items_with_single_item() {
    // Given:
    let mut bag: Bag<usize, char> = Bag::new();

    // When:
    bag.add(217, 'O');

    // Then:
    assert!(bag.contains_items(&217));
}

#[test]
fn test_contains_items_with_multiple_items() {
    // Given:
    let mut bag: Bag<usize, char> = Bag::new();

    // When:
    bag.add(217, 'O');
    bag.add(217, 'v');
    bag.add(217, 'e');

    // Then:
    assert!(bag.contains_items(&217));
}

#[test]
fn test_contains_items_with_unknown_key() {
    // Given:
    let mut bag: Bag<usize, char> = Bag::new();

    // When:
    bag.add(217, 'O');

    // Then:
    assert!(!bag.contains_items(&42));
}

#[test]
fn test_contains_items_after_add_retrieve() {
    // Given:
    let mut bag: Bag<usize, char> = Bag::new();

    // When:
    bag.add(217, 'O');
    let _v = bag.retrieve(&217);

    // Then:
    assert!(!bag.contains_items(&217));
}

#[test]
fn test_count_items_with_no_item() {
    // Given:
    let bag: Bag<usize, char> = Bag::new();

    // Then:
    assert_eq!(0, bag.count_items(&217));
}

#[test]
fn test_count_items_with_single_item() {
    // Given:
    let mut bag: Bag<usize, char> = Bag::new();

    // When:
    bag.add(217, 'O');

    // Then:
    assert_eq!(1, bag.count_items(&217));
}

#[test]
fn test_count_items_with_multiple_items() {
    // Given:
    let mut bag: Bag<usize, char> = Bag::new();

    // When:
    bag.add(217, 'O');
    bag.add(217, 'v');
    bag.add(217, 'e');

    // Then:
    assert_eq!(3, bag.count_items(&217));
}

#[test]
fn test_count_items_with_unknown_key() {
    // Given:
    let mut bag: Bag<usize, char> = Bag::new();

    // When:
    bag.add(217, 'O');

    // Then:
    assert_eq!(0, bag.count_items(&42));
}

#[test]
fn test_count_items_after_add_retrieve() {
    // Given:
    let mut bag: Bag<usize, char> = Bag::new();

    // When:
    bag.add(217, 'O');
    let _v = bag.retrieve(&217);

    // Then:
    assert_eq!(0, bag.count_items(&217));
}

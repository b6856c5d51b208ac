use gear_sync::ids::{all_contained, contains_item, vectors_equal};

#[test]
fn same_ids_in_another_order_are_equal() {
    assert!(vectors_equal(&[1, 2, 3], &[3, 2, 1]));
}

#[test]
fn empty_lists_are_equal() {
    assert!(vectors_equal::<u32>(&[], &[]));
    assert!(!vectors_equal(&[], &[1]));
    assert!(!vectors_equal(&[1], &[]));
}

#[test]
fn lists_of_different_sets_differ() {
    assert!(!vectors_equal(&[1, 2], &[1, 2, 3]));
    assert!(!vectors_equal(&[1, 2, 3], &[1, 2]));
    assert!(!vectors_equal(&[1, 2, 4], &[1, 2, 3]));
}

#[test]
fn a_repeated_id_does_not_stand_for_a_missing_one() {
    assert!(!vectors_equal(&[1, 1, 2], &[1, 2, 3]));
    assert!(!vectors_equal(&[1, 2, 3], &[1, 1, 2]));
}

#[test]
fn a_repeated_id_counts_once() {
    assert!(vectors_equal(&[1, 1, 2], &[1, 2]));
    assert!(vectors_equal(&[1, 2], &[2, 2, 1, 1]));
    assert!(vectors_equal(&[7, 7], &[7]));
}

#[test]
fn the_comparison_is_the_same_both_ways() {
    let lists: [&[u32]; 5] = [&[], &[1], &[1, 1, 2], &[1, 2, 3], &[2, 1]];
    for a in lists {
        assert!(vectors_equal(a, a));
        for b in lists {
            assert_eq!(vectors_equal(a, b), vectors_equal(b, a));
        }
    }
}

#[test]
fn contains_item_finds_what_is_there() {
    assert!(contains_item(&[4, 5, 6], &6));
    assert!(!contains_item(&[4, 5, 6], &7));
    assert!(!contains_item(&[], &0));
}

#[test]
fn all_contained_is_one_way() {
    assert!(all_contained(&[1, 1, 2], &[1, 2, 3]));
    assert!(!all_contained(&[1, 2, 3], &[1, 1, 2]));
    assert!(all_contained::<u32>(&[], &[1]));
}

#[test]
fn lists_of_texts_are_compared_alike() {
    assert!(vectors_equal(&["a", "b"], &["b", "a"]));
    assert!(!vectors_equal(&["a", "c"], &["b", "a"]));
}

use gear_sync::error::DecodeError;
use gear_sync::optimizer::{
    decode_body, find_counterpart, find_ids, has_duplicate_label, results_equal, Optimizer,
};

fn entry(label: &str, ids: &[u32]) -> Optimizer {
    Optimizer { label: label.to_string(), ids: ids.to_vec() }
}

#[test]
fn entries_are_equal_by_label_and_id_set() {
    assert!(entry("speed", &[1, 2, 3]) == entry("speed", &[3, 2, 1]));
    assert!(entry("speed", &[1, 2, 3]) != entry("torque", &[1, 2, 3]));
    assert!(entry("speed", &[1, 2, 3]) != entry("speed", &[1, 2]));
    assert!(entry("a", &[1, 1, 2]) != entry("a", &[1, 2, 3]));
    assert!(entry("a", &[1, 2, 3]) != entry("a", &[1, 1, 2]));
    assert!(entry("a", &[1, 1, 2]) == entry("a", &[2, 1]));
    assert!(entry("a", &[1]) != entry("b", &[1]));
    assert!(entry("a", &[1]) != entry("A", &[1]));
}

#[test]
fn decode_reads_labels_and_ids_in_order() {
    let request = decode_body(r#"[{"speed": [3, 1, 2]}, {"torque": []}]"#).unwrap();
    assert_eq!(request.len(), 2);
    assert_eq!(request[0].label, "speed");
    assert_eq!(request[0].ids, vec![3, 1, 2]);
    assert_eq!(request[1].label, "torque");
    assert_eq!(request[1].ids, Vec::<u32>::new());
}

#[test]
fn decode_accepts_an_empty_list() {
    assert_eq!(decode_body("[]").unwrap().len(), 0);
}

#[test]
fn decode_accepts_the_largest_id() {
    let request = decode_body(r#"[{"a": [4294967295]}]"#).unwrap();
    assert_eq!(request[0].ids, vec![u32::MAX]);
}

#[test]
fn decode_refuses_text_that_is_no_json() {
    assert_eq!(decode_body("[{").unwrap_err(), DecodeError::Syntax);
    assert_eq!(decode_body("").unwrap_err(), DecodeError::Syntax);
}

#[test]
fn decode_refuses_other_shapes() {
    assert_eq!(decode_body(r#"{"speed": [1]}"#).unwrap_err(), DecodeError::Shape);
    assert_eq!(decode_body(r#"[{}]"#).unwrap_err(), DecodeError::Shape);
    assert_eq!(decode_body(r#"[{"a": [1], "b": [2]}]"#).unwrap_err(), DecodeError::Shape);
    assert_eq!(decode_body(r#"[{"a": 1}]"#).unwrap_err(), DecodeError::Shape);
    assert_eq!(decode_body(r#"[{"a": ["1"]}]"#).unwrap_err(), DecodeError::Shape);
    assert_eq!(decode_body(r#"[{"a": [-1]}]"#).unwrap_err(), DecodeError::Shape);
    assert_eq!(decode_body(r#"[{"a": [1.5]}]"#).unwrap_err(), DecodeError::Shape);
    assert_eq!(decode_body(r#"[{"a": [4294967296]}]"#).unwrap_err(), DecodeError::Shape);
    assert_eq!(decode_body(r#"[[1]]"#).unwrap_err(), DecodeError::Shape);
}

#[test]
fn decode_refuses_a_repeated_label() {
    assert_eq!(
        decode_body(r#"[{"a": [1]}, {"b": [2]}, {"a": [3]}]"#).unwrap_err(),
        DecodeError::DuplicateLabel
    );
}

#[test]
fn results_are_equal_whatever_the_order_of_ids() {
    let first = vec![entry("speed", &[1, 2, 3]), entry("torque", &[7])];
    let second = vec![entry("speed", &[3, 2, 1]), entry("torque", &[7])];
    assert!(results_equal(&first, &second));
}

#[test]
fn results_are_equal_whatever_the_order_of_entries() {
    let first = vec![entry("speed", &[1, 2, 3]), entry("torque", &[7])];
    let second = vec![entry("torque", &[7]), entry("speed", &[1, 2, 3])];
    assert!(results_equal(&first, &second));
}

#[test]
fn results_differ_by_length_label_or_ids() {
    let first = vec![entry("speed", &[1, 2, 3])];
    assert!(!results_equal(&first, &[]));
    assert!(!results_equal(&first, &[entry("torque", &[1, 2, 3])]));
    assert!(!results_equal(&first, &[entry("speed", &[1, 2, 4])]));
    assert!(results_equal(&[], &[]));
}

#[test]
fn results_with_different_id_sets_differ_both_ways() {
    let first = vec![entry("a", &[1, 1, 2])];
    let second = vec![entry("a", &[1, 2, 3])];
    assert!(!results_equal(&first, &second));
    assert!(!results_equal(&second, &first));
    assert!(results_equal(&first, &[entry("a", &[2, 1])]));
}

#[test]
fn counterpart_is_found_anywhere() {
    let others = vec![entry("a", &[1]), entry("b", &[2, 3])];
    assert!(find_counterpart(&entry("b", &[3, 2]), &others));
    assert!(!find_counterpart(&entry("c", &[3, 2]), &others));
}

#[test]
fn the_last_entry_with_a_label_wins() {
    let entries = vec![entry("a", &[1]), entry("b", &[2]), entry("a", &[3])];
    assert_eq!(find_ids(&entries, &"a".to_string()), Some(&vec![3]));
    assert_eq!(find_ids(&entries, &"b".to_string()), Some(&vec![2]));
    assert_eq!(find_ids(&entries, &"c".to_string()), None);
}

#[test]
fn repeated_labels_are_found() {
    assert!(has_duplicate_label(&[entry("a", &[1]), entry("b", &[2]), entry("a", &[3])]));
    assert!(!has_duplicate_label(&[entry("a", &[1]), entry("b", &[2])]));
    assert!(!has_duplicate_label(&[]));
}

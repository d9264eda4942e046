use virtual_branches::deltas::{delta_operations, get_delta_operations, Difference, Operation};

#[test]
fn test_get_delta_operations_insert_end() {
    let initial_text = "hello world";
    let final_text = "hello world!";
    let operations = get_delta_operations(initial_text, final_text).unwrap();
    assert_eq!(operations.len(), 1);
    assert_eq!(operations[0], Operation::Insert((11, "!".to_string())));
}

#[test]
fn test_get_delta_operations_insert_middle() {
    let initial_text = "hello world";
    let final_text = "hello, world";
    let operations = get_delta_operations(initial_text, final_text).unwrap();
    assert_eq!(operations.len(), 1);
    assert_eq!(operations[0], Operation::Insert((5, ",".to_string())));
}

#[test]
fn test_get_delta_operations_insert_begin() {
    let initial_text = "hello world";
    let final_text = ": hello world";
    let operations = get_delta_operations(initial_text, final_text).unwrap();
    assert_eq!(operations.len(), 1);
    assert_eq!(operations[0], Operation::Insert((0, ": ".to_string())));
}

#[test]
fn test_get_delta_operations_delete_end() {
    let initial_text = "hello world!";
    let final_text = "hello world";
    let operations = get_delta_operations(initial_text, final_text).unwrap();
    assert_eq!(operations.len(), 1);
    assert_eq!(operations[0], Operation::Delete((11, 1)));
}

#[test]
fn test_get_delta_operations_delete_middle() {
    let initial_text = "hello world";
    let final_text = "helloworld";
    let operations = get_delta_operations(initial_text, final_text).unwrap();
    assert_eq!(operations.len(), 1);
    assert_eq!(operations[0], Operation::Delete((5, 1)));
}

#[test]
fn test_get_delta_operations_delete_begin() {
    let initial_text = "hello world";
    let final_text = "ello world";
    let operations = get_delta_operations(initial_text, final_text).unwrap();
    assert_eq!(operations.len(), 1);
    assert_eq!(operations[0], Operation::Delete((0, 1)));
}

#[test]
fn equal_texts_need_no_operations() {
    assert_eq!(get_delta_operations("same", "same"), Some(Vec::new()));
    assert_eq!(get_delta_operations("", ""), Some(Vec::new()));
}

#[test]
fn operations_count_bytes() {
    let operations = get_delta_operations("a★b", "a★c").unwrap();
    assert_eq!(
        operations,
        vec![Operation::Delete((4, 1)), Operation::Insert((4, "c".to_string()))]
    );
}

#[test]
fn operations_of_given_pieces() {
    let diffs = vec![
        Difference::Same("hel".to_string()),
        Difference::Rem("lo worl".to_string()),
        Difference::Same("d".to_string()),
        Difference::Add("!".to_string()),
    ];
    assert_eq!(
        delta_operations(&diffs),
        Some(vec![Operation::Delete((3, 7)), Operation::Insert((4, "!".to_string()))])
    );
    assert_eq!(delta_operations(&Vec::new()), Some(Vec::new()));
    let only_rem = vec![Difference::Rem("é".to_string()), Difference::Add("e".to_string())];
    assert_eq!(
        delta_operations(&only_rem),
        Some(vec![Operation::Delete((0, 2)), Operation::Insert((0, "e".to_string()))])
    );
}

#[test]
fn only_shared_text_moves_the_offset() {
    let operations = get_delta_operations("abXcdYef", "abPcdQef").unwrap();
    assert_eq!(
        operations,
        vec![
            Operation::Delete((2, 1)),
            Operation::Insert((2, "P".to_string())),
            Operation::Delete((4, 1)),
            Operation::Insert((4, "Q".to_string())),
        ]
    );
}

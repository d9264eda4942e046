use virtual_branches::deltas::{Delta, Operation};
use virtual_branches::document::TextDocument;

#[test]
fn test_document_new() {
    let document = TextDocument::new("hello world", vec![]).unwrap();
    assert_eq!(document.to_string(), "hello world");
    assert_eq!(document.get_deltas().len(), 0);
}

#[test]
fn test_document_update() {
    let mut document = TextDocument::new("hello world", vec![]).unwrap();
    document.update("hello world!");
    assert_eq!(document.to_string(), "hello world!");
    assert_eq!(document.get_deltas().len(), 1);
    assert_eq!(document.get_deltas()[0].operations.len(), 1);
    assert_eq!(
        document.get_deltas()[0].operations[0],
        Operation::Insert((11, "!".to_string()))
    );
}

#[test]
fn test_document_empty() {
    let mut document = TextDocument::from_deltas(vec![]).unwrap();
    document.update("hello world!");
    assert_eq!(document.to_string(), "hello world!");
    assert_eq!(document.get_deltas().len(), 1);
    assert_eq!(document.get_deltas()[0].operations.len(), 1);
    assert_eq!(
        document.get_deltas()[0].operations[0],
        Operation::Insert((0, "hello world!".to_string()))
    );
}

#[test]
fn test_document_from_deltas() {
    let document = TextDocument::from_deltas(vec![
        Delta {
            timestamp_ms: 0,
            operations: vec![Operation::Insert((0, "hello".to_string()))],
        },
        Delta {
            timestamp_ms: 1,
            operations: vec![Operation::Insert((5, " world".to_string()))],
        },
        Delta {
            timestamp_ms: 2,
            operations: vec![
                Operation::Delete((3, 7)),
                Operation::Insert((4, "!".to_string())),
            ],
        },
    ])
    .unwrap();
    assert_eq!(document.to_string(), "held!");
}

#[test]
fn test_document_complex() {
    let mut document = TextDocument::from_deltas(vec![]).unwrap();

    document.update("hello");
    assert_eq!(document.to_string(), "hello");
    assert_eq!(document.get_deltas().len(), 1);
    assert_eq!(document.get_deltas()[0].operations.len(), 1);
    assert_eq!(
        document.get_deltas()[0].operations[0],
        Operation::Insert((0, "hello".to_string()))
    );

    document.update("hello world");
    assert_eq!(document.to_string(), "hello world");
    assert_eq!(document.get_deltas().len(), 2);
    assert_eq!(document.get_deltas()[1].operations.len(), 1);
    assert_eq!(
        document.get_deltas()[1].operations[0],
        Operation::Insert((5, " world".to_string()))
    );

    document.update("held!");
    assert_eq!(document.to_string(), "held!");
    assert_eq!(document.get_deltas().len(), 3);
    assert_eq!(document.get_deltas()[2].operations.len(), 2);
    assert_eq!(
        document.get_deltas()[2].operations[0],
        Operation::Delete((3, 7))
    );
    assert_eq!(
        document.get_deltas()[2].operations[1],
        Operation::Insert((4, "!".to_string())),
    );
}

#[test]
fn update_to_the_same_text_changes_nothing() {
    let mut document = TextDocument::new("hello", vec![]).unwrap();
    assert_eq!(document.update("hello"), Some(false));
    assert_eq!(document.to_string(), "hello");
    assert_eq!(document.get_deltas().len(), 0);
    assert_eq!(document.update("hello!"), Some(true));
    assert_eq!(document.get_deltas().len(), 1);
}

#[test]
fn operations_out_of_the_text_are_refused() {
    let beyond = vec![Delta { timestamp_ms: 0, operations: vec![Operation::Insert((1, "a".to_string()))] }];
    assert!(TextDocument::from_deltas(beyond).is_none());
    let too_long = vec![Delta {
        timestamp_ms: 0,
        operations: vec![Operation::Insert((0, "abc".to_string())), Operation::Delete((1, 3))],
    }];
    assert!(TextDocument::from_deltas(too_long).is_none());
    let wide = vec![Delta {
        timestamp_ms: 0,
        operations: vec![Operation::Insert((0, "abc".to_string())), Operation::Delete((2, u32::MAX))],
    }];
    assert!(TextDocument::new("x", wide).is_none());
}

#[test]
fn operations_inside_a_character_are_refused() {
    let split = vec![Delta {
        timestamp_ms: 0,
        operations: vec![Operation::Insert((0, "a★b".to_string())), Operation::Insert((2, "!".to_string()))],
    }];
    assert!(TextDocument::from_deltas(split).is_none());
    let cut = vec![Delta {
        timestamp_ms: 0,
        operations: vec![Operation::Insert((0, "a★b".to_string())), Operation::Delete((1, 2))],
    }];
    assert!(TextDocument::from_deltas(cut).is_none());
    let whole = vec![Delta {
        timestamp_ms: 0,
        operations: vec![
            Operation::Insert((0, "a★b".to_string())),
            Operation::Delete((1, 3)),
            Operation::Insert((1, "é".to_string())),
        ],
    }];
    let document = TextDocument::from_deltas(whole).unwrap();
    assert_eq!(document.to_string(), "aéb");
    assert_eq!(document.get_deltas().len(), 1);
}

#[test]
fn deltas_are_made_after_the_seed() {
    let deltas = vec![
        Delta { timestamp_ms: 5, operations: vec![Operation::Delete((0, 6))] },
        Delta { timestamp_ms: 6, operations: vec![Operation::Insert((5, "!".to_string()))] },
    ];
    let document = TextDocument::new("hello world", deltas).unwrap();
    assert_eq!(document.to_string(), "world!");
    let kept = document.get_deltas();
    assert_eq!(kept.len(), 2);
    assert_eq!(kept[0].timestamp_ms, 5);
    assert_eq!(kept[1].operations, vec![Operation::Insert((5, "!".to_string()))]);
}

#[test]
fn text_is_put_in_where_text_was_taken_out() {
    let deltas = vec![Delta {
        timestamp_ms: 1,
        operations: vec![
            Operation::Delete((2, 2)),
            Operation::Insert((2, "XY".to_string())),
            Operation::Delete((0, 1)),
            Operation::Insert((0, "é".to_string())),
            Operation::Insert((7, "!".to_string())),
            Operation::Delete((2, 0)),
            Operation::Insert((3, "".to_string())),
        ],
    }];
    let document = TextDocument::new("abcdef", deltas).unwrap();
    assert_eq!(document.to_string(), "ébXYef!");
}

#[test]
fn updates_follow_one_another() {
    let mut document = TextDocument::new("", vec![]).unwrap();
    assert_eq!(document.to_string(), "");
    for text in ["a", "abc", "xbc", "xc", "", "héllo", "hello", "hell"] {
        assert_eq!(document.update(text), Some(true));
        assert_eq!(document.to_string(), text);
    }
    assert_eq!(document.get_deltas().len(), 8);
    let replayed = TextDocument::from_deltas(document.get_deltas()).unwrap();
    assert_eq!(replayed.to_string(), "hell");
}

#[test]
fn an_update_bears_the_time_that_it_is_given() {
    let mut document = TextDocument::new("hello", vec![]).unwrap();
    assert_eq!(document.update_at("hello!", 1_234_567), Some(true));
    assert_eq!(document.update_at("hello!", 99), Some(false));
    assert_eq!(document.update_at("hello", u64::MAX), Some(true));
    assert_eq!(document.update_at("hallo", 0), Some(true));
    let deltas = document.get_deltas();
    assert_eq!(deltas.len(), 3);
    assert_eq!(deltas[0].timestamp_ms, 1_234_567);
    assert_eq!(deltas[0].operations, vec![Operation::Insert((5, "!".to_string()))]);
    assert_eq!(deltas[1].timestamp_ms, u64::MAX);
    assert_eq!(deltas[1].operations, vec![Operation::Delete((5, 1))]);
    assert_eq!(deltas[2].timestamp_ms, 0);
    assert_eq!(
        deltas[2].operations,
        vec![Operation::Delete((1, 1)), Operation::Insert((1, "a".to_string()))]
    );
    assert_eq!(document.to_string(), "hallo");
}

#[test]
fn an_update_by_the_clock_keeps_one_delta() {
    let mut document = TextDocument::from_deltas(vec![]).unwrap();
    assert_eq!(document.update("a"), Some(true));
    assert_eq!(document.update("a"), Some(false));
    assert_eq!(document.update("ab"), Some(true));
    let deltas = document.get_deltas();
    assert_eq!(deltas.len(), 2);
    assert_eq!(document.to_string(), "ab");
}

use forum::hierarchy::{fold_rows, fold_rows_with_participants, note_participant, AuthoredRow, Row};
use std::collections::HashMap;

fn row(key: u32, parent: &str, child: &str) -> Row<String, String> {
    Row { key, parent: parent.to_string(), child: child.to_string() }
}

#[test]
fn rows_fold_into_parents_in_order() {
    let groups = fold_rows(vec![row(1, "one", "A"), row(1, "one", "B"), row(2, "two", "C")]);
    assert_eq!(groups.len(), 2);
    assert_eq!(groups[0].key, 1);
    assert_eq!(groups[0].parent, "one");
    assert_eq!(groups[0].children, vec!["A".to_string(), "B".to_string()]);
    assert_eq!(groups[1].key, 2);
    assert_eq!(groups[1].children, vec!["C".to_string()]);
}

#[test]
fn zero_rows_fold_to_nothing() {
    let groups = fold_rows::<String, String>(vec![]);
    assert!(groups.is_empty());
}

#[test]
fn first_row_of_a_key_gives_its_payload() {
    let groups = fold_rows(vec![row(5, "first", "A"), row(3, "x", "B"), row(5, "second", "C")]);
    assert_eq!(groups.len(), 2);
    assert_eq!(groups[0].key, 5);
    assert_eq!(groups[0].parent, "first");
    assert_eq!(groups[0].children, vec!["A".to_string(), "C".to_string()]);
    assert_eq!(groups[1].key, 3);
}

#[test]
fn participants_resolved_once_across_parents() {
    let rows = vec![
        AuthoredRow { key: 1, parent: "t1", child: 10u32, author_id: 7, author: "alice" },
        AuthoredRow { key: 1, parent: "t1", child: 11u32, author_id: 8, author: "bob" },
        AuthoredRow { key: 2, parent: "t2", child: 12u32, author_id: 7, author: "alice-later" },
    ];
    let (groups, people) = fold_rows_with_participants(rows);
    assert_eq!(groups.len(), 2);
    assert_eq!(groups[0].children, vec![10, 11]);
    assert_eq!(groups[1].children, vec![12]);
    assert_eq!(people.len(), 2);
    assert_eq!(people[&7], "alice");
    assert_eq!(people[&8], "bob");
}

#[test]
fn note_participant_keeps_first() {
    let mut m = HashMap::new();
    note_participant(&mut m, 1, "a");
    note_participant(&mut m, 1, "b");
    note_participant(&mut m, 2, "c");
    assert_eq!(m[&1], "a");
    assert_eq!(m[&2], "c");
}

use monitaur::history::{group_history, HistoryRow};

fn row(id: i64, header: &str, container: Option<&str>) -> HistoryRow<String, String> {
    HistoryRow {
        snapshot_id: id,
        header: header.to_string(),
        container: container.map(|c| c.to_string()),
    }
}

#[test]
fn groups_rows_in_snapshot_order() {
    let order = vec![3, 2];
    let rows = vec![
        row(3, "snap3", Some("c-3-0")),
        row(3, "snap3-again", Some("c-3-1")),
        row(2, "snap2", Some("c-2-0")),
        row(3, "snap3-last", None),
    ];
    let history = group_history(&order, rows);
    assert_eq!(
        history,
        vec![
            ("snap3".to_string(), vec!["c-3-0".to_string(), "c-3-1".to_string()]),
            ("snap2".to_string(), vec!["c-2-0".to_string()]),
        ]
    );
}

#[test]
fn snapshots_without_containers_are_kept() {
    let order = vec![5];
    let rows = vec![row(5, "lonely", None)];
    assert_eq!(group_history(&order, rows), vec![("lonely".to_string(), vec![])]);
}

#[test]
fn ids_without_rows_and_repeated_ids_give_nothing() {
    let order = vec![1, 9, 1];
    let rows = vec![row(1, "one", Some("a")), row(7, "stray", Some("b"))];
    assert_eq!(group_history(&order, rows), vec![("one".to_string(), vec!["a".to_string()])]);
    assert_eq!(group_history::<String, String>(&vec![], vec![]), vec![]);
}

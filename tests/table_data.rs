use crm_tables::edits::{DataType, TableDataChangeEvent};
use crm_tables::table_data::{CommitBatch, TableData, TableDataError, TableGeneral};

fn s(v: &str) -> String {
    v.to_string()
}

fn users_catalog() -> Vec<TableGeneral> {
    vec![TableGeneral {
        table_name: s("users"),
        column_names: vec![s("id"), s("name")],
        data_types: vec![DataType::INTEGER, DataType::TEXT],
    }]
}

fn initial_rows() -> Vec<Vec<String>> {
    vec![
        vec![s("1"), s("Alice")],
        vec![s("2"), s("Bob")],
        vec![s("3"), s("Charlie")],
        vec![s("4"), s("Jacob")],
    ]
}

fn opened_users() -> TableData {
    let mut table_data = TableData::new(users_catalog());
    assert!(table_data.set_table_data(s("users"), vec![s("id")], initial_rows()));
    table_data
}

fn row_matches(row: &[String], columns: &[String], conditions: &[crm_tables::edits::Condition]) -> bool {
    conditions.iter().all(|c| {
        let k = columns.iter().position(|n| *n == c.column_name).unwrap();
        row[k] == c.value
    })
}

/// Applies a batch the way the store does, and returns the rows ordered by `id`.
fn apply_batch(rows: &[Vec<String>], columns: &[String], batch: &CommitBatch) -> Vec<Vec<String>> {
    let mut stored: Vec<Vec<String>> = rows.to_vec();
    for event in &batch.events {
        match event {
            TableDataChangeEvent::InsertRow(d) => {
                let row = columns
                    .iter()
                    .map(|c| {
                        let k = d.column_names.iter().position(|n| n == c).unwrap();
                        d.values[k].clone()
                    })
                    .collect();
                stored.push(row);
            }
            TableDataChangeEvent::ModifyRowColumnValue(m) => {
                for row in stored.iter_mut() {
                    if row_matches(row, columns, &m.conditions) {
                        for cv in &m.column_values {
                            let k = columns.iter().position(|n| *n == cv.column_name).unwrap();
                            row[k] = cv.value.clone();
                        }
                    }
                }
            }
            TableDataChangeEvent::DeleteRow(conditions) => {
                stored.retain(|row| !row_matches(row, columns, conditions));
            }
        }
    }
    stored.sort_by_key(|row| row[0].parse::<i64>().unwrap());
    stored
}

fn snapshot_rows(table_data: &TableData) -> Vec<Vec<String>> {
    table_data.table_inserted_data().as_ref().unwrap().rows.clone()
}

#[test]
fn test_update_table_data() {
    let mut table_data = opened_users();
    let (id, name) = (s("id"), s("name"));
    table_data.add_modify_row_column_value_event(0, id.clone(), s("5"));
    table_data.add_modify_row_column_value_event(3, name.clone(), s("Liam"));
    table_data.add_modify_row_column_value_event(3, id.clone(), s("8"));
    table_data.add_delete_row_event(1);
    table_data.add_insert_row_event(vec![s("6"), s("")]);
    // row index is out of range
    table_data.add_modify_row_column_value_event(4, name.clone(), s("John"));
    table_data.add_modify_row_column_value_event(2, name.clone(), s("Daniel"));

    let batch = table_data.begin_commit().unwrap();
    assert_eq!(batch.table_name, s("users"));
    let columns = vec![id.clone(), name.clone()];
    let stored = apply_batch(&initial_rows(), &columns, &batch);
    assert!(table_data.commit_succeeded(vec![s("id")], stored));

    let expected = vec![
        vec![s("3"), s("Charlie")],
        vec![s("5"), s("Alice")],
        vec![s("6"), s("")],
        vec![s("8"), s("Daniel")],
    ];
    let data = table_data.table_inserted_data().as_ref().unwrap();
    assert_eq!(data.table_name, s("users"));
    assert_eq!(data.column_names, columns);
    assert_eq!(data.data_types, vec![DataType::INTEGER, DataType::TEXT]);
    assert_eq!(data.rows, expected);
    assert!(table_data.pending_events().is_empty());
    assert_eq!(*table_data.current_to_initial_row_indexes(), vec![0, 1, 2, 3]);
    assert!(!table_data.committing());
}

#[test]
fn modify_primary_key_records_new_value_under_original_condition() {
    let mut table_data = opened_users();
    table_data.add_modify_row_column_value_event(0, s("id"), s("5"));
    let events = table_data.pending_events();
    assert_eq!(events.len(), 1);
    match &events[0] {
        TableDataChangeEvent::ModifyRowColumnValue(m) => {
            assert_eq!(m.conditions.len(), 1);
            assert_eq!(m.conditions[0].column_name, s("id"));
            assert_eq!(m.conditions[0].data_type, DataType::INTEGER);
            assert_eq!(m.conditions[0].value, s("1"));
            assert_eq!(m.column_values.len(), 1);
            assert_eq!(m.column_values[0].column_name, s("id"));
            assert_eq!(m.column_values[0].value, s("5"));
        }
        other => panic!("unexpected event {:?}", other),
    }
}

#[test]
fn second_modify_of_a_row_merges_into_its_event() {
    let mut table_data = opened_users();
    table_data.add_modify_row_column_value_event(3, s("name"), s("Liam"));
    table_data.add_modify_row_column_value_event(3, s("id"), s("8"));
    table_data.add_modify_row_column_value_event(3, s("name"), s("Daniel"));
    let events = table_data.pending_events();
    assert_eq!(events.len(), 1);
    match &events[0] {
        TableDataChangeEvent::ModifyRowColumnValue(m) => {
            assert_eq!(m.conditions[0].value, s("4"));
            let mut values: Vec<(String, String)> = m
                .column_values
                .iter()
                .map(|c| (c.column_name.clone(), c.value.clone()))
                .collect();
            values.sort();
            assert_eq!(values, vec![(s("id"), s("8")), (s("name"), s("Daniel"))]);
        }
        other => panic!("unexpected event {:?}", other),
    }
}

#[test]
fn reverting_every_changed_column_removes_the_modify_event() {
    let mut table_data = opened_users();
    table_data.add_modify_row_column_value_event(1, s("name"), s("Robert"));
    table_data.add_modify_row_column_value_event(1, s("id"), s("20"));
    table_data.add_modify_row_column_value_event(1, s("name"), s("Bob"));
    assert_eq!(table_data.pending_events().len(), 1);
    table_data.add_modify_row_column_value_event(1, s("id"), s("2"));
    assert!(table_data.pending_events().is_empty());
}

#[test]
fn delete_then_modify_addresses_shifted_row() {
    let mut table_data = opened_users();
    table_data.add_delete_row_event(1);
    assert_eq!(*table_data.current_to_initial_row_indexes(), vec![0, 2, 3]);
    table_data.add_modify_row_column_value_event(2, s("name"), s("Daniel"));
    let events = table_data.pending_events();
    assert_eq!(events.len(), 2);
    match &events[0] {
        TableDataChangeEvent::DeleteRow(c) => assert_eq!(c[0].value, s("2")),
        other => panic!("unexpected event {:?}", other),
    }
    match &events[1] {
        TableDataChangeEvent::ModifyRowColumnValue(m) => assert_eq!(m.conditions[0].value, s("4")),
        other => panic!("unexpected event {:?}", other),
    }
}

#[test]
fn index_translator_shifts_later_rows_on_delete() {
    let mut table_data = opened_users();
    let before = table_data.current_to_initial_row_indexes().clone();
    table_data.add_delete_row_event(0);
    let after = table_data.current_to_initial_row_indexes().clone();
    assert_eq!(after.len(), before.len() - 1);
    for j in 1..before.len() {
        assert_eq!(after[j - 1], before[j]);
    }
    table_data.add_delete_row_event(1);
    assert_eq!(*table_data.current_to_initial_row_indexes(), vec![1, 3]);
}

#[test]
fn insert_then_delete_leaves_no_trace() {
    let mut table_data = opened_users();
    table_data.add_delete_row_event(0);
    let translator = table_data.current_to_initial_row_indexes().clone();
    assert_eq!(table_data.pending_events().len(), 1);
    table_data.add_insert_row_event(vec![s("9"), s("Zoe")]);
    assert_eq!(table_data.pending_events().len(), 2);
    table_data.add_delete_row_event(3);
    assert_eq!(table_data.pending_events().len(), 1);
    assert!(matches!(table_data.pending_events()[0], TableDataChangeEvent::DeleteRow(_)));
    assert_eq!(*table_data.current_to_initial_row_indexes(), translator);
}

#[test]
fn modify_of_pending_insert_overwrites_its_value() {
    let mut table_data = opened_users();
    table_data.add_insert_row_event(vec![s("6"), s("")]);
    table_data.add_modify_row_column_value_event(4, s("name"), s("Eve"));
    let events = table_data.pending_events();
    assert_eq!(events.len(), 1);
    match &events[0] {
        TableDataChangeEvent::InsertRow(d) => {
            assert_eq!(d.values, vec![s("6"), s("Eve")]);
            assert_eq!(d.column_names, vec![s("id"), s("name")]);
        }
        other => panic!("unexpected event {:?}", other),
    }
}

#[test]
fn out_of_range_edits_change_nothing() {
    let mut table_data = opened_users();
    table_data.add_insert_row_event(vec![s("6"), s("")]);
    table_data.add_modify_row_column_value_event(5, s("name"), s("John"));
    table_data.add_modify_row_column_value_event(usize::MAX, s("name"), s("John"));
    table_data.add_delete_row_event(5);
    table_data.add_delete_row_event(usize::MAX);
    assert_eq!(table_data.pending_events().len(), 1);
    assert_eq!(*table_data.current_to_initial_row_indexes(), vec![0, 1, 2, 3]);
}

#[test]
fn deleted_rows_index_range_without_insert_is_a_no_op() {
    let mut table_data = opened_users();
    table_data.add_delete_row_event(0);
    table_data.add_modify_row_column_value_event(3, s("name"), s("John"));
    table_data.add_delete_row_event(3);
    assert_eq!(table_data.pending_events().len(), 1);
    assert_eq!(*table_data.current_to_initial_row_indexes(), vec![1, 2, 3]);
}

#[test]
fn modify_of_unknown_column_is_a_no_op() {
    let mut table_data = opened_users();
    table_data.add_modify_row_column_value_event(0, s("email"), s("a@b.c"));
    assert!(table_data.pending_events().is_empty());
}

#[test]
fn edits_without_open_table_are_ignored() {
    let mut table_data = TableData::new(users_catalog());
    table_data.add_insert_row_event(vec![s("1"), s("A")]);
    table_data.add_modify_row_column_value_event(0, s("name"), s("B"));
    table_data.add_delete_row_event(0);
    assert!(table_data.pending_events().is_empty());
    assert!(table_data.begin_commit().is_none());
}

#[test]
fn set_table_data_refuses_unknown_table_and_misaligned_rows() {
    let mut table_data = TableData::new(users_catalog());
    assert!(!table_data.set_table_data(s("orders"), vec![s("id")], initial_rows()));
    assert!(table_data.table_inserted_data().is_none());
    assert!(!table_data.set_table_data(s("users"), vec![s("id")], vec![vec![s("1")]]));
    assert!(table_data.table_inserted_data().is_none());
    assert_eq!(table_data.find_table(&s("users")), Some(0));
    assert_eq!(table_data.find_table(&s("orders")), None);
}

#[test]
fn commit_batch_orders_inserts_then_modifies_then_deletes() {
    let mut table_data = opened_users();
    table_data.add_delete_row_event(0);
    table_data.add_modify_row_column_value_event(0, s("name"), s("Bobby"));
    table_data.add_insert_row_event(vec![s("7"), s("Gus")]);
    let batch = table_data.begin_commit().unwrap();
    let kinds: Vec<u8> = batch
        .events
        .iter()
        .map(|e| match e {
            TableDataChangeEvent::InsertRow(_) => 0,
            TableDataChangeEvent::ModifyRowColumnValue(_) => 1,
            TableDataChangeEvent::DeleteRow(_) => 2,
        })
        .collect();
    assert_eq!(kinds, vec![0, 1, 2]);
    assert_eq!(table_data.pending_events().len(), 3);
    assert!(table_data.committing());
}

#[test]
fn second_commit_while_committing_is_rejected() {
    let mut table_data = opened_users();
    table_data.add_delete_row_event(0);
    assert!(table_data.begin_commit().is_some());
    assert!(table_data.begin_commit().is_none());
}

#[test]
fn failed_commit_keeps_the_log() {
    let mut table_data = opened_users();
    table_data.add_delete_row_event(2);
    table_data.add_modify_row_column_value_event(0, s("name"), s("Ann"));
    let _batch = table_data.begin_commit().unwrap();
    let error = table_data.commit_failed(s("connection reset"));
    assert!(matches!(error, TableDataError::WriteFailed(ref m) if m == "connection reset"));
    assert!(!table_data.committing());
    assert_eq!(table_data.pending_events().len(), 2);
    assert_eq!(*table_data.current_to_initial_row_indexes(), vec![0, 1, 3]);
    assert_eq!(snapshot_rows(&table_data), initial_rows());
    assert!(table_data.begin_commit().is_some());
}

#[test]
fn commit_succeeded_without_commit_is_refused() {
    let mut table_data = opened_users();
    table_data.add_delete_row_event(2);
    assert!(!table_data.commit_succeeded(vec![s("id")], vec![]));
    assert_eq!(table_data.pending_events().len(), 1);
}

#[test]
fn reset_forgets_the_table() {
    let mut table_data = opened_users();
    table_data.add_delete_row_event(0);
    table_data.reset_table_data();
    assert!(table_data.table_inserted_data().is_none());
    assert!(table_data.pending_events().is_empty());
    assert!(table_data.current_to_initial_row_indexes().is_empty());
    assert!(table_data.primary_key_column_names().is_empty());
}

#[test]
fn displayed_rows_reflect_pending_edits() {
    let mut table_data = opened_users();
    table_data.add_delete_row_event(1);
    table_data.add_modify_row_column_value_event(2, s("name"), s("Daniel"));
    table_data.add_modify_row_column_value_event(0, s("id"), s("5"));
    table_data.add_insert_row_event(vec![s("6"), s("")]);
    assert_eq!(
        table_data.displayed_rows(),
        vec![
            vec![s("5"), s("Alice")],
            vec![s("3"), s("Charlie")],
            vec![s("4"), s("Daniel")],
            vec![s("6"), s("")],
        ]
    );
}

#[test]
fn displayed_rows_without_open_table_are_empty() {
    let table_data = TableData::new(users_catalog());
    assert!(table_data.displayed_rows().is_empty());
}

#[test]
fn catalog_type_names_map_to_type_tags() {
    assert_eq!(DataType::from_catalog_name(&s("integer")), DataType::INTEGER);
    assert_eq!(DataType::from_catalog_name(&s("bigint")), DataType::INTEGER);
    assert_eq!(DataType::from_catalog_name(&s("timestamp without time zone")), DataType::TIMESTAMP);
    assert_eq!(DataType::from_catalog_name(&s("text")), DataType::TEXT);
    assert_eq!(DataType::from_catalog_name(&s("character varying")), DataType::TEXT);
    assert_eq!(DataType::INTEGER.sql_name(), "integer");
    assert_eq!(DataType::TEXT.sql_name(), "text");
    assert_eq!(DataType::TIMESTAMP.sql_name(), "timestamp");
}

fn modify_values(event: &TableDataChangeEvent) -> (String, Vec<(String, String)>) {
    match event {
        TableDataChangeEvent::ModifyRowColumnValue(m) => {
            let mut values: Vec<(String, String)> = m
                .column_values
                .iter()
                .map(|c| (c.column_name.clone(), c.value.clone()))
                .collect();
            values.sort();
            (m.conditions[0].value.clone(), values)
        }
        other => panic!("unexpected event {:?}", other),
    }
}

#[test]
fn scenario_steps_one_by_one() {
    let mut table_data = opened_users();

    table_data.add_modify_row_column_value_event(0, s("id"), s("5"));
    assert_eq!(
        modify_values(&table_data.pending_events()[0]),
        (s("1"), vec![(s("id"), s("5"))])
    );

    table_data.add_modify_row_column_value_event(3, s("name"), s("Liam"));
    table_data.add_modify_row_column_value_event(3, s("id"), s("8"));
    assert_eq!(table_data.pending_events().len(), 2);
    assert_eq!(
        modify_values(&table_data.pending_events()[1]),
        (s("4"), vec![(s("id"), s("8")), (s("name"), s("Liam"))])
    );

    table_data.add_delete_row_event(1);
    assert_eq!(table_data.pending_events().len(), 3);
    match &table_data.pending_events()[2] {
        TableDataChangeEvent::DeleteRow(c) => {
            assert_eq!(c.len(), 1);
            assert_eq!(c[0].column_name, s("id"));
            assert_eq!(c[0].value, s("2"));
        }
        other => panic!("unexpected event {:?}", other),
    }
    assert_eq!(*table_data.current_to_initial_row_indexes(), vec![0, 2, 3]);

    table_data.add_insert_row_event(vec![s("6"), s("")]);
    assert_eq!(table_data.pending_events().len(), 4);
    assert_eq!(table_data.displayed_rows()[3], vec![s("6"), s("")]);

    table_data.add_modify_row_column_value_event(4, s("name"), s("John"));
    assert_eq!(table_data.pending_events().len(), 4);
    assert_eq!(table_data.displayed_rows().len(), 4);

    table_data.add_modify_row_column_value_event(2, s("name"), s("Daniel"));
    assert_eq!(table_data.pending_events().len(), 4);
    assert_eq!(
        modify_values(&table_data.pending_events()[1]),
        (s("4"), vec![(s("id"), s("8")), (s("name"), s("Daniel"))])
    );
}

#[test]
fn setting_a_column_to_its_own_value_stages_nothing() {
    let mut table_data = opened_users();
    table_data.add_modify_row_column_value_event(2, s("name"), s("Charlie"));
    table_data.add_modify_row_column_value_event(0, s("id"), s("1"));
    assert!(table_data.pending_events().is_empty());
}

#[test]
fn modify_of_pending_insert_after_delete_uses_snapshot_column() {
    let mut table_data = opened_users();
    table_data.add_delete_row_event(0);
    table_data.add_insert_row_event(vec![s("6"), s("")]);
    table_data.add_modify_row_column_value_event(3, s("id"), s("7"));
    match &table_data.pending_events()[1] {
        TableDataChangeEvent::InsertRow(d) => assert_eq!(d.values, vec![s("7"), s("")]),
        other => panic!("unexpected event {:?}", other),
    }
}

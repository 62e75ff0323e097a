use schema_mapper::cursor::{CursorState, Page, Retrieval, SelectMultiple, Step};
use schema_mapper::entity::Entity;
use schema_mapper::error::{BindError, RunError};
use schema_mapper::schema::{introspect, CatalogRow, ColumnType, KeyRole, TableSchema};
use schema_mapper::validator::{validate, ParamExpr, QueryDescriptor};
use schema_mapper::values::{Value, ValueRef};
use scylla::transport::errors::QueryError;

fn people_schema() -> TableSchema {
    let rows = vec![
        CatalogRow {
            column_name: "name".to_string(),
            role: KeyRole::PartitionKey,
            data_type: "text".to_string(),
            nullable: false,
        },
        CatalogRow {
            column_name: "age".to_string(),
            role: KeyRole::ClusteringKey,
            data_type: "int".to_string(),
            nullable: false,
        },
    ];
    introspect("person", &rows).unwrap()
}

fn older_than() -> QueryDescriptor {
    let params = vec![
        ParamExpr { text: "name".to_string(), value_type: ColumnType::Text },
        ParamExpr { text: "age".to_string(), value_type: ColumnType::Int },
    ];
    validate(&people_schema(), "select * from person where name = ? and age > ?", &params).unwrap()
}

fn stored_row(i: i32) -> Vec<Value> {
    vec![Value::Text("jhon".to_string()), Value::Int(i)]
}

/// Cuts the rows into pages as a store does, the token being the index of the next row.
fn pages(rows: &[Vec<Value>], page_size: usize) -> Vec<Page> {
    let mut made = Vec::new();
    let mut at = 0;
    loop {
        let end = (at + page_size).min(rows.len());
        let next = if end < rows.len() { Some(vec![end as u8]) } else { None };
        let last = next.is_none();
        made.push(Page { rows: rows[at..end].to_vec(), next });
        if last {
            return made;
        }
        at = end;
    }
}

fn load_all(descriptor: &QueryDescriptor, rows: &[Vec<Value>], page_size: usize) -> Step {
    let values = vec![ValueRef::Text("jhon"), ValueRef::Int(19)];
    let mut cursor = SelectMultiple::bind(descriptor, values).unwrap();
    let mut fetch = cursor.select_all_in_memory(page_size as i32).unwrap();
    for page in pages(rows, page_size) {
        assert_eq!(fetch.page_size, page_size as i32);
        match cursor.on_page(Ok(page)) {
            Step::More { next } => {
                fetch = cursor.request(Some(next.clone())).unwrap();
                assert_eq!(fetch.token, Some(next));
            }
            last => {
                assert_eq!(cursor.state(), CursorState::Exhausted);
                return last;
            }
        }
    }
    panic!("the last page did not finish the retrieval");
}

#[test]
fn binding_runs_nothing() {
    let descriptor = older_than();
    let cursor =
        SelectMultiple::bind(&descriptor, vec![ValueRef::Text("jhon"), ValueRef::Int(19)]).unwrap();
    assert_eq!(cursor.state(), CursorState::Unexecuted);
    assert!(cursor.request(None).is_none());
}

#[test]
fn values_must_fit_the_placeholders() {
    let descriptor = older_than();
    assert_eq!(
        SelectMultiple::bind(&descriptor, vec![ValueRef::Text("jhon")]).err(),
        Some(BindError::WrongCount { wanted: 2, supplied: 1 })
    );
    assert_eq!(
        SelectMultiple::bind(&descriptor, vec![ValueRef::Text("jhon"), ValueRef::BigInt(1)]).err(),
        Some(BindError::WrongType { position: 1, expected: ColumnType::Int })
    );
    assert_eq!(
        SelectMultiple::bind(&descriptor, vec![ValueRef::Null, ValueRef::Int(1)]).err(),
        Some(BindError::WrongType { position: 0, expected: ColumnType::Text })
    );
}

#[test]
fn the_first_request_asks_for_the_statement_as_written() {
    let descriptor = older_than();
    let mut cursor =
        SelectMultiple::bind(&descriptor, vec![ValueRef::Text("jhon"), ValueRef::Int(19)]).unwrap();
    assert!(cursor.start(Retrieval::Page, 10));
    assert_eq!(cursor.state(), CursorState::Executing);
    let fetch = cursor.request(None).unwrap();
    assert_eq!(fetch.text, "select * from person where name = ? and age > ?");
    assert_eq!(fetch.values, vec![ValueRef::Text("jhon"), ValueRef::Int(19)]);
    assert_eq!(fetch.page_size, 10);
    assert_eq!(fetch.token, None);
    let fetch = cursor.request(Some(vec![1, 2, 3])).unwrap();
    assert_eq!(fetch.token, Some(vec![1, 2, 3]));
}

#[test]
fn a_cursor_serves_one_retrieval() {
    let descriptor = older_than();
    let mut cursor =
        SelectMultiple::bind(&descriptor, vec![ValueRef::Text("jhon"), ValueRef::Int(19)]).unwrap();
    assert!(!cursor.start(Retrieval::Page, 0));
    assert!(!cursor.start(Retrieval::Page, -5));
    assert_eq!(cursor.state(), CursorState::Unexecuted);
    assert!(cursor.start(Retrieval::Stream, 1));
    assert!(!cursor.start(Retrieval::AllInMemory, 1));
    assert_eq!(cursor.state(), CursorState::Executing);
}

#[test]
fn every_page_size_loads_the_same_rows() {
    let descriptor = older_than();
    let n = 6;
    let rows: Vec<Vec<Value>> = (0..n).map(stored_row).collect();
    let expected: Vec<Entity> = rows.iter().map(|r| Entity { values: r.clone() }).collect();
    for page_size in [1, 3, 6, 7] {
        match load_all(&descriptor, &rows, page_size) {
            Step::Finished { entities, count } => {
                assert_eq!(count, 6);
                assert_eq!(entities, expected);
            }
            other => panic!("unexpected: {:?}", other),
        }
    }
}

#[test]
fn an_empty_answer_loads_no_rows() {
    let descriptor = older_than();
    match load_all(&descriptor, &[], 10) {
        Step::Finished { entities, count } => {
            assert_eq!(count, 0);
            assert!(entities.is_empty());
        }
        other => panic!("unexpected: {:?}", other),
    }
}

#[test]
fn one_inserted_person_is_the_one_loaded() {
    let descriptor = older_than();
    let person = Entity { values: vec![Value::Text("jhon".to_string()), Value::Int(20)] };
    match load_all(&descriptor, &[person.values.clone()], 10) {
        Step::Finished { entities, count } => {
            assert_eq!(1, count);
            assert_eq!(1, entities.len());
            assert_eq!(person, entities[0]);
        }
        other => panic!("unexpected: {:?}", other),
    }
}

#[test]
fn a_failing_page_drops_what_was_loaded() {
    let descriptor = older_than();
    let mut cursor =
        SelectMultiple::bind(&descriptor, vec![ValueRef::Text("jhon"), ValueRef::Int(19)]).unwrap();
    assert!(cursor.start(Retrieval::AllInMemory, 2));
    let first = Page { rows: vec![stored_row(1), stored_row(2)], next: Some(vec![2]) };
    assert!(matches!(cursor.on_page(Ok(first)), Step::More { .. }));
    assert!(matches!(
        cursor.on_page(Err(QueryError::TimeoutError)),
        Step::Failed(RunError::Execution(QueryError::TimeoutError))
    ));
    assert_eq!(cursor.state(), CursorState::Failed);
    assert!(cursor.request(None).is_none());
    let late = Page { rows: vec![stored_row(3)], next: None };
    assert!(matches!(cursor.on_page(Ok(late)), Step::Ignored));
    assert_eq!(cursor.state(), CursorState::Failed);
}

#[test]
fn a_row_that_cannot_be_read_fails_the_load() {
    let descriptor = older_than();
    let mut cursor =
        SelectMultiple::bind(&descriptor, vec![ValueRef::Text("jhon"), ValueRef::Int(19)]).unwrap();
    assert!(cursor.start(Retrieval::AllInMemory, 5));
    let bad = vec![Value::Text("jhon".to_string()), Value::Text("old".to_string())];
    let page = Page { rows: vec![stored_row(1), bad, vec![Value::Int(1)]], next: None };
    assert!(matches!(
        cursor.on_page(Ok(page)),
        Step::Failed(RunError::Deserialization { row: 1, column: 1 })
    ));
    assert_eq!(cursor.state(), CursorState::Failed);
}

#[test]
fn paged_rows_are_read_one_by_one() {
    let descriptor = older_than();
    let mut cursor =
        SelectMultiple::bind(&descriptor, vec![ValueRef::Text("jhon"), ValueRef::Int(19)]).unwrap();
    assert!(cursor.start(Retrieval::Page, 3));
    let bad = vec![Value::Int(5), Value::Int(5)];
    let page = Page { rows: vec![stored_row(1), bad, stored_row(3)], next: Some(vec![9]) };
    match cursor.on_page(Ok(page)) {
        Step::Rows { rows, next } => {
            assert_eq!(next, Some(vec![9]));
            assert_eq!(rows.len(), 3);
            assert_eq!(rows[0].as_ref().unwrap(), &Entity { values: stored_row(1) });
            assert!(matches!(rows[1], Err(RunError::Deserialization { row: 1, column: 0 })));
            assert_eq!(rows[2].as_ref().unwrap(), &Entity { values: stored_row(3) });
        }
        other => panic!("unexpected: {:?}", other),
    }
    assert_eq!(cursor.state(), CursorState::Executing);
    let last = Page { rows: vec![stored_row(4)], next: None };
    match cursor.on_page(Ok(last)) {
        Step::Rows { rows, next } => {
            assert_eq!(next, None);
            assert_eq!(rows.len(), 1);
        }
        other => panic!("unexpected: {:?}", other),
    }
    assert_eq!(cursor.state(), CursorState::Exhausted);
    assert!(matches!(cursor.on_page(Ok(Page { rows: Vec::new(), next: None })), Step::Ignored));
}

#[test]
fn a_stream_ends_with_the_last_page() {
    let descriptor = older_than();
    let mut cursor =
        SelectMultiple::bind(&descriptor, vec![ValueRef::Text("jhon"), ValueRef::Int(19)]).unwrap();
    assert!(cursor.start(Retrieval::Stream, 1));
    let mut seen = Vec::new();
    for page in pages(&[stored_row(1), stored_row(2), stored_row(3)], 1) {
        match cursor.on_page(Ok(page)) {
            Step::Rows { rows, .. } => {
                for row in rows {
                    seen.push(row.unwrap());
                }
            }
            other => panic!("unexpected: {:?}", other),
        }
    }
    assert_eq!(seen.len(), 3);
    assert_eq!(seen[2], Entity { values: stored_row(3) });
    assert_eq!(cursor.state(), CursorState::Exhausted);
}

#[test]
fn each_retrieval_begins_with_the_first_page() {
    let descriptor = older_than();
    let bind = || {
        SelectMultiple::bind(&descriptor, vec![ValueRef::Text("jhon"), ValueRef::Int(19)]).unwrap()
    };
    let mut cursor = bind();
    let fetch = cursor.select_page(5).unwrap();
    assert_eq!(fetch.page_size, 5);
    assert_eq!(fetch.token, None);
    assert_eq!(fetch.text, descriptor.statement());
    assert_eq!(cursor.state(), CursorState::Executing);
    assert!(cursor.select_page(5).is_none());
    assert!(cursor.select_stream(5).is_none());
    assert!(cursor.select_all_in_memory(5).is_none());

    let mut cursor = bind();
    assert!(cursor.select_stream(0).is_none());
    assert_eq!(cursor.state(), CursorState::Unexecuted);
    assert!(cursor.select_stream(2).is_some());
    let page = Page { rows: vec![stored_row(1), stored_row(2)], next: None };
    assert!(matches!(cursor.on_page(Ok(page)), Step::Rows { .. }));

    let mut cursor = bind();
    assert!(cursor.select_all_in_memory(-1).is_none());
    assert!(cursor.select_all_in_memory(1).is_some());
    let page = Page { rows: vec![stored_row(1)], next: None };
    assert!(matches!(cursor.on_page(Ok(page)), Step::Finished { count: 1, .. }));
}

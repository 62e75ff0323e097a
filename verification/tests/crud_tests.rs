use schema_mapper::binding::{check_values, Expectation};
use schema_mapper::crud::{
    decode, delete, expect_unique, insert, primary_key, select_unique, unique, update, written,
    BoundStatement, StatementKind,
};
use schema_mapper::entity::{Entity, EntityRef, PrimaryKey};
use schema_mapper::error::{BindError, RunError};
use schema_mapper::generator::{generate, EntityDefinitionSet};
use schema_mapper::schema::{introspect, CatalogRow, ColumnType, KeyRole};
use schema_mapper::values::{Value, ValueRef};
use scylla::transport::errors::QueryError;

fn catalog(name: &str, role: KeyRole, data_type: &str, nullable: bool) -> CatalogRow {
    CatalogRow { column_name: name.to_string(), role, data_type: data_type.to_string(), nullable }
}

fn person_definitions() -> EntityDefinitionSet {
    let rows = vec![
        catalog("name", KeyRole::PartitionKey, "text", false),
        catalog("age", KeyRole::Regular, "int", false),
        catalog("email", KeyRole::Regular, "text", false),
    ];
    generate(&introspect("person", &rows).unwrap()).unwrap()
}

fn person(name: &str, age: i32, email: &str) -> Entity {
    Entity {
        values: vec![
            Value::Text(name.to_string()),
            Value::Int(age),
            Value::Text(email.to_string()),
        ],
    }
}

/// A table held in memory, which answers bound statements as a store would.
struct MemoryTable {
    rows: Vec<(Vec<Value>, Vec<Value>)>,
}

fn owned(values: &[ValueRef<'_>]) -> Vec<Value> {
    values.iter().map(|v| v.to_owned()).collect()
}

fn run(
    definitions: &EntityDefinitionSet,
    table: &mut MemoryTable,
    statement: &BoundStatement<'_>,
) -> Result<Vec<Vec<Value>>, QueryError> {
    let values = owned(&statement.values);
    match statement.kind {
        StatementKind::Insert => {
            let key: Vec<Value> =
                definitions.key_fields().iter().map(|&i| values[i].clone()).collect();
            table.rows.retain(|(k, _)| k != &key);
            table.rows.push((key, values));
            Ok(Vec::new())
        }
        StatementKind::SelectUnique => {
            Ok(table.rows.iter().filter(|(k, _)| k == &values).map(|(_, r)| r.clone()).collect())
        }
        StatementKind::Update { field } => {
            let key = values[1..].to_vec();
            for (k, row) in table.rows.iter_mut() {
                if k == &key {
                    row[field] = values[0].clone();
                }
            }
            Ok(Vec::new())
        }
        StatementKind::Delete => {
            table.rows.retain(|(k, _)| k != &values);
            Ok(Vec::new())
        }
    }
}

fn select_expect(
    definitions: &EntityDefinitionSet,
    table: &mut MemoryTable,
    key: &PrimaryKey<'_>,
) -> Result<Entity, RunError> {
    let statement = select_unique(definitions, key).unwrap();
    let answer = run(definitions, table, &statement);
    expect_unique(definitions, answer)
}

#[test]
fn jeff_is_inserted_read_updated_and_deleted() {
    let definitions = person_definitions();
    let mut table = MemoryTable { rows: Vec::new() };
    let jeff = person("Jeff", 52, "hi@x.com");
    let jeff_ref = jeff.to_ref();

    let statement = insert(&definitions, &jeff_ref).unwrap();
    assert_eq!(statement.text, "insert into person(name, age, email) values (?, ?, ?)");
    assert_eq!(
        statement.values,
        vec![ValueRef::Text("Jeff"), ValueRef::Int(52), ValueRef::Text("hi@x.com")]
    );
    let answer = run(&definitions, &mut table, &statement);
    assert!(written(answer.map(|_| ())).is_ok());

    let key = primary_key(&definitions, &jeff_ref).unwrap();
    assert_eq!(key.values, vec![ValueRef::Text("Jeff")]);
    let found = select_expect(&definitions, &mut table, &key).unwrap();
    assert_eq!(found, jeff);
    assert!(found.same(&jeff));

    let statement =
        update(&definitions, &key, "email", ValueRef::Text("new@email.com")).unwrap();
    assert_eq!(statement.kind, StatementKind::Update { field: 2 });
    assert_eq!(statement.text, "update person set email = ? where name = ?");
    assert_eq!(
        statement.values,
        vec![ValueRef::Text("new@email.com"), ValueRef::Text("Jeff")]
    );
    let answer = run(&definitions, &mut table, &statement);
    assert!(written(answer.map(|_| ())).is_ok());
    let found = select_expect(&definitions, &mut table, &key).unwrap();
    assert_eq!(found, person("Jeff", 52, "new@email.com"));

    let statement = delete(&definitions, &key).unwrap();
    assert_eq!(statement.text, "delete from person where name = ?");
    let answer = run(&definitions, &mut table, &statement);
    assert!(written(answer.map(|_| ())).is_ok());
    assert!(matches!(
        select_expect(&definitions, &mut table, &key),
        Err(RunError::RowNotFound)
    ));
}

#[test]
fn every_row_comes_back_as_it_was_inserted() {
    let definitions = person_definitions();
    let mut table = MemoryTable { rows: Vec::new() };
    let people = vec![
        person("", 0, ""),
        person("Ann", -1, "ann@x.org"),
        person("Bob", i32::MAX, "b"),
        person("Zoë", i32::MIN, "z@é.fr"),
    ];
    for one in &people {
        let statement = insert(&definitions, &one.to_ref()).unwrap();
        run(&definitions, &mut table, &statement).unwrap();
    }
    for one in &people {
        let one_ref = one.to_ref();
        let key = primary_key(&definitions, &one_ref).unwrap();
        assert_eq!(&select_expect(&definitions, &mut table, &key).unwrap(), one);
    }
}

#[test]
fn deleting_what_is_not_there_is_no_error() {
    let definitions = person_definitions();
    let mut table = MemoryTable { rows: Vec::new() };
    let key = PrimaryKey { values: vec![ValueRef::Text("nobody")] };
    let statement = delete(&definitions, &key).unwrap();
    let answer = run(&definitions, &mut table, &statement);
    assert!(written(answer.map(|_| ())).is_ok());
    assert!(table.rows.is_empty());
    assert!(matches!(
        select_expect(&definitions, &mut table, &key),
        Err(RunError::RowNotFound)
    ));
}

#[test]
fn select_unique_tells_none_from_one_from_many() {
    let definitions = person_definitions();
    assert_eq!(unique(&definitions, Ok(Vec::new())).unwrap(), None);
    let one = unique(&definitions, Ok(vec![person("a", 1, "b").values])).unwrap();
    assert_eq!(one, Some(person("a", 1, "b")));
    let two = vec![person("a", 1, "b").values, person("a", 2, "c").values];
    assert!(matches!(
        unique(&definitions, Ok(two.clone())),
        Err(RunError::AmbiguousResult { rows: 2 })
    ));
    assert!(matches!(
        expect_unique(&definitions, Ok(two)),
        Err(RunError::AmbiguousResult { rows: 2 })
    ));
    assert!(matches!(expect_unique(&definitions, Ok(Vec::new())), Err(RunError::RowNotFound)));
}

#[test]
fn the_failure_of_the_session_is_handed_on() {
    let definitions = person_definitions();
    assert!(matches!(
        unique(&definitions, Err(QueryError::TimeoutError)),
        Err(RunError::Execution(QueryError::TimeoutError))
    ));
    assert!(matches!(
        expect_unique(&definitions, Err(QueryError::UnableToAllocStreamId)),
        Err(RunError::Execution(QueryError::UnableToAllocStreamId))
    ));
    assert!(matches!(
        written(Err(QueryError::TimeoutError)),
        Err(RunError::Execution(QueryError::TimeoutError))
    ));
    assert!(written(Ok(())).is_ok());
}

#[test]
fn rows_of_another_shape_are_not_decoded() {
    let definitions = person_definitions();
    assert_eq!(decode(&definitions, vec![Value::Text("a".to_string())]), Err(3));
    assert_eq!(
        decode(
            &definitions,
            vec![Value::Text("a".to_string()), Value::BigInt(1), Value::Text("b".to_string())]
        ),
        Err(1)
    );
    assert_eq!(
        decode(&definitions, vec![Value::Null, Value::Int(1), Value::Text("b".to_string())]),
        Err(0)
    );
    assert!(matches!(
        unique(&definitions, Ok(vec![vec![Value::Int(1), Value::Int(1), Value::Int(1)]])),
        Err(RunError::Deserialization { row: 0, column: 0 })
    ));
    assert_eq!(decode(&definitions, person("a", 1, "b").values), Ok(person("a", 1, "b")));
}

#[test]
fn nullable_fields_take_no_value() {
    let rows = vec![
        catalog("id", KeyRole::PartitionKey, "bigint", false),
        catalog("note", KeyRole::Regular, "varchar", true),
    ];
    let definitions = generate(&introspect("memo", &rows).unwrap()).unwrap();
    let memo = Entity { values: vec![Value::BigInt(7), Value::Null] };
    let memo_ref = memo.to_ref();
    assert!(insert(&definitions, &memo_ref).is_ok());
    assert_eq!(decode(&definitions, memo.values.clone()), Ok(memo.clone()));
    let key = primary_key(&definitions, &memo_ref).unwrap();
    assert!(update(&definitions, &key, "note", ValueRef::Null).is_ok());
    let no_key = PrimaryKey { values: vec![ValueRef::Null] };
    assert_eq!(
        select_unique(&definitions, &no_key).err(),
        Some(BindError::WrongType { position: 0, expected: ColumnType::BigInt })
    );
}

#[test]
fn values_that_do_not_fit_are_not_bound() {
    let definitions = person_definitions();
    let short = EntityRef { values: vec![ValueRef::Text("a")] };
    assert_eq!(
        insert(&definitions, &short).err(),
        Some(BindError::WrongCount { wanted: 3, supplied: 1 })
    );
    assert_eq!(
        primary_key(&definitions, &short).err(),
        Some(BindError::WrongCount { wanted: 3, supplied: 1 })
    );
    let wrong =
        EntityRef { values: vec![ValueRef::Text("a"), ValueRef::Text("b"), ValueRef::Int(1)] };
    assert_eq!(
        insert(&definitions, &wrong).err(),
        Some(BindError::WrongType { position: 1, expected: ColumnType::Int })
    );
    let key = PrimaryKey { values: vec![ValueRef::Int(1)] };
    assert_eq!(
        select_unique(&definitions, &key).err(),
        Some(BindError::WrongType { position: 0, expected: ColumnType::Text })
    );
    assert_eq!(
        delete(&definitions, &PrimaryKey { values: Vec::new() }).err(),
        Some(BindError::WrongCount { wanted: 1, supplied: 0 })
    );
}

#[test]
fn only_columns_outside_the_key_are_updated() {
    let definitions = person_definitions();
    let key = PrimaryKey { values: vec![ValueRef::Text("a")] };
    assert_eq!(
        update(&definitions, &key, "name", ValueRef::Text("b")).err(),
        Some(BindError::NotUpdatable)
    );
    assert_eq!(
        update(&definitions, &key, "nickname", ValueRef::Text("b")).err(),
        Some(BindError::NotUpdatable)
    );
    assert_eq!(
        update(&definitions, &key, "age", ValueRef::Text("b")).err(),
        Some(BindError::WrongType { position: 0, expected: ColumnType::Int })
    );
    let statement = update(&definitions, &key, "age", ValueRef::Int(3)).unwrap();
    assert_eq!(statement.kind, StatementKind::Update { field: 1 });
    assert_eq!(statement.text, "update person set age = ? where name = ?");
    assert_eq!(statement.values, vec![ValueRef::Int(3), ValueRef::Text("a")]);
}

#[test]
fn owned_and_borrowed_rows_hold_the_same_values() {
    let jeff = person("Jeff", 52, "hi@x.com");
    let jeff_ref = jeff.to_ref();
    assert_eq!(
        jeff_ref.values,
        vec![ValueRef::Text("Jeff"), ValueRef::Int(52), ValueRef::Text("hi@x.com")]
    );
    assert_eq!(jeff_ref.to_owned(), jeff);
    assert!(jeff.same(&jeff_ref.to_owned()));
    assert!(!jeff.same(&person("Jeff", 53, "hi@x.com")));
    assert!(!jeff.same(&Entity { values: Vec::new() }));
}

#[test]
fn values_fit_the_column_type_of_their_kind() {
    let uuid = ValueRef::Uuid(0x3866a82f_f37c_446c_8838_fb6686c3acf2);
    assert!(uuid.fits(ColumnType::Uuid, false));
    assert!(!uuid.fits(ColumnType::Text, false));
    assert!(ValueRef::Text("x").fits(ColumnType::Ascii, false));
    assert!(ValueRef::Float(0x3f80_0000).fits(ColumnType::Float, false));
    assert!(!ValueRef::Float(0x3f80_0000).fits(ColumnType::Double, false));
    assert!(ValueRef::Counter(1).fits(ColumnType::Counter, false));
    assert!(!ValueRef::Counter(1).fits(ColumnType::BigInt, false));
    assert!(ValueRef::Null.fits(ColumnType::Int, true));
    assert!(!ValueRef::Null.fits(ColumnType::Int, false));
    assert!(ValueRef::Time(5).same(&ValueRef::Time(5)));
    assert!(!ValueRef::Time(5).same(&ValueRef::Timestamp(5)));
    assert!(ValueRef::Text("a").same(&Value::Text("a".to_string()).to_ref()));
}

#[test]
fn the_first_misfit_is_the_one_reported() {
    let expected = vec![
        Expectation { column_type: ColumnType::Int, nullable: false },
        Expectation { column_type: ColumnType::Text, nullable: false },
        Expectation { column_type: ColumnType::Boolean, nullable: false },
    ];
    let values = vec![ValueRef::Int(1), ValueRef::Int(2), ValueRef::Int(3)];
    assert_eq!(
        check_values(&expected, &values),
        Err(BindError::WrongType { position: 1, expected: ColumnType::Text })
    );
    let values = vec![ValueRef::Int(1), ValueRef::Text("x"), ValueRef::Boolean(true)];
    assert_eq!(check_values(&expected, &values), Ok(()));
}

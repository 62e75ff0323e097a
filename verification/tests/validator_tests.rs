use schema_mapper::error::{BuildError, OperandType};
use schema_mapper::parser::{parse, Comparison, OperandKind, Operation};
use schema_mapper::schema::{introspect, CatalogRow, ColumnType, KeyRole, TableSchema};
use schema_mapper::validator::{validate, ParamExpr};

fn person() -> TableSchema {
    let rows = vec![
        CatalogRow {
            column_name: "name".to_string(),
            role: KeyRole::PartitionKey,
            data_type: "text".to_string(),
            nullable: false,
        },
        CatalogRow {
            column_name: "age".to_string(),
            role: KeyRole::ClusteringKey,
            data_type: "int".to_string(),
            nullable: false,
        },
        CatalogRow {
            column_name: "email".to_string(),
            role: KeyRole::Regular,
            data_type: "text".to_string(),
            nullable: false,
        },
        CatalogRow {
            column_name: "json_example".to_string(),
            role: KeyRole::Regular,
            data_type: "text".to_string(),
            nullable: false,
        },
    ];
    introspect("person", &rows).unwrap()
}

fn param(text: &str, value_type: ColumnType) -> ParamExpr {
    ParamExpr { text: text.to_string(), value_type }
}

#[test]
fn persons_older_than_validates() {
    let template = "select * from person where name = ? and age > ?";
    let params = vec![param("name", ColumnType::Text), param("age", ColumnType::Int)];
    let descriptor = validate(&person(), template, &params).unwrap();
    assert_eq!(descriptor.statement(), template);
    assert_eq!(descriptor.operation(), Operation::Select);
    assert_eq!(descriptor.parameter_types(), &vec![ColumnType::Text, ColumnType::Int]);
    let shape: Vec<&str> = descriptor.row_shape().iter().map(|c| c.name.as_str()).collect();
    assert_eq!(shape, vec!["name", "age", "email", "json_example"]);
}

#[test]
fn parse_reads_conditions_in_order() {
    let query = parse("select email, age from person where name = 'Jeff' and age >= 18 limit 5")
        .unwrap();
    assert_eq!(query.operation, Operation::Select);
    assert!(!query.wildcard);
    assert_eq!(query.table.name, "person");
    assert_eq!(query.table.position, 23);
    assert_eq!(query.selected.len(), 2);
    assert_eq!(query.selected[0].name, "email");
    assert_eq!(query.selected[0].position, 7);
    assert_eq!(query.selected[1].name, "age");
    assert_eq!(query.conditions.len(), 2);
    assert_eq!(query.conditions[0].column.name, "name");
    assert_eq!(query.conditions[0].comparison, Comparison::Equal);
    assert_eq!(query.conditions[0].operand.kind, OperandKind::Text);
    assert_eq!(query.conditions[1].comparison, Comparison::GreaterEqual);
    assert_eq!(query.conditions[1].operand.kind, OperandKind::Integer);
    assert_eq!(query.limit.unwrap().kind, OperandKind::Integer);
}

#[test]
fn unknown_column_is_reported_with_its_position() {
    let template = "select * from person where nickname = ?";
    let params = vec![param("n", ColumnType::Text)];
    match validate(&person(), template, &params) {
        Err(BuildError::UnknownColumn { column, position }) => {
            assert_eq!(column, "nickname");
            assert_eq!(position, 27);
        }
        other => panic!("unexpected: {:?}", other),
    }
}

#[test]
fn unknown_column_wins_over_wrong_arity() {
    let template = "select * from person where nickname = ? and age > ?";
    match validate(&person(), template, &Vec::new()) {
        Err(BuildError::UnknownColumn { column, .. }) => assert_eq!(column, "nickname"),
        other => panic!("unexpected: {:?}", other),
    }
}

#[test]
fn wrong_arity_is_reported_with_both_counts() {
    let template = "select * from person where name = ? and age > ?";
    let params = vec![param("name", ColumnType::Text)];
    match validate(&person(), template, &params) {
        Err(BuildError::ArityMismatch { placeholders, supplied, token, position }) => {
            assert_eq!(placeholders, 2);
            assert_eq!(supplied, 1);
            assert_eq!(token, "?");
            assert_eq!(position, 46);
        }
        other => panic!("unexpected: {:?}", other),
    }
    let params = vec![
        param("a", ColumnType::Text),
        param("b", ColumnType::Int),
        param("c", ColumnType::Int),
    ];
    match validate(&person(), template, &params) {
        Err(BuildError::ArityMismatch { placeholders, supplied, token, position }) => {
            assert_eq!(placeholders, 2);
            assert_eq!(supplied, 3);
            assert_eq!(token, "c");
            assert_eq!(position, 2);
        }
        other => panic!("unexpected: {:?}", other),
    }
}

#[test]
fn a_question_mark_inside_a_text_is_no_placeholder() {
    let template = "select * from person where name = 'who?' and age > ?";
    let params = vec![param("age", ColumnType::Int)];
    let descriptor = validate(&person(), template, &params).unwrap();
    assert_eq!(descriptor.parameter_types(), &vec![ColumnType::Int]);
}

#[test]
fn parameter_of_the_wrong_type_is_a_type_mismatch() {
    let template = "select * from person where name = ? and age > ?";
    let params = vec![param("name", ColumnType::Text), param("age", ColumnType::Text)];
    match validate(&person(), template, &params) {
        Err(BuildError::TypeMismatch { column, position, expected, found }) => {
            assert_eq!(column, "age");
            assert_eq!(position, 46);
            assert_eq!(expected, ColumnType::Int);
            assert_eq!(found, OperandType::Column(ColumnType::Text));
        }
        other => panic!("unexpected: {:?}", other),
    }
}

#[test]
fn literal_of_the_wrong_type_is_a_type_mismatch() {
    let template = "select * from person where name = 5";
    match validate(&person(), template, &Vec::new()) {
        Err(BuildError::TypeMismatch { column, expected, found, .. }) => {
            assert_eq!(column, "name");
            assert_eq!(expected, ColumnType::Text);
            assert_eq!(found, OperandType::IntegerLiteral);
        }
        other => panic!("unexpected: {:?}", other),
    }
}

#[test]
fn text_types_accept_each_other() {
    let template = "select * from person where name = ?";
    let params = vec![param("name", ColumnType::Varchar)];
    assert!(validate(&person(), template, &params).is_ok());
}

#[test]
fn malformed_templates_report_where_reading_stopped() {
    match validate(&person(), "select * person", &Vec::new()) {
        Err(BuildError::Malformed { position }) => assert_eq!(position, 9),
        other => panic!("unexpected: {:?}", other),
    }
    match validate(&person(), "select * from person where", &Vec::new()) {
        Err(BuildError::Malformed { position }) => assert_eq!(position, 26),
        other => panic!("unexpected: {:?}", other),
    }
    match validate(&person(), "select * from person where name = #", &Vec::new()) {
        Err(BuildError::Malformed { position }) => assert_eq!(position, 34),
        other => panic!("unexpected: {:?}", other),
    }
    match validate(&person(), "", &Vec::new()) {
        Err(BuildError::Malformed { position }) => assert_eq!(position, 0),
        other => panic!("unexpected: {:?}", other),
    }
}

#[test]
fn another_table_is_not_found() {
    match validate(&person(), "select * from animal", &Vec::new()) {
        Err(BuildError::SchemaNotFound { table }) => assert_eq!(table, "animal"),
        other => panic!("unexpected: {:?}", other),
    }
}

#[test]
fn insert_update_and_delete_validate() {
    let schema = person();
    let insert = "insert into person(name, age, email, json_example) values (?, ?, ?, 'x')";
    let params = vec![
        param("n", ColumnType::Text),
        param("a", ColumnType::Int),
        param("e", ColumnType::Text),
    ];
    let descriptor = validate(&schema, insert, &params).unwrap();
    assert_eq!(descriptor.operation(), Operation::Insert);
    assert_eq!(
        descriptor.parameter_types(),
        &vec![ColumnType::Text, ColumnType::Int, ColumnType::Text]
    );
    assert!(descriptor.row_shape().is_empty());

    let update = "update person set email = ? where name = ? and age = ?";
    let params = vec![
        param("e", ColumnType::Text),
        param("n", ColumnType::Text),
        param("a", ColumnType::Int),
    ];
    let descriptor = validate(&schema, update, &params).unwrap();
    assert_eq!(descriptor.operation(), Operation::Update);

    let delete = "delete from person where name = ? and age = ?";
    let params = vec![param("n", ColumnType::Text), param("a", ColumnType::Int)];
    let descriptor = validate(&schema, delete, &params).unwrap();
    assert_eq!(descriptor.operation(), Operation::Delete);
}

#[test]
fn limit_placeholder_expects_a_whole_number() {
    let template = "select name from person where age < ? limit ?";
    let params = vec![param("age", ColumnType::Int), param("n", ColumnType::Int)];
    let descriptor = validate(&person(), template, &params).unwrap();
    assert_eq!(descriptor.parameter_types(), &vec![ColumnType::Int, ColumnType::Int]);
    assert_eq!(descriptor.row_shape().len(), 1);
    assert_eq!(descriptor.row_shape()[0].name, "name");
    let params = vec![param("age", ColumnType::Int), param("n", ColumnType::Text)];
    match validate(&person(), template, &params) {
        Err(BuildError::TypeMismatch { column, expected, .. }) => {
            assert_eq!(column, "limit");
            assert_eq!(expected, ColumnType::Int);
        }
        other => panic!("unexpected: {:?}", other),
    }
}

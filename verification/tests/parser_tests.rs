use schema_mapper::parser::{parse, Comparison, OperandKind, Operation};

#[test]
fn select_with_a_wildcard() {
    let query = parse("select * from person").unwrap();
    assert_eq!(query.operation, Operation::Select);
    assert!(query.wildcard);
    assert!(query.selected.is_empty());
    assert!(query.conditions.is_empty());
    assert!(query.assignments.is_empty());
    assert!(query.limit.is_none());
    assert_eq!(query.table.name, "person");
    assert_eq!(query.table.position, 14);
}

#[test]
fn select_with_every_comparison() {
    let query =
        parse("select a from t where a = 1 and b < 2 and c <= 3 and d > 4 and e >= ?").unwrap();
    let found: Vec<Comparison> = query.conditions.iter().map(|c| c.comparison).collect();
    assert_eq!(
        found,
        vec![
            Comparison::Equal,
            Comparison::Less,
            Comparison::LessEqual,
            Comparison::Greater,
            Comparison::GreaterEqual,
        ]
    );
    assert_eq!(query.conditions[4].operand.kind, OperandKind::Placeholder);
    assert_eq!(query.conditions[4].operand.position, 68);
}

#[test]
fn operands_of_every_kind() {
    let query = parse("select * from t where a = ? and b = -3 and c = 'x' and d = true and e = false")
        .unwrap();
    let kinds: Vec<OperandKind> = query.conditions.iter().map(|c| c.operand.kind).collect();
    assert_eq!(
        kinds,
        vec![
            OperandKind::Placeholder,
            OperandKind::Integer,
            OperandKind::Text,
            OperandKind::Boolean,
            OperandKind::Boolean,
        ]
    );
}

#[test]
fn insert_pairs_columns_with_values() {
    let query = parse("insert into t (a, b, c) values (?, 2, 'three')").unwrap();
    assert_eq!(query.operation, Operation::Insert);
    assert_eq!(query.table.name, "t");
    assert_eq!(query.assignments.len(), 3);
    assert_eq!(query.assignments[0].column.name, "a");
    assert_eq!(query.assignments[0].operand.kind, OperandKind::Placeholder);
    assert_eq!(query.assignments[1].column.name, "b");
    assert_eq!(query.assignments[1].operand.kind, OperandKind::Integer);
    assert_eq!(query.assignments[2].column.name, "c");
    assert_eq!(query.assignments[2].operand.kind, OperandKind::Text);
    assert_eq!(query.assignments[2].comparison, Comparison::Equal);
}

#[test]
fn insert_needs_as_many_values_as_columns() {
    assert_eq!(parse("insert into t (a, b) values (?)").err(), Some(30));
    assert_eq!(parse("insert into t (a) values (?, ?)").err(), Some(30));
}

#[test]
fn update_reads_assignments_and_conditions() {
    let query = parse("update t set a = ?, b = 5 where k = ? and l = 'x'").unwrap();
    assert_eq!(query.operation, Operation::Update);
    assert_eq!(query.table.name, "t");
    assert_eq!(query.assignments.len(), 2);
    assert_eq!(query.assignments[1].column.name, "b");
    assert_eq!(query.conditions.len(), 2);
    assert_eq!(query.conditions[1].column.name, "l");
}

#[test]
fn update_needs_a_where_clause_and_plain_assignments() {
    assert_eq!(parse("update t set a = ?").err(), Some(18));
    assert_eq!(parse("update t set a > ? where k = 1").err(), Some(15));
}

#[test]
fn delete_with_and_without_conditions() {
    let query = parse("delete from t where k = ?").unwrap();
    assert_eq!(query.operation, Operation::Delete);
    assert_eq!(query.conditions.len(), 1);
    let query = parse("delete from t").unwrap();
    assert!(query.conditions.is_empty());
}

#[test]
fn limit_takes_a_number_or_a_placeholder() {
    assert_eq!(parse("select * from t limit 10").unwrap().limit.unwrap().kind, OperandKind::Integer);
    assert_eq!(
        parse("select * from t limit ?").unwrap().limit.unwrap().kind,
        OperandKind::Placeholder
    );
    assert_eq!(parse("select * from t limit 'x'").err(), Some(22));
    assert_eq!(parse("select * from t limit").err(), Some(21));
}

#[test]
fn what_leaves_the_grammar_is_reported_where_it_does() {
    assert_eq!(parse("").err(), Some(0));
    assert_eq!(parse("truncate t").err(), Some(0));
    assert_eq!(parse("select").err(), Some(6));
    assert_eq!(parse("select a, from t").err(), Some(10));
    assert_eq!(parse("select * from where").err(), Some(14));
    assert_eq!(parse("select * from t where and = 1").err(), Some(22));
    assert_eq!(parse("update set set a = 1 where k = 1").err(), Some(7));
    assert_eq!(parse("select * from t where a").err(), Some(23));
    assert_eq!(parse("select * from t where a = ").err(), Some(26));
    assert_eq!(parse("select * from t where a = 1 and").err(), Some(31));
    assert_eq!(parse("select * from t extra").err(), Some(16));
    assert_eq!(parse("SELECT * from t").err(), Some(0));
}

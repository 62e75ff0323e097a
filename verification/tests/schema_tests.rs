use schema_mapper::error::BuildError;
use schema_mapper::schema::{introspect, CatalogRow, ColumnType, KeyRole};

fn row(name: &str, role: KeyRole, data_type: &str) -> CatalogRow {
    CatalogRow {
        column_name: name.to_string(),
        role,
        data_type: data_type.to_string(),
        nullable: false,
    }
}

#[test]
fn native_type_names_are_read() {
    assert_eq!(ColumnType::parse("tinyint"), Some(ColumnType::TinyInt));
    assert_eq!(ColumnType::parse("smallint"), Some(ColumnType::SmallInt));
    assert_eq!(ColumnType::parse("int"), Some(ColumnType::Int));
    assert_eq!(ColumnType::parse("bigint"), Some(ColumnType::BigInt));
    assert_eq!(ColumnType::parse("text"), Some(ColumnType::Text));
    assert_eq!(ColumnType::parse("ascii"), Some(ColumnType::Ascii));
    assert_eq!(ColumnType::parse("varchar"), Some(ColumnType::Varchar));
    assert_eq!(ColumnType::parse("boolean"), Some(ColumnType::Boolean));
    assert_eq!(ColumnType::parse("time"), Some(ColumnType::Time));
    assert_eq!(ColumnType::parse("timestamp"), Some(ColumnType::Timestamp));
    assert_eq!(ColumnType::parse("float"), Some(ColumnType::Float));
    assert_eq!(ColumnType::parse("double"), Some(ColumnType::Double));
    assert_eq!(ColumnType::parse("uuid"), Some(ColumnType::Uuid));
    assert_eq!(ColumnType::parse("counter"), Some(ColumnType::Counter));
    assert_eq!(ColumnType::parse("frozen<list<int>>"), None);
    assert_eq!(ColumnType::parse("INT"), None);
    assert_eq!(ColumnType::parse(""), None);
}

#[test]
fn native_names_are_read_back() {
    let all = [
        ColumnType::TinyInt,
        ColumnType::SmallInt,
        ColumnType::Int,
        ColumnType::BigInt,
        ColumnType::Text,
        ColumnType::Ascii,
        ColumnType::Varchar,
        ColumnType::Boolean,
        ColumnType::Time,
        ColumnType::Timestamp,
        ColumnType::Float,
        ColumnType::Double,
        ColumnType::Uuid,
        ColumnType::Counter,
    ];
    for column_type in all {
        assert_eq!(ColumnType::parse(column_type.native_name()), Some(column_type));
    }
}

#[test]
fn key_roles_are_read() {
    assert_eq!(KeyRole::parse("partition_key"), Some(KeyRole::PartitionKey));
    assert_eq!(KeyRole::parse("clustering"), Some(KeyRole::ClusteringKey));
    assert_eq!(KeyRole::parse("regular"), Some(KeyRole::Regular));
    assert_eq!(KeyRole::parse("static"), None);
    assert!(KeyRole::PartitionKey.part_of_key());
    assert!(KeyRole::ClusteringKey.part_of_key());
    assert!(!KeyRole::Regular.part_of_key());
}

#[test]
fn text_types_accept_one_another_and_nothing_else() {
    assert!(ColumnType::Text.accepts(ColumnType::Varchar));
    assert!(ColumnType::Ascii.accepts(ColumnType::Text));
    assert!(ColumnType::Int.accepts(ColumnType::Int));
    assert!(!ColumnType::Int.accepts(ColumnType::BigInt));
    assert!(!ColumnType::Text.accepts(ColumnType::Int));
    assert!(ColumnType::Counter.integral());
    assert!(!ColumnType::Uuid.integral());
    assert!(!ColumnType::Boolean.textual());
}

#[test]
fn introspect_keeps_the_reported_order() {
    let rows = vec![
        row("name", KeyRole::PartitionKey, "text"),
        row("age", KeyRole::Regular, "int"),
        row("email", KeyRole::Regular, "text"),
    ];
    let schema = introspect("person", &rows).unwrap();
    assert_eq!(schema.table(), "person");
    assert_eq!(schema.column_count(), 3);
    assert_eq!(schema.column(0).unwrap().name, "name");
    assert_eq!(schema.column(0).unwrap().role, KeyRole::PartitionKey);
    assert_eq!(schema.column(0).unwrap().column_type, ColumnType::Text);
    assert_eq!(schema.column(1).unwrap().name, "age");
    assert_eq!(schema.column(1).unwrap().column_type, ColumnType::Int);
    assert_eq!(schema.column(2).unwrap().name, "email");
    assert!(schema.column(3).is_none());
    assert_eq!(schema.find("email"), Some(2));
    assert_eq!(schema.find("missing"), None);
    assert!(schema.has_primary_key());
    let copies = schema.columns();
    assert_eq!(copies.len(), 3);
    assert_eq!(copies[2].name, "email");
}

#[test]
fn introspect_rejects_an_empty_catalog_answer() {
    match introspect("ghost", &Vec::new()) {
        Err(BuildError::SchemaNotFound { table }) => assert_eq!(table, "ghost"),
        other => panic!("unexpected: {:?}", other),
    }
}

#[test]
fn introspect_reports_the_first_unsupported_type() {
    let rows = vec![
        row("id", KeyRole::PartitionKey, "uuid"),
        row("tags", KeyRole::Regular, "set<text>"),
        row("more", KeyRole::Regular, "map<text, int>"),
    ];
    match introspect("item", &rows) {
        Err(BuildError::UnsupportedType { column, native_type }) => {
            assert_eq!(column, "tags");
            assert_eq!(native_type, "set<text>");
        }
        other => panic!("unexpected: {:?}", other),
    }
}

#[test]
fn key_columns_are_never_nullable() {
    let rows = vec![
        CatalogRow {
            column_name: "id".to_string(),
            role: KeyRole::PartitionKey,
            data_type: "int".to_string(),
            nullable: true,
        },
        CatalogRow {
            column_name: "note".to_string(),
            role: KeyRole::Regular,
            data_type: "text".to_string(),
            nullable: true,
        },
    ];
    let schema = introspect("memo", &rows).unwrap();
    assert!(!schema.column(0).unwrap().nullable);
    assert!(schema.column(1).unwrap().nullable);
}

#[test]
fn a_table_of_regular_columns_has_no_primary_key() {
    let rows = vec![row("a", KeyRole::Regular, "int"), row("b", KeyRole::ClusteringKey, "int")];
    let schema = introspect("loose", &rows).unwrap();
    assert!(!schema.has_primary_key());
}

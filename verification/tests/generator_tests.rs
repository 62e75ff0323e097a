use schema_mapper::error::BuildError;
use schema_mapper::generator::{generate, generate_named, join_texts};
use schema_mapper::render::{borrowed_type_name, owned_type_name, render_struct, render_types};
use schema_mapper::schema::{introspect, CatalogRow, ColumnType, KeyRole, TableSchema};
use schema_mapper::validator::{validate, ParamExpr};

fn catalog_row(name: &str, role: KeyRole, data_type: &str) -> CatalogRow {
    CatalogRow {
        column_name: name.to_string(),
        role,
        data_type: data_type.to_string(),
        nullable: false,
    }
}

fn person_schema() -> TableSchema {
    let rows = vec![
        catalog_row("name", KeyRole::PartitionKey, "text"),
        catalog_row("age", KeyRole::ClusteringKey, "int"),
        catalog_row("email", KeyRole::Regular, "text"),
        catalog_row("json_example", KeyRole::Regular, "text"),
    ];
    introspect("person", &rows).unwrap()
}

fn definitions_of_table(table: &str) -> schema_mapper::generator::EntityDefinitionSet {
    let rows = vec![catalog_row("id", KeyRole::PartitionKey, "int")];
    generate(&introspect(table, &rows).unwrap()).unwrap()
}

#[test]
fn entity_names_are_upper_camel_case() {
    assert_eq!(definitions_of_table("person").entity_name(), "Person");
    assert_eq!(definitions_of_table("test_table").entity_name(), "TestTable");
    let definitions = definitions_of_table("another_test_table");
    assert_eq!(definitions.entity_name(), "AnotherTestTable");
    assert_eq!(definitions.entity_ref_name(), "AnotherTestTableRef");
    assert_eq!(definitions.primary_key_name(), "AnotherTestTablePrimaryKey");
    assert_eq!(definitions.table(), "another_test_table");
}

#[test]
fn join_puts_the_separator_between_the_parts() {
    let parts = vec!["a".to_string(), "b".to_string(), "c".to_string()];
    assert_eq!(join_texts(&parts, ", "), "a, b, c");
    assert_eq!(join_texts(&vec!["only".to_string()], ", "), "only");
    assert_eq!(join_texts(&Vec::new(), ", "), "");
}

#[test]
fn person_definitions_are_generated() {
    let definitions = generate(&person_schema()).unwrap();
    assert_eq!(definitions.table(), "person");
    assert_eq!(definitions.entity_name(), "Person");
    assert_eq!(definitions.entity_ref_name(), "PersonRef");
    assert_eq!(definitions.primary_key_name(), "PersonPrimaryKey");
    let fields: Vec<&str> = definitions.fields().iter().map(|f| f.name.as_str()).collect();
    assert_eq!(fields, vec!["name", "age", "email", "json_example"]);
    assert_eq!(definitions.fields()[1].column_type, ColumnType::Int);
    assert_eq!(definitions.key_fields(), &vec![0, 1]);
    assert_eq!(
        definitions.insert_statement(),
        "insert into person(name, age, email, json_example) values (?, ?, ?, ?)"
    );
    assert_eq!(
        definitions.select_unique_statement(),
        "select name, age, email, json_example from person where name = ? and age = ?"
    );
    assert_eq!(definitions.delete_statement(), "delete from person where name = ? and age = ?");
    let updates = definitions.updates();
    assert_eq!(updates.len(), 2);
    assert_eq!(updates[0].field, 2);
    assert_eq!(updates[0].name, "update_email");
    assert_eq!(
        updates[0].statement,
        "update person set email = ? where name = ? and age = ?"
    );
    assert_eq!(updates[1].field, 3);
    assert_eq!(updates[1].name, "update_json_example");
    assert_eq!(
        updates[1].statement,
        "update person set json_example = ? where name = ? and age = ?"
    );
}

#[test]
fn key_fields_keep_schema_order_wherever_they_stand() {
    let rows = vec![
        catalog_row("a", KeyRole::Regular, "int"),
        catalog_row("b", KeyRole::ClusteringKey, "int"),
        catalog_row("c", KeyRole::Regular, "int"),
        catalog_row("d", KeyRole::PartitionKey, "int"),
    ];
    let schema = introspect("mixed", &rows).unwrap();
    let definitions = generate_named(&schema, "Mixed").unwrap();
    assert_eq!(definitions.key_fields(), &vec![1, 3]);
    assert_eq!(
        definitions.select_unique_statement(),
        "select a, b, c, d from mixed where b = ? and d = ?"
    );
    let updated: Vec<usize> = definitions.updates().iter().map(|u| u.field).collect();
    assert_eq!(updated, vec![0, 2]);
}

#[test]
fn a_table_of_key_columns_alone_has_no_update_method() {
    let rows = vec![catalog_row("id", KeyRole::PartitionKey, "uuid")];
    let schema = introspect("ids", &rows).unwrap();
    let definitions = generate_named(&schema, "Ids").unwrap();
    assert!(definitions.updates().is_empty());
    assert_eq!(definitions.insert_statement(), "insert into ids(id) values (?)");
    assert_eq!(definitions.delete_statement(), "delete from ids where id = ?");
}

#[test]
fn a_table_without_partition_key_is_rejected() {
    let rows = vec![
        catalog_row("a", KeyRole::Regular, "int"),
        catalog_row("b", KeyRole::ClusteringKey, "int"),
    ];
    let schema = introspect("loose", &rows).unwrap();
    match generate(&schema) {
        Err(BuildError::NoPrimaryKey { table }) => assert_eq!(table, "loose"),
        other => panic!("unexpected: {:?}", other),
    }
    match generate_named(&schema, "Loose") {
        Err(BuildError::NoPrimaryKey { table }) => assert_eq!(table, "loose"),
        other => panic!("unexpected: {:?}", other),
    }
}

#[test]
fn generating_twice_gives_the_same_definitions() {
    let first = generate(&person_schema()).unwrap();
    let second = generate(&person_schema()).unwrap();
    assert_eq!(format!("{:?}", first), format!("{:?}", second));
}

#[test]
fn generated_statements_pass_validation() {
    let schema = person_schema();
    let definitions = generate(&schema).unwrap();
    let text = |name: &str| ParamExpr { text: name.to_string(), value_type: ColumnType::Text };
    let int = |name: &str| ParamExpr { text: name.to_string(), value_type: ColumnType::Int };

    let all = vec![text("name"), int("age"), text("email"), text("json_example")];
    let insert = validate(&schema, definitions.insert_statement(), &all).unwrap();
    assert_eq!(
        insert.parameter_types(),
        &vec![ColumnType::Text, ColumnType::Int, ColumnType::Text, ColumnType::Text]
    );

    let key = vec![text("name"), int("age")];
    let select = validate(&schema, definitions.select_unique_statement(), &key).unwrap();
    assert_eq!(select.row_shape().len(), 4);
    assert!(validate(&schema, definitions.delete_statement(), &key).is_ok());

    let update = vec![text("email"), text("name"), int("age")];
    for method in definitions.updates() {
        assert!(validate(&schema, &method.statement, &update).is_ok());
    }
}

#[test]
fn column_types_have_their_type_names() {
    assert_eq!(owned_type_name(ColumnType::TinyInt), "i8");
    assert_eq!(owned_type_name(ColumnType::SmallInt), "i16");
    assert_eq!(owned_type_name(ColumnType::Int), "i32");
    assert_eq!(owned_type_name(ColumnType::BigInt), "i64");
    assert_eq!(owned_type_name(ColumnType::Text), "String");
    assert_eq!(owned_type_name(ColumnType::Ascii), "String");
    assert_eq!(owned_type_name(ColumnType::Varchar), "String");
    assert_eq!(owned_type_name(ColumnType::Boolean), "bool");
    assert_eq!(owned_type_name(ColumnType::Uuid), "uuid::Uuid");
    assert_eq!(owned_type_name(ColumnType::Counter), "scylla::frame::value::Counter");
    assert_eq!(borrowed_type_name(ColumnType::Text), "str");
    assert_eq!(borrowed_type_name(ColumnType::Varchar), "str");
    assert_eq!(borrowed_type_name(ColumnType::Int), "i32");
}

#[test]
fn the_types_of_person_are_rendered() {
    let definitions = generate(&person_schema()).unwrap();
    let expected = "pub struct Person {
    pub name: String,
    pub age: i32,
    pub email: String,
    pub json_example: String,
}

pub struct PersonRef<'a> {
    pub name: &'a str,
    pub age: &'a i32,
    pub email: &'a str,
    pub json_example: &'a str,
}

pub struct PersonPrimaryKey<'a> {
    pub name: &'a str,
    pub age: &'a i32,
}
";
    assert_eq!(render_types(&definitions), expected);
    assert_eq!(render_types(&generate(&person_schema()).unwrap()), expected);
}

#[test]
fn nullable_fields_are_rendered_as_options() {
    let rows = vec![
        catalog_row("id", KeyRole::PartitionKey, "uuid"),
        CatalogRow {
            column_name: "note".to_string(),
            role: KeyRole::Regular,
            data_type: "text".to_string(),
            nullable: true,
        },
        CatalogRow {
            column_name: "score".to_string(),
            role: KeyRole::Regular,
            data_type: "double".to_string(),
            nullable: true,
        },
    ];
    let schema = introspect("memo", &rows).unwrap();
    let fields = schema.columns();
    assert_eq!(
        render_struct("Memo", false, &fields),
        "pub struct Memo {\n    pub id: uuid::Uuid,\n    pub note: Option<String>,\n    pub score: Option<f64>,\n}\n"
    );
    assert_eq!(
        render_struct("MemoRef", true, &fields),
        "pub struct MemoRef<'a> {\n    pub id: &'a uuid::Uuid,\n    pub note: Option<&'a str>,\n    pub score: Option<&'a f64>,\n}\n"
    );
    assert_eq!(render_struct("Empty", false, &Vec::new()), "pub struct Empty {\n}\n");
}

#[test]
fn statements_of_reserved_names_do_not_validate() {
    let rows = vec![
        catalog_row("id", KeyRole::PartitionKey, "int"),
        catalog_row("from", KeyRole::Regular, "int"),
    ];
    let schema = introspect("odd", &rows).unwrap();
    let definitions = generate(&schema).unwrap();
    assert_eq!(definitions.insert_statement(), "insert into odd(id, from) values (?, ?)");
    let int = |name: &str| ParamExpr { text: name.to_string(), value_type: ColumnType::Int };
    let params = vec![int("id"), int("from")];
    assert!(matches!(
        validate(&schema, definitions.insert_statement(), &params),
        Err(BuildError::Malformed { position: 20 })
    ));
}

//! The source text of the generated types.
use crate::generator::{
    join, join_texts, positions_view, EntityDefinitionSet, EntityDefinitionSetView,
};
use crate::text::texts_view;
use crate::schema::{columns_view, lemma_positions_of, positions_of, Column, ColumnType, ColumnView};
use vstd::prelude::*;
use vstd::string::*;

verus! {

/// The name of the type that holds an owned value of a column type.
pub open spec fn owned_type(column_type: ColumnType) -> Seq<char> {
    match column_type {
        ColumnType::TinyInt => "i8"@,
        ColumnType::SmallInt => "i16"@,
        ColumnType::Int => "i32"@,
        ColumnType::BigInt => "i64"@,
        ColumnType::Text | ColumnType::Ascii | ColumnType::Varchar => "String"@,
        ColumnType::Boolean => "bool"@,
        ColumnType::Time => "scylla::frame::value::CqlTime"@,
        ColumnType::Timestamp => "scylla::frame::value::CqlTimestamp"@,
        ColumnType::Float => "f32"@,
        ColumnType::Double => "f64"@,
        ColumnType::Uuid => "uuid::Uuid"@,
        ColumnType::Counter => "scylla::frame::value::Counter"@,
    }
}

/// The name of the type that a borrowed value of a column type refers to: `str` for
/// texts, and else the owned type.
pub open spec fn borrowed_type(column_type: ColumnType) -> Seq<char> {
    if column_type.is_textual() {
        "str"@
    } else {
        owned_type(column_type)
    }
}

/// The type of a field: the owned type or a reference to the borrowed type, inside
/// `Option` where the column is nullable.
pub open spec fn field_type(column: ColumnView, borrowed: bool) -> Seq<char> {
    if borrowed {
        if column.nullable {
            "Option<&'a "@ + borrowed_type(column.column_type) + ">"@
        } else {
            "&'a "@ + borrowed_type(column.column_type)
        }
    } else {
        if column.nullable {
            "Option<"@ + owned_type(column.column_type) + ">"@
        } else {
            owned_type(column.column_type)
        }
    }
}

/// The line that declares a field.
pub open spec fn field_line(column: ColumnView, borrowed: bool) -> Seq<char> {
    "    pub "@ + column.name + ": "@ + field_type(column, borrowed) + ",\n"@
}

/// The lines that declare the fields, in order.
pub open spec fn field_lines(fields: Seq<ColumnView>, borrowed: bool) -> Seq<Seq<char>> {
    fields.map_values(|field: ColumnView| field_line(field, borrowed))
}

/// The declaration of a struct with the given fields.
pub open spec fn struct_text(name: Seq<char>, borrowed: bool, fields: Seq<ColumnView>) -> Seq<char> {
    "pub struct "@ + name + if borrowed {
        "<'a> {\n"@
    } else {
        " {\n"@
    } + join(field_lines(fields, borrowed), ""@) + "}\n"@
}

/// The key fields of the definitions, in order.
pub open spec fn key_columns(definitions: EntityDefinitionSetView) -> Seq<ColumnView> {
    definitions.key_fields.map_values(|position: int| definitions.fields[position])
}

/// The source text of the three types of a table: the owned entity, the borrowed entity
/// and the primary key, with an empty line between each two.
pub open spec fn types_text(definitions: EntityDefinitionSetView) -> Seq<char> {
    struct_text(definitions.entity_name, false, definitions.fields) + "\n"@ + struct_text(
        definitions.entity_ref_name,
        true,
        definitions.fields,
    ) + "\n"@ + struct_text(definitions.primary_key_name, true, key_columns(definitions))
}

/// The name of the type that holds an owned value of a column type.
pub fn owned_type_name(column_type: ColumnType) -> (name: &'static str)
    ensures
        name@ == owned_type(column_type),
{
    match column_type {
        ColumnType::TinyInt => "i8",
        ColumnType::SmallInt => "i16",
        ColumnType::Int => "i32",
        ColumnType::BigInt => "i64",
        ColumnType::Text | ColumnType::Ascii | ColumnType::Varchar => "String",
        ColumnType::Boolean => "bool",
        ColumnType::Time => "scylla::frame::value::CqlTime",
        ColumnType::Timestamp => "scylla::frame::value::CqlTimestamp",
        ColumnType::Float => "f32",
        ColumnType::Double => "f64",
        ColumnType::Uuid => "uuid::Uuid",
        ColumnType::Counter => "scylla::frame::value::Counter",
    }
}

/// The name of the type that a borrowed value of a column type refers to.
pub fn borrowed_type_name(column_type: ColumnType) -> (name: &'static str)
    ensures
        name@ == borrowed_type(column_type),
{
    if column_type.textual() {
        "str"
    } else {
        owned_type_name(column_type)
    }
}

fn render_field(column: &Column, borrowed: bool) -> (line: String)
    ensures
        line@ == field_line(column@, borrowed),
{
    let mut kind = if borrowed {
        if column.nullable {
            let mut kind = "Option<&'a ".to_owned();
            kind.append(borrowed_type_name(column.column_type));
            kind.append(">");
            kind
        } else {
            let mut kind = "&'a ".to_owned();
            kind.append(borrowed_type_name(column.column_type));
            kind
        }
    } else {
        if column.nullable {
            let mut kind = "Option<".to_owned();
            kind.append(owned_type_name(column.column_type));
            kind.append(">");
            kind
        } else {
            owned_type_name(column.column_type).to_owned()
        }
    };
    let mut line = "    pub ".to_owned();
    line.append(column.name.as_str());
    line.append(": ");
    line.append(kind.as_str());
    line.append(",\n");
    line
}

/// The declaration of a struct with the given fields.
pub fn render_struct(name: &str, borrowed: bool, fields: &Vec<Column>) -> (text: String)
    ensures
        text@ == struct_text(name@, borrowed, columns_view(fields@)),
{
    let ghost expected = field_lines(columns_view(fields@), borrowed);
    let mut lines: Vec<String> = Vec::new();
    let mut i: usize = 0;
    while i < fields.len()
        invariant
            i <= fields.len(),
            expected == field_lines(columns_view(fields@), borrowed),
            lines.len() == i,
            forall|j: int| 0 <= j < i ==> (#[trigger] lines[j])@ == expected[j],
        decreases fields.len() - i,
    {
        lines.push(render_field(&fields[i], borrowed));
        i += 1;
    }
    assert(texts_view(lines@) =~= expected);
    let body = join_texts(&lines, "");
    let mut text = "pub struct ".to_owned();
    text.append(name);
    if borrowed {
        text.append("<'a> {\n");
    } else {
        text.append(" {\n");
    }
    text.append(body.as_str());
    text.append("}\n");
    text
}

/// The source text of the three types of a table. It is a function of the definitions
/// alone: rendering unchanged definitions again gives the same text, letter for letter.
pub fn render_types(definitions: &EntityDefinitionSet) -> (text: String)
    ensures
        text@ == types_text(definitions@),
{
    let fields = definitions.fields();
    let keys = definitions.key_fields();
    let ghost views = columns_view(fields@);
    let ghost expected = key_columns(definitions@);
    proof {
        lemma_positions_of(views, true);
    }
    let mut key_fields: Vec<Column> = Vec::new();
    let mut i: usize = 0;
    while i < keys.len()
        invariant
            i <= keys.len(),
            views == columns_view(fields@),
            definitions@.fields == views,
            positions_view(keys@) == definitions@.key_fields,
            definitions@.key_fields == positions_of(views, true),
            expected == key_columns(definitions@),
            forall|k: int|
                0 <= k < positions_of(views, true).len() ==> 0 <= (#[trigger] positions_of(
                    views,
                    true,
                )[k]) < views.len(),
            key_fields.len() == i,
            forall|j: int| 0 <= j < i ==> (#[trigger] key_fields[j])@ == expected[j],
        decreases keys.len() - i,
    {
        assert(positions_view(keys@)[i as int] == keys[i as int] as int);
        assert(0 <= positions_of(views, true)[i as int] < views.len());
        key_fields.push(fields[keys[i]].duplicate());
        i += 1;
    }
    assert(columns_view(key_fields@) =~= expected);
    let owned = render_struct(definitions.entity_name(), false, fields);
    let borrowed = render_struct(definitions.entity_ref_name(), true, fields);
    let key = render_struct(definitions.primary_key_name(), true, &key_fields);
    let mut text = owned;
    text.append("\n");
    text.append(borrowed.as_str());
    text.append("\n");
    text.append(key.as_str());
    text
}

} // verus!

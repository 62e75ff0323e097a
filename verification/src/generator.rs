//! Generating the entity definitions of a table: the types that stand for its rows and
//! the statements of their methods.
use crate::error::{BuildError, BuildErrorView};
use crate::naming::{struct_name_of, table_struct_name};
use crate::schema::{
    columns_view, lemma_positions_of, positions_of, Column, ColumnView, KeyRole,
    TableSchema, TableSchemaView,
};
use crate::text::texts_view;
use vstd::prelude::*;
use vstd::string::*;

verus! {

/// The parts, with the separator between each two.
pub open spec fn join(parts: Seq<Seq<char>>, separator: Seq<char>) -> Seq<char>
    decreases parts.len(),
{
    if parts.len() == 0 {
        Seq::empty()
    } else if parts.len() == 1 {
        parts[0]
    } else {
        join(parts.drop_last(), separator) + separator + parts.last()
    }
}

/// The names of the columns, in order.
pub open spec fn column_names(columns: Seq<ColumnView>) -> Seq<Seq<char>> {
    columns.map_values(|column: ColumnView| column.name)
}

/// As many placeholders as asked for.
pub open spec fn marks(count: nat) -> Seq<Seq<char>> {
    Seq::new(count, |i: int| "?"@)
}

/// For each key column, in schema order, the comparison of the column with a placeholder.
pub open spec fn key_tests(columns: Seq<ColumnView>) -> Seq<Seq<char>> {
    positions_of(columns, true).map_values(|position: int| columns[position].name + " = ?"@)
}

/// The clause that picks the one row of a primary key.
pub open spec fn where_clause(columns: Seq<ColumnView>) -> Seq<char> {
    "where "@ + join(key_tests(columns), " and "@)
}

/// The statement that inserts a row: every column in schema order, a placeholder for each.
pub open spec fn insert_text(schema: TableSchemaView) -> Seq<char> {
    "insert into "@ + schema.table + "("@ + join(column_names(schema.columns), ", "@)
        + ") values ("@ + join(marks(schema.columns.len()), ", "@) + ")"@
}

/// The statement that selects the row of a primary key, every column in schema order.
pub open spec fn select_unique_text(schema: TableSchemaView) -> Seq<char> {
    "select "@ + join(column_names(schema.columns), ", "@) + " from "@ + schema.table + " "@
        + where_clause(schema.columns)
}

/// The statement that sets one column in the row of a primary key.
pub open spec fn update_text(schema: TableSchemaView, column: Seq<char>) -> Seq<char> {
    "update "@ + schema.table + " set "@ + column + " = ? "@ + where_clause(schema.columns)
}

/// The statement that deletes the row of a primary key.
pub open spec fn delete_text(schema: TableSchemaView) -> Seq<char> {
    "delete from "@ + schema.table + " "@ + where_clause(schema.columns)
}

/// The method that updates one column outside the primary key.
#[derive(Debug)]
pub struct UpdateMethod {
    /// The position of the column among the fields.
    pub field: usize,
    /// The method's name: `update_` and the column's name.
    pub name: String,
    /// The statement that the method runs.
    pub statement: String,
}

/// The mathematical value of an [`UpdateMethod`].
pub struct UpdateMethodView {
    pub field: int,
    pub name: Seq<char>,
    pub statement: Seq<char>,
}

impl View for UpdateMethod {
    type V = UpdateMethodView;

    open spec fn view(&self) -> UpdateMethodView {
        UpdateMethodView { field: self.field as int, name: self.name@, statement: self.statement@ }
    }
}

/// The views of a list of update methods, in order.
pub open spec fn updates_view(updates: Seq<UpdateMethod>) -> Seq<UpdateMethodView> {
    updates.map_values(|update: UpdateMethod| update@)
}

/// The positions that a list of indices names.
pub open spec fn positions_view(positions: Seq<usize>) -> Seq<int> {
    positions.map_values(|position: usize| position as int)
}

/// The update method of the column at `field`.
pub open spec fn update_method_of(schema: TableSchemaView, field: int) -> UpdateMethodView {
    UpdateMethodView {
        field,
        name: "update_"@ + schema.columns[field].name,
        statement: update_text(schema, schema.columns[field].name),
    }
}

/// The mathematical value of an [`EntityDefinitionSet`].
pub struct EntityDefinitionSetView {
    /// The table that the definitions belong to.
    pub table: Seq<char>,
    /// The name of the owned entity type.
    pub entity_name: Seq<char>,
    /// The name of the borrowed entity type.
    pub entity_ref_name: Seq<char>,
    /// The name of the primary-key type.
    pub primary_key_name: Seq<char>,
    /// The fields of the entity types: one for each column, in schema order.
    pub fields: Seq<ColumnView>,
    /// The positions, among the fields, of the fields of the primary-key type.
    pub key_fields: Seq<int>,
    pub insert: Seq<char>,
    pub select_unique: Seq<char>,
    pub delete: Seq<char>,
    /// One update method for each column outside the primary key, in schema order.
    pub updates: Seq<UpdateMethodView>,
}

/// The definitions that belong to a schema, the entity type being given its name.
pub open spec fn definitions_of(schema: TableSchemaView, name: Seq<char>) -> EntityDefinitionSetView {
    EntityDefinitionSetView {
        table: schema.table,
        entity_name: name,
        entity_ref_name: name + "Ref"@,
        primary_key_name: name + "PrimaryKey"@,
        fields: schema.columns,
        key_fields: schema.key_positions(),
        insert: insert_text(schema),
        select_unique: select_unique_text(schema),
        delete: delete_text(schema),
        updates: schema.regular_positions().map_values(
            |field: int| update_method_of(schema, field),
        ),
    }
}

impl EntityDefinitionSetView {
    /// The schema that the definitions were generated from.
    pub open spec fn schema(self) -> TableSchemaView {
        TableSchemaView { table: self.table, columns: self.fields }
    }

    /// What holds of every set of definitions: it is what generation makes of a schema
    /// that has a primary key, and the number of its fields is one that a machine can
    /// count.
    pub open spec fn wf(self) -> bool {
        &&& self.fields.len() <= usize::MAX
        &&& self.schema().wf()
        &&& self.schema().has_primary_key()
        &&& self == definitions_of(self.schema(), self.entity_name)
    }
}

/// The primary-key type is a part of the entity types: it has a field, each of its
/// fields is a key field of the entity types, and its fields stand in schema order.
pub proof fn lemma_key_is_part_of_entity(definitions: EntityDefinitionSetView)
    requires
        definitions.wf(),
    ensures
        definitions.key_fields.len() > 0,
        forall|k: int|
            0 <= k < definitions.key_fields.len() ==> {
                let position = #[trigger] definitions.key_fields[k];
                0 <= position < definitions.fields.len()
                    && definitions.fields[position].role.is_key()
            },
        forall|k: int, l: int|
            0 <= k < l < definitions.key_fields.len() ==> definitions.key_fields[k]
                < definitions.key_fields[l],
{
    lemma_positions_of(definitions.fields, true);
    let schema = definitions.schema();
    let i = choose|i: int|
        0 <= i < schema.columns.len() && (#[trigger] schema.columns[i]).role
            == KeyRole::PartitionKey;
    assert(positions_of(definitions.fields, true).contains(i));
}

/// The types and methods generated for one table.
#[derive(Debug)]
pub struct EntityDefinitionSet {
    table: String,
    entity_name: String,
    entity_ref_name: String,
    primary_key_name: String,
    fields: Vec<Column>,
    key_fields: Vec<usize>,
    insert: String,
    select_unique: String,
    delete: String,
    updates: Vec<UpdateMethod>,
}

impl View for EntityDefinitionSet {
    type V = EntityDefinitionSetView;

    closed spec fn view(&self) -> EntityDefinitionSetView {
        EntityDefinitionSetView {
            table: self.table@,
            entity_name: self.entity_name@,
            entity_ref_name: self.entity_ref_name@,
            primary_key_name: self.primary_key_name@,
            fields: columns_view(self.fields@),
            key_fields: positions_view(self.key_fields@),
            insert: self.insert@,
            select_unique: self.select_unique@,
            delete: self.delete@,
            updates: updates_view(self.updates@),
        }
    }
}

impl EntityDefinitionSet {
    #[verifier::type_invariant]
    spec fn well_formed(&self) -> bool {
        self@.wf()
    }

    /// The table that the definitions belong to.
    pub fn table(&self) -> (table: &str)
        ensures
            table@ == self@.table,
            self@.wf(),
    {
        proof {
            use_type_invariant(self);
        }
        self.table.as_str()
    }

    /// The name of the owned entity type.
    pub fn entity_name(&self) -> (name: &str)
        ensures
            name@ == self@.entity_name,
    {
        self.entity_name.as_str()
    }

    /// The name of the borrowed entity type.
    pub fn entity_ref_name(&self) -> (name: &str)
        ensures
            name@ == self@.entity_ref_name,
    {
        self.entity_ref_name.as_str()
    }

    /// The name of the primary-key type.
    pub fn primary_key_name(&self) -> (name: &str)
        ensures
            name@ == self@.primary_key_name,
    {
        self.primary_key_name.as_str()
    }

    /// The fields of the entity types: one for each column, in schema order.
    pub fn fields(&self) -> (fields: &Vec<Column>)
        ensures
            columns_view(fields@) == self@.fields,
            self@.wf(),
    {
        proof {
            use_type_invariant(self);
        }
        &self.fields
    }

    /// The positions, among the fields, of the fields of the primary-key type.
    pub fn key_fields(&self) -> (positions: &Vec<usize>)
        ensures
            positions_view(positions@) == self@.key_fields,
            self@.wf(),
    {
        proof {
            use_type_invariant(self);
        }
        &self.key_fields
    }

    /// The statement of `insert`.
    pub fn insert_statement(&self) -> (text: &str)
        ensures
            text@ == self@.insert,
            self@.wf(),
    {
        proof {
            use_type_invariant(self);
        }
        self.insert.as_str()
    }

    /// The statement of `select_unique`.
    pub fn select_unique_statement(&self) -> (text: &str)
        ensures
            text@ == self@.select_unique,
            self@.wf(),
    {
        proof {
            use_type_invariant(self);
        }
        self.select_unique.as_str()
    }

    /// The statement of `delete`.
    pub fn delete_statement(&self) -> (text: &str)
        ensures
            text@ == self@.delete,
            self@.wf(),
    {
        proof {
            use_type_invariant(self);
        }
        self.delete.as_str()
    }

    /// The update methods: one for each column outside the primary key, in schema order.
    pub fn updates(&self) -> (updates: &Vec<UpdateMethod>)
        ensures
            updates_view(updates@) == self@.updates,
            self@.wf(),
    {
        proof {
            use_type_invariant(self);
        }
        &self.updates
    }
}

/// Joins texts with a separator.
pub fn join_texts(parts: &Vec<String>, separator: &str) -> (joined: String)
    ensures
        joined@ == join(texts_view(parts@), separator@),
{
    let ghost views = texts_view(parts@);
    let mut joined = String::new();
    let mut i: usize = 0;
    while i < parts.len()
        invariant
            i <= parts.len(),
            views == texts_view(parts@),
            joined@ == join(views.take(i as int), separator@),
        decreases parts.len() - i,
    {
        proof {
            let upto = views.take(i as int + 1);
            assert(upto.drop_last() =~= views.take(i as int));
            assert(upto.last() == parts[i as int]@);
            if i == 0 {
                assert(Seq::<char>::empty() + parts[0]@ =~= parts[0]@);
            }
        }
        if i > 0 {
            joined.append(separator);
        }
        joined.append(parts[i].as_str());
        i += 1;
    }
    assert(views.take(parts.len() as int) =~= views);
    joined
}

/// The positions of the columns that belong to the primary key (`key` true) or do not.
fn find_positions(columns: &Vec<Column>, key: bool) -> (positions: Vec<usize>)
    ensures
        positions_view(positions@) == positions_of(columns_view(columns@), key),
{
    let ghost views = columns_view(columns@);
    let mut positions: Vec<usize> = Vec::new();
    let mut i: usize = 0;
    while i < columns.len()
        invariant
            i <= columns.len(),
            views == columns_view(columns@),
            positions_view(positions@) == positions_of(views.take(i as int), key),
        decreases columns.len() - i,
    {
        proof {
            let upto = views.take(i as int + 1);
            assert(upto.drop_last() =~= views.take(i as int));
            assert(upto.last() == columns[i as int]@);
            assert(positions_view(positions@.push(i)) =~= positions_view(positions@).push(i as int));
        }
        if columns[i].role.part_of_key() == key {
            positions.push(i);
        }
        i += 1;
    }
    assert(views.take(columns.len() as int) =~= views);
    positions
}

fn names_of(columns: &Vec<Column>) -> (names: Vec<String>)
    ensures
        texts_view(names@) == column_names(columns_view(columns@)),
{
    let mut names: Vec<String> = Vec::new();
    let mut i: usize = 0;
    while i < columns.len()
        invariant
            i <= columns.len(),
            names.len() == i,
            forall|j: int| 0 <= j < i ==> (#[trigger] names[j])@ == columns[j].name@,
        decreases columns.len() - i,
    {
        names.push(columns[i].name.clone());
        i += 1;
    }
    assert(texts_view(names@) =~= column_names(columns_view(columns@)));
    names
}

fn marks_for(count: usize) -> (texts: Vec<String>)
    ensures
        texts_view(texts@) == marks(count as nat),
{
    let mut texts: Vec<String> = Vec::new();
    let mut i: usize = 0;
    while i < count
        invariant
            i <= count,
            texts.len() == i,
            forall|j: int| 0 <= j < i ==> (#[trigger] texts[j])@ == "?"@,
        decreases count - i,
    {
        texts.push("?".to_owned());
        i += 1;
    }
    assert(texts_view(texts@) =~= marks(count as nat));
    texts
}

fn where_for(columns: &Vec<Column>, keys: &Vec<usize>) -> (clause: String)
    requires
        positions_view(keys@) == positions_of(columns_view(columns@), true),
    ensures
        clause@ == where_clause(columns_view(columns@)),
{
    let ghost views = columns_view(columns@);
    let ghost expected = key_tests(views);
    proof {
        lemma_positions_of(views, true);
    }
    let mut tests: Vec<String> = Vec::new();
    let mut i: usize = 0;
    while i < keys.len()
        invariant
            i <= keys.len(),
            views == columns_view(columns@),
            expected == key_tests(views),
            positions_view(keys@) == positions_of(views, true),
            forall|k: int|
                0 <= k < positions_of(views, true).len() ==> 0 <= (#[trigger] positions_of(
                    views,
                    true,
                )[k]) < views.len(),
            tests.len() == i,
            forall|j: int| 0 <= j < i ==> (#[trigger] tests[j])@ == expected[j],
        decreases keys.len() - i,
    {
        assert(positions_view(keys@)[i as int] == keys[i as int] as int);
        let position = keys[i];
        assert(0 <= positions_of(views, true)[i as int] < views.len());
        let mut test = columns[position].name.clone();
        test.append(" = ?");
        tests.push(test);
        i += 1;
    }
    assert(texts_view(tests@) =~= expected);
    let mut clause = "where ".to_owned();
    let joined = join_texts(&tests, " and ");
    clause.append(joined.as_str());
    clause
}

fn update_for(schema: &TableSchema, field: usize, clause: &str) -> (method: UpdateMethod)
    requires
        field < schema@.columns.len(),
        clause@ == where_clause(schema@.columns),
    ensures
        method@ == update_method_of(schema@, field as int),
{
    let column = schema.column_at(field);
    let mut name = "update_".to_owned();
    name.append(column.name.as_str());
    let mut statement = "update ".to_owned();
    statement.append(schema.table());
    statement.append(" set ");
    statement.append(column.name.as_str());
    statement.append(" = ? ");
    statement.append(clause);
    UpdateMethod { field, name, statement }
}

fn updates_for(schema: &TableSchema, regulars: &Vec<usize>, clause: &str) -> (updates: Vec<
    UpdateMethod,
>)
    requires
        positions_view(regulars@) == schema@.regular_positions(),
        clause@ == where_clause(schema@.columns),
    ensures
        updates_view(updates@) == schema@.regular_positions().map_values(
            |field: int| update_method_of(schema@, field),
        ),
{
    let ghost expected = schema@.regular_positions().map_values(
        |field: int| update_method_of(schema@, field),
    );
    proof {
        lemma_positions_of(schema@.columns, false);
    }
    let mut updates: Vec<UpdateMethod> = Vec::new();
    let mut i: usize = 0;
    while i < regulars.len()
        invariant
            i <= regulars.len(),
            positions_view(regulars@) == schema@.regular_positions(),
            clause@ == where_clause(schema@.columns),
            expected == schema@.regular_positions().map_values(
                |field: int| update_method_of(schema@, field),
            ),
            forall|k: int|
                0 <= k < positions_of(schema@.columns, false).len() ==> 0 <= (
                #[trigger] positions_of(schema@.columns, false)[k]) < schema@.columns.len(),
            updates.len() == i,
            forall|j: int| 0 <= j < i ==> (#[trigger] updates[j])@ == expected[j],
        decreases regulars.len() - i,
    {
        assert(positions_view(regulars@)[i as int] == regulars[i as int] as int);
        assert(0 <= positions_of(schema@.columns, false)[i as int] < schema@.columns.len());
        updates.push(update_for(schema, regulars[i], clause));
        i += 1;
    }
    assert(updates_view(updates@) =~= expected);
    updates
}

/// Generates the definitions of a table whose entity type is to have the given name.
///
/// A table without a partition key is rejected with `NoPrimaryKey`. For every other
/// table the result is a function of the schema and the name alone, so generating twice
/// from an unchanged schema gives the same definitions.
pub fn generate_named(schema: &TableSchema, name: &str) -> (generated: Result<
    EntityDefinitionSet,
    BuildError,
>)
    ensures
        match generated {
            Ok(definitions) => schema@.has_primary_key() && definitions@ == definitions_of(
                schema@,
                name@,
            ) && definitions@.wf(),
            Err(error) => !schema@.has_primary_key() && error@ == BuildErrorView::NoPrimaryKey {
                table: schema@.table,
            },
        },
{
    if !schema.has_primary_key() {
        return Err(BuildError::NoPrimaryKey { table: schema.table().to_owned() });
    }
    let count = schema.column_count();
    let fields = schema.columns();
    let key_fields = find_positions(&fields, true);
    let regular_fields = find_positions(&fields, false);
    let names = join_texts(&names_of(&fields), ", ");
    let placeholders = join_texts(&marks_for(count), ", ");
    let clause = where_for(&fields, &key_fields);

    let mut entity_ref_name = name.to_owned();
    entity_ref_name.append("Ref");
    let mut primary_key_name = name.to_owned();
    primary_key_name.append("PrimaryKey");

    let mut insert = "insert into ".to_owned();
    insert.append(schema.table());
    insert.append("(");
    insert.append(names.as_str());
    insert.append(") values (");
    insert.append(placeholders.as_str());
    insert.append(")");

    let mut select_unique = "select ".to_owned();
    select_unique.append(names.as_str());
    select_unique.append(" from ");
    select_unique.append(schema.table());
    select_unique.append(" ");
    select_unique.append(clause.as_str());

    let mut delete = "delete from ".to_owned();
    delete.append(schema.table());
    delete.append(" ");
    delete.append(clause.as_str());

    let updates = updates_for(schema, &regular_fields, clause.as_str());
    Ok(
        EntityDefinitionSet {
            table: schema.table().to_owned(),
            entity_name: name.to_owned(),
            entity_ref_name,
            primary_key_name,
            fields,
            key_fields,
            insert,
            select_unique,
            delete,
            updates,
        },
    )
}

/// Generates the definitions of a table. The entity type is named after the table, in
/// upper camel case.
pub fn generate(schema: &TableSchema) -> (generated: Result<EntityDefinitionSet, BuildError>)
    ensures
        match generated {
            Ok(definitions) => schema@.has_primary_key() && definitions@ == definitions_of(
                schema@,
                struct_name_of(schema@.table),
            ) && definitions@.wf(),
            Err(error) => !schema@.has_primary_key() && error@ == BuildErrorView::NoPrimaryKey {
                table: schema@.table,
            },
        },
{
    let name = table_struct_name(schema.table());
    generate_named(schema, name.as_str())
}

} // verus!

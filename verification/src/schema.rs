//! The schema model: the columns of a table, their types and their key roles.
use crate::error::{BuildError, BuildErrorView};
use crate::text::same_text;
use vstd::prelude::*;

verus! {

/// The column types that have a generatable counterpart.
#[derive(Clone, Copy, Debug, PartialEq, Eq, Structural)]
pub enum ColumnType {
    TinyInt,
    SmallInt,
    Int,
    BigInt,
    Text,
    Ascii,
    Varchar,
    Boolean,
    Time,
    Timestamp,
    Float,
    Double,
    Uuid,
    Counter,
}

impl ColumnType {
    /// The column type that a native type name of the catalog stands for, if any.
    pub open spec fn parse_spec(native: Seq<char>) -> Option<ColumnType> {
        if native == "tinyint"@ {
            Some(ColumnType::TinyInt)
        } else if native == "smallint"@ {
            Some(ColumnType::SmallInt)
        } else if native == "int"@ {
            Some(ColumnType::Int)
        } else if native == "bigint"@ {
            Some(ColumnType::BigInt)
        } else if native == "text"@ {
            Some(ColumnType::Text)
        } else if native == "ascii"@ {
            Some(ColumnType::Ascii)
        } else if native == "varchar"@ {
            Some(ColumnType::Varchar)
        } else if native == "boolean"@ {
            Some(ColumnType::Boolean)
        } else if native == "time"@ {
            Some(ColumnType::Time)
        } else if native == "timestamp"@ {
            Some(ColumnType::Timestamp)
        } else if native == "float"@ {
            Some(ColumnType::Float)
        } else if native == "double"@ {
            Some(ColumnType::Double)
        } else if native == "uuid"@ {
            Some(ColumnType::Uuid)
        } else if native == "counter"@ {
            Some(ColumnType::Counter)
        } else {
            None
        }
    }

    /// Reads a native type name of the catalog.
    pub fn parse(native: &str) -> (parsed: Option<ColumnType>)
        ensures
            parsed == Self::parse_spec(native@),
    {
        if same_text(native, "tinyint") {
            Some(ColumnType::TinyInt)
        } else if same_text(native, "smallint") {
            Some(ColumnType::SmallInt)
        } else if same_text(native, "int") {
            Some(ColumnType::Int)
        } else if same_text(native, "bigint") {
            Some(ColumnType::BigInt)
        } else if same_text(native, "text") {
            Some(ColumnType::Text)
        } else if same_text(native, "ascii") {
            Some(ColumnType::Ascii)
        } else if same_text(native, "varchar") {
            Some(ColumnType::Varchar)
        } else if same_text(native, "boolean") {
            Some(ColumnType::Boolean)
        } else if same_text(native, "time") {
            Some(ColumnType::Time)
        } else if same_text(native, "timestamp") {
            Some(ColumnType::Timestamp)
        } else if same_text(native, "float") {
            Some(ColumnType::Float)
        } else if same_text(native, "double") {
            Some(ColumnType::Double)
        } else if same_text(native, "uuid") {
            Some(ColumnType::Uuid)
        } else if same_text(native, "counter") {
            Some(ColumnType::Counter)
        } else {
            None
        }
    }

    /// The native name of a column type.
    pub open spec fn native_name_spec(self) -> Seq<char> {
        match self {
            ColumnType::TinyInt => "tinyint"@,
            ColumnType::SmallInt => "smallint"@,
            ColumnType::Int => "int"@,
            ColumnType::BigInt => "bigint"@,
            ColumnType::Text => "text"@,
            ColumnType::Ascii => "ascii"@,
            ColumnType::Varchar => "varchar"@,
            ColumnType::Boolean => "boolean"@,
            ColumnType::Time => "time"@,
            ColumnType::Timestamp => "timestamp"@,
            ColumnType::Float => "float"@,
            ColumnType::Double => "double"@,
            ColumnType::Uuid => "uuid"@,
            ColumnType::Counter => "counter"@,
        }
    }

    /// The native name of a column type, as the catalog writes it.
    pub fn native_name(self) -> (name: &'static str)
        ensures
            name@ == self.native_name_spec(),
    {
        match self {
            ColumnType::TinyInt => "tinyint",
            ColumnType::SmallInt => "smallint",
            ColumnType::Int => "int",
            ColumnType::BigInt => "bigint",
            ColumnType::Text => "text",
            ColumnType::Ascii => "ascii",
            ColumnType::Varchar => "varchar",
            ColumnType::Boolean => "boolean",
            ColumnType::Time => "time",
            ColumnType::Timestamp => "timestamp",
            ColumnType::Float => "float",
            ColumnType::Double => "double",
            ColumnType::Uuid => "uuid",
            ColumnType::Counter => "counter",
        }
    }

    /// Whether values of this type are texts.
    pub open spec fn is_textual(self) -> bool {
        self == ColumnType::Text || self == ColumnType::Ascii || self == ColumnType::Varchar
    }

    /// Whether values of this type are whole numbers.
    pub open spec fn is_integral(self) -> bool {
        self == ColumnType::TinyInt || self == ColumnType::SmallInt || self == ColumnType::Int
            || self == ColumnType::BigInt || self == ColumnType::Time || self
            == ColumnType::Timestamp || self == ColumnType::Counter
    }

    /// Whether a value of type `other` can stand where this type is expected: the types are
    /// equal, or both are texts.
    pub open spec fn accepts_spec(self, other: ColumnType) -> bool {
        self == other || (self.is_textual() && other.is_textual())
    }

    /// Whether values of this type are texts.
    pub fn textual(self) -> (textual: bool)
        ensures
            textual == self.is_textual(),
    {
        match self {
            ColumnType::Text | ColumnType::Ascii | ColumnType::Varchar => true,
            _ => false,
        }
    }

    /// Whether values of this type are whole numbers.
    pub fn integral(self) -> (integral: bool)
        ensures
            integral == self.is_integral(),
    {
        match self {
            ColumnType::TinyInt
            | ColumnType::SmallInt
            | ColumnType::Int
            | ColumnType::BigInt
            | ColumnType::Time
            | ColumnType::Timestamp
            | ColumnType::Counter => true,
            _ => false,
        }
    }

    /// Whether a value of type `other` can stand where this type is expected.
    pub fn accepts(self, other: ColumnType) -> (fits: bool)
        ensures
            fits == self.accepts_spec(other),
    {
        self == other || (self.textual() && other.textual())
    }
}

/// Reading the native name of a column type gives the type back.
pub proof fn lemma_native_name_parses(column_type: ColumnType)
    ensures
        ColumnType::parse_spec(column_type.native_name_spec()) == Some(column_type),
{
    reveal_strlit("tinyint");
    reveal_strlit("smallint");
    reveal_strlit("int");
    reveal_strlit("bigint");
    reveal_strlit("text");
    reveal_strlit("ascii");
    reveal_strlit("varchar");
    reveal_strlit("boolean");
    reveal_strlit("time");
    reveal_strlit("timestamp");
    reveal_strlit("float");
    reveal_strlit("double");
    reveal_strlit("uuid");
    reveal_strlit("counter");
    // Any two of the names differ in their length or in one of the letters below.
    let name = column_type.native_name_spec();
    assert(name.len() >= 3);
    assert("tinyint"@[0] == 't' && "tinyint"@[1] == 'i');
    assert("text"@[1] == 'e');
    assert("time"@[1] == 'i' && "time"@[2] == 'm');
    assert("timestamp"@[4] == 's');
    assert("smallint"@[0] == 's');
    assert("int"@[0] == 'i');
    assert("bigint"@[0] == 'b' && "bigint"@[1] == 'i');
    assert("boolean"@[1] == 'o');
    assert("ascii"@[0] == 'a');
    assert("varchar"@[0] == 'v');
    assert("float"@[0] == 'f');
    assert("double"@[0] == 'd');
    assert("uuid"@[0] == 'u');
    assert("counter"@[0] == 'c');
}

/// The part a column plays in the table's primary key.
#[derive(Clone, Copy, Debug, PartialEq, Eq, Structural)]
pub enum KeyRole {
    /// The column is a component of the partition key.
    PartitionKey,
    /// The column is a component of the clustering key.
    ClusteringKey,
    /// The column is not part of the primary key.
    Regular,
}

impl KeyRole {
    /// The role that a kind name of the catalog stands for, if any.
    pub open spec fn parse_spec(kind: Seq<char>) -> Option<KeyRole> {
        if kind == "partition_key"@ {
            Some(KeyRole::PartitionKey)
        } else if kind == "clustering"@ {
            Some(KeyRole::ClusteringKey)
        } else if kind == "regular"@ {
            Some(KeyRole::Regular)
        } else {
            None
        }
    }

    /// Reads a kind name of the catalog.
    pub fn parse(kind: &str) -> (parsed: Option<KeyRole>)
        ensures
            parsed == Self::parse_spec(kind@),
    {
        if same_text(kind, "partition_key") {
            Some(KeyRole::PartitionKey)
        } else if same_text(kind, "clustering") {
            Some(KeyRole::ClusteringKey)
        } else if same_text(kind, "regular") {
            Some(KeyRole::Regular)
        } else {
            None
        }
    }

    /// Whether a column of this role belongs to the primary key.
    pub open spec fn is_key(self) -> bool {
        self != KeyRole::Regular
    }

    /// Whether a column of this role belongs to the primary key.
    pub fn part_of_key(self) -> (key: bool)
        ensures
            key == self.is_key(),
    {
        match self {
            KeyRole::Regular => false,
            _ => true,
        }
    }
}

/// One column of a table.
#[derive(Debug)]
pub struct Column {
    pub name: String,
    pub column_type: ColumnType,
    pub nullable: bool,
    pub role: KeyRole,
}

/// The mathematical value of a [`Column`].
pub struct ColumnView {
    pub name: Seq<char>,
    pub column_type: ColumnType,
    pub nullable: bool,
    pub role: KeyRole,
}

impl View for Column {
    type V = ColumnView;

    open spec fn view(&self) -> ColumnView {
        ColumnView {
            name: self.name@,
            column_type: self.column_type,
            nullable: self.nullable,
            role: self.role,
        }
    }
}

impl Column {
    /// A copy of this column.
    pub fn duplicate(&self) -> (copy: Column)
        ensures
            copy == *self,
    {
        Column {
            name: self.name.clone(),
            column_type: self.column_type,
            nullable: self.nullable,
            role: self.role,
        }
    }
}

/// What the catalog reports of one column.
#[derive(Debug)]
pub struct CatalogRow {
    /// The column's name.
    pub column_name: String,
    /// The column's part in the primary key.
    pub role: KeyRole,
    /// The native name of the column's type.
    pub data_type: String,
    /// Whether rows may lack a value in this column.
    pub nullable: bool,
}

/// The mathematical value of a [`CatalogRow`].
pub struct CatalogRowView {
    pub column_name: Seq<char>,
    pub role: KeyRole,
    pub data_type: Seq<char>,
    pub nullable: bool,
}

impl View for CatalogRow {
    type V = CatalogRowView;

    open spec fn view(&self) -> CatalogRowView {
        CatalogRowView {
            column_name: self.column_name@,
            role: self.role,
            data_type: self.data_type@,
            nullable: self.nullable,
        }
    }
}

/// The views of a list of catalog rows, in order.
pub open spec fn catalog_view(rows: Seq<CatalogRow>) -> Seq<CatalogRowView> {
    rows.map_values(|row: CatalogRow| row@)
}

/// The views of a list of columns, in order.
pub open spec fn columns_view(columns: Seq<Column>) -> Seq<ColumnView> {
    columns.map_values(|column: Column| column@)
}

/// The column that a catalog row of a supported type describes. A key column is never
/// nullable, whatever the row says.
pub open spec fn column_of(row: CatalogRowView) -> ColumnView {
    ColumnView {
        name: row.column_name,
        column_type: ColumnType::parse_spec(row.data_type).unwrap(),
        nullable: row.nullable && !row.role.is_key(),
        role: row.role,
    }
}

/// Whether the row at `index` is the first whose type has no generatable counterpart.
pub open spec fn first_unsupported(rows: Seq<CatalogRowView>, index: int) -> bool {
    &&& 0 <= index < rows.len()
    &&& ColumnType::parse_spec(rows[index].data_type) is None
    &&& forall|j: int| 0 <= j < index ==> ColumnType::parse_spec(#[trigger] rows[j].data_type) is Some
}

/// Whether every row's type has a generatable counterpart.
pub open spec fn all_supported(rows: Seq<CatalogRowView>) -> bool {
    forall|j: int| 0 <= j < rows.len() ==> ColumnType::parse_spec(#[trigger] rows[j].data_type) is Some
}

/// The mathematical value of a [`TableSchema`].
pub struct TableSchemaView {
    pub table: Seq<char>,
    pub columns: Seq<ColumnView>,
}

impl TableSchemaView {
    /// The conditions every table schema meets: it has a column, and no key column is
    /// nullable.
    pub open spec fn wf(self) -> bool {
        &&& self.columns.len() > 0
        &&& forall|i: int|
            0 <= i < self.columns.len() && (#[trigger] self.columns[i]).role.is_key()
                ==> !self.columns[i].nullable
    }

    /// Whether the table has a partition key, without which no row can be addressed.
    pub open spec fn has_primary_key(self) -> bool {
        exists|i: int|
            0 <= i < self.columns.len() && (#[trigger] self.columns[i]).role
                == KeyRole::PartitionKey
    }

    /// The index of the first column of the given name, if the table has one.
    pub open spec fn position_of(self, name: Seq<char>) -> Option<int> {
        position_in(self.columns, name)
    }

    /// Whether the table has a column of the given name.
    pub open spec fn has_column(self, name: Seq<char>) -> bool {
        self.position_of(name) is Some
    }

    /// The positions of the key columns, in schema order.
    pub open spec fn key_positions(self) -> Seq<int> {
        positions_of(self.columns, true)
    }

    /// The positions of the columns outside the primary key, in schema order.
    pub open spec fn regular_positions(self) -> Seq<int> {
        positions_of(self.columns, false)
    }
}

/// The positions, in ascending order, of the columns that belong to the primary key
/// (`key` true) or do not (`key` false).
pub open spec fn positions_of(columns: Seq<ColumnView>, key: bool) -> Seq<int>
    decreases columns.len(),
{
    if columns.len() == 0 {
        Seq::empty()
    } else if columns.last().role.is_key() == key {
        positions_of(columns.drop_last(), key).push(columns.len() - 1)
    } else {
        positions_of(columns.drop_last(), key)
    }
}

/// The positions found are positions of the list, in ascending order, of columns of the
/// asked kind; and every such column is among them.
pub proof fn lemma_positions_of(columns: Seq<ColumnView>, key: bool)
    ensures
        positions_of(columns, key).len() <= columns.len(),
        forall|k: int|
            0 <= k < positions_of(columns, key).len() ==> {
                let p = #[trigger] positions_of(columns, key)[k];
                0 <= p < columns.len() && columns[p].role.is_key() == key
            },
        forall|k: int, l: int|
            0 <= k < l < positions_of(columns, key).len() ==> positions_of(columns, key)[k]
                < positions_of(columns, key)[l],
        forall|p: int|
            0 <= p < columns.len() && (#[trigger] columns[p]).role.is_key() == key
                ==> positions_of(columns, key).contains(p),
    decreases columns.len(),
{
    if columns.len() > 0 {
        let front = columns.drop_last();
        lemma_positions_of(front, key);
        let found = positions_of(columns, key);
        let before = positions_of(front, key);
        assert forall|k: int| 0 <= k < found.len() implies {
            let p = #[trigger] found[k];
            0 <= p < columns.len() && columns[p].role.is_key() == key
        } by {
            if k < before.len() {
                assert(found[k] == before[k]);
                assert(columns[before[k]] == front[before[k]]);
            }
        }
        assert forall|k: int, l: int| 0 <= k < l < found.len() implies found[k] < found[l] by {
            assert(found[k] == before[k]);
            if l < before.len() {
                assert(found[l] == before[l]);
            }
        }
        assert forall|p: int|
            0 <= p < columns.len() && (#[trigger] columns[p]).role.is_key() == key implies found.contains(
            p,
        ) by {
            if p < front.len() {
                assert(front[p] == columns[p]);
                assert(before.contains(p));
                let k = choose|k: int| 0 <= k < before.len() && before[k] == p;
                assert(found[k] == p);
            } else {
                assert(found[found.len() - 1] == p);
            }
        }
    }
}

/// The index of the first column of the given name among `columns`, if there is one.
pub open spec fn position_in(columns: Seq<ColumnView>, name: Seq<char>) -> Option<int>
    decreases columns.len(),
{
    if columns.len() == 0 {
        None
    } else if columns[0].name == name {
        Some(0)
    } else {
        match position_in(columns.drop_first(), name) {
            Some(i) => Some(i + 1),
            None => None,
        }
    }
}

/// What a found position means: the column there has the name, and no earlier one has.
pub proof fn lemma_position_in(columns: Seq<ColumnView>, name: Seq<char>)
    ensures
        match position_in(columns, name) {
            Some(i) => {
                &&& 0 <= i < columns.len()
                &&& columns[i].name == name
                &&& forall|j: int| 0 <= j < i ==> (#[trigger] columns[j]).name != name
            },
            None => forall|j: int| 0 <= j < columns.len() ==> (#[trigger] columns[j]).name != name,
        },
    decreases columns.len(),
{
    if columns.len() == 0 {
    } else if columns[0].name == name {
    } else {
        let rest = columns.drop_first();
        lemma_position_in(rest, name);
        match position_in(rest, name) {
            Some(i) => {
                assert forall|j: int| 0 <= j < i + 1 implies (#[trigger] columns[j]).name != name by {
                    if j > 0 {
                        assert(columns[j] == rest[j - 1]);
                    }
                }
            },
            None => {
                assert forall|j: int| 0 <= j < columns.len() implies (#[trigger] columns[j]).name
                    != name by {
                    if j > 0 {
                        assert(columns[j] == rest[j - 1]);
                    }
                }
            },
        }
    }
}

/// The shape of one table: its name and its columns, in the order in which the catalog
/// reports them. A schema is made by [`introspect`] and never changes afterwards.
#[derive(Debug)]
pub struct TableSchema {
    table: String,
    columns: Vec<Column>,
}

impl View for TableSchema {
    type V = TableSchemaView;

    closed spec fn view(&self) -> TableSchemaView {
        TableSchemaView { table: self.table@, columns: columns_view(self.columns@) }
    }
}

impl TableSchema {
    #[verifier::type_invariant]
    spec fn well_formed(&self) -> bool {
        self@.wf()
    }

    /// The table's name.
    pub fn table(&self) -> (table: &str)
        ensures
            table@ == self@.table,
    {
        self.table.as_str()
    }

    /// The number of columns, which is never zero.
    pub fn column_count(&self) -> (count: usize)
        ensures
            count == self@.columns.len(),
            self@.wf(),
    {
        proof {
            use_type_invariant(self);
        }
        self.columns.len()
    }

    /// The column at `index`, counted in schema order, if the table has so many.
    pub fn column(&self, index: usize) -> (column: Option<&Column>)
        ensures
            match column {
                Some(found) => index < self@.columns.len() && found@ == self@.columns[index as int],
                None => index >= self@.columns.len(),
            },
    {
        if index < self.columns.len() {
            Some(&self.columns[index])
        } else {
            None
        }
    }

    pub(crate) fn column_at(&self, index: usize) -> (column: &Column)
        requires
            index < self@.columns.len(),
        ensures
            column@ == self@.columns[index as int],
    {
        &self.columns[index]
    }

    /// Copies of all columns, in schema order.
    pub fn columns(&self) -> (columns: Vec<Column>)
        ensures
            columns_view(columns@) == self@.columns,
    {
        let mut columns: Vec<Column> = Vec::new();
        let mut i: usize = 0;
        while i < self.columns.len()
            invariant
                i <= self.columns.len(),
                columns.len() == i,
                forall|j: int| 0 <= j < i ==> (#[trigger] columns[j])@ == self@.columns[j],
            decreases self.columns.len() - i,
        {
            columns.push(self.columns[i].duplicate());
            i += 1;
        }
        assert(columns_view(columns@) =~= self@.columns);
        columns
    }

    /// The index of the first column of the given name.
    pub fn find(&self, name: &str) -> (found: Option<usize>)
        ensures
            match found {
                Some(i) => self@.position_of(name@) == Some(i as int) && i < self@.columns.len()
                    && self@.columns[i as int].name == name@,
                None => self@.position_of(name@) is None,
            },
    {
        let mut i: usize = 0;
        while i < self.columns.len()
            invariant
                i <= self.columns.len(),
                forall|j: int| 0 <= j < i ==> (#[trigger] self@.columns[j]).name != name@,
            decreases self.columns.len() - i,
        {
            assert(self@.columns[i as int] == self.columns[i as int]@);
            if same_text(self.columns[i].name.as_str(), name) {
                proof {
                    lemma_position_in(self@.columns, name@);
                }
                return Some(i);
            }
            i += 1;
        }
        proof {
            lemma_position_in(self@.columns, name@);
        }
        None
    }

    /// Whether the table has a partition key.
    pub fn has_primary_key(&self) -> (has: bool)
        ensures
            has == self@.has_primary_key(),
    {
        let mut i: usize = 0;
        while i < self.columns.len()
            invariant
                i <= self.columns.len(),
                forall|j: int| 0 <= j < i ==> (#[trigger] self@.columns[j]).role != KeyRole::PartitionKey,
            decreases self.columns.len() - i,
        {
            assert(self@.columns[i as int] == self.columns[i as int]@);
            if self.columns[i].role == KeyRole::PartitionKey {
                return true;
            }
            i += 1;
        }
        false
    }
}

/// Builds the schema of `table` from what the catalog reports of its columns.
///
/// Fails with `SchemaNotFound` when the catalog reports no column, and with
/// `UnsupportedType`, naming the first such column, when a column's native type has no
/// generatable counterpart. Otherwise the schema holds one column per row, in the order
/// of the rows.
pub fn introspect(table: &str, rows: &Vec<CatalogRow>) -> (schema: Result<TableSchema, BuildError>)
    ensures
        rows.len() == 0 ==> (schema matches Err(e) && e@ == BuildErrorView::SchemaNotFound {
            table: table@,
        }),
        forall|i: int| first_unsupported(catalog_view(rows@), i) ==> (schema matches Err(e) && e@
            == BuildErrorView::UnsupportedType {
            column: rows[i].column_name@,
            native_type: rows[i].data_type@,
        }),
        rows.len() > 0 && all_supported(catalog_view(rows@)) ==> (schema matches Ok(s) && s@
            == TableSchemaView {
            table: table@,
            columns: catalog_view(rows@).map_values(|row: CatalogRowView| column_of(row)),
        }),
        schema matches Ok(s) ==> s@.wf(),
{
    if rows.len() == 0 {
        return Err(BuildError::SchemaNotFound { table: table.to_owned() });
    }
    let ghost catalog = catalog_view(rows@);
    let mut columns: Vec<Column> = Vec::new();
    let mut i: usize = 0;
    while i < rows.len()
        invariant
            i <= rows.len(),
            catalog == catalog_view(rows@),
            columns.len() == i,
            forall|j: int| 0 <= j < i ==> ColumnType::parse_spec(#[trigger] catalog[j].data_type) is Some,
            forall|j: int| 0 <= j < i ==> (#[trigger] columns[j])@ == column_of(catalog[j]),
        decreases rows.len() - i,
    {
        let row = &rows[i];
        assert(catalog[i as int] == row@);
        match ColumnType::parse(row.data_type.as_str()) {
            None => {
                assert(first_unsupported(catalog, i as int));
                assert forall|k: int| first_unsupported(catalog, k) implies k == i by {
                    if k < i {
                        assert(ColumnType::parse_spec(catalog[k].data_type) is Some);
                    } else if k > i {
                        assert(ColumnType::parse_spec(catalog[i as int].data_type) is Some);
                    }
                }
                return Err(
                    BuildError::UnsupportedType {
                        column: row.column_name.clone(),
                        native_type: row.data_type.clone(),
                    },
                );
            },
            Some(column_type) => {
                let key = row.role.part_of_key();
                columns.push(
                    Column {
                        name: row.column_name.clone(),
                        column_type,
                        nullable: row.nullable && !key,
                        role: row.role,
                    },
                );
            },
        }
        i += 1;
    }
    let schema = TableSchema { table: table.to_owned(), columns };
    proof {
        let expected = catalog.map_values(|row: CatalogRowView| column_of(row));
        assert(schema@.columns =~= expected);
        assert forall|k: int| first_unsupported(catalog, k) implies false by {
            assert(ColumnType::parse_spec(catalog[k].data_type) is Some);
        }
    }
    Ok(schema)
}

} // verus!

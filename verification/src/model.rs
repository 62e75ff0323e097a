//! A mathematical model of one table of the store, and what the row operations achieve
//! against it.
//!
//! The store itself is out of reach here. The model says what is taken for granted of
//! it: a table holds one row for each primary key, an insert puts the row under its
//! key, a delete removes what is under the key, an update changes one field of the row
//! under the key, and a unique read finds what is under the key.
use crate::binding::{
    key_expectations, lemma_bound_iff_fit, row_expectations, values_fit,
};
use crate::crud::{
    delete_binds, expected_of, first_named, insert_binds, key_of, key_projects, select_binds,
    status, updatable_names, updates_to, BoundStatementView, StatementKind,
};
use crate::cursor::{
    drive, lemma_page_size_does_not_matter, pages_of, rows_fit, CursorState, CursorView, Retrieval,
    StepView,
};
use crate::error::{BindError, RunError};
use crate::generator::EntityDefinitionSetView;
use crate::schema::{lemma_positions_of, positions_of, ColumnView};
use crate::values::ValueView;
use vstd::prelude::*;

verus! {

/// A table of the store: the rows, each under its primary key.
pub type TableModel = Map<Seq<ValueView>, Seq<ValueView>>;

/// Whether the store, holding `table`, may answer the statement with `rows` and hold
/// `after` afterwards. What an update does to a row that does not exist is left open.
pub open spec fn answers(
    fields: Seq<ColumnView>,
    table: TableModel,
    statement: BoundStatementView,
    after: TableModel,
    rows: Seq<Seq<ValueView>>,
) -> bool {
    match statement.kind {
        StatementKind::Insert => {
            &&& after == table.insert(key_of(fields, statement.values), statement.values)
            &&& rows.len() == 0
        },
        StatementKind::SelectUnique => {
            &&& after == table
            &&& rows == if table.dom().contains(statement.values) {
                seq![table[statement.values]]
            } else {
                Seq::empty()
            }
        },
        StatementKind::Update { field } => {
            let key = statement.values.drop_first();
            &&& rows.len() == 0
            &&& table.dom().contains(key) ==> after == table.insert(
                key,
                table[key].update(field as int, statement.values[0]),
            )
        },
        StatementKind::Delete => {
            &&& after == table.remove(statement.values)
            &&& rows.len() == 0
        },
    }
}

/// The key of a row that fits the fields fits the key fields.
pub proof fn lemma_key_fits(fields: Seq<ColumnView>, row: Seq<ValueView>)
    requires
        values_fit(row_expectations(fields), row),
    ensures
        values_fit(key_expectations(fields), key_of(fields, row)),
{
    lemma_positions_of(fields, true);
    let key = key_of(fields, row);
    let expected = key_expectations(fields);
    assert forall|k: int| 0 <= k < key.len() implies (#[trigger] key[k]).fits(
        expected[k].column_type,
        expected[k].nullable,
    ) by {
        let p = positions_of(fields, true)[k];
        assert(0 <= p < fields.len());
        assert(row[p].fits(
            row_expectations(fields)[p].column_type,
            row_expectations(fields)[p].nullable,
        ));
    }
}

/// A unique read that finds one row which fits the fields gives that row.
pub proof fn lemma_one_fitting_row_is_found(fields: Seq<ColumnView>, row: Seq<ValueView>)
    requires
        values_fit(row_expectations(fields), row),
    ensures
        expected_of(fields, Ok(seq![row])) == Ok::<Seq<ValueView>, RunError>(row),
{
    assert(seq![row][0] == row);
}

/// A unique read that finds no row fails with `RowNotFound`.
pub proof fn lemma_no_row_is_not_found(fields: Seq<ColumnView>)
    ensures
        expected_of(fields, Ok(Seq::empty())) == Err::<Seq<ValueView>, RunError>(
            RunError::RowNotFound,
        ),
{
}

/// A row that is inserted and then read by its primary key comes back unchanged.
///
/// For every row that fits the fields of the definitions: binding the insert succeeds,
/// projecting the row onto its key succeeds, binding the unique read of that key
/// succeeds, and, the store having taken in the insert, the expected unique read gives
/// a row equal to the one inserted.
pub proof fn lemma_round_trip(
    definitions: EntityDefinitionSetView,
    table: TableModel,
    row: Seq<ValueView>,
    inserted: Result<BoundStatementView, BindError>,
    key: Result<Seq<ValueView>, BindError>,
    selected: Result<BoundStatementView, BindError>,
    stored: TableModel,
    rows: Seq<Seq<ValueView>>,
)
    requires
        definitions.wf(),
        values_fit(row_expectations(definitions.fields), row),
        insert_binds(definitions, row, inserted),
        key_projects(definitions, row, key),
        key matches Ok(values) ==> select_binds(definitions, values, selected),
        inserted matches Ok(statement) ==> answers(
            definitions.fields,
            table,
            statement,
            stored,
            Seq::empty(),
        ),
        selected matches Ok(statement) ==> answers(
            definitions.fields,
            stored,
            statement,
            stored,
            rows,
        ),
    ensures
        inserted is Ok,
        key is Ok,
        selected is Ok,
        expected_of(definitions.fields, Ok(rows)) == Ok::<Seq<ValueView>, RunError>(row),
{
    let fields = definitions.fields;
    lemma_bound_iff_fit(row_expectations(fields), row, status(inserted));
    lemma_bound_iff_fit(row_expectations(fields), row, status(key));
    lemma_key_fits(fields, row);
    let values = key_of(fields, row);
    lemma_bound_iff_fit(key_expectations(fields), values, status(selected));
    assert(stored.dom().contains(values));
    assert(rows == seq![row]);
    lemma_one_fitting_row_is_found(fields, row);
}

/// Deleting the row of a primary key under which the table holds nothing succeeds and
/// changes nothing, and an expected unique read of that key then fails with
/// `RowNotFound`. After any delete, of a row that exists or not, that read fails so.
pub proof fn lemma_deleted_is_not_found(
    definitions: EntityDefinitionSetView,
    table: TableModel,
    key: Seq<ValueView>,
    deleted: Result<BoundStatementView, BindError>,
    selected: Result<BoundStatementView, BindError>,
    after: TableModel,
    rows: Seq<Seq<ValueView>>,
)
    requires
        definitions.wf(),
        values_fit(key_expectations(definitions.fields), key),
        delete_binds(definitions, key, deleted),
        select_binds(definitions, key, selected),
        deleted matches Ok(statement) ==> answers(
            definitions.fields,
            table,
            statement,
            after,
            Seq::empty(),
        ),
        selected matches Ok(statement) ==> answers(
            definitions.fields,
            after,
            statement,
            after,
            rows,
        ),
    ensures
        deleted is Ok,
        selected is Ok,
        !table.dom().contains(key) ==> after == table,
        expected_of(definitions.fields, Ok(rows)) == Err::<Seq<ValueView>, RunError>(
            RunError::RowNotFound,
        ),
{
    let fields = definitions.fields;
    lemma_bound_iff_fit(key_expectations(fields), key, status(deleted));
    lemma_bound_iff_fit(key_expectations(fields), key, status(selected));
    assert(!after.dom().contains(key));
    if !table.dom().contains(key) {
        assert(after =~= table);
    }
    assert(rows =~= Seq::<Seq<ValueView>>::empty());
    lemma_no_row_is_not_found(fields);
}

/// After a column of an existing row has been updated, an expected unique read of the
/// row's key gives the row with the new value in that column and every other value
/// unchanged.
pub proof fn lemma_update_is_read_back(
    definitions: EntityDefinitionSetView,
    table: TableModel,
    key: Seq<ValueView>,
    column: Seq<char>,
    method: int,
    value: ValueView,
    updated: Result<BoundStatementView, BindError>,
    selected: Result<BoundStatementView, BindError>,
    after: TableModel,
    rows: Seq<Seq<ValueView>>,
)
    requires
        definitions.wf(),
        values_fit(key_expectations(definitions.fields), key),
        table.dom().contains(key),
        values_fit(row_expectations(definitions.fields), table[key]),
        first_named(updatable_names(definitions), column, method),
        value.fits(
            definitions.fields[definitions.updates[method].field].column_type,
            definitions.fields[definitions.updates[method].field].nullable,
        ),
        updates_to(definitions, key, column, value, updated),
        select_binds(definitions, key, selected),
        updated matches Ok(statement) ==> answers(
            definitions.fields,
            table,
            statement,
            after,
            Seq::empty(),
        ),
        selected matches Ok(statement) ==> answers(
            definitions.fields,
            after,
            statement,
            after,
            rows,
        ),
    ensures
        updated is Ok,
        selected is Ok,
        expected_of(definitions.fields, Ok(rows)) == Ok::<Seq<ValueView>, RunError>(
            table[key].update(definitions.updates[method].field, value),
        ),
{
    let fields = definitions.fields;
    let field = definitions.updates[method].field;
    lemma_positions_of(fields, false);
    assert(definitions.updates[method].field == positions_of(fields, false)[method]);
    assert(0 <= field < fields.len());
    let names = updatable_names(definitions);
    assert(names[method] == column);
    let values = seq![value] + key;
    let expected = crate::crud::update_expectations(definitions, method);
    assert(values_fit(expected, values)) by {
        assert forall|i: int| 0 <= i < values.len() implies (#[trigger] values[i]).fits(
            expected[i].column_type,
            expected[i].nullable,
        ) by {
            if i > 0 {
                assert(values[i] == key[i - 1]);
                assert(expected[i] == key_expectations(fields)[i - 1]);
            }
        }
    }
    lemma_bound_iff_fit(expected, values, status(updated));
    lemma_bound_iff_fit(key_expectations(fields), key, status(selected));
    assert(values.drop_first() =~= key);
    assert(values[0] == value);
    let row = table[key].update(field, value);
    assert(field as usize as int == field);
    assert(after.dom().contains(key));
    assert(rows == seq![row]);
    assert(values_fit(row_expectations(fields), row)) by {
        assert forall|i: int| 0 <= i < row.len() implies (#[trigger] row[i]).fits(
            row_expectations(fields)[i].column_type,
            row_expectations(fields)[i].nullable,
        ) by {
            if i != field {
                assert(row[i] == table[key][i]);
            }
        }
    }
    lemma_one_fitting_row_is_found(fields, row);
}

/// The table that holds the given rows, inserted one after another into an empty table.
pub open spec fn filled(fields: Seq<ColumnView>, rows: Seq<Seq<ValueView>>) -> TableModel
    decreases rows.len(),
{
    if rows.len() == 0 {
        Map::empty()
    } else {
        filled(fields, rows.drop_last()).insert(key_of(fields, rows.last()), rows.last())
    }
}

/// Rows with pairwise different keys are all kept: after N inserts the table holds N
/// rows, each inserted row under its key.
pub proof fn lemma_fresh_keys_keep_every_row(fields: Seq<ColumnView>, rows: Seq<Seq<ValueView>>)
    requires
        forall|i: int, j: int|
            0 <= i < j < rows.len() ==> key_of(fields, #[trigger] rows[i]) != key_of(
                fields,
                #[trigger] rows[j],
            ),
    ensures
        filled(fields, rows).dom().finite(),
        filled(fields, rows).dom().len() == rows.len(),
        forall|i: int|
            0 <= i < rows.len() ==> filled(fields, rows).dom().contains(
                key_of(fields, #[trigger] rows[i]),
            ) && filled(fields, rows)[key_of(fields, rows[i])] == rows[i],
        forall|key: Seq<ValueView>| #[trigger]
            filled(fields, rows).dom().contains(key) ==> exists|i: int|
                0 <= i < rows.len() && key_of(fields, #[trigger] rows[i]) == key,
    decreases rows.len(),
{
    if rows.len() > 0 {
        let front = rows.drop_last();
        let last = rows.last();
        assert forall|i: int, j: int| 0 <= i < j < front.len() implies key_of(
            fields,
            #[trigger] front[i],
        ) != key_of(fields, #[trigger] front[j]) by {
            assert(front[i] == rows[i] && front[j] == rows[j]);
        }
        lemma_fresh_keys_keep_every_row(fields, front);
        let before = filled(fields, front);
        let key = key_of(fields, last);
        if before.dom().contains(key) {
            let i = choose|i: int| 0 <= i < front.len() && key_of(fields, #[trigger] front[i])
                == key;
            assert(front[i] == rows[i]);
            assert(key_of(fields, rows[i]) != key_of(fields, rows[rows.len() - 1]));
        }
        assert forall|i: int| 0 <= i < rows.len() implies filled(fields, rows).dom().contains(
            key_of(fields, #[trigger] rows[i]),
        ) && filled(fields, rows)[key_of(fields, rows[i])] == rows[i] by {
            if i < front.len() {
                assert(front[i] == rows[i]);
                assert(key_of(fields, rows[i]) != key_of(fields, rows[rows.len() - 1]));
            }
        }
        assert forall|other: Seq<ValueView>| #[trigger]
            filled(fields, rows).dom().contains(other) implies exists|i: int|
            0 <= i < rows.len() && key_of(fields, #[trigger] rows[i]) == other by {
            if other == key {
                assert(key_of(fields, rows[rows.len() - 1]) == other);
            } else {
                assert(before.dom().contains(other));
                let i = choose|i: int|
                    0 <= i < front.len() && key_of(fields, #[trigger] front[i]) == other;
                assert(front[i] == rows[i]);
            }
        }
    }
}

/// Whether the table holds the row under some key.
pub open spec fn holds(table: TableModel, row: Seq<ValueView>) -> bool {
    exists|key: Seq<ValueView>| #[trigger] table.dom().contains(key) && table[key] == row
}

/// Whether `listing` lists rows of the table, as many as the table holds.
pub open spec fn lists(table: TableModel, listing: Seq<Seq<ValueView>>) -> bool {
    &&& table.dom().finite()
    &&& listing.len() == table.dom().len()
    &&& forall|i: int| 0 <= i < listing.len() ==> holds(table, #[trigger] listing[i])
}

/// After N rows with pairwise different keys have been inserted into an empty table,
/// loading the whole table into memory returns exactly N entities, each equal to one of
/// the inserted rows, whatever the page size and in whatever order the store lists them.
pub proof fn lemma_all_inserted_rows_are_loaded(
    fields: Seq<ColumnView>,
    inserted: Seq<Seq<ValueView>>,
    listing: Seq<Seq<ValueView>>,
    cursor: CursorView,
    page_size: int,
)
    requires
        forall|i: int, j: int|
            0 <= i < j < inserted.len() ==> key_of(fields, #[trigger] inserted[i]) != key_of(
                fields,
                #[trigger] inserted[j],
            ),
        rows_fit(fields, inserted),
        lists(filled(fields, inserted), listing),
        cursor.shape == fields,
        cursor.state == CursorState::Executing,
        cursor.mode == Retrieval::AllInMemory,
        cursor.collected.len() == 0,
    ensures
        drive(cursor, pages_of(listing, page_size)).1 == (StepView::Finished {
            entities: listing,
            count: inserted.len() as int,
        }),
        forall|i: int| 0 <= i < listing.len() ==> inserted.contains(#[trigger] listing[i]),
{
    lemma_fresh_keys_keep_every_row(fields, inserted);
    let table = filled(fields, inserted);
    assert forall|i: int| 0 <= i < listing.len() implies inserted.contains(
        #[trigger] listing[i],
    ) && values_fit(row_expectations(fields), listing[i]) by {
        assert(holds(table, listing[i]));
        let key = choose|key: Seq<ValueView>| #[trigger]
            table.dom().contains(key) && table[key] == listing[i];
        let k = choose|k: int| 0 <= k < inserted.len() && key_of(fields, #[trigger] inserted[k])
            == key;
        assert(table[key_of(fields, inserted[k])] == inserted[k]);
        assert(inserted[k] == listing[i]);
    }
    lemma_page_size_does_not_matter(cursor, listing, page_size);
}

} // verus!

//! The operations on single rows: what is sent to the session, and what its answer means.
//!
//! Nothing here talks to the store. Each write or read is a statement with its bound
//! values, which the caller hands to the session, and a function that turns the
//! session's answer into the operation's result.
use crate::binding::{
    bound_to, check_values, expectation_of, expectations_of_key, expectations_of_row, first_unfit,
    key_expectations, lemma_first_unfit_exists, row_expectations, values_fit, Expectation,
};
use crate::entity::{Entity, EntityRef, PrimaryKey};
use crate::error::{BindError, RunError};
use crate::generator::{
    positions_view, updates_view, EntityDefinitionSet, EntityDefinitionSetView, UpdateMethodView,
};
use crate::schema::{columns_view, lemma_positions_of, positions_of, Column, ColumnView};
use crate::text::same_text;
use crate::values::{borrow_all, refs_view, row_view, Value, ValueRef, ValueView};
use scylla::transport::errors::QueryError;
use vstd::prelude::*;

verus! {

/// What a bound statement does.
#[derive(Clone, Copy, Debug, PartialEq, Eq)]
pub enum StatementKind {
    /// Writes a full row.
    Insert,
    /// Reads the row of a primary key.
    SelectUnique,
    /// Sets the field at position `field` in the row of a primary key.
    Update { field: usize },
    /// Removes the row of a primary key.
    Delete,
}

/// A statement with the values bound to its placeholders, ready for the session.
#[derive(Debug, Clone, PartialEq, Eq)]
pub struct BoundStatement<'a> {
    pub kind: StatementKind,
    pub text: &'a str,
    pub values: Vec<ValueRef<'a>>,
}

/// The mathematical value of a [`BoundStatement`].
pub struct BoundStatementView {
    pub kind: StatementKind,
    pub text: Seq<char>,
    pub values: Seq<ValueView>,
}

impl<'a> View for BoundStatement<'a> {
    type V = BoundStatementView;

    open spec fn view(&self) -> BoundStatementView {
        BoundStatementView { kind: self.kind, text: self.text@, values: refs_view(self.values@) }
    }
}

/// Whether binding succeeded, whatever it made.
pub open spec fn status<T>(bound: Result<T, BindError>) -> Result<(), BindError> {
    match bound {
        Ok(_) => Ok(()),
        Err(error) => Err(error),
    }
}

/// The values of the key fields of a row, in schema order.
pub open spec fn key_of(fields: Seq<ColumnView>, row: Seq<ValueView>) -> Seq<ValueView> {
    positions_of(fields, true).map_values(|position: int| row[position])
}

/// The mathematical value of a binding's result.
pub open spec fn bound_view(bound: Result<BoundStatement<'_>, BindError>) -> Result<
    BoundStatementView,
    BindError,
> {
    match bound {
        Ok(statement) => Ok(statement@),
        Err(error) => Err(error),
    }
}

/// The mathematical value of a projection's result.
pub open spec fn key_view(key: Result<PrimaryKey<'_>, BindError>) -> Result<
    Seq<ValueView>,
    BindError,
> {
    match key {
        Ok(found) => Ok(found@),
        Err(error) => Err(error),
    }
}

/// What projecting a row onto its key gives: the values of the key fields where the row
/// fits the fields, and else the error that binding the row would give.
pub open spec fn key_projects(
    definitions: EntityDefinitionSetView,
    row: Seq<ValueView>,
    key: Result<Seq<ValueView>, BindError>,
) -> bool {
    &&& bound_to(row_expectations(definitions.fields), row, status(key))
    &&& key matches Ok(found) ==> found == key_of(definitions.fields, row)
}

/// What binding an insert gives: the insert statement with every value of the row, in
/// schema order, where the row fits the fields.
pub open spec fn insert_binds(
    definitions: EntityDefinitionSetView,
    row: Seq<ValueView>,
    bound: Result<BoundStatementView, BindError>,
) -> bool {
    &&& bound_to(row_expectations(definitions.fields), row, status(bound))
    &&& bound matches Ok(statement) ==> statement == (BoundStatementView {
        kind: StatementKind::Insert,
        text: definitions.insert,
        values: row,
    })
}

/// What binding a unique read gives: the select statement with the values of the key,
/// where the key fits the key fields.
pub open spec fn select_binds(
    definitions: EntityDefinitionSetView,
    key: Seq<ValueView>,
    bound: Result<BoundStatementView, BindError>,
) -> bool {
    &&& bound_to(key_expectations(definitions.fields), key, status(bound))
    &&& bound matches Ok(statement) ==> statement == (BoundStatementView {
        kind: StatementKind::SelectUnique,
        text: definitions.select_unique,
        values: key,
    })
}

/// What binding a delete gives: the delete statement with the values of the key, where
/// the key fits the key fields.
pub open spec fn delete_binds(
    definitions: EntityDefinitionSetView,
    key: Seq<ValueView>,
    bound: Result<BoundStatementView, BindError>,
) -> bool {
    &&& bound_to(key_expectations(definitions.fields), key, status(bound))
    &&& bound matches Ok(statement) ==> statement == (BoundStatementView {
        kind: StatementKind::Delete,
        text: definitions.delete,
        values: key,
    })
}

fn copy_values<'a>(values: &Vec<ValueRef<'a>>) -> (copy: Vec<ValueRef<'a>>)
    ensures
        copy@ == values@,
{
    let mut copy: Vec<ValueRef<'a>> = Vec::new();
    let mut i: usize = 0;
    while i < values.len()
        invariant
            i <= values.len(),
            copy@ == values@.take(i as int),
        decreases values.len() - i,
    {
        copy.push(values[i]);
        assert(values@.take(i as int).push(values[i as int]) =~= values@.take(i as int + 1));
        i += 1;
    }
    assert(values@.take(values.len() as int) =~= values@);
    copy
}

/// Projects a row onto its primary key. Fails, as binding the row would, where the row
/// is no row of the table; a row of the table always has its key.
pub fn primary_key<'a>(definitions: &EntityDefinitionSet, row: &EntityRef<'a>) -> (key: Result<
    PrimaryKey<'a>,
    BindError,
>)
    ensures
        key_projects(definitions@, row@, key_view(key)),
        key matches Ok(found) ==> values_fit(key_expectations(definitions@.fields), found@),
{
    let fields = definitions.fields();
    let keys = definitions.key_fields();
    let expected = expectations_of_row(fields);
    match check_values(&expected, &row.values) {
        Err(error) => Err(error),
        Ok(()) => {
            let ghost views = columns_view(fields@);
            let ghost positions = positions_of(views, true);
            let ghost wanted = key_of(views, row@);
            proof {
                lemma_positions_of(views, true);
                crate::binding::lemma_bound_iff_fit(expected@, row@, Ok(()));
            }
            let mut values: Vec<ValueRef<'a>> = Vec::new();
            let mut i: usize = 0;
            while i < keys.len()
                invariant
                    i <= keys.len(),
                    positions == positions_of(views, true),
                    positions_view(keys@) == positions,
                    views == columns_view(fields@),
                    row@.len() == views.len(),
                    wanted == key_of(views, row@),
                    forall|k: int|
                        0 <= k < positions.len() ==> 0 <= (#[trigger] positions[k]) < views.len(),
                    values.len() == i,
                    forall|j: int| 0 <= j < i ==> (#[trigger] values[j])@ == wanted[j],
                decreases keys.len() - i,
            {
                assert(positions_view(keys@)[i as int] == keys[i as int] as int);
                assert(0 <= positions[i as int] < views.len());
                assert(row@[keys[i as int] as int] == row.values[keys[i as int] as int]@);
                values.push(row.values[keys[i]]);
                i += 1;
            }
            let key = PrimaryKey { values };
            proof {
                assert(key@ =~= wanted);
                assert forall|k: int| 0 <= k < key@.len() implies (#[trigger] key@[k]).fits(
                    key_expectations(views)[k].column_type,
                    key_expectations(views)[k].nullable,
                ) by {
                    let p = positions[k];
                    assert(0 <= p < views.len());
                    assert(row@[p].fits(expected@[p].column_type, expected@[p].nullable));
                }
            }
            Ok(key)
        },
    }
}

/// The statement that writes a full row: every field in schema order.
pub fn insert<'a>(definitions: &'a EntityDefinitionSet, row: &EntityRef<'a>) -> (bound: Result<
    BoundStatement<'a>,
    BindError,
>)
    ensures
        insert_binds(definitions@, row@, bound_view(bound)),
{
    let expected = expectations_of_row(definitions.fields());
    match check_values(&expected, &row.values) {
        Err(error) => Err(error),
        Ok(()) => Ok(
            BoundStatement {
                kind: StatementKind::Insert,
                text: definitions.insert_statement(),
                values: copy_values(&row.values),
            },
        ),
    }
}

/// The statement that reads the row of a primary key.
pub fn select_unique<'a>(definitions: &'a EntityDefinitionSet, key: &PrimaryKey<'a>) -> (bound:
    Result<BoundStatement<'a>, BindError>)
    ensures
        select_binds(definitions@, key@, bound_view(bound)),
{
    let expected = expectations_of_key(definitions.fields(), definitions.key_fields());
    match check_values(&expected, &key.values) {
        Err(error) => Err(error),
        Ok(()) => Ok(
            BoundStatement {
                kind: StatementKind::SelectUnique,
                text: definitions.select_unique_statement(),
                values: copy_values(&key.values),
            },
        ),
    }
}

/// The statement that removes the row of a primary key.
pub fn delete<'a>(definitions: &'a EntityDefinitionSet, key: &PrimaryKey<'a>) -> (bound: Result<
    BoundStatement<'a>,
    BindError,
>)
    ensures
        delete_binds(definitions@, key@, bound_view(bound)),
{
    let expected = expectations_of_key(definitions.fields(), definitions.key_fields());
    match check_values(&expected, &key.values) {
        Err(error) => Err(error),
        Ok(()) => Ok(
            BoundStatement {
                kind: StatementKind::Delete,
                text: definitions.delete_statement(),
                values: copy_values(&key.values),
            },
        ),
    }
}

/// The names of the columns that have an update method, in the order of the methods.
pub open spec fn updatable_names(definitions: EntityDefinitionSetView) -> Seq<Seq<char>> {
    definitions.updates.map_values(|update: UpdateMethodView| definitions.fields[update.field].name)
}

/// Whether the name at `k` is the first of the list that equals `name`.
pub open spec fn first_named(names: Seq<Seq<char>>, name: Seq<char>, k: int) -> bool {
    &&& 0 <= k < names.len()
    &&& names[k] == name
    &&& forall|j: int| 0 <= j < k ==> #[trigger] names[j] != name
}

/// What the update method at `k` expects: the new value of its column, then the key.
pub open spec fn update_expectations(definitions: EntityDefinitionSetView, k: int) -> Seq<
    Expectation,
> {
    seq![expectation_of(definitions.fields[definitions.updates[k].field])] + key_expectations(
        definitions.fields,
    )
}

/// What binding an update gives: `NotUpdatable` where no update method belongs to the
/// column (it is a key column or no column of the table); else the method's statement
/// with the new value and then the key, if these fit.
pub open spec fn updates_to(
    definitions: EntityDefinitionSetView,
    key: Seq<ValueView>,
    column: Seq<char>,
    value: ValueView,
    bound: Result<BoundStatementView, BindError>,
) -> bool {
    let names = updatable_names(definitions);
    if forall|j: int| 0 <= j < names.len() ==> #[trigger] names[j] != column {
        bound == Err::<BoundStatementView, BindError>(BindError::NotUpdatable)
    } else {
        forall|k: int| #[trigger]
            first_named(names, column, k) ==> {
                &&& bound_to(update_expectations(definitions, k), seq![value] + key, status(bound))
                &&& bound matches Ok(statement) ==> statement == (BoundStatementView {
                    kind: StatementKind::Update { field: definitions.updates[k].field as usize },
                    text: definitions.updates[k].statement,
                    values: seq![value] + key,
                })
            }
    }
}

/// The statement that sets one column in the row of a primary key.
pub fn update<'a>(
    definitions: &'a EntityDefinitionSet,
    key: &PrimaryKey<'a>,
    column: &str,
    value: ValueRef<'a>,
) -> (bound: Result<BoundStatement<'a>, BindError>)
    ensures
        updates_to(definitions@, key@, column@, value@, bound_view(bound)),
{
    let fields = definitions.fields();
    let updates = definitions.updates();
    let ghost names = updatable_names(definitions@);
    proof {
        lemma_positions_of(definitions@.fields, false);
    }
    let mut k: usize = 0;
    while k < updates.len()
        invariant
            k <= updates.len(),
            definitions@.wf(),
            columns_view(fields@) == definitions@.fields,
            updates_view(updates@) == definitions@.updates,
            names == updatable_names(definitions@),
            forall|i: int|
                0 <= i < positions_of(definitions@.fields, false).len() ==> 0 <= (
                #[trigger] positions_of(definitions@.fields, false)[i])
                    < definitions@.fields.len(),
            forall|j: int| 0 <= j < k ==> #[trigger] names[j] != column@,
        decreases updates.len() - k,
    {
        let method = &updates[k];
        proof {
            assert(definitions@.updates[k as int] == method@);
            assert(0 <= positions_of(definitions@.fields, false)[k as int]
                < definitions@.fields.len());
            assert(columns_view(fields@)[method.field as int] == fields[method.field as int]@);
        }
        let field = &fields[method.field];
        if same_text(field.name.as_str(), column) {
            let mut expected: Vec<Expectation> = Vec::new();
            expected.push(Expectation { column_type: field.column_type, nullable: field.nullable });
            let mut values: Vec<ValueRef<'a>> = Vec::new();
            values.push(value);
            let mut of_key = expectations_of_key(fields, definitions.key_fields());
            let mut key_values = copy_values(&key.values);
            expected.append(&mut of_key);
            values.append(&mut key_values);
            proof {
                assert(expected@ =~= update_expectations(definitions@, k as int));
                assert(refs_view(values@) =~= seq![value@] + key@);
                assert(first_named(names, column@, k as int));
                assert forall|k2: int| #[trigger] first_named(names, column@, k2) implies k2
                    == k by {
                    if k2 < k {
                        assert(names[k2] != column@);
                    } else if k < k2 {
                        assert(names[k as int] != column@);
                    }
                }
            }
            return match check_values(&expected, &values) {
                Err(error) => Err(error),
                Ok(()) => Ok(
                    BoundStatement {
                        kind: StatementKind::Update { field: method.field },
                        text: method.statement.as_str(),
                        values,
                    },
                ),
            };
        }
        k += 1;
    }
    Err(BindError::NotUpdatable)
}

/// What reading a row of the store gives: the row, where it has one fitting value for
/// each field; else the position of the first value that does not fit, or the number of
/// fields where the row has another number of values.
pub open spec fn decoded_to(
    fields: Seq<ColumnView>,
    row: Seq<ValueView>,
    outcome: Result<Seq<ValueView>, int>,
) -> bool {
    if row.len() != fields.len() {
        outcome == Err::<Seq<ValueView>, int>(fields.len() as int)
    } else if !values_fit(row_expectations(fields), row) {
        forall|i: int| #[trigger]
            first_unfit(row_expectations(fields), row, i) ==> outcome == Err::<Seq<ValueView>, int>(
                i,
            )
    } else {
        outcome == Ok::<Seq<ValueView>, int>(row)
    }
}

/// The outcome of reading a row of the store: the one that [`decoded_to`] describes.
pub open spec fn decoding_of(fields: Seq<ColumnView>, row: Seq<ValueView>) -> Result<
    Seq<ValueView>,
    int,
> {
    if row.len() != fields.len() {
        Err(fields.len() as int)
    } else if !values_fit(row_expectations(fields), row) {
        Err(choose|i: int| first_unfit(row_expectations(fields), row, i))
    } else {
        Ok(row)
    }
}

/// Reading a row has the outcome described.
pub proof fn lemma_decoding_exists(fields: Seq<ColumnView>, row: Seq<ValueView>)
    ensures
        decoded_to(fields, row, decoding_of(fields, row)),
{
    let expected = row_expectations(fields);
    if row.len() == fields.len() && !values_fit(expected, row) {
        let i = choose|i: int|
            0 <= i < row.len() && !(#[trigger] row[i]).fits(
                expected[i].column_type,
                expected[i].nullable,
            );
        lemma_first_unfit_exists(expected, row, i);
        let k = choose|k: int| 0 <= k <= i && #[trigger] first_unfit(expected, row, k);
        assert(first_unfit(expected, row, k));
        let chosen = choose|i: int| first_unfit(expected, row, i);
        assert(first_unfit(expected, row, chosen));
        assert forall|j: int| #[trigger] first_unfit(expected, row, j) implies j == chosen by {
            crate::binding::lemma_first_unfit_unique(expected, row, j, chosen);
        }
    }
}

/// Reading a row has no other outcome than the one described.
pub proof fn lemma_decoding_is_determined(
    fields: Seq<ColumnView>,
    row: Seq<ValueView>,
    outcome: Result<Seq<ValueView>, int>,
)
    requires
        decoded_to(fields, row, outcome),
    ensures
        outcome == decoding_of(fields, row),
{
    lemma_decoding_exists(fields, row);
    let expected = row_expectations(fields);
    if row.len() == fields.len() && !values_fit(expected, row) {
        let i = choose|i: int|
            0 <= i < row.len() && !(#[trigger] row[i]).fits(
                expected[i].column_type,
                expected[i].nullable,
            );
        lemma_first_unfit_exists(expected, row, i);
        let k = choose|k: int| 0 <= k <= i && #[trigger] first_unfit(expected, row, k);
        assert(first_unfit(expected, row, k));
    }
}

/// The mathematical value of a decoding's result.
pub open spec fn decoded_view(outcome: Result<Entity, usize>) -> Result<Seq<ValueView>, int> {
    match outcome {
        Ok(entity) => Ok(entity@),
        Err(column) => Err(column as int),
    }
}

/// Makes an entity of a row that came from the store and is to have the given fields.
pub fn decode_row(fields: &Vec<Column>, row: Vec<Value>) -> (outcome: Result<Entity, usize>)
    ensures
        decoded_view(outcome) == decoding_of(columns_view(fields@), row_view(row@)),
        outcome matches Err(column) ==> column <= fields.len(),
{
    let expected = expectations_of_row(fields);
    let ghost views = row_view(row@);
    let checked = {
        let borrowed = borrow_all(&row);
        check_values(&expected, &borrowed)
    };
    proof {
        crate::binding::lemma_bound_iff_fit(expected@, views, checked);
        if views.len() == expected@.len() && !values_fit(expected@, views) {
            let i = choose|i: int|
                0 <= i < views.len() && !(#[trigger] views[i]).fits(
                    expected@[i].column_type,
                    expected@[i].nullable,
                );
            lemma_first_unfit_exists(expected@, views, i);
            let k = choose|k: int| 0 <= k <= i && #[trigger] first_unfit(expected@, views, k);
            assert(first_unfit(expected@, views, k));
            assert(checked == Err::<(), BindError>(
                BindError::WrongType { position: k as usize, expected: expected@[k].column_type },
            ));
            assert forall|j: int| #[trigger] first_unfit(expected@, views, j) implies j == k by {
                crate::binding::lemma_first_unfit_unique(expected@, views, j, k);
            }
        }
    }
    let outcome = match checked {
        Ok(()) => Ok(Entity { values: row }),
        Err(BindError::WrongType { position, .. }) => Err(position),
        Err(_) => Err(fields.len()),
    };
    proof {
        lemma_decoding_is_determined(columns_view(fields@), views, decoded_view(outcome));
    }
    outcome
}

/// Makes an entity of a row that came from the store.
pub fn decode(definitions: &EntityDefinitionSet, row: Vec<Value>) -> (outcome: Result<
    Entity,
    usize,
>)
    ensures
        decoded_view(outcome) == decoding_of(definitions@.fields, row_view(row@)),
{
    decode_row(definitions.fields(), row)
}

/// The views of the rows of an answer, in order.
pub open spec fn rows_view(rows: Seq<Vec<Value>>) -> Seq<Seq<ValueView>> {
    rows.map_values(|row: Vec<Value>| row_view(row@))
}

/// The mathematical value of what the session answers to a read.
pub open spec fn answer_view(answer: Result<Vec<Vec<Value>>, QueryError>) -> Result<
    Seq<Seq<ValueView>>,
    QueryError,
> {
    match answer {
        Ok(rows) => Ok(rows_view(rows@)),
        Err(error) => Err(error),
    }
}

/// What the answer to `select_unique` means: the session's failure, unchanged; no row;
/// the one row, read; or `AmbiguousResult` where more than one row came back.
pub open spec fn unique_of(
    fields: Seq<ColumnView>,
    answer: Result<Seq<Seq<ValueView>>, QueryError>,
) -> Result<Option<Seq<ValueView>>, RunError> {
    match answer {
        Err(error) => Err(RunError::Execution(error)),
        Ok(rows) => if rows.len() == 0 {
            Ok(None)
        } else if rows.len() > 1 {
            Err(RunError::AmbiguousResult { rows: rows.len() as usize })
        } else {
            match decoding_of(fields, rows[0]) {
                Ok(row) => Ok(Some(row)),
                Err(column) => Err(RunError::Deserialization { row: 0, column: column as usize }),
            }
        },
    }
}

/// The mathematical value of a unique read's result.
pub open spec fn unique_view(outcome: Result<Option<Entity>, RunError>) -> Result<
    Option<Seq<ValueView>>,
    RunError,
> {
    match outcome {
        Ok(Some(entity)) => Ok(Some(entity@)),
        Ok(None) => Ok(None),
        Err(error) => Err(error),
    }
}

/// Turns the session's answer to `select_unique` into the row found, if any.
pub fn unique(definitions: &EntityDefinitionSet, answer: Result<Vec<Vec<Value>>, QueryError>) -> (outcome:
    Result<Option<Entity>, RunError>)
    ensures
        unique_view(outcome) == unique_of(definitions@.fields, answer_view(answer)),
{
    match answer {
        Err(error) => Err(RunError::Execution(error)),
        Ok(rows) => {
            let mut rows = rows;
            let count = rows.len();
            if count == 0 {
                Ok(None)
            } else if count > 1 {
                Err(RunError::AmbiguousResult { rows: count })
            } else {
                assert(rows_view(rows@)[0] == row_view(rows[0]@));
                let row = rows.pop().unwrap();
                match decode(definitions, row) {
                    Ok(entity) => Ok(Some(entity)),
                    Err(column) => Err(RunError::Deserialization { row: 0, column }),
                }
            }
        },
    }
}

/// What the answer to `select_unique_expect` means: as for `select_unique`, but no row
/// is the failure `RowNotFound`.
pub open spec fn expected_of(
    fields: Seq<ColumnView>,
    answer: Result<Seq<Seq<ValueView>>, QueryError>,
) -> Result<Seq<ValueView>, RunError> {
    match unique_of(fields, answer) {
        Ok(Some(row)) => Ok(row),
        Ok(None) => Err(RunError::RowNotFound),
        Err(error) => Err(error),
    }
}

/// The mathematical value of an expected unique read's result.
pub open spec fn found_view(outcome: Result<Entity, RunError>) -> Result<Seq<ValueView>, RunError> {
    match outcome {
        Ok(entity) => Ok(entity@),
        Err(error) => Err(error),
    }
}

/// Turns the session's answer to `select_unique_expect` into the row found.
pub fn expect_unique(
    definitions: &EntityDefinitionSet,
    answer: Result<Vec<Vec<Value>>, QueryError>,
) -> (outcome: Result<Entity, RunError>)
    ensures
        found_view(outcome) == expected_of(definitions@.fields, answer_view(answer)),
{
    match unique(definitions, answer) {
        Ok(Some(entity)) => Ok(entity),
        Ok(None) => Err(RunError::RowNotFound),
        Err(error) => Err(error),
    }
}

/// Turns the session's answer to a write into the operation's result: the session's
/// failure is handed on unchanged, and nothing else is a failure. Deleting a row that
/// does not exist is therefore no error.
pub fn written(answer: Result<(), QueryError>) -> (outcome: Result<(), RunError>)
    ensures
        outcome == match answer {
            Ok(()) => Ok::<(), RunError>(()),
            Err(error) => Err::<(), RunError>(RunError::Execution(error)),
        },
{
    match answer {
        Ok(()) => Ok(()),
        Err(error) => Err(RunError::Execution(error)),
    }
}

} // verus!

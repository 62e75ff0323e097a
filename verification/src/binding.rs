//! Checking values against the types that a statement expects of them.
use crate::error::BindError;
use crate::schema::{
    columns_view, lemma_positions_of, positions_of, Column, ColumnType, ColumnView,
};
use crate::generator::positions_view;
use crate::values::{refs_view, ValueRef, ValueView};
use vstd::prelude::*;

verus! {

/// What a statement expects of one value.
#[derive(Clone, Copy, Debug, PartialEq, Eq, Structural)]
pub struct Expectation {
    pub column_type: ColumnType,
    pub nullable: bool,
}

/// What a column expects of its value.
pub open spec fn expectation_of(column: ColumnView) -> Expectation {
    Expectation { column_type: column.column_type, nullable: column.nullable }
}

/// What the fields expect of a full row.
pub open spec fn row_expectations(fields: Seq<ColumnView>) -> Seq<Expectation> {
    fields.map_values(|field: ColumnView| expectation_of(field))
}

/// What the key fields expect of a primary key.
pub open spec fn key_expectations(fields: Seq<ColumnView>) -> Seq<Expectation> {
    positions_of(fields, true).map_values(|position: int| expectation_of(fields[position]))
}

/// What bound parameters of the given types are expected to be: never null.
pub open spec fn parameter_expectations(types: Seq<ColumnType>) -> Seq<Expectation> {
    types.map_values(|column_type: ColumnType| Expectation { column_type, nullable: false })
}

/// Whether there is one value for each expectation and each value fits.
pub open spec fn values_fit(expected: Seq<Expectation>, values: Seq<ValueView>) -> bool {
    &&& values.len() == expected.len()
    &&& forall|i: int|
        0 <= i < values.len() ==> (#[trigger] values[i]).fits(
            expected[i].column_type,
            expected[i].nullable,
        )
}

/// Whether the value at `i` is the first that does not fit.
pub open spec fn first_unfit(expected: Seq<Expectation>, values: Seq<ValueView>, i: int) -> bool {
    &&& 0 <= i < values.len()
    &&& i < expected.len()
    &&& !values[i].fits(expected[i].column_type, expected[i].nullable)
    &&& forall|j: int|
        0 <= j < i ==> (#[trigger] values[j]).fits(expected[j].column_type, expected[j].nullable)
}

/// What the check of values against expectations gives: `WrongCount` where their numbers
/// differ, else `WrongType` for the first value that does not fit, else success.
pub open spec fn bound_to(
    expected: Seq<Expectation>,
    values: Seq<ValueView>,
    outcome: Result<(), BindError>,
) -> bool {
    if values.len() != expected.len() {
        outcome == Err::<(), BindError>(
            BindError::WrongCount {
                wanted: expected.len() as usize,
                supplied: values.len() as usize,
            },
        )
    } else if !values_fit(expected, values) {
        forall|i: int| #[trigger]
            first_unfit(expected, values, i) ==> outcome == Err::<(), BindError>(
                BindError::WrongType { position: i as usize, expected: expected[i].column_type },
            )
    } else {
        outcome == Ok::<(), BindError>(())
    }
}

/// Where a value does not fit, one value is the first that does not.
pub proof fn lemma_first_unfit_exists(expected: Seq<Expectation>, values: Seq<ValueView>, i: int)
    requires
        0 <= i < values.len(),
        values.len() == expected.len(),
        !values[i].fits(expected[i].column_type, expected[i].nullable),
    ensures
        exists|k: int| 0 <= k <= i && #[trigger] first_unfit(expected, values, k),
    decreases i,
{
    if forall|j: int|
        0 <= j < i ==> (#[trigger] values[j]).fits(expected[j].column_type, expected[j].nullable) {
        assert(first_unfit(expected, values, i));
    } else {
        let j = choose|j: int|
            0 <= j < i && !(#[trigger] values[j]).fits(
                expected[j].column_type,
                expected[j].nullable,
            );
        lemma_first_unfit_exists(expected, values, j);
    }
}

/// At most one value is the first that does not fit.
pub proof fn lemma_first_unfit_unique(
    expected: Seq<Expectation>,
    values: Seq<ValueView>,
    i: int,
    j: int,
)
    requires
        first_unfit(expected, values, i),
        first_unfit(expected, values, j),
    ensures
        i == j,
{
    if i < j {
        assert(values[i].fits(expected[i].column_type, expected[i].nullable));
    } else if j < i {
        assert(values[j].fits(expected[j].column_type, expected[j].nullable));
    }
}

/// Values that fit are bound without error, and only they are.
pub proof fn lemma_bound_iff_fit(
    expected: Seq<Expectation>,
    values: Seq<ValueView>,
    outcome: Result<(), BindError>,
)
    requires
        bound_to(expected, values, outcome),
    ensures
        outcome is Ok <==> values_fit(expected, values),
{
    if values.len() == expected.len() && !values_fit(expected, values) {
        let i = choose|i: int|
            0 <= i < values.len() && !(#[trigger] values[i]).fits(
                expected[i].column_type,
                expected[i].nullable,
            );
        lemma_first_unfit_exists(expected, values, i);
        let k = choose|k: int| 0 <= k <= i && #[trigger] first_unfit(expected, values, k);
        assert(first_unfit(expected, values, k));
    }
}

/// Checks values against what is expected of them.
pub fn check_values(expected: &Vec<Expectation>, values: &Vec<ValueRef<'_>>) -> (outcome: Result<
    (),
    BindError,
>)
    ensures
        bound_to(expected@, refs_view(values@), outcome),
{
    let ghost views = refs_view(values@);
    if values.len() != expected.len() {
        return Err(BindError::WrongCount { wanted: expected.len(), supplied: values.len() });
    }
    let mut i: usize = 0;
    while i < values.len()
        invariant
            i <= values.len(),
            values.len() == expected.len(),
            views == refs_view(values@),
            forall|j: int|
                0 <= j < i ==> (#[trigger] views[j]).fits(
                    expected[j].column_type,
                    expected[j].nullable,
                ),
        decreases values.len() - i,
    {
        assert(views[i as int] == values[i as int]@);
        if !values[i].fits(expected[i].column_type, expected[i].nullable) {
            proof {
                assert(first_unfit(expected@, views, i as int));
                assert forall|k: int| #[trigger] first_unfit(expected@, views, k) implies k
                    == i by {
                    lemma_first_unfit_unique(expected@, views, k, i as int);
                }
            }
            return Err(BindError::WrongType { position: i, expected: expected[i].column_type });
        }
        i += 1;
    }
    Ok(())
}

/// What the fields expect of a full row.
pub(crate) fn expectations_of_row(fields: &Vec<Column>) -> (expected: Vec<Expectation>)
    ensures
        expected@ == row_expectations(columns_view(fields@)),
{
    let mut expected: Vec<Expectation> = Vec::new();
    let mut i: usize = 0;
    while i < fields.len()
        invariant
            i <= fields.len(),
            expected.len() == i,
            forall|j: int| 0 <= j < i ==> (#[trigger] expected[j]) == expectation_of(fields[j]@),
        decreases fields.len() - i,
    {
        expected.push(
            Expectation { column_type: fields[i].column_type, nullable: fields[i].nullable },
        );
        i += 1;
    }
    assert(expected@ =~= row_expectations(columns_view(fields@)));
    expected
}

/// What the key fields expect of a primary key.
pub(crate) fn expectations_of_key(fields: &Vec<Column>, keys: &Vec<usize>) -> (expected: Vec<Expectation>)
    requires
        positions_view(keys@) == positions_of(columns_view(fields@), true),
    ensures
        expected@ == key_expectations(columns_view(fields@)),
{
    let ghost views = columns_view(fields@);
    let ghost positions = positions_of(views, true);
    proof {
        lemma_positions_of(views, true);
    }
    let mut expected: Vec<Expectation> = Vec::new();
    let mut i: usize = 0;
    while i < keys.len()
        invariant
            i <= keys.len(),
            views == columns_view(fields@),
            positions == positions_of(views, true),
            positions_view(keys@) == positions,
            forall|k: int| 0 <= k < positions.len() ==> 0 <= (#[trigger] positions[k]) < views.len(),
            expected.len() == i,
            forall|j: int|
                0 <= j < i ==> (#[trigger] expected[j]) == expectation_of(views[positions[j]]),
        decreases keys.len() - i,
    {
        assert(positions_view(keys@)[i as int] == keys[i as int] as int);
        assert(0 <= positions[i as int] < views.len());
        let field = &fields[keys[i]];
        expected.push(Expectation { column_type: field.column_type, nullable: field.nullable });
        i += 1;
    }
    assert(expected@ =~= key_expectations(views));
    expected
}

/// What bound parameters of the given types are expected to be.
pub(crate) fn expectations_of_parameters(types: &Vec<ColumnType>) -> (expected: Vec<Expectation>)
    ensures
        expected@ == parameter_expectations(types@),
{
    let mut expected: Vec<Expectation> = Vec::new();
    let mut i: usize = 0;
    while i < types.len()
        invariant
            i <= types.len(),
            expected.len() == i,
            forall|j: int|
                0 <= j < i ==> (#[trigger] expected[j]) == (Expectation {
                    column_type: types[j],
                    nullable: false,
                }),
        decreases types.len() - i,
    {
        expected.push(Expectation { column_type: types[i], nullable: false });
        i += 1;
    }
    assert(expected@ =~= parameter_expectations(types@));
    expected
}

} // verus!

//! Holding a query template against a table schema before the program runs.
use crate::error::{BuildError, BuildErrorView, OperandType};
use crate::parser::{
    bindings_view, names_view, parse, parse_spec, Binding, BindingView, ColumnRef, ColumnRefView,
    OperandKind, OperandView, Operation, ParsedQuery, ParsedQueryView,
};
use crate::schema::{columns_view, Column, ColumnType, ColumnView, TableSchema, TableSchemaView};
use crate::text::same_text;
use vstd::prelude::*;

verus! {

/// An expression supplied for a placeholder, with the type it is known to have.
#[derive(Debug)]
pub struct ParamExpr {
    /// The expression as written.
    pub text: String,
    /// The type of the expression's value.
    pub value_type: ColumnType,
}

/// The mathematical value of a [`ParamExpr`].
pub struct ParamExprView {
    pub text: Seq<char>,
    pub value_type: ColumnType,
}

impl View for ParamExpr {
    type V = ParamExprView;

    open spec fn view(&self) -> ParamExprView {
        ParamExprView { text: self.text@, value_type: self.value_type }
    }
}

/// The views of the supplied parameters, in order.
pub open spec fn params_view(params: Seq<ParamExpr>) -> Seq<ParamExprView> {
    params.map_values(|param: ParamExpr| param@)
}

/// The types of the supplied parameters, in order.
pub open spec fn types_of(params: Seq<ParamExprView>) -> Seq<ColumnType> {
    params.map_values(|param: ParamExprView| param.value_type)
}

/// A validated query: the statement text as it was written, the type that each
/// placeholder expects, in order, and the columns of the rows that come back.
#[derive(Debug)]
pub struct QueryDescriptor {
    statement: String,
    operation: Operation,
    parameter_types: Vec<ColumnType>,
    row_shape: Vec<Column>,
}

/// The mathematical value of a [`QueryDescriptor`].
pub struct QueryDescriptorView {
    pub statement: Seq<char>,
    pub operation: Operation,
    pub parameter_types: Seq<ColumnType>,
    pub row_shape: Seq<ColumnView>,
}

impl View for QueryDescriptor {
    type V = QueryDescriptorView;

    closed spec fn view(&self) -> QueryDescriptorView {
        QueryDescriptorView {
            statement: self.statement@,
            operation: self.operation,
            parameter_types: self.parameter_types@,
            row_shape: columns_view(self.row_shape@),
        }
    }
}

impl QueryDescriptor {
    /// The statement text, exactly as the template was written.
    pub fn statement(&self) -> (text: &str)
        ensures
            text@ == self@.statement,
    {
        self.statement.as_str()
    }

    /// What the statement does.
    pub fn operation(&self) -> (operation: Operation)
        ensures
            operation == self@.operation,
    {
        self.operation
    }

    /// The type that each placeholder expects, in the order of the placeholders.
    pub fn parameter_types(&self) -> (types: &Vec<ColumnType>)
        ensures
            types@ == self@.parameter_types,
    {
        &self.parameter_types
    }

    /// The columns of the rows that the statement returns, in order.
    pub fn row_shape(&self) -> (columns: &Vec<Column>)
        ensures
            columns_view(columns@) == self@.row_shape,
    {
        &self.row_shape
    }
}

/// The columns of a list of bindings, in order.
pub open spec fn columns_of(bindings: Seq<BindingView>) -> Seq<ColumnRefView> {
    bindings.map_values(|binding: BindingView| binding.column)
}

/// The columns that a statement names, in the order in which the template names them.
pub open spec fn referenced(query: ParsedQueryView) -> Seq<ColumnRefView> {
    query.selected + columns_of(bindings(query))
}

/// The slots that a list of bindings makes, in order.
pub open spec fn slots_of(schema: TableSchemaView, bindings: Seq<BindingView>) -> Seq<SlotView> {
    bindings.map_values(|binding: BindingView| slot_of(schema, binding))
}

/// The assignments and comparisons of a statement, in the order of the template.
pub open spec fn bindings(query: ParsedQueryView) -> Seq<BindingView> {
    query.assignments + query.conditions
}

/// Whether the table has every column of the list.
pub open spec fn all_known(schema: TableSchemaView, names: Seq<ColumnRefView>) -> bool {
    forall|i: int| 0 <= i < names.len() ==> schema.has_column((#[trigger] names[i]).name)
}

/// Whether the name at `i` is the first of the list that the table lacks.
pub open spec fn first_unknown(schema: TableSchemaView, names: Seq<ColumnRefView>, i: int) -> bool {
    &&& 0 <= i < names.len()
    &&& !schema.has_column(names[i].name)
    &&& forall|j: int| 0 <= j < i ==> schema.has_column((#[trigger] names[j]).name)
}

/// The table's column of the given name; meant for names that the table has.
pub open spec fn column_named(schema: TableSchemaView, name: Seq<char>) -> ColumnView {
    schema.columns[schema.position_of(name).unwrap()]
}

/// A place in a statement where a value stands: the column it belongs to, the type that
/// is expected there, and what the template wrote.
pub struct SlotView {
    pub column: Seq<char>,
    pub position: int,
    pub expected: ColumnType,
    pub kind: OperandKind,
}

/// A place in a statement where a value stands.
#[derive(Debug)]
pub struct Slot {
    /// The column that the value belongs to.
    pub column: String,
    /// The character offset of the operand in the template.
    pub position: usize,
    /// The type that is expected there.
    pub expected: ColumnType,
    /// What the template wrote there.
    pub kind: OperandKind,
}

impl View for Slot {
    type V = SlotView;

    open spec fn view(&self) -> SlotView {
        SlotView {
            column: self.column@,
            position: self.position as int,
            expected: self.expected,
            kind: self.kind,
        }
    }
}

/// The views of a list of slots, in order.
pub open spec fn slots_view(slots: Seq<Slot>) -> Seq<SlotView> {
    slots.map_values(|slot: Slot| slot@)
}

/// The place that a binding makes.
pub open spec fn slot_of(schema: TableSchemaView, binding: BindingView) -> SlotView {
    SlotView {
        column: binding.column.name,
        position: binding.operand.position,
        expected: column_named(schema, binding.column.name).column_type,
        kind: binding.operand.kind,
    }
}

/// The place that the operand of a `limit` clause makes: a whole number is expected.
pub open spec fn limit_slot(operand: OperandView) -> SlotView {
    SlotView {
        column: "limit"@,
        position: operand.position,
        expected: ColumnType::Int,
        kind: operand.kind,
    }
}

/// The places of a statement where values stand, in the order of the template.
pub open spec fn slots(schema: TableSchemaView, query: ParsedQueryView) -> Seq<SlotView> {
    slots_of(schema, bindings(query)) + match query.limit {
        Some(operand) => seq![limit_slot(operand)],
        None => Seq::empty(),
    }
}

/// The operands of a statement, in the order of the template.
pub open spec fn operands(query: ParsedQueryView) -> Seq<OperandView> {
    bindings(query).map_values(|binding: BindingView| binding.operand) + match query.limit {
        Some(operand) => seq![operand],
        None => Seq::empty(),
    }
}

/// The character offsets of the placeholders among the operands, in order.
pub open spec fn placeholder_positions(operands: Seq<OperandView>) -> Seq<int>
    decreases operands.len(),
{
    if operands.len() == 0 {
        Seq::empty()
    } else if operands.last().kind == OperandKind::Placeholder {
        placeholder_positions(operands.drop_last()).push(operands.last().position)
    } else {
        placeholder_positions(operands.drop_last())
    }
}

/// The number of placeholders that a statement holds.
pub open spec fn placeholder_count(query: ParsedQueryView) -> nat {
    placeholder_positions(operands(query)).len()
}

/// The error of a statement that holds another number of placeholders than parameters
/// were supplied. It names the first placeholder that lacks a parameter, or else the
/// first parameter that is left over.
pub open spec fn arity_error(query: ParsedQueryView, params: Seq<ParamExprView>) -> BuildErrorView {
    let positions = placeholder_positions(operands(query));
    if positions.len() > params.len() {
        BuildErrorView::ArityMismatch {
            placeholders: positions.len() as int,
            supplied: params.len() as int,
            token: "?"@,
            position: positions[params.len() as int],
        }
    } else {
        BuildErrorView::ArityMismatch {
            placeholders: positions.len() as int,
            supplied: params.len() as int,
            token: params[positions.len() as int].text,
            position: positions.len() as int,
        }
    }
}

/// The character offsets of the placeholders among the slots, in order.
pub open spec fn expected_positions(slots: Seq<SlotView>) -> Seq<int>
    decreases slots.len(),
{
    if slots.len() == 0 {
        Seq::empty()
    } else if slots.last().kind == OperandKind::Placeholder {
        expected_positions(slots.drop_last()).push(slots.last().position)
    } else {
        expected_positions(slots.drop_last())
    }
}

/// The types that the placeholders among the slots expect, in order.
pub open spec fn expected_parameters(slots: Seq<SlotView>) -> Seq<ColumnType>
    decreases slots.len(),
{
    if slots.len() == 0 {
        Seq::empty()
    } else if slots.last().kind == OperandKind::Placeholder {
        expected_parameters(slots.drop_last()).push(slots.last().expected)
    } else {
        expected_parameters(slots.drop_last())
    }
}

/// The number of placeholders that stand before the slot at `i`.
pub open spec fn rank(slots: Seq<SlotView>, i: int) -> int {
    expected_parameters(slots.take(i)).len() as int
}

/// The type of what stands in the slot at `i`: a literal's own type, or the type of the
/// parameter supplied for a placeholder.
pub open spec fn found_type(slots: Seq<SlotView>, params: Seq<ColumnType>, i: int) -> OperandType {
    match slots[i].kind {
        OperandKind::Placeholder => OperandType::Column(params[rank(slots, i)]),
        OperandKind::Integer => OperandType::IntegerLiteral,
        OperandKind::Text => OperandType::TextLiteral,
        OperandKind::Boolean => OperandType::BooleanLiteral,
    }
}

/// Whether a value of type `found` can stand where `expected` is asked for.
pub open spec fn fits(expected: ColumnType, found: OperandType) -> bool {
    match found {
        OperandType::Column(other) => expected.accepts_spec(other),
        OperandType::IntegerLiteral => expected.is_integral() || expected == ColumnType::Float
            || expected == ColumnType::Double,
        OperandType::TextLiteral => expected.is_textual(),
        OperandType::BooleanLiteral => expected == ColumnType::Boolean,
    }
}

/// Whether every slot holds a value of a fitting type.
pub open spec fn all_fit(slots: Seq<SlotView>, params: Seq<ColumnType>) -> bool {
    forall|i: int|
        0 <= i < slots.len() ==> fits(slots[i].expected, #[trigger] found_type(slots, params, i))
}

/// Whether the slot at `i` is the first that holds a value of an unfitting type.
pub open spec fn first_misfit(slots: Seq<SlotView>, params: Seq<ColumnType>, i: int) -> bool {
    &&& 0 <= i < slots.len()
    &&& !fits(slots[i].expected, found_type(slots, params, i))
    &&& forall|j: int|
        0 <= j < i ==> fits(slots[j].expected, #[trigger] found_type(slots, params, j))
}

/// The columns of the rows that a statement returns: for a `select`, every column of the
/// table where it asks for `*`, else the columns it lists; for any other statement, none.
pub open spec fn row_shape(schema: TableSchemaView, query: ParsedQueryView) -> Seq<ColumnView> {
    if query.operation != Operation::Select {
        Seq::empty()
    } else if query.wildcard {
        schema.columns
    } else {
        query.selected.map_values(|name: ColumnRefView| column_named(schema, name.name))
    }
}

/// The descriptor of a statement that passed every check.
pub open spec fn descriptor_of(
    schema: TableSchemaView,
    template: Seq<char>,
    query: ParsedQueryView,
) -> QueryDescriptorView {
    QueryDescriptorView {
        statement: template,
        operation: query.operation,
        parameter_types: expected_parameters(slots(schema, query)),
        row_shape: row_shape(schema, query),
    }
}

/// What the checks make of a parsed statement. In this order:
/// the statement must address the schema's table (`SchemaNotFound`); every column it
/// names must exist, the first that does not being reported (`UnknownColumn`); it must
/// hold as many placeholders as parameters were supplied (`ArityMismatch`); and every
/// literal and every parameter must fit the type of its column, the first that does not
/// being reported (`TypeMismatch`). A statement that passes gets its descriptor.
pub open spec fn checked_to(
    schema: TableSchemaView,
    template: Seq<char>,
    query: ParsedQueryView,
    params: Seq<ParamExprView>,
    outcome: Result<QueryDescriptorView, BuildErrorView>,
) -> bool {
    let names = referenced(query);
    let places = slots(schema, query);
    let types = types_of(params);
    if query.table.name != schema.table {
        outcome == Err::<QueryDescriptorView, BuildErrorView>(
            BuildErrorView::SchemaNotFound { table: query.table.name },
        )
    } else if !all_known(schema, names) {
        forall|i: int| #[trigger]
            first_unknown(schema, names, i) ==> outcome == Err::<
                QueryDescriptorView,
                BuildErrorView,
            >(BuildErrorView::UnknownColumn { column: names[i].name, position: names[i].position })
    } else if placeholder_count(query) != params.len() {
        outcome == Err::<QueryDescriptorView, BuildErrorView>(arity_error(query, params))
    } else if !all_fit(places, types) {
        forall|i: int| #[trigger]
            first_misfit(places, types, i) ==> outcome == Err::<
                QueryDescriptorView,
                BuildErrorView,
            >(
                BuildErrorView::TypeMismatch {
                    column: places[i].column,
                    position: places[i].position,
                    expected: places[i].expected,
                    found: found_type(places, types, i),
                },
            )
    } else {
        outcome == Ok::<QueryDescriptorView, BuildErrorView>(descriptor_of(schema, template, query))
    }
}

/// What validation makes of a template: `Malformed`, with the offset at which the
/// template leaves the grammar, or what the checks make of the statement it holds.
pub open spec fn validates_to(
    schema: TableSchemaView,
    template: Seq<char>,
    params: Seq<ParamExprView>,
    outcome: Result<QueryDescriptorView, BuildErrorView>,
) -> bool {
    match parse_spec(template) {
        Err(position) => outcome == Err::<QueryDescriptorView, BuildErrorView>(
            BuildErrorView::Malformed { position },
        ),
        Ok(query) => checked_to(schema, template, query, params, outcome),
    }
}

/// The mathematical value of a validation's result.
pub open spec fn outcome_view(outcome: Result<QueryDescriptor, BuildError>) -> Result<
    QueryDescriptorView,
    BuildErrorView,
> {
    match outcome {
        Ok(descriptor) => Ok(descriptor@),
        Err(error) => Err(error@),
    }
}

/// The first missing name of a list is the first missing name of the list with more
/// names after it.
pub proof fn lemma_first_unknown_in_front(
    schema: TableSchemaView,
    front: Seq<ColumnRefView>,
    back: Seq<ColumnRefView>,
    i: int,
)
    requires
        first_unknown(schema, front, i),
    ensures
        first_unknown(schema, front + back, i),
        (front + back)[i] == front[i],
{
    let all = front + back;
    assert forall|j: int| 0 <= j < i implies schema.has_column((#[trigger] all[j]).name) by {
        assert(all[j] == front[j]);
    }
}

/// Behind a list without missing names, the first missing name of a second list is the
/// first missing name of both.
pub proof fn lemma_first_unknown_behind(
    schema: TableSchemaView,
    front: Seq<ColumnRefView>,
    back: Seq<ColumnRefView>,
    i: int,
)
    requires
        all_known(schema, front),
        first_unknown(schema, back, i),
    ensures
        first_unknown(schema, front + back, front.len() + i),
        (front + back)[front.len() + i] == back[i],
{
    let all = front + back;
    assert forall|j: int| 0 <= j < front.len() + i implies schema.has_column(
        (#[trigger] all[j]).name,
    ) by {
        if j < front.len() {
            assert(all[j] == front[j]);
        } else {
            assert(all[j] == back[j - front.len()]);
        }
    }
}

/// Two lists without missing names make one without.
pub proof fn lemma_all_known_joined(
    schema: TableSchemaView,
    front: Seq<ColumnRefView>,
    back: Seq<ColumnRefView>,
)
    requires
        all_known(schema, front),
        all_known(schema, back),
    ensures
        all_known(schema, front + back),
{
    let all = front + back;
    assert forall|j: int| 0 <= j < all.len() implies schema.has_column((#[trigger] all[j]).name) by {
        if j < front.len() {
            assert(all[j] == front[j]);
        } else {
            assert(all[j] == back[j - front.len()]);
        }
    }
}

/// Slots and operands that agree in kind and position, place by place, hold the same
/// placeholders.
pub proof fn lemma_placeholders_counted(slots: Seq<SlotView>, operands: Seq<OperandView>)
    requires
        slots.len() == operands.len(),
        forall|i: int|
            0 <= i < slots.len() ==> (#[trigger] slots[i]).kind == operands[i].kind
                && slots[i].position == operands[i].position,
    ensures
        expected_parameters(slots).len() == placeholder_positions(operands).len(),
        expected_positions(slots) == placeholder_positions(operands),
    decreases slots.len(),
{
    if slots.len() > 0 {
        assert(slots.last().kind == operands[slots.len() - 1].kind);
        assert(slots.last().position == operands[slots.len() - 1].position);
        assert forall|i: int| 0 <= i < slots.drop_last().len() implies (
            #[trigger] slots.drop_last()[i]).kind == operands.drop_last()[i].kind
            && slots.drop_last()[i].position == operands.drop_last()[i].position by {
            assert(slots.drop_last()[i] == slots[i]);
        }
        lemma_placeholders_counted(slots.drop_last(), operands.drop_last());
    }
}

/// A statement needs as many parameters as it holds placeholders, and its slots hold
/// the placeholders where its operands do.
pub proof fn lemma_parameters_match_placeholders(schema: TableSchemaView, query: ParsedQueryView)
    ensures
        expected_parameters(slots(schema, query)).len() == placeholder_count(query),
        expected_positions(slots(schema, query)) == placeholder_positions(operands(query)),
{
    let places = slots(schema, query);
    let values = operands(query);
    assert(places.len() == values.len());
    assert forall|i: int| 0 <= i < places.len() implies (#[trigger] places[i]).kind
        == values[i].kind && places[i].position == values[i].position by {
        if i < bindings(query).len() {
            assert(places[i] == slot_of(schema, bindings(query)[i]));
            assert(values[i] == bindings(query)[i].operand);
        }
    }
    lemma_placeholders_counted(places, values);
}

/// Where the table lacks a name of the list, one name is the first that it lacks.
pub proof fn lemma_first_unknown_exists(schema: TableSchemaView, names: Seq<ColumnRefView>, i: int)
    requires
        0 <= i < names.len(),
        !schema.has_column(names[i].name),
    ensures
        exists|k: int| 0 <= k <= i && #[trigger] first_unknown(schema, names, k),
    decreases i,
{
    if forall|j: int| 0 <= j < i ==> schema.has_column((#[trigger] names[j]).name) {
        assert(first_unknown(schema, names, i));
    } else {
        let j = choose|j: int| 0 <= j < i && !schema.has_column((#[trigger] names[j]).name);
        lemma_first_unknown_exists(schema, names, j);
    }
}

/// Where a slot holds a value of an unfitting type, one slot is the first that does.
pub proof fn lemma_first_misfit_exists(slots: Seq<SlotView>, params: Seq<ColumnType>, i: int)
    requires
        0 <= i < slots.len(),
        !fits(slots[i].expected, found_type(slots, params, i)),
    ensures
        exists|k: int| 0 <= k <= i && #[trigger] first_misfit(slots, params, k),
    decreases i,
{
    if forall|j: int|
        0 <= j < i ==> fits(slots[j].expected, #[trigger] found_type(slots, params, j)) {
        assert(first_misfit(slots, params, i));
    } else {
        let j = choose|j: int|
            0 <= j < i && !fits(slots[j].expected, #[trigger] found_type(slots, params, j));
        lemma_first_misfit_exists(slots, params, j);
    }
}

/// Validation has one outcome: two results that both meet its contract are equal.
pub proof fn lemma_validation_is_determined(
    schema: TableSchemaView,
    template: Seq<char>,
    params: Seq<ParamExprView>,
    first: Result<QueryDescriptorView, BuildErrorView>,
    second: Result<QueryDescriptorView, BuildErrorView>,
)
    requires
        validates_to(schema, template, params, first),
        validates_to(schema, template, params, second),
    ensures
        first == second,
{
    if let Ok(query) = parse_spec(template) {
        let names = referenced(query);
        let places = slots(schema, query);
        if query.table.name != schema.table {
        } else if !all_known(schema, names) {
            let i = choose|i: int| 0 <= i < names.len() && !schema.has_column((#[trigger] names[i]).name);
            lemma_first_unknown_exists(schema, names, i);
            let k = choose|k: int| 0 <= k <= i && #[trigger] first_unknown(schema, names, k);
            assert(first_unknown(schema, names, k));
        } else if placeholder_count(query) != params.len() {
        } else if !all_fit(places, types_of(params)) {
            let types = types_of(params);
            let i = choose|i: int|
                0 <= i < places.len() && !fits(
                    places[i].expected,
                    #[trigger] found_type(places, types, i),
                );
            lemma_first_misfit_exists(places, types, i);
            let k = choose|k: int| 0 <= k <= i && #[trigger] first_misfit(places, types, k);
            assert(first_misfit(places, types, k));
        }
    }
}

/// A template that names a column which the table lacks is never accepted: validation
/// fails with `UnknownColumn`, whatever parameters are supplied. This holds of every
/// template that is a statement of the grammar and addresses the schema's table.
pub proof fn lemma_missing_column_is_rejected(
    schema: TableSchemaView,
    template: Seq<char>,
    params: Seq<ParamExprView>,
    outcome: Result<QueryDescriptorView, BuildErrorView>,
    i: int,
)
    requires
        parse_spec(template) is Ok,
        parse_spec(template)->Ok_0.table.name == schema.table,
        0 <= i < referenced(parse_spec(template)->Ok_0).len(),
        !schema.has_column(referenced(parse_spec(template)->Ok_0)[i].name),
        validates_to(schema, template, params, outcome),
    ensures
        outcome is Err,
        outcome->Err_0 is UnknownColumn,
{
    let query = parse_spec(template)->Ok_0;
    let names = referenced(query);
    lemma_first_unknown_exists(schema, names, i);
    let k = choose|k: int| 0 <= k <= i && #[trigger] first_unknown(schema, names, k);
    assert(first_unknown(schema, names, k));
}

/// A template whose number of placeholders differs from the number of supplied
/// parameters fails with `ArityMismatch`. This holds of every template that is a
/// statement of the grammar, addresses the schema's table and names only columns that
/// the table has.
pub proof fn lemma_wrong_arity_is_rejected(
    schema: TableSchemaView,
    template: Seq<char>,
    params: Seq<ParamExprView>,
    outcome: Result<QueryDescriptorView, BuildErrorView>,
)
    requires
        parse_spec(template) is Ok,
        parse_spec(template)->Ok_0.table.name == schema.table,
        all_known(schema, referenced(parse_spec(template)->Ok_0)),
        placeholder_count(parse_spec(template)->Ok_0) != params.len(),
        validates_to(schema, template, params, outcome),
    ensures
        outcome == Err::<QueryDescriptorView, BuildErrorView>(
            arity_error(parse_spec(template)->Ok_0, params),
        ),
        outcome->Err_0 is ArityMismatch,
{
}

/// A descriptor is only made where every check passed: it then holds the template
/// unchanged and one parameter type for each placeholder.
pub proof fn lemma_accepted_means_checked(
    schema: TableSchemaView,
    template: Seq<char>,
    params: Seq<ParamExprView>,
    outcome: Result<QueryDescriptorView, BuildErrorView>,
)
    requires
        validates_to(schema, template, params, outcome),
        outcome is Ok,
    ensures
        parse_spec(template) is Ok,
        all_known(schema, referenced(parse_spec(template)->Ok_0)),
        all_fit(slots(schema, parse_spec(template)->Ok_0), types_of(params)),
        outcome->Ok_0.statement == template,
        outcome->Ok_0.parameter_types.len() == params.len(),
        params.len() == placeholder_count(parse_spec(template)->Ok_0),
{
    let query = parse_spec(template)->Ok_0;
    let names = referenced(query);
    let places = slots(schema, query);
    lemma_parameters_match_placeholders(schema, query);
    if query.table.name != schema.table {
    } else if !all_known(schema, names) {
        let i = choose|i: int| 0 <= i < names.len() && !schema.has_column((#[trigger] names[i]).name);
        lemma_first_unknown_exists(schema, names, i);
        let k = choose|k: int| 0 <= k <= i && #[trigger] first_unknown(schema, names, k);
        assert(first_unknown(schema, names, k));
    } else if placeholder_count(query) != params.len() {
    } else if !all_fit(places, types_of(params)) {
        let types = types_of(params);
        let i = choose|i: int|
            0 <= i < places.len() && !fits(
                places[i].expected,
                #[trigger] found_type(places, types, i),
            );
        lemma_first_misfit_exists(places, types, i);
        let k = choose|k: int| 0 <= k <= i && #[trigger] first_misfit(places, types, k);
        assert(first_misfit(places, types, k));
    }
}

/// At most one name is the first that the table lacks.
pub proof fn lemma_first_unknown_unique(
    schema: TableSchemaView,
    names: Seq<ColumnRefView>,
    i: int,
    j: int,
)
    requires
        first_unknown(schema, names, i),
        first_unknown(schema, names, j),
    ensures
        i == j,
{
    if i < j {
        assert(schema.has_column(names[i].name));
    } else if j < i {
        assert(schema.has_column(names[j].name));
    }
}

/// At most one slot is the first that holds a value of an unfitting type.
pub proof fn lemma_first_misfit_unique(
    slots: Seq<SlotView>,
    params: Seq<ColumnType>,
    i: int,
    j: int,
)
    requires
        first_misfit(slots, params, i),
        first_misfit(slots, params, j),
    ensures
        i == j,
{
    if i < j {
        assert(fits(slots[i].expected, found_type(slots, params, i)));
    } else if j < i {
        assert(fits(slots[j].expected, found_type(slots, params, j)));
    }
}

/// How the number of placeholders before a slot grows from one slot to the next, and
/// that it never exceeds the number of all placeholders.
pub proof fn lemma_rank_step(slots: Seq<SlotView>, i: int)
    requires
        0 <= i < slots.len(),
    ensures
        rank(slots, i + 1) == rank(slots, i) + if slots[i].kind == OperandKind::Placeholder {
            1int
        } else {
            0int
        },
        rank(slots, i + 1) <= expected_parameters(slots).len(),
        expected_parameters(slots.take(i + 1)) == if slots[i].kind == OperandKind::Placeholder {
            expected_parameters(slots.take(i)).push(slots[i].expected)
        } else {
            expected_parameters(slots.take(i))
        },
{
    let upto = slots.take(i + 1);
    assert(upto.drop_last() =~= slots.take(i));
    assert(upto.last() == slots[i]);
    lemma_rank_bounded(slots, i + 1);
}

/// No more placeholders stand before a slot than among all slots.
pub proof fn lemma_rank_bounded(slots: Seq<SlotView>, i: int)
    requires
        0 <= i <= slots.len(),
    ensures
        rank(slots, i) <= expected_parameters(slots).len(),
    decreases slots.len() - i,
{
    if i < slots.len() {
        let upto = slots.take(i + 1);
        assert(upto.drop_last() =~= slots.take(i));
        lemma_rank_bounded(slots, i + 1);
    } else {
        assert(slots.take(i) =~= slots);
    }
}

/// Whether a value of type `found` can stand where `expected` is asked for.
pub fn fits_type(expected: ColumnType, found: OperandType) -> (fit: bool)
    ensures
        fit == fits(expected, found),
{
    match found {
        OperandType::Column(other) => expected.accepts(other),
        OperandType::IntegerLiteral => expected.integral() || expected == ColumnType::Float
            || expected == ColumnType::Double,
        OperandType::TextLiteral => expected.textual(),
        OperandType::BooleanLiteral => expected == ColumnType::Boolean,
    }
}

/// Looks up the selected columns. Gives the columns found, or the index of the first
/// name that the table lacks.
fn resolve_selected(schema: &TableSchema, selected: &Vec<ColumnRef>) -> (found: Result<
    Vec<Column>,
    usize,
>)
    ensures
        match found {
            Ok(columns) => all_known(schema@, names_view(selected@)) && columns_view(columns@)
                == names_view(selected@).map_values(
                |name: ColumnRefView| column_named(schema@, name.name),
            ),
            Err(at) => at < selected.len() && first_unknown(
                schema@,
                names_view(selected@),
                at as int,
            ),
        },
{
    let ghost names = names_view(selected@);
    let mut columns: Vec<Column> = Vec::new();
    let mut k: usize = 0;
    while k < selected.len()
        invariant
            k <= selected.len(),
            names == names_view(selected@),
            columns.len() == k,
            forall|j: int| 0 <= j < k ==> schema@.has_column((#[trigger] names[j]).name),
            forall|j: int|
                0 <= j < k ==> (#[trigger] columns[j])@ == column_named(schema@, names[j].name),
        decreases selected.len() - k,
    {
        assert(names[k as int] == selected[k as int]@);
        match schema.find(selected[k].name.as_str()) {
            None => {
                return Err(k);
            },
            Some(index) => {
                columns.push(schema.column_at(index).duplicate());
            },
        }
        k += 1;
    }
    assert(columns_view(columns@) =~= names.map_values(
        |name: ColumnRefView| column_named(schema@, name.name),
    ));
    Ok(columns)
}

/// Adds the slots that a list of bindings makes. Gives the index of the first binding
/// whose column the table lacks; what `slots` then holds is of no use.
fn collect_slots(schema: &TableSchema, list: &Vec<Binding>, slots: &mut Vec<Slot>) -> (found:
    Result<(), usize>)
    ensures
        match found {
            Ok(()) => {
                &&& all_known(schema@, columns_of(bindings_view(list@)))
                &&& slots_view(final(slots)@) == slots_view(old(slots)@) + slots_of(
                    schema@,
                    bindings_view(list@),
                )
            },
            Err(at) => at < list.len() && first_unknown(
                schema@,
                columns_of(bindings_view(list@)),
                at as int,
            ),
        },
{
    let ghost views = bindings_view(list@);
    let ghost names = columns_of(views);
    let ghost before = slots_view(slots@);
    let mut k: usize = 0;
    while k < list.len()
        invariant
            k <= list.len(),
            views == bindings_view(list@),
            names == columns_of(views),
            forall|j: int| 0 <= j < k ==> schema@.has_column((#[trigger] names[j]).name),
            slots_view(slots@) == before + slots_of(schema@, views.take(k as int)),
        decreases list.len() - k,
    {
        let binding = &list[k];
        assert(views[k as int] == binding@);
        assert(names[k as int] == binding@.column);
        match schema.find(binding.column.name.as_str()) {
            None => {
                return Err(k);
            },
            Some(index) => {
                let slot = Slot {
                    column: binding.column.name.clone(),
                    position: binding.operand.position,
                    expected: schema.column_at(index).column_type,
                    kind: binding.operand.kind,
                };
                proof {
                    assert(slot@ == slot_of(schema@, views[k as int]));
                    let done = slots_of(schema@, views.take(k as int));
                    let next = slots_of(schema@, views.take(k as int + 1));
                    assert(next =~= done.push(slot@));
                    assert(slots_view(slots@.push(slot)) =~= slots_view(slots@).push(slot@));
                    assert((before + done).push(slot@) =~= before + next);
                }
                slots.push(slot);
            },
        }
        k += 1;
    }
    assert(views.take(list.len() as int) =~= views);
    Ok(())
}

/// The views of a list of character offsets.
pub open spec fn offsets_view(offsets: Seq<usize>) -> Seq<int> {
    offsets.map_values(|offset: usize| offset as int)
}

/// The types that the placeholders among the slots expect, and where the placeholders
/// stand, in order.
fn placeholder_types(slots: &Vec<Slot>) -> (found: (Vec<ColumnType>, Vec<usize>))
    ensures
        found.0@ == expected_parameters(slots_view(slots@)),
        offsets_view(found.1@) == expected_positions(slots_view(slots@)),
        found.0.len() == found.1.len(),
{
    let ghost views = slots_view(slots@);
    let mut types: Vec<ColumnType> = Vec::new();
    let mut positions: Vec<usize> = Vec::new();
    let mut k: usize = 0;
    while k < slots.len()
        invariant
            k <= slots.len(),
            views == slots_view(slots@),
            types@ == expected_parameters(views.take(k as int)),
            offsets_view(positions@) == expected_positions(views.take(k as int)),
            types.len() == positions.len(),
        decreases slots.len() - k,
    {
        proof {
            lemma_rank_step(views, k as int);
            assert(views[k as int] == slots[k as int]@);
            let upto = views.take(k as int + 1);
            assert(upto.drop_last() =~= views.take(k as int));
            assert(upto.last() == slots[k as int]@);
            assert(offsets_view(positions@.push(slots[k as int].position)) =~= offsets_view(
                positions@,
            ).push(slots[k as int].position as int));
        }
        if slots[k].kind == OperandKind::Placeholder {
            types.push(slots[k].expected);
            positions.push(slots[k].position);
        }
        k += 1;
    }
    assert(views.take(slots.len() as int) =~= views);
    (types, positions)
}

/// Looks for the first slot that holds a value of an unfitting type.
fn find_misfit(slots: &Vec<Slot>, params: &Vec<ParamExpr>) -> (found: Option<(usize, OperandType)>)
    requires
        expected_parameters(slots_view(slots@)).len() == params.len(),
    ensures
        match found {
            Some((at, found_here)) => at < slots.len() && first_misfit(
                slots_view(slots@),
                types_of(params_view(params@)),
                at as int,
            ) && found_here == found_type(slots_view(slots@), types_of(params_view(params@)), at as int),
            None => all_fit(slots_view(slots@), types_of(params_view(params@))),
        },
{
    let ghost views = slots_view(slots@);
    let ghost types = types_of(params_view(params@));
    let mut seen: usize = 0;
    let mut k: usize = 0;
    while k < slots.len()
        invariant
            k <= slots.len(),
            views == slots_view(slots@),
            types == types_of(params_view(params@)),
            expected_parameters(views).len() == params.len(),
            seen == rank(views, k as int),
            seen <= params.len(),
            forall|j: int|
                0 <= j < k ==> fits(views[j].expected, #[trigger] found_type(views, types, j)),
        decreases slots.len() - k,
    {
        proof {
            lemma_rank_step(views, k as int);
            assert(views[k as int] == slots[k as int]@);
        }
        let slot = &slots[k];
        let found_here = match slot.kind {
            OperandKind::Placeholder => {
                assert(params_view(params@)[seen as int] == params[seen as int]@);
                assert(types[seen as int] == params[seen as int].value_type);
                OperandType::Column(params[seen].value_type)
            },
            OperandKind::Integer => OperandType::IntegerLiteral,
            OperandKind::Text => OperandType::TextLiteral,
            OperandKind::Boolean => OperandType::BooleanLiteral,
        };
        assert(found_here == found_type(views, types, k as int));
        if !fits_type(slot.expected, found_here) {
            return Some((k, found_here));
        }
        if slot.kind == OperandKind::Placeholder {
            seen += 1;
        }
        k += 1;
    }
    None
}

/// The error that reports the name at `i` as missing.
pub open spec fn unknown_column(names: Seq<ColumnRefView>, i: int) -> BuildErrorView {
    BuildErrorView::UnknownColumn { column: names[i].name, position: names[i].position }
}

/// Looks up every column that the statement names, in the order of the template, and
/// lays out the slots of the statement. Fails on the first name that the table lacks.
fn resolve(schema: &TableSchema, query: &ParsedQuery) -> (found: Result<
    (Vec<Column>, Vec<Slot>),
    BuildError,
>)
    ensures
        match found {
            Ok((selected, places)) => {
                &&& all_known(schema@, referenced(query@))
                &&& columns_view(selected@) == query@.selected.map_values(
                    |name: ColumnRefView| column_named(schema@, name.name),
                )
                &&& slots_view(places@) == slots(schema@, query@)
            },
            Err(error) => exists|i: int| #[trigger]
                first_unknown(schema@, referenced(query@), i) && error@ == unknown_column(
                    referenced(query@),
                    i,
                ),
        },
{
    let ghost chosen = names_view(query.selected@);
    let ghost assigned = columns_of(bindings_view(query.assignments@));
    let ghost compared = columns_of(bindings_view(query.conditions@));
    proof {
        assert(columns_of(bindings(query@)) =~= assigned + compared);
        assert(referenced(query@) =~= chosen + (assigned + compared));
    }
    let selected = match resolve_selected(schema, &query.selected) {
        Err(at) => {
            proof {
                lemma_first_unknown_in_front(schema@, chosen, assigned + compared, at as int);
                assert(chosen[at as int] == query.selected[at as int]@);
            }
            return Err(
                BuildError::UnknownColumn {
                    column: query.selected[at].name.clone(),
                    position: query.selected[at].position,
                },
            );
        },
        Ok(columns) => columns,
    };
    let mut places: Vec<Slot> = Vec::new();
    assert(slots_view(places@) =~= Seq::<SlotView>::empty());
    match collect_slots(schema, &query.assignments, &mut places) {
        Err(at) => {
            proof {
                lemma_first_unknown_in_front(schema@, assigned, compared, at as int);
                lemma_first_unknown_behind(schema@, chosen, assigned + compared, at as int);
                assert(assigned[at as int] == query.assignments[at as int]@.column);
            }
            return Err(
                BuildError::UnknownColumn {
                    column: query.assignments[at].column.name.clone(),
                    position: query.assignments[at].column.position,
                },
            );
        },
        Ok(()) => {},
    }
    match collect_slots(schema, &query.conditions, &mut places) {
        Err(at) => {
            proof {
                lemma_first_unknown_behind(schema@, assigned, compared, at as int);
                lemma_first_unknown_behind(
                    schema@,
                    chosen,
                    assigned + compared,
                    assigned.len() + at,
                );
                assert(compared[at as int] == query.conditions[at as int]@.column);
            }
            return Err(
                BuildError::UnknownColumn {
                    column: query.conditions[at].column.name.clone(),
                    position: query.conditions[at].column.position,
                },
            );
        },
        Ok(()) => {},
    }
    proof {
        lemma_all_known_joined(schema@, assigned, compared);
        lemma_all_known_joined(schema@, chosen, assigned + compared);
    }
    let ghost bound = slots_view(places@);
    proof {
        assert(bound =~= slots_of(schema@, bindings(query@)));
    }
    match query.limit {
        Some(operand) => {
            let slot = Slot {
                column: "limit".to_owned(),
                position: operand.position,
                expected: ColumnType::Int,
                kind: operand.kind,
            };
            assert(slots_view(places@.push(slot)) =~= slots_view(places@).push(slot@));
            assert(bound.push(slot@) =~= bound + seq![limit_slot(operand@)]);
            places.push(slot);
        },
        None => {
            assert(bound + Seq::<SlotView>::empty() =~= bound);
        },
    }
    Ok((selected, places))
}

/// Holds a parsed statement against a schema and the supplied parameters.
///
/// The checks run in a fixed order, and the first that fails gives the error: the table,
/// the columns, the number of placeholders, the types.
pub fn check(
    schema: &TableSchema,
    template: &str,
    query: &ParsedQuery,
    params: &Vec<ParamExpr>,
) -> (outcome: Result<QueryDescriptor, BuildError>)
    ensures
        checked_to(schema@, template@, query@, params_view(params@), outcome_view(outcome)),
{
    if !same_text(query.table.name.as_str(), schema.table()) {
        return Err(BuildError::SchemaNotFound { table: query.table.name.clone() });
    }
    let (selected, places) = match resolve(schema, query) {
        Err(error) => {
            proof {
                let names = referenced(query@);
                let at = choose|i: int| #[trigger]
                    first_unknown(schema@, names, i) && error@ == unknown_column(names, i);
                assert(!schema@.has_column(names[at].name));
                assert forall|i: int| #[trigger] first_unknown(schema@, names, i) implies i
                    == at by {
                    lemma_first_unknown_unique(schema@, names, i, at);
                }
            }
            return Err(error);
        },
        Ok(found) => found,
    };
    let (types, positions) = placeholder_types(&places);
    proof {
        lemma_parameters_match_placeholders(schema@, query@);
    }
    if types.len() > params.len() {
        assert(offsets_view(positions@)[params.len() as int] == positions[params.len() as int]);
        return Err(
            BuildError::ArityMismatch {
                placeholders: types.len(),
                supplied: params.len(),
                token: "?".to_owned(),
                position: positions[params.len()],
            },
        );
    }
    if types.len() < params.len() {
        assert(params_view(params@)[types.len() as int] == params[types.len() as int]@);
        return Err(
            BuildError::ArityMismatch {
                placeholders: types.len(),
                supplied: params.len(),
                token: params[types.len()].text.clone(),
                position: types.len(),
            },
        );
    }
    match find_misfit(&places, params) {
        Some((at, found)) => {
            proof {
                let views = slots_view(places@);
                assert(views[at as int] == places[at as int]@);
                assert forall|i: int| #[trigger]
                    first_misfit(views, types_of(params_view(params@)), i) implies i == at by {
                    lemma_first_misfit_unique(views, types_of(params_view(params@)), i, at as int);
                }
            }
            return Err(
                BuildError::TypeMismatch {
                    column: places[at].column.clone(),
                    position: places[at].position,
                    expected: places[at].expected,
                    found,
                },
            );
        },
        None => {},
    }
    let shape = match query.operation {
        Operation::Select => if query.wildcard {
            schema.columns()
        } else {
            selected
        },
        _ => {
            let none: Vec<Column> = Vec::new();
            assert(columns_view(none@) =~= Seq::<ColumnView>::empty());
            none
        },
    };
    Ok(
        QueryDescriptor {
            statement: template.to_owned(),
            operation: query.operation,
            parameter_types: types,
            row_shape: shape,
        },
    )
}

/// Validates a query template against a schema and the supplied parameter expressions.
///
/// Fails with `Malformed` where the template is no statement of the grammar, and else
/// with what [`check`] finds. On success the descriptor holds the template unchanged and
/// the type that each placeholder expects.
pub fn validate(schema: &TableSchema, template: &str, params: &Vec<ParamExpr>) -> (outcome: Result<
    QueryDescriptor,
    BuildError,
>)
    ensures
        validates_to(schema@, template@, params_view(params@), outcome_view(outcome)),
{
    match parse(template) {
        Err(position) => Err(BuildError::Malformed { position }),
        Ok(query) => check(schema, template, &query, params),
    }
}

} // verus!

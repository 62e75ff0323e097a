//! The handle of a validated query: it holds the statement and its bound values, runs
//! nothing by itself, and takes in the pages that the session fetches for it.
use crate::binding::{
    bound_to, check_values, expectations_of_parameters, parameter_expectations, row_expectations,
    values_fit,
};
use crate::crud::{decode_row, decoding_of, rows_view, status};
use crate::entity::Entity;
use crate::error::{BindError, RunError};
use crate::schema::{columns_view, Column, ColumnView};
use crate::validator::{QueryDescriptor, QueryDescriptorView};
use crate::values::{refs_view, row_view, Value, ValueRef, ValueView};
use scylla::transport::errors::QueryError;
use vstd::prelude::*;

verus! {

/// Where a cursor stands.
#[derive(Clone, Copy, Debug, PartialEq, Eq, Structural)]
pub enum CursorState {
    /// Bound, and nothing has been asked of the session.
    Unexecuted,
    /// A retrieval has begun and the store may hold further pages.
    Executing,
    /// The store has reported the last page.
    Exhausted,
    /// The session failed, or, while everything was loaded into memory, a row could not
    /// be read.
    Failed,
}

/// The ways of retrieving the rows of a query. A cursor serves one of them, once.
#[derive(Clone, Copy, Debug, PartialEq, Eq, Structural)]
pub enum Retrieval {
    /// Page by page, the caller keeping the continuation token.
    Page,
    /// Every page, gathered into one list.
    AllInMemory,
    /// Row by row, further pages being fetched as the caller asks for rows.
    Stream,
}

/// One page of an answer: its rows, and the continuation token unless it is the last.
#[derive(Debug)]
pub struct Page {
    pub rows: Vec<Vec<Value>>,
    pub next: Option<Vec<u8>>,
}

/// The mathematical value of a [`Page`].
pub struct PageView {
    pub rows: Seq<Seq<ValueView>>,
    pub next: Option<Seq<u8>>,
}

impl View for Page {
    type V = PageView;

    open spec fn view(&self) -> PageView {
        PageView {
            rows: rows_view(self.rows@),
            next: match self.next {
                Some(token) => Some(token@),
                None => None,
            },
        }
    }
}

/// What is asked of the session: one page of a statement's rows.
#[derive(Debug)]
pub struct Fetch<'a> {
    pub text: &'a str,
    pub values: Vec<ValueRef<'a>>,
    /// The number of rows that a page holds at most; always positive.
    pub page_size: i32,
    /// Where to go on; absent for the first page.
    pub token: Option<Vec<u8>>,
}

/// The mathematical value of a [`Fetch`].
pub struct FetchView {
    pub text: Seq<char>,
    pub values: Seq<ValueView>,
    pub page_size: int,
    pub token: Option<Seq<u8>>,
}

impl<'a> View for Fetch<'a> {
    type V = FetchView;

    open spec fn view(&self) -> FetchView {
        FetchView {
            text: self.text@,
            values: refs_view(self.values@),
            page_size: self.page_size as int,
            token: match self.token {
                Some(token) => Some(token@),
                None => None,
            },
        }
    }
}

/// What a page that arrived has led to.
#[derive(Debug)]
pub enum Step {
    /// Paged and streamed retrieval: the rows of the page, each read on its own, and the
    /// continuation token unless this was the last page.
    Rows { rows: Vec<Result<Entity, RunError>>, next: Option<Vec<u8>> },
    /// Loading into memory: the page was taken in, and the next is to be fetched.
    More { next: Vec<u8> },
    /// Loading into memory: the last page was taken in. Here are all rows, in the order
    /// in which they arrived, and their number.
    Finished { entities: Vec<Entity>, count: usize },
    /// The retrieval has failed, and what had been gathered is dropped.
    Failed(RunError),
    /// The cursor was not executing, and the answer was dropped.
    Ignored,
}

/// The mathematical value of a [`Step`].
pub enum StepView {
    Rows { rows: Seq<Result<Seq<ValueView>, RunError>>, next: Option<Seq<u8>> },
    More { next: Seq<u8> },
    Finished { entities: Seq<Seq<ValueView>>, count: int },
    Failed(RunError),
    Ignored,
}

/// The views of a list of entities, in order.
pub open spec fn entities_view(entities: Seq<Entity>) -> Seq<Seq<ValueView>> {
    entities.map_values(|entity: Entity| entity@)
}

/// The mathematical value of a row that was read, or of the failure to read it.
pub open spec fn read_view(read: Result<Entity, RunError>) -> Result<Seq<ValueView>, RunError> {
    match read {
        Ok(entity) => Ok(entity@),
        Err(error) => Err(error),
    }
}

/// The views of a list of rows that were read, in order.
pub open spec fn reads_view(reads: Seq<Result<Entity, RunError>>) -> Seq<
    Result<Seq<ValueView>, RunError>,
> {
    reads.map_values(|read: Result<Entity, RunError>| read_view(read))
}

impl View for Step {
    type V = StepView;

    open spec fn view(&self) -> StepView {
        match *self {
            Step::Rows { rows, next } => StepView::Rows {
                rows: reads_view(rows@),
                next: match next {
                    Some(token) => Some(token@),
                    None => None,
                },
            },
            Step::More { next } => StepView::More { next: next@ },
            Step::Finished { entities, count } => StepView::Finished {
                entities: entities_view(entities@),
                count: count as int,
            },
            Step::Failed(error) => StepView::Failed(error),
            Step::Ignored => StepView::Ignored,
        }
    }
}

/// The mathematical value of a [`SelectMultiple`].
pub struct CursorView {
    pub text: Seq<char>,
    pub values: Seq<ValueView>,
    /// The columns of the rows that the statement returns.
    pub shape: Seq<ColumnView>,
    pub state: CursorState,
    /// The retrieval that was begun; of no meaning before.
    pub mode: Retrieval,
    /// The page size that the retrieval was begun with; of no meaning before.
    pub page_size: int,
    /// The rows gathered so far while loading into memory.
    pub collected: Seq<Seq<ValueView>>,
}

impl CursorView {
    /// Whether the cursor has pages to ask for: it is executing, which it only is with a
    /// positive page size.
    pub open spec fn asks(self) -> bool {
        self.state == CursorState::Executing && self.page_size > 0
    }

    /// Whether a retrieval with the given page size can begin: the cursor has not been
    /// used, and the page size is positive.
    pub open spec fn can_begin(self, page_size: int) -> bool {
        self.state == CursorState::Unexecuted && page_size > 0
    }

    /// The cursor after a retrieval has begun.
    pub open spec fn begun(self, mode: Retrieval, page_size: int) -> CursorView {
        CursorView { state: CursorState::Executing, mode, page_size, ..self }
    }

    /// What the cursor asks of the session, given where to go on.
    pub open spec fn fetch(self, token: Option<Seq<u8>>) -> FetchView {
        FetchView { text: self.text, values: self.values, page_size: self.page_size, token }
    }

    /// What beginning a retrieval does: where it can begin, the cursor is executing and
    /// asks for the first page; where it cannot, nothing changes and nothing is asked.
    pub open spec fn begins(
        self,
        mode: Retrieval,
        page_size: int,
        after: CursorView,
        asked: Option<FetchView>,
    ) -> bool {
        if self.can_begin(page_size) {
            after == self.begun(mode, page_size) && asked == Some(after.fetch(None))
        } else {
            after == self && asked is None
        }
    }
}

/// The cursor of a validated query to which values have just been bound.
pub open spec fn unexecuted(descriptor: QueryDescriptorView, values: Seq<ValueView>) -> CursorView {
    CursorView {
        text: descriptor.statement,
        values,
        shape: descriptor.row_shape,
        state: CursorState::Unexecuted,
        mode: Retrieval::Page,
        page_size: 0,
        collected: Seq::empty(),
    }
}

/// The mathematical value of what a cursor asks, if it asks.
pub open spec fn asked_view(fetch: Option<Fetch<'_>>) -> Option<FetchView> {
    match fetch {
        Some(asked) => Some(asked@),
        None => None,
    }
}

/// The mathematical value of a continuation token, if there is one.
pub open spec fn token_view(token: Option<Vec<u8>>) -> Option<Seq<u8>> {
    match token {
        Some(bytes) => Some(bytes@),
        None => None,
    }
}

/// Each row of a page, read on its own: the row, or `Deserialization` with the row's
/// index in the page.
pub open spec fn read_each(shape: Seq<ColumnView>, rows: Seq<Seq<ValueView>>) -> Seq<
    Result<Seq<ValueView>, RunError>,
> {
    Seq::new(
        rows.len(),
        |i: int|
            match decoding_of(shape, rows[i]) {
                Ok(row) => Ok(row),
                Err(column) => Err(
                    RunError::Deserialization { row: i as usize, column: column as usize },
                ),
            },
    )
}

/// All rows that were read, or the failure of the first that could not be.
pub open spec fn gather(reads: Seq<Result<Seq<ValueView>, RunError>>) -> Result<
    Seq<Seq<ValueView>>,
    RunError,
>
    decreases reads.len(),
{
    if reads.len() == 0 {
        Ok(Seq::empty())
    } else {
        match reads[0] {
            Err(error) => Err(error),
            Ok(row) => match gather(reads.drop_first()) {
                Ok(rest) => Ok(seq![row] + rest),
                Err(error) => Err(error),
            },
        }
    }
}

/// The cursor after a failure: what was gathered is dropped.
pub open spec fn failed(cursor: CursorView) -> CursorView {
    CursorView { state: CursorState::Failed, collected: Seq::empty(), ..cursor }
}

/// What an answer of the session does to a cursor, and what comes of it.
///
/// A cursor that is not executing ignores the answer. A failure of the session fails the
/// cursor. A page of a paged or streamed retrieval is handed out, each row read on its
/// own, and the cursor is exhausted with the last page. A page of a retrieval into
/// memory is added to what was gathered, unless one of its rows cannot be read, which
/// fails the cursor; with the last page the cursor is exhausted and hands out all rows.
pub open spec fn advance(cursor: CursorView, answer: Result<PageView, QueryError>) -> (
    CursorView,
    StepView,
) {
    if cursor.state != CursorState::Executing {
        (cursor, StepView::Ignored)
    } else {
        match answer {
            Err(error) => (failed(cursor), StepView::Failed(RunError::Execution(error))),
            Ok(page) => {
                let reads = read_each(cursor.shape, page.rows);
                if cursor.mode == Retrieval::AllInMemory {
                    match gather(reads) {
                        Err(error) => (failed(cursor), StepView::Failed(error)),
                        Ok(rows) => match page.next {
                            Some(token) => (
                                CursorView { collected: cursor.collected + rows, ..cursor },
                                StepView::More { next: token },
                            ),
                            None => (
                                CursorView {
                                    state: CursorState::Exhausted,
                                    collected: Seq::empty(),
                                    ..cursor
                                },
                                StepView::Finished {
                                    entities: cursor.collected + rows,
                                    count: (cursor.collected + rows).len() as int,
                                },
                            ),
                        },
                    }
                } else {
                    (
                        CursorView {
                            state: if page.next is None {
                                CursorState::Exhausted
                            } else {
                                CursorState::Executing
                            },
                            ..cursor
                        },
                        StepView::Rows { rows: reads, next: page.next },
                    )
                }
            },
        }
    }
}

/// The mathematical value of what the session answers to a fetch.
pub open spec fn page_answer_view(answer: Result<Page, QueryError>) -> Result<PageView, QueryError> {
    match answer {
        Ok(page) => Ok(page@),
        Err(error) => Err(error),
    }
}

/// The same items in the opposite order.
fn reversed<T>(items: Vec<T>) -> (turned: Vec<T>)
    ensures
        turned@ == items@.reverse(),
{
    let mut items = items;
    let ghost all = items@;
    let mut turned: Vec<T> = Vec::new();
    while items.len() > 0
        invariant
            items@ == all.take(items.len() as int),
            turned.len() + items.len() == all.len(),
            forall|k: int| 0 <= k < turned.len() ==> turned[k] == all[all.len() - 1 - k],
        decreases items.len(),
    {
        let item = items.pop().unwrap();
        turned.push(item);
        assert(items@ =~= all.take(items.len() as int));
    }
    assert(turned@ =~= all.reverse());
    turned
}

/// Reads each row of a page on its own.
fn read_rows(shape: &Vec<Column>, rows: Vec<Vec<Value>>) -> (reads: Vec<
    Result<Entity, RunError>,
>)
    ensures
        reads_view(reads@) == read_each(columns_view(shape@), rows_view(rows@)),
{
    let ghost views = rows_view(rows@);
    let ghost expected = read_each(columns_view(shape@), views);
    let ghost all = rows@;
    let mut left = reversed(rows);
    let mut reads: Vec<Result<Entity, RunError>> = Vec::new();
    while left.len() > 0
        invariant
            views == rows_view(all),
            expected == read_each(columns_view(shape@), views),
            left.len() + reads.len() == all.len(),
            forall|k: int| 0 <= k < left.len() ==> left[k] == all[all.len() - 1 - k],
            forall|k: int| 0 <= k < reads.len() ==> read_view(#[trigger] reads[k]) == expected[k],
        decreases left.len(),
    {
        let at = reads.len();
        let row = left.pop().unwrap();
        assert(row == all[at as int]);
        assert(views[at as int] == row_view(row@));
        let read = match decode_row(shape, row) {
            Ok(entity) => Ok(entity),
            Err(column) => Err(RunError::Deserialization { row: at, column }),
        };
        reads.push(read);
    }
    assert(reads_view(reads@) =~= expected);
    reads
}

/// `found` in front of what gathering the rest gives.
pub open spec fn gathered_after(
    found: Seq<Seq<ValueView>>,
    rest: Result<Seq<Seq<ValueView>>, RunError>,
) -> Result<Seq<Seq<ValueView>>, RunError> {
    match rest {
        Ok(more) => Ok(found + more),
        Err(error) => Err(error),
    }
}

/// Gathers the rows that were read, or gives the failure of the first that could not be.
fn gather_rows(reads: Vec<Result<Entity, RunError>>) -> (gathered: Result<Vec<Entity>, RunError>)
    ensures
        match gathered {
            Ok(entities) => gather(reads_view(reads@)) == Ok::<Seq<Seq<ValueView>>, RunError>(
                entities_view(entities@),
            ),
            Err(error) => gather(reads_view(reads@)) == Err::<Seq<Seq<ValueView>>, RunError>(error),
        },
{
    let ghost views = reads_view(reads@);
    let ghost all = reads@;
    let mut left = reversed(reads);
    let mut entities: Vec<Entity> = Vec::new();
    proof {
        assert(views.skip(0) =~= views);
        if let Ok(more) = gather(views) {
            assert(entities_view(entities@) + more =~= more);
        }
    }
    while left.len() > 0
        invariant
            all == reads@,
            views == reads_view(all),
            left.len() + entities.len() == all.len(),
            forall|k: int| 0 <= k < left.len() ==> left[k] == all[all.len() - 1 - k],
            gather(views) == gathered_after(
                entities_view(entities@),
                gather(views.skip(entities.len() as int)),
            ),
        decreases left.len(),
    {
        let at = entities.len();
        let read = left.pop().unwrap();
        assert(read == all[at as int]);
        proof {
            let rest = views.skip(at as int);
            assert(rest[0] == read_view(read));
            assert(rest.drop_first() =~= views.skip(at as int + 1));
        }
        match read {
            Err(error) => {
                assert(gather(views.skip(at as int)) == Err::<Seq<Seq<ValueView>>, RunError>(
                    error,
                ));
                return Err(error);
            },
            Ok(entity) => {
                proof {
                    let before = entities_view(entities@);
                    assert(entities_view(entities@.push(entity)) =~= before.push(entity@));
                    if let Ok(more) = gather(views.skip(at as int + 1)) {
                        assert(before + (seq![entity@] + more) =~= before.push(entity@) + more);
                    }
                }
                entities.push(entity);
            },
        }
    }
    proof {
        assert(views.skip(all.len() as int) =~= Seq::<Result<Seq<ValueView>, RunError>>::empty());
        assert(entities_view(entities@) + Seq::<Seq<ValueView>>::empty() =~= entities_view(
            entities@,
        ));
    }
    Ok(entities)
}

/// The handle of a validated query with its bound values.
#[derive(Debug)]
pub struct SelectMultiple<'a> {
    text: &'a str,
    values: Vec<ValueRef<'a>>,
    shape: &'a Vec<Column>,
    state: CursorState,
    mode: Retrieval,
    page_size: i32,
    collected: Vec<Entity>,
}

impl<'a> View for SelectMultiple<'a> {
    type V = CursorView;

    closed spec fn view(&self) -> CursorView {
        CursorView {
            text: self.text@,
            values: refs_view(self.values@),
            shape: columns_view(self.shape@),
            state: self.state,
            mode: self.mode,
            page_size: self.page_size as int,
            collected: entities_view(self.collected@),
        }
    }
}

impl<'a> SelectMultiple<'a> {
    /// Binds values to the placeholders of a validated query. Nothing is run.
    ///
    /// Fails where the number of values differs from the number of placeholders, or a
    /// value does not fit the type that its placeholder expects.
    pub fn bind(descriptor: &'a QueryDescriptor, values: Vec<ValueRef<'a>>) -> (bound: Result<
        SelectMultiple<'a>,
        BindError,
    >)
        ensures
            bound_to(
                parameter_expectations(descriptor@.parameter_types),
                refs_view(values@),
                status(bound),
            ),
            bound matches Ok(cursor) ==> cursor@ == unexecuted(descriptor@, refs_view(values@)),
    {
        let expected = expectations_of_parameters(descriptor.parameter_types());
        match check_values(&expected, &values) {
            Err(error) => Err(error),
            Ok(()) => {
                let collected: Vec<Entity> = Vec::new();
                assert(entities_view(collected@) =~= Seq::<Seq<ValueView>>::empty());
                Ok(
                    SelectMultiple {
                        text: descriptor.statement(),
                        values,
                        shape: descriptor.row_shape(),
                        state: CursorState::Unexecuted,
                        mode: Retrieval::Page,
                        page_size: 0,
                        collected,
                    },
                )
            },
        }
    }

    /// Where the cursor stands.
    pub fn state(&self) -> (state: CursorState)
        ensures
            state == self@.state,
    {
        self.state
    }

    /// Begins a retrieval. Only a cursor that has not been used can begin one, and only
    /// with a positive page size; otherwise nothing changes and the answer is `false`.
    pub fn start(&mut self, mode: Retrieval, page_size: i32) -> (started: bool)
        ensures
            started == old(self)@.can_begin(page_size as int),
            started ==> final(self)@ == old(self)@.begun(mode, page_size as int),
            !started ==> final(self)@ == old(self)@,
    {
        if self.state == CursorState::Unexecuted && page_size > 0 {
            self.page_size = page_size;
            self.mode = mode;
            self.state = CursorState::Executing;
            true
        } else {
            false
        }
    }

    /// What to ask of the session next: the first page where no token is given, else
    /// the page that the token leads to. A cursor that is not executing asks nothing.
    pub fn request(&self, token: Option<Vec<u8>>) -> (fetch: Option<Fetch<'a>>)
        ensures
            asked_view(fetch) == if self@.asks() {
                Some(self@.fetch(token_view(token)))
            } else {
                None
            },
    {
        if self.state == CursorState::Executing && self.page_size > 0 {
            let mut values: Vec<ValueRef<'a>> = Vec::new();
            let mut i: usize = 0;
            while i < self.values.len()
                invariant
                    i <= self.values.len(),
                    values@ == self.values@.take(i as int),
                decreases self.values.len() - i,
            {
                values.push(self.values[i]);
                assert(self.values@.take(i as int).push(self.values[i as int])
                    =~= self.values@.take(i as int + 1));
                i += 1;
            }
            assert(self.values@.take(self.values.len() as int) =~= self.values@);
            Some(Fetch { text: self.text, values, page_size: self.page_size, token })
        } else {
            None
        }
    }

    /// Begins retrieving page by page, and says what to ask of the session first. Each
    /// page that arrives is handed out with the token that leads to the next.
    pub fn select_page(&mut self, page_size: i32) -> (fetch: Option<Fetch<'a>>)
        ensures
            old(self)@.begins(Retrieval::Page, page_size as int, final(self)@, asked_view(fetch)),
    {
        if self.start(Retrieval::Page, page_size) {
            self.request(None)
        } else {
            None
        }
    }

    /// Begins loading every row into memory, and says what to ask of the session first.
    /// The rows are handed out, all at once, when the last page has arrived.
    pub fn select_all_in_memory(&mut self, page_size: i32) -> (fetch: Option<Fetch<'a>>)
        ensures
            old(self)@.begins(
                Retrieval::AllInMemory,
                page_size as int,
                final(self)@,
                asked_view(fetch),
            ),
    {
        if self.start(Retrieval::AllInMemory, page_size) {
            self.request(None)
        } else {
            None
        }
    }

    /// Begins streaming the rows, and says what to ask of the session first. Each page
    /// that arrives is handed out; the next is to be fetched when its rows are used up.
    pub fn select_stream(&mut self, page_size: i32) -> (fetch: Option<Fetch<'a>>)
        ensures
            old(self)@.begins(Retrieval::Stream, page_size as int, final(self)@, asked_view(fetch)),
    {
        if self.start(Retrieval::Stream, page_size) {
            self.request(None)
        } else {
            None
        }
    }

    /// Takes in what the session answered to a fetch.
    pub fn on_page(&mut self, answer: Result<Page, QueryError>) -> (step: Step)
        ensures
            (final(self)@, step@) == advance(old(self)@, page_answer_view(answer)),
    {
        if self.state != CursorState::Executing {
            return Step::Ignored;
        }
        match answer {
            Err(error) => {
                self.state = CursorState::Failed;
                self.collected = Vec::new();
                assert(entities_view(self.collected@) =~= Seq::<Seq<ValueView>>::empty());
                Step::Failed(RunError::Execution(error))
            },
            Ok(page) => {
                let Page { rows, next } = page;
                let reads = read_rows(self.shape, rows);
                match self.mode {
                    Retrieval::AllInMemory => match gather_rows(reads) {
                        Err(error) => {
                            self.state = CursorState::Failed;
                            self.collected = Vec::new();
                            assert(entities_view(self.collected@) =~= Seq::<
                                Seq<ValueView>,
                            >::empty());
                            Step::Failed(error)
                        },
                        Ok(entities) => {
                            let mut entities = entities;
                            let ghost before = entities_view(self.collected@);
                            let ghost added = entities_view(entities@);
                            self.collected.append(&mut entities);
                            assert(entities_view(self.collected@) =~= before + added);
                            match next {
                                Some(token) => Step::More { next: token },
                                None => {
                                    let mut all: Vec<Entity> = Vec::new();
                                    core::mem::swap(&mut all, &mut self.collected);
                                    self.state = CursorState::Exhausted;
                                    assert(entities_view(self.collected@) =~= Seq::<
                                        Seq<ValueView>,
                                    >::empty());
                                    let count = all.len();
                                    Step::Finished { entities: all, count }
                                },
                            }
                        },
                    },
                    _ => {
                        if next.is_none() {
                            self.state = CursorState::Exhausted;
                        }
                        Step::Rows { rows: reads, next }
                    },
                }
            },
        }
    }
}

/// A cursor only moves forward: an answer leaves it where it is or takes it from
/// executing to exhausted or failed, and a cursor that is exhausted or has failed stays
/// so whatever arrives. Only a failure of the session or of reading a row fails it.
pub proof fn lemma_cursor_moves_forward(cursor: CursorView, answer: Result<PageView, QueryError>)
    ensures
        cursor.state != CursorState::Executing ==> advance(cursor, answer) == (
            cursor,
            StepView::Ignored,
        ),
        advance(cursor, answer).0.state != CursorState::Unexecuted || cursor.state
            == CursorState::Unexecuted,
        advance(cursor, answer).0.state == CursorState::Failed && cursor.state
            != CursorState::Failed ==> advance(cursor, answer).1 is Failed,
        advance(cursor, answer).1 is Failed ==> advance(cursor, answer).0.state
            == CursorState::Failed && advance(cursor, answer).0.collected.len() == 0,
        advance(cursor, answer).1 is Finished ==> advance(cursor, answer).0.state
            == CursorState::Exhausted,
        advance(cursor, answer).1 is More ==> advance(cursor, answer).0.state
            == CursorState::Executing,
{
}

/// Whether every row fits the shape.
pub open spec fn rows_fit(shape: Seq<ColumnView>, rows: Seq<Seq<ValueView>>) -> bool {
    forall|i: int| 0 <= i < rows.len() ==> values_fit(row_expectations(shape), #[trigger] rows[i])
}

/// The rows of all pages, in order.
pub open spec fn all_rows(pages: Seq<PageView>) -> Seq<Seq<ValueView>>
    decreases pages.len(),
{
    if pages.len() == 0 {
        Seq::empty()
    } else {
        pages[0].rows + all_rows(pages.drop_first())
    }
}

/// Whether the pages are the answer of a store to one query: there is a page, and each
/// page but the last has a continuation token.
pub open spec fn chained(pages: Seq<PageView>) -> bool {
    &&& pages.len() > 0
    &&& forall|i: int|
        0 <= i < pages.len() ==> ((#[trigger] pages[i]).next is None <==> i == pages.len() - 1)
}

/// The cursor and the last step after the pages have arrived one after another.
pub open spec fn drive(cursor: CursorView, pages: Seq<PageView>) -> (CursorView, StepView)
    decreases pages.len(),
{
    if pages.len() == 0 {
        (cursor, StepView::Ignored)
    } else if pages.len() == 1 {
        advance(cursor, Ok(pages[0]))
    } else {
        drive(advance(cursor, Ok(pages[0])).0, pages.drop_first())
    }
}

/// The pages that a store makes of the rows for a given page size: full pages with a
/// continuation token, then a last page with the rows that are left.
pub open spec fn pages_of(rows: Seq<Seq<ValueView>>, page_size: int) -> Seq<PageView>
    decreases rows.len(),
{
    if page_size <= 0 || rows.len() <= page_size {
        seq![PageView { rows, next: None }]
    } else {
        seq![PageView { rows: rows.take(page_size), next: Some(Seq::empty()) }] + pages_of(
            rows.skip(page_size),
            page_size,
        )
    }
}

/// Rows that fit the shape are all read, and gathered as they are.
pub proof fn lemma_fitting_rows_are_gathered(shape: Seq<ColumnView>, rows: Seq<Seq<ValueView>>)
    requires
        rows_fit(shape, rows),
    ensures
        gather(read_each(shape, rows)) == Ok::<Seq<Seq<ValueView>>, RunError>(rows),
    decreases rows.len(),
{
    let reads = read_each(shape, rows);
    if rows.len() > 0 {
        let rest = rows.drop_first();
        assert forall|i: int| 0 <= i < rest.len() implies values_fit(
            row_expectations(shape),
            #[trigger] rest[i],
        ) by {
            assert(rest[i] == rows[i + 1]);
        }
        lemma_fitting_rows_are_gathered(shape, rest);
        assert(values_fit(row_expectations(shape), rows[0]));
        assert(reads[0] == Ok::<Seq<ValueView>, RunError>(rows[0]));
        assert(reads.drop_first() =~= read_each(shape, rest)) by {
            assert forall|i: int| 0 <= i < rest.len() implies reads.drop_first()[i] == read_each(
                shape,
                rest,
            )[i] by {
                assert(values_fit(row_expectations(shape), rows[i + 1]));
                assert(rest[i] == rows[i + 1]);
            }
        }
        assert(seq![rows[0]] + rest =~= rows);
    } else {
        assert(rows =~= Seq::<Seq<ValueView>>::empty());
    }
}

/// Loading into memory returns every row of every page, in order, and their number,
/// however the store has cut the rows into pages.
pub proof fn lemma_all_pages_arrive(cursor: CursorView, pages: Seq<PageView>)
    requires
        cursor.state == CursorState::Executing,
        cursor.mode == Retrieval::AllInMemory,
        chained(pages),
        forall|i: int| 0 <= i < pages.len() ==> rows_fit(cursor.shape, (#[trigger] pages[i]).rows),
    ensures
        drive(cursor, pages) == (
            CursorView { state: CursorState::Exhausted, collected: Seq::empty(), ..cursor },
            StepView::Finished {
                entities: cursor.collected + all_rows(pages),
                count: (cursor.collected + all_rows(pages)).len() as int,
            },
        ),
    decreases pages.len(),
{
    let first = pages[0];
    lemma_fitting_rows_are_gathered(cursor.shape, first.rows);
    let rest = pages.drop_first();
    if pages.len() == 1 {
        assert(first.next is None);
        assert(all_rows(rest) =~= Seq::<Seq<ValueView>>::empty());
        assert(all_rows(pages) =~= first.rows);
    } else {
        assert(first.next is Some);
        let next = advance(cursor, Ok(first)).0;
        assert(next == CursorView { collected: cursor.collected + first.rows, ..cursor });
        assert forall|i: int| 0 <= i < rest.len() implies ((#[trigger] rest[i]).next is None
            <==> i == rest.len() - 1) && rows_fit(next.shape, rest[i].rows) by {
            assert(rest[i] == pages[i + 1]);
        }
        lemma_all_pages_arrive(next, rest);
        assert((cursor.collected + first.rows) + all_rows(rest) =~= cursor.collected + all_rows(
            pages,
        ));
    }
}

/// The pages that a store makes of some rows are chained, hold only those rows, and hold
/// them all, in order.
pub proof fn lemma_pages_of(shape: Seq<ColumnView>, rows: Seq<Seq<ValueView>>, page_size: int)
    requires
        rows_fit(shape, rows),
    ensures
        chained(pages_of(rows, page_size)),
        all_rows(pages_of(rows, page_size)) == rows,
        forall|i: int|
            0 <= i < pages_of(rows, page_size).len() ==> rows_fit(
                shape,
                (#[trigger] pages_of(rows, page_size)[i]).rows,
            ),
    decreases rows.len(),
{
    let pages = pages_of(rows, page_size);
    if page_size <= 0 || rows.len() <= page_size {
        assert(all_rows(pages.drop_first()) =~= Seq::<Seq<ValueView>>::empty());
        assert(all_rows(pages) =~= rows);
    } else {
        let head = rows.take(page_size);
        let tail = rows.skip(page_size);
        assert forall|i: int| 0 <= i < tail.len() implies values_fit(
            row_expectations(shape),
            #[trigger] tail[i],
        ) by {
            assert(tail[i] == rows[i + page_size]);
        }
        lemma_pages_of(shape, tail, page_size);
        let rest = pages_of(tail, page_size);
        assert(pages.drop_first() =~= rest);
        assert(head + tail =~= rows);
        assert forall|i: int| 0 <= i < pages.len() implies ((#[trigger] pages[i]).next is None
            <==> i == pages.len() - 1) && rows_fit(shape, pages[i].rows) by {
            if i > 0 {
                assert(pages[i] == rest[i - 1]);
            } else {
                assert forall|j: int| 0 <= j < head.len() implies values_fit(
                    row_expectations(shape),
                    #[trigger] head[j],
                ) by {
                    assert(head[j] == rows[j]);
                }
            }
        }
    }
}

/// Loading into memory returns exactly the rows of the answer, in order, and their
/// number, whatever the page size.
pub proof fn lemma_page_size_does_not_matter(
    cursor: CursorView,
    rows: Seq<Seq<ValueView>>,
    page_size: int,
)
    requires
        cursor.state == CursorState::Executing,
        cursor.mode == Retrieval::AllInMemory,
        cursor.collected.len() == 0,
        rows_fit(cursor.shape, rows),
    ensures
        drive(cursor, pages_of(rows, page_size)).1 == (StepView::Finished {
            entities: rows,
            count: rows.len() as int,
        }),
        drive(cursor, pages_of(rows, page_size)).0.state == CursorState::Exhausted,
{
    lemma_pages_of(cursor.shape, rows, page_size);
    lemma_all_pages_arrive(cursor, pages_of(rows, page_size));
    assert(cursor.collected + rows =~= rows);
}

} // verus!

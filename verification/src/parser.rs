//! Reading the statement that a query template holds.
//!
//! The grammar, over the tokens of the template (keywords in lower case):
//!
//! ```text
//! select  := "select" ( "*" | names ) "from" table [ where ] [ "limit" ( number | "?" ) ]
//! insert  := "insert" "into" table "(" names ")" "values" "(" operands ")"
//! update  := "update" table "set" assignments where
//! delete  := "delete" "from" table [ where ]
//! where   := "where" column comparison operand { "and" column comparison operand }
//! assignments := column "=" operand { "," column "=" operand }
//! names   := column { "," column }
//! column, table := a word that is none of the words above
//! operands := operand { "," operand }
//! operand := "?" | number | text | "true" | "false"
//! ```
use crate::lexer::{lex, lexemes, tokenize, within, Lexeme, Token, TokenKind};
use crate::text::{chars_of, same_text};
use vstd::prelude::*;
use vstd::string::*;

verus! {

/// What a statement does.
#[derive(Clone, Copy, Debug, PartialEq, Eq, Structural)]
pub enum Operation {
    Select,
    Insert,
    Update,
    Delete,
}

/// How a column is compared with an operand. An assignment counts as `Equal`.
#[derive(Clone, Copy, Debug, PartialEq, Eq, Structural)]
pub enum Comparison {
    Equal,
    Less,
    LessEqual,
    Greater,
    GreaterEqual,
}

/// What stands on the other side of a column.
#[derive(Clone, Copy, Debug, PartialEq, Eq, Structural)]
pub enum OperandKind {
    /// `?`, to be bound when the statement runs.
    Placeholder,
    /// A whole-number literal.
    Integer,
    /// A quoted text literal.
    Text,
    /// `true` or `false`.
    Boolean,
}

/// A name in the template, with the character offset at which it stands.
#[derive(Debug)]
pub struct ColumnRef {
    pub name: String,
    pub position: usize,
}

/// The mathematical value of a [`ColumnRef`].
pub struct ColumnRefView {
    pub name: Seq<char>,
    pub position: int,
}

impl View for ColumnRef {
    type V = ColumnRefView;

    open spec fn view(&self) -> ColumnRefView {
        ColumnRefView { name: self.name@, position: self.position as int }
    }
}

/// An operand with the character offset at which it stands.
#[derive(Clone, Copy, Debug)]
pub struct Operand {
    pub kind: OperandKind,
    pub position: usize,
}

/// The mathematical value of an [`Operand`].
pub struct OperandView {
    pub kind: OperandKind,
    pub position: int,
}

impl View for Operand {
    type V = OperandView;

    open spec fn view(&self) -> OperandView {
        OperandView { kind: self.kind, position: self.position as int }
    }
}

/// A column with the operand it is compared with or assigned.
#[derive(Debug)]
pub struct Binding {
    pub column: ColumnRef,
    pub comparison: Comparison,
    pub operand: Operand,
}

/// The mathematical value of a [`Binding`].
pub struct BindingView {
    pub column: ColumnRefView,
    pub comparison: Comparison,
    pub operand: OperandView,
}

impl View for Binding {
    type V = BindingView;

    open spec fn view(&self) -> BindingView {
        BindingView { column: self.column@, comparison: self.comparison, operand: self.operand@ }
    }
}

/// A statement as the template writes it, before it is held against a schema.
#[derive(Debug)]
pub struct ParsedQuery {
    pub operation: Operation,
    /// The table the statement addresses.
    pub table: ColumnRef,
    /// Whether a `select` asks for every column with `*`.
    pub wildcard: bool,
    /// The columns a `select` lists.
    pub selected: Vec<ColumnRef>,
    /// The columns an `insert` or `update` writes, each with its operand.
    pub assignments: Vec<Binding>,
    /// The comparisons after `where`.
    pub conditions: Vec<Binding>,
    /// The operand after `limit`.
    pub limit: Option<Operand>,
}

/// The mathematical value of a [`ParsedQuery`].
pub struct ParsedQueryView {
    pub operation: Operation,
    pub table: ColumnRefView,
    pub wildcard: bool,
    pub selected: Seq<ColumnRefView>,
    pub assignments: Seq<BindingView>,
    pub conditions: Seq<BindingView>,
    pub limit: Option<OperandView>,
}

/// The views of a list of names, in order.
pub open spec fn names_view(names: Seq<ColumnRef>) -> Seq<ColumnRefView> {
    names.map_values(|name: ColumnRef| name@)
}

/// The views of a list of operands, in order.
pub open spec fn operands_view(operands: Seq<Operand>) -> Seq<OperandView> {
    operands.map_values(|operand: Operand| operand@)
}

/// The views of a list of bindings, in order.
pub open spec fn bindings_view(bindings: Seq<Binding>) -> Seq<BindingView> {
    bindings.map_values(|binding: Binding| binding@)
}

impl View for ParsedQuery {
    type V = ParsedQueryView;

    open spec fn view(&self) -> ParsedQueryView {
        ParsedQueryView {
            operation: self.operation,
            table: self.table@,
            wildcard: self.wildcard,
            selected: names_view(self.selected@),
            assignments: bindings_view(self.assignments@),
            conditions: bindings_view(self.conditions@),
            limit: match self.limit {
                Some(operand) => Some(operand@),
                None => None,
            },
        }
    }
}

/// The characters that a token spans.
pub open spec fn text_at(s: Seq<char>, token: Lexeme) -> Seq<char> {
    s.subrange(token.start, token.end)
}

/// Whether the token at `i` exists and is of the given kind.
pub open spec fn is_kind(tokens: Seq<Lexeme>, i: int, kind: TokenKind) -> bool {
    0 <= i < tokens.len() && tokens[i].kind == kind
}

/// Whether the token at `i` exists and is the given word.
pub open spec fn is_word(s: Seq<char>, tokens: Seq<Lexeme>, i: int, word: Seq<char>) -> bool {
    is_kind(tokens, i, TokenKind::Word) && text_at(s, tokens[i]) == word
}

/// Whether the word is one of the grammar's own and therefore no name.
pub open spec fn is_reserved(word: Seq<char>) -> bool {
    word == "select"@ || word == "from"@ || word == "where"@ || word == "and"@ || word
        == "limit"@ || word == "insert"@ || word == "into"@ || word == "values"@ || word
        == "update"@ || word == "set"@ || word == "delete"@ || word == "true"@ || word
        == "false"@
}

/// Whether the token at `i` exists and is a name: a word that the grammar does not
/// reserve.
pub open spec fn is_name(s: Seq<char>, tokens: Seq<Lexeme>, i: int) -> bool {
    is_kind(tokens, i, TokenKind::Word) && !is_reserved(text_at(s, tokens[i]))
}

/// The name that the word at `i` gives.
pub open spec fn name_at(s: Seq<char>, tokens: Seq<Lexeme>, i: int) -> ColumnRefView {
    ColumnRefView { name: text_at(s, tokens[i]), position: tokens[i].start }
}

/// The operand that the token at `i` is, if it is one.
pub open spec fn operand_at(s: Seq<char>, tokens: Seq<Lexeme>, i: int) -> Option<OperandView> {
    if !(0 <= i < tokens.len()) {
        None
    } else if tokens[i].kind == TokenKind::Placeholder {
        Some(OperandView { kind: OperandKind::Placeholder, position: tokens[i].start })
    } else if tokens[i].kind == TokenKind::Number {
        Some(OperandView { kind: OperandKind::Integer, position: tokens[i].start })
    } else if tokens[i].kind == TokenKind::Text {
        Some(OperandView { kind: OperandKind::Text, position: tokens[i].start })
    } else if is_word(s, tokens, i, "true"@) || is_word(s, tokens, i, "false"@) {
        Some(OperandView { kind: OperandKind::Boolean, position: tokens[i].start })
    } else {
        None
    }
}

/// The comparison that the token at `i` is, if it is one.
pub open spec fn comparison_at(tokens: Seq<Lexeme>, i: int) -> Option<Comparison> {
    if !(0 <= i < tokens.len()) {
        None
    } else {
        match tokens[i].kind {
            TokenKind::Equal => Some(Comparison::Equal),
            TokenKind::Less => Some(Comparison::Less),
            TokenKind::LessEqual => Some(Comparison::LessEqual),
            TokenKind::Greater => Some(Comparison::Greater),
            TokenKind::GreaterEqual => Some(Comparison::GreaterEqual),
            _ => None,
        }
    }
}

/// What a list parser has found: the items and the index of the token after them, or
/// the index of the token that does not fit.
pub type Parsed<T> = Result<(Seq<T>, int), int>;

/// `found` in front of what a list parser finds from its position on.
pub open spec fn glue<T>(found: Seq<T>, rest: Parsed<T>) -> Parsed<T> {
    match rest {
        Ok((more, next)) => Ok((found + more, next)),
        Err(at) => Err(at),
    }
}

/// Reads `column { "," column }` from the token at `i` on.
pub open spec fn parse_names(s: Seq<char>, tokens: Seq<Lexeme>, i: int) -> Parsed<ColumnRefView>
    decreases tokens.len() - i,
{
    if !is_name(s, tokens, i) {
        Err(i)
    } else if is_kind(tokens, i + 1, TokenKind::Comma) {
        glue(seq![name_at(s, tokens, i)], parse_names(s, tokens, i + 2))
    } else {
        Ok((seq![name_at(s, tokens, i)], i + 1))
    }
}

/// Reads `operand { "," operand }` from the token at `i` on.
pub open spec fn parse_operands(s: Seq<char>, tokens: Seq<Lexeme>, i: int) -> Parsed<OperandView>
    decreases tokens.len() - i,
{
    match operand_at(s, tokens, i) {
        None => Err(i),
        Some(operand) => if is_kind(tokens, i + 1, TokenKind::Comma) {
            glue(seq![operand], parse_operands(s, tokens, i + 2))
        } else {
            Ok((seq![operand], i + 1))
        },
    }
}

/// How the bindings of a list are told apart.
#[derive(Clone, Copy, Debug, PartialEq, Eq, Structural)]
pub enum ListKind {
    /// Comparisons joined by `and`, as after `where`.
    Conditions,
    /// Assignments joined by `,`, as after `set`.
    Assignments,
}

/// Whether the token at `i` joins two bindings of a list of the given kind.
pub open spec fn is_joiner(s: Seq<char>, tokens: Seq<Lexeme>, i: int, list: ListKind) -> bool {
    match list {
        ListKind::Conditions => is_word(s, tokens, i, "and"@),
        ListKind::Assignments => is_kind(tokens, i, TokenKind::Comma),
    }
}

/// The comparison at `i` that a list of the given kind admits: any comparison in a
/// condition, `=` alone in an assignment.
pub open spec fn admitted_comparison(tokens: Seq<Lexeme>, i: int, list: ListKind) -> Option<
    Comparison,
> {
    match comparison_at(tokens, i) {
        Some(comparison) => if list == ListKind::Assignments && comparison != Comparison::Equal {
            None
        } else {
            Some(comparison)
        },
        None => None,
    }
}

/// Reads `column comparison operand`, repeated with the list's joiner in between, from
/// the token at `i` on.
pub open spec fn parse_bindings(s: Seq<char>, tokens: Seq<Lexeme>, i: int, list: ListKind) -> Parsed<
    BindingView,
>
    decreases tokens.len() - i,
{
    if !is_name(s, tokens, i) {
        Err(i)
    } else {
        match admitted_comparison(tokens, i + 1, list) {
            None => Err(i + 1),
            Some(comparison) => match operand_at(s, tokens, i + 2) {
                None => Err(i + 2),
                Some(operand) => {
                    let binding = BindingView { column: name_at(s, tokens, i), comparison, operand };
                    if is_joiner(s, tokens, i + 3, list) {
                        glue(seq![binding], parse_bindings(s, tokens, i + 4, list))
                    } else {
                        Ok((seq![binding], i + 3))
                    }
                },
            },
        }
    }
}

/// Reads an optional `where` clause that starts at `i`.
pub open spec fn parse_where(s: Seq<char>, tokens: Seq<Lexeme>, i: int) -> Parsed<BindingView> {
    if is_word(s, tokens, i, "where"@) {
        parse_bindings(s, tokens, i + 1, ListKind::Conditions)
    } else {
        Ok((Seq::empty(), i))
    }
}

/// Reads an optional `limit` clause that starts at `i`.
pub open spec fn parse_limit(s: Seq<char>, tokens: Seq<Lexeme>, i: int) -> Result<
    (Option<OperandView>, int),
    int,
> {
    if is_word(s, tokens, i, "limit"@) {
        match operand_at(s, tokens, i + 1) {
            Some(operand) => if operand.kind == OperandKind::Placeholder || operand.kind
                == OperandKind::Integer {
                Ok((Some(operand), i + 2))
            } else {
                Err(i + 1)
            },
            None => Err(i + 1),
        }
    } else {
        Ok((None, i))
    }
}

/// Reads a `select` statement whose first token, `select`, has been seen.
pub open spec fn parse_select(s: Seq<char>, tokens: Seq<Lexeme>) -> Result<ParsedQueryView, int> {
    let list: Parsed<ColumnRefView> = if is_kind(tokens, 1, TokenKind::Star) {
        Ok((Seq::empty(), 2))
    } else {
        parse_names(s, tokens, 1)
    };
    match list {
        Err(at) => Err(at),
        Ok((selected, from)) => if !is_word(s, tokens, from, "from"@) {
            Err(from)
        } else if !is_name(s, tokens, from + 1) {
            Err(from + 1)
        } else {
            match parse_where(s, tokens, from + 2) {
                Err(at) => Err(at),
                Ok((conditions, after_where)) => match parse_limit(s, tokens, after_where) {
                    Err(at) => Err(at),
                    Ok((limit, end)) => if end != tokens.len() {
                        Err(end)
                    } else {
                        Ok(
                            ParsedQueryView {
                                operation: Operation::Select,
                                table: name_at(s, tokens, from + 1),
                                wildcard: is_kind(tokens, 1, TokenKind::Star),
                                selected,
                                assignments: Seq::empty(),
                                conditions,
                                limit,
                            },
                        )
                    },
                },
            }
        },
    }
}

/// The assignments of an `insert`: each listed column with the operand at its place.
pub open spec fn pair_up(names: Seq<ColumnRefView>, operands: Seq<OperandView>) -> Seq<
    BindingView,
> {
    Seq::new(
        names.len(),
        |i: int| BindingView { column: names[i], comparison: Comparison::Equal, operand: operands[i] },
    )
}

/// Reads an `insert` statement whose first token, `insert`, has been seen.
pub open spec fn parse_insert(s: Seq<char>, tokens: Seq<Lexeme>) -> Result<ParsedQueryView, int> {
    if !is_word(s, tokens, 1, "into"@) {
        Err(1)
    } else if !is_name(s, tokens, 2) {
        Err(2)
    } else if !is_kind(tokens, 3, TokenKind::OpenParen) {
        Err(3)
    } else {
        match parse_names(s, tokens, 4) {
            Err(at) => Err(at),
            Ok((names, close)) => if !is_kind(tokens, close, TokenKind::CloseParen) {
                Err(close)
            } else if !is_word(s, tokens, close + 1, "values"@) {
                Err(close + 1)
            } else if !is_kind(tokens, close + 2, TokenKind::OpenParen) {
                Err(close + 2)
            } else {
                match parse_operands(s, tokens, close + 3) {
                    Err(at) => Err(at),
                    Ok((operands, end)) => if !is_kind(tokens, end, TokenKind::CloseParen)
                        || operands.len() != names.len() {
                        Err(end)
                    } else if end + 1 != tokens.len() {
                        Err(end + 1)
                    } else {
                        Ok(
                            ParsedQueryView {
                                operation: Operation::Insert,
                                table: name_at(s, tokens, 2),
                                wildcard: false,
                                selected: Seq::empty(),
                                assignments: pair_up(names, operands),
                                conditions: Seq::empty(),
                                limit: None,
                            },
                        )
                    },
                }
            },
        }
    }
}

/// Reads an `update` statement whose first token, `update`, has been seen.
pub open spec fn parse_update(s: Seq<char>, tokens: Seq<Lexeme>) -> Result<ParsedQueryView, int> {
    if !is_name(s, tokens, 1) {
        Err(1)
    } else if !is_word(s, tokens, 2, "set"@) {
        Err(2)
    } else {
        match parse_bindings(s, tokens, 3, ListKind::Assignments) {
            Err(at) => Err(at),
            Ok((assignments, after_set)) => if !is_word(s, tokens, after_set, "where"@) {
                Err(after_set)
            } else {
                match parse_bindings(s, tokens, after_set + 1, ListKind::Conditions) {
                    Err(at) => Err(at),
                    Ok((conditions, end)) => if end != tokens.len() {
                        Err(end)
                    } else {
                        Ok(
                            ParsedQueryView {
                                operation: Operation::Update,
                                table: name_at(s, tokens, 1),
                                wildcard: false,
                                selected: Seq::empty(),
                                assignments,
                                conditions,
                                limit: None,
                            },
                        )
                    },
                }
            },
        }
    }
}

/// Reads a `delete` statement whose first token, `delete`, has been seen.
pub open spec fn parse_delete(s: Seq<char>, tokens: Seq<Lexeme>) -> Result<ParsedQueryView, int> {
    if !is_word(s, tokens, 1, "from"@) {
        Err(1)
    } else if !is_name(s, tokens, 2) {
        Err(2)
    } else {
        match parse_where(s, tokens, 3) {
            Err(at) => Err(at),
            Ok((conditions, end)) => if end != tokens.len() {
                Err(end)
            } else {
                Ok(
                    ParsedQueryView {
                        operation: Operation::Delete,
                        table: name_at(s, tokens, 2),
                        wildcard: false,
                        selected: Seq::empty(),
                        assignments: Seq::empty(),
                        conditions,
                        limit: None,
                    },
                )
            },
        }
    }
}

/// Reads the statement that the tokens of a template spell, or gives the index of the
/// first token that does not fit the grammar (the number of tokens, where one is missing
/// at the end).
pub open spec fn parse_tokens(s: Seq<char>, tokens: Seq<Lexeme>) -> Result<ParsedQueryView, int> {
    if is_word(s, tokens, 0, "select"@) {
        parse_select(s, tokens)
    } else if is_word(s, tokens, 0, "insert"@) {
        parse_insert(s, tokens)
    } else if is_word(s, tokens, 0, "update"@) {
        parse_update(s, tokens)
    } else if is_word(s, tokens, 0, "delete"@) {
        parse_delete(s, tokens)
    } else {
        Err(0)
    }
}

/// The character offset that a token index stands for: where the token starts, or the
/// end of the text where the index is past the last token.
pub open spec fn offset_of(s: Seq<char>, tokens: Seq<Lexeme>, i: int) -> int {
    if 0 <= i < tokens.len() {
        tokens[i].start
    } else {
        s.len() as int
    }
}

/// Reads the statement that a template holds, or gives the character offset at which the
/// template leaves the grammar.
pub open spec fn parse_spec(s: Seq<char>) -> Result<ParsedQueryView, int> {
    match lex(s) {
        Err(position) => Err(position),
        Ok(tokens) => match parse_tokens(s, tokens) {
            Ok(query) => Ok(query),
            Err(at) => Err(offset_of(s, tokens, at)),
        },
    }
}

fn kind_is(tokens: &Vec<Token>, i: usize, kind: TokenKind) -> (is: bool)
    ensures
        is == is_kind(lexemes(tokens@), i as int, kind),
{
    i < tokens.len() && tokens[i].kind == kind
}

fn word_is(template: &str, tokens: &Vec<Token>, i: usize, word: &str) -> (is: bool)
    requires
        within(lexemes(tokens@), template@.len() as int),
    ensures
        is == is_word(template@, lexemes(tokens@), i as int, word@),
{
    if i < tokens.len() && tokens[i].kind == TokenKind::Word {
        assert(lexemes(tokens@)[i as int] == tokens[i as int]@);
        same_text(template.substring_char(tokens[i].start, tokens[i].end), word)
    } else {
        false
    }
}

fn reserved(word: &str) -> (is: bool)
    ensures
        is == is_reserved(word@),
{
    same_text(word, "select") || same_text(word, "from") || same_text(word, "where") || same_text(
        word,
        "and",
    ) || same_text(word, "limit") || same_text(word, "insert") || same_text(word, "into")
        || same_text(word, "values") || same_text(word, "update") || same_text(word, "set")
        || same_text(word, "delete") || same_text(word, "true") || same_text(word, "false")
}

fn name_is(template: &str, tokens: &Vec<Token>, i: usize) -> (is: bool)
    requires
        within(lexemes(tokens@), template@.len() as int),
    ensures
        is == is_name(template@, lexemes(tokens@), i as int),
{
    if i < tokens.len() && tokens[i].kind == TokenKind::Word {
        assert(lexemes(tokens@)[i as int] == tokens[i as int]@);
        !reserved(template.substring_char(tokens[i].start, tokens[i].end))
    } else {
        false
    }
}

fn name_of(template: &str, tokens: &Vec<Token>, i: usize) -> (name: ColumnRef)
    requires
        within(lexemes(tokens@), template@.len() as int),
        i < tokens.len(),
    ensures
        name@ == name_at(template@, lexemes(tokens@), i as int),
{
    assert(lexemes(tokens@)[i as int] == tokens[i as int]@);
    let text = template.substring_char(tokens[i].start, tokens[i].end);
    ColumnRef { name: text.to_owned(), position: tokens[i].start }
}

fn read_operand(template: &str, tokens: &Vec<Token>, i: usize) -> (operand: Option<Operand>)
    requires
        within(lexemes(tokens@), template@.len() as int),
    ensures
        match operand {
            Some(found) => operand_at(template@, lexemes(tokens@), i as int) == Some(found@),
            None => operand_at(template@, lexemes(tokens@), i as int) is None,
        },
{
    if i >= tokens.len() {
        return None;
    }
    assert(lexemes(tokens@)[i as int] == tokens[i as int]@);
    let position = tokens[i].start;
    match tokens[i].kind {
        TokenKind::Placeholder => Some(Operand { kind: OperandKind::Placeholder, position }),
        TokenKind::Number => Some(Operand { kind: OperandKind::Integer, position }),
        TokenKind::Text => Some(Operand { kind: OperandKind::Text, position }),
        _ => if word_is(template, tokens, i, "true") || word_is(template, tokens, i, "false") {
            Some(Operand { kind: OperandKind::Boolean, position })
        } else {
            None
        },
    }
}

fn read_comparison(tokens: &Vec<Token>, i: usize, list: ListKind) -> (comparison: Option<
    Comparison,
>)
    ensures
        comparison == admitted_comparison(lexemes(tokens@), i as int, list),
{
    if i >= tokens.len() {
        return None;
    }
    assert(lexemes(tokens@)[i as int] == tokens[i as int]@);
    let found = match tokens[i].kind {
        TokenKind::Equal => Comparison::Equal,
        TokenKind::Less => Comparison::Less,
        TokenKind::LessEqual => Comparison::LessEqual,
        TokenKind::Greater => Comparison::Greater,
        TokenKind::GreaterEqual => Comparison::GreaterEqual,
        _ => {
            return None;
        },
    };
    match list {
        ListKind::Assignments => if found == Comparison::Equal {
            Some(found)
        } else {
            None
        },
        ListKind::Conditions => Some(found),
    }
}

fn joiner_is(template: &str, tokens: &Vec<Token>, i: usize, list: ListKind) -> (is: bool)
    requires
        within(lexemes(tokens@), template@.len() as int),
    ensures
        is == is_joiner(template@, lexemes(tokens@), i as int, list),
{
    match list {
        ListKind::Conditions => word_is(template, tokens, i, "and"),
        ListKind::Assignments => kind_is(tokens, i, TokenKind::Comma),
    }
}

/// Whether an executable list parser's result is the specified one.
pub open spec fn same_list<T: View>(
    found: Result<(Vec<T>, usize), usize>,
    expected: Parsed<T::V>,
) -> bool {
    match found {
        Ok((items, next)) => expected == Ok::<(Seq<T::V>, int), int>(
            (items@.map_values(|item: T| item@), next as int),
        ),
        Err(at) => expected == Err::<(Seq<T::V>, int), int>(at as int),
    }
}

/// Whether a list parser's result stays within `len` tokens.
pub open spec fn bounded<T>(found: Result<(Vec<T>, usize), usize>, len: int) -> bool {
    match found {
        Ok((_, next)) => next <= len,
        Err(at) => at <= len,
    }
}

fn read_names(template: &str, tokens: &Vec<Token>, start: usize) -> (found: Result<
    (Vec<ColumnRef>, usize),
    usize,
>)
    requires
        within(lexemes(tokens@), template@.len() as int),
        start <= tokens.len(),
    ensures
        same_list(found, parse_names(template@, lexemes(tokens@), start as int)),
        bounded(found, tokens.len() as int),
{
    let ghost s = template@;
    let ghost toks = lexemes(tokens@);
    let mut names: Vec<ColumnRef> = Vec::new();
    let mut i = start;
    loop
        invariant
            s == template@,
            toks == lexemes(tokens@),
            within(toks, s.len() as int),
            i <= tokens.len(),
            parse_names(s, toks, start as int) == glue(
                names_view(names@),
                parse_names(s, toks, i as int),
            ),
        decreases tokens.len() - i,
    {
        if !name_is(template, tokens, i) {
            return Err(i);
        }
        let name = name_of(template, tokens, i);
        proof {
            let before = names_view(names@);
            assert(names_view(names@.push(name)) =~= before.push(name@));
            if let Ok((more, next)) = parse_names(s, toks, i + 2) {
                assert(before + (seq![name@] + more) =~= before.push(name@) + more);
            }
            assert(before + seq![name@] =~= before.push(name@));
        }
        names.push(name);
        if kind_is(tokens, i + 1, TokenKind::Comma) {
            i = i + 2;
        } else {
            return Ok((names, i + 1));
        }
    }
}

fn read_operands(template: &str, tokens: &Vec<Token>, start: usize) -> (found: Result<
    (Vec<Operand>, usize),
    usize,
>)
    requires
        within(lexemes(tokens@), template@.len() as int),
        start <= tokens.len(),
    ensures
        same_list(found, parse_operands(template@, lexemes(tokens@), start as int)),
        bounded(found, tokens.len() as int),
{
    let ghost s = template@;
    let ghost toks = lexemes(tokens@);
    let mut operands: Vec<Operand> = Vec::new();
    let mut i = start;
    loop
        invariant
            s == template@,
            toks == lexemes(tokens@),
            within(toks, s.len() as int),
            i <= tokens.len(),
            parse_operands(s, toks, start as int) == glue(
                operands_view(operands@),
                parse_operands(s, toks, i as int),
            ),
        decreases tokens.len() - i,
    {
        match read_operand(template, tokens, i) {
            None => {
                return Err(i);
            },
            Some(operand) => {
                proof {
                    let before = operands_view(operands@);
                    assert(operands_view(operands@.push(operand)) =~= before.push(operand@));
                    if let Ok((more, next)) = parse_operands(s, toks, i + 2) {
                        assert(before + (seq![operand@] + more) =~= before.push(operand@) + more);
                    }
                    assert(before + seq![operand@] =~= before.push(operand@));
                }
                operands.push(operand);
                if kind_is(tokens, i + 1, TokenKind::Comma) {
                    i = i + 2;
                } else {
                    return Ok((operands, i + 1));
                }
            },
        }
    }
}

fn read_bindings(template: &str, tokens: &Vec<Token>, start: usize, list: ListKind) -> (found:
    Result<(Vec<Binding>, usize), usize>)
    requires
        within(lexemes(tokens@), template@.len() as int),
        start <= tokens.len(),
    ensures
        same_list(found, parse_bindings(template@, lexemes(tokens@), start as int, list)),
        bounded(found, tokens.len() as int),
{
    let ghost s = template@;
    let ghost toks = lexemes(tokens@);
    let mut bindings: Vec<Binding> = Vec::new();
    let mut i = start;
    loop
        invariant
            s == template@,
            toks == lexemes(tokens@),
            within(toks, s.len() as int),
            i <= tokens.len(),
            parse_bindings(s, toks, start as int, list) == glue(
                bindings_view(bindings@),
                parse_bindings(s, toks, i as int, list),
            ),
        decreases tokens.len() - i,
    {
        if !name_is(template, tokens, i) {
            return Err(i);
        }
        let comparison = match read_comparison(tokens, i + 1, list) {
            None => {
                return Err(i + 1);
            },
            Some(comparison) => comparison,
        };
        let operand = match read_operand(template, tokens, i + 2) {
            None => {
                return Err(i + 2);
            },
            Some(operand) => operand,
        };
        let binding = Binding { column: name_of(template, tokens, i), comparison, operand };
        proof {
            let before = bindings_view(bindings@);
            assert(bindings_view(bindings@.push(binding)) =~= before.push(binding@));
            if let Ok((more, next)) = parse_bindings(s, toks, i + 4, list) {
                assert(before + (seq![binding@] + more) =~= before.push(binding@) + more);
            }
            assert(before + seq![binding@] =~= before.push(binding@));
        }
        bindings.push(binding);
        if joiner_is(template, tokens, i + 3, list) {
            i = i + 4;
        } else {
            return Ok((bindings, i + 3));
        }
    }
}

fn read_where(template: &str, tokens: &Vec<Token>, i: usize) -> (found: Result<
    (Vec<Binding>, usize),
    usize,
>)
    requires
        within(lexemes(tokens@), template@.len() as int),
        i <= tokens.len(),
    ensures
        same_list(found, parse_where(template@, lexemes(tokens@), i as int)),
        bounded(found, tokens.len() as int),
{
    if word_is(template, tokens, i, "where") {
        read_bindings(template, tokens, i + 1, ListKind::Conditions)
    } else {
        let none: Vec<Binding> = Vec::new();
        assert(bindings_view(none@) =~= Seq::<BindingView>::empty());
        Ok((none, i))
    }
}

fn read_limit(template: &str, tokens: &Vec<Token>, i: usize) -> (found: Result<
    (Option<Operand>, usize),
    usize,
>)
    requires
        within(lexemes(tokens@), template@.len() as int),
        i <= tokens.len(),
    ensures
        match found {
            Ok((limit, next)) => next <= tokens.len() && parse_limit(
                template@,
                lexemes(tokens@),
                i as int,
            ) == Ok::<(Option<OperandView>, int), int>(
                (
                    match limit {
                        Some(operand) => Some(operand@),
                        None => None,
                    },
                    next as int,
                ),
            ),
            Err(at) => at <= tokens.len() && parse_limit(template@, lexemes(tokens@), i as int)
                == Err::<(Option<OperandView>, int), int>(at as int),
        },
{
    if word_is(template, tokens, i, "limit") {
        match read_operand(template, tokens, i + 1) {
            Some(operand) => match operand.kind {
                OperandKind::Placeholder | OperandKind::Integer => Ok((Some(operand), i + 2)),
                _ => Err(i + 1),
            },
            None => Err(i + 1),
        }
    } else {
        Ok((None, i))
    }
}

/// Whether an executable statement parser's result is the specified one.
pub open spec fn same_statement(
    found: Result<ParsedQuery, usize>,
    expected: Result<ParsedQueryView, int>,
) -> bool {
    match found {
        Ok(query) => expected == Ok::<ParsedQueryView, int>(query@),
        Err(at) => expected == Err::<ParsedQueryView, int>(at as int),
    }
}

fn read_select(template: &str, tokens: &Vec<Token>) -> (found: Result<ParsedQuery, usize>)
    requires
        within(lexemes(tokens@), template@.len() as int),
        tokens.len() >= 1,
    ensures
        same_statement(found, parse_select(template@, lexemes(tokens@))),
        found matches Err(at) ==> at <= tokens.len(),
{
    let wildcard = kind_is(tokens, 1, TokenKind::Star);
    let (selected, from) = if wildcard {
        let none: Vec<ColumnRef> = Vec::new();
        assert(names_view(none@) =~= Seq::<ColumnRefView>::empty());
        (none, 2)
    } else {
        match read_names(template, tokens, 1) {
            Err(at) => {
                return Err(at);
            },
            Ok(list) => list,
        }
    };
    if !word_is(template, tokens, from, "from") {
        return Err(from);
    }
    if !name_is(template, tokens, from + 1) {
        return Err(from + 1);
    }
    let table = name_of(template, tokens, from + 1);
    let (conditions, after_where) = match read_where(template, tokens, from + 2) {
        Err(at) => {
            return Err(at);
        },
        Ok(list) => list,
    };
    let (limit, end) = match read_limit(template, tokens, after_where) {
        Err(at) => {
            return Err(at);
        },
        Ok(list) => list,
    };
    if end != tokens.len() {
        return Err(end);
    }
    let none: Vec<Binding> = Vec::new();
    assert(bindings_view(none@) =~= Seq::<BindingView>::empty());
    Ok(
        ParsedQuery {
            operation: Operation::Select,
            table,
            wildcard,
            selected,
            assignments: none,
            conditions,
            limit,
        },
    )
}

fn pair(names: Vec<ColumnRef>, operands: &Vec<Operand>) -> (bindings: Vec<Binding>)
    requires
        names.len() == operands.len(),
    ensures
        bindings_view(bindings@) == pair_up(names_view(names@), operands_view(operands@)),
{
    let ghost expected = pair_up(names_view(names@), operands_view(operands@));
    let mut bindings: Vec<Binding> = Vec::new();
    let mut names = names;
    let ghost all = names@;
    let mut rest: Vec<ColumnRef> = Vec::new();
    // Names are moved out from the back, so the bindings are collected in reverse.
    while names.len() > 0
        invariant
            names.len() <= operands.len(),
            names@ == all.take(names.len() as int),
            all.len() == operands.len(),
            rest.len() == all.len() - names.len(),
            forall|k: int|
                0 <= k < rest.len() ==> (#[trigger] rest[k]) == all[all.len() - 1 - k],
        decreases names.len(),
    {
        let ghost n = names.len();
        let name = names.pop().unwrap();
        rest.push(name);
        assert(names@ =~= all.take(names.len() as int));
    }
    while rest.len() > 0
        invariant
            all.len() == operands.len(),
            rest.len() + bindings.len() == all.len(),
            forall|k: int|
                0 <= k < rest.len() ==> (#[trigger] rest[k]) == all[all.len() - 1 - k],
            expected == pair_up(names_view(all), operands_view(operands@)),
            forall|k: int|
                0 <= k < bindings.len() ==> (#[trigger] bindings[k])@ == expected[k],
        decreases rest.len(),
    {
        let at = bindings.len();
        let name = rest.pop().unwrap();
        assert(name == all[at as int]);
        bindings.push(Binding { column: name, comparison: Comparison::Equal, operand: operands[at] });
    }
    assert(bindings_view(bindings@) =~= expected);
    bindings
}

fn read_insert(template: &str, tokens: &Vec<Token>) -> (found: Result<ParsedQuery, usize>)
    requires
        within(lexemes(tokens@), template@.len() as int),
        tokens.len() >= 1,
    ensures
        same_statement(found, parse_insert(template@, lexemes(tokens@))),
        found matches Err(at) ==> at <= tokens.len(),
{
    if !word_is(template, tokens, 1, "into") {
        return Err(1);
    }
    if !name_is(template, tokens, 2) {
        return Err(2);
    }
    if !kind_is(tokens, 3, TokenKind::OpenParen) {
        return Err(3);
    }
    let table = name_of(template, tokens, 2);
    let (names, close) = match read_names(template, tokens, 4) {
        Err(at) => {
            return Err(at);
        },
        Ok(list) => list,
    };
    if !kind_is(tokens, close, TokenKind::CloseParen) {
        return Err(close);
    }
    if !word_is(template, tokens, close + 1, "values") {
        return Err(close + 1);
    }
    if !kind_is(tokens, close + 2, TokenKind::OpenParen) {
        return Err(close + 2);
    }
    let (operands, end) = match read_operands(template, tokens, close + 3) {
        Err(at) => {
            return Err(at);
        },
        Ok(list) => list,
    };
    if !kind_is(tokens, end, TokenKind::CloseParen) || operands.len() != names.len() {
        return Err(end);
    }
    if end + 1 != tokens.len() {
        return Err(end + 1);
    }
    let assignments = pair(names, &operands);
    let no_names: Vec<ColumnRef> = Vec::new();
    let no_conditions: Vec<Binding> = Vec::new();
    assert(names_view(no_names@) =~= Seq::<ColumnRefView>::empty());
    assert(bindings_view(no_conditions@) =~= Seq::<BindingView>::empty());
    Ok(
        ParsedQuery {
            operation: Operation::Insert,
            table,
            wildcard: false,
            selected: no_names,
            assignments,
            conditions: no_conditions,
            limit: None,
        },
    )
}

fn read_update(template: &str, tokens: &Vec<Token>) -> (found: Result<ParsedQuery, usize>)
    requires
        within(lexemes(tokens@), template@.len() as int),
        tokens.len() >= 1,
    ensures
        same_statement(found, parse_update(template@, lexemes(tokens@))),
        found matches Err(at) ==> at <= tokens.len(),
{
    if !name_is(template, tokens, 1) {
        return Err(1);
    }
    if !word_is(template, tokens, 2, "set") {
        return Err(2);
    }
    let table = name_of(template, tokens, 1);
    let (assignments, after_set) = match read_bindings(template, tokens, 3, ListKind::Assignments) {
        Err(at) => {
            return Err(at);
        },
        Ok(list) => list,
    };
    if !word_is(template, tokens, after_set, "where") {
        return Err(after_set);
    }
    let (conditions, end) = match read_bindings(
        template,
        tokens,
        after_set + 1,
        ListKind::Conditions,
    ) {
        Err(at) => {
            return Err(at);
        },
        Ok(list) => list,
    };
    if end != tokens.len() {
        return Err(end);
    }
    let no_names: Vec<ColumnRef> = Vec::new();
    assert(names_view(no_names@) =~= Seq::<ColumnRefView>::empty());
    Ok(
        ParsedQuery {
            operation: Operation::Update,
            table,
            wildcard: false,
            selected: no_names,
            assignments,
            conditions,
            limit: None,
        },
    )
}

fn read_delete(template: &str, tokens: &Vec<Token>) -> (found: Result<ParsedQuery, usize>)
    requires
        within(lexemes(tokens@), template@.len() as int),
        tokens.len() >= 1,
    ensures
        same_statement(found, parse_delete(template@, lexemes(tokens@))),
        found matches Err(at) ==> at <= tokens.len(),
{
    if !word_is(template, tokens, 1, "from") {
        return Err(1);
    }
    if !name_is(template, tokens, 2) {
        return Err(2);
    }
    let table = name_of(template, tokens, 2);
    let (conditions, end) = match read_where(template, tokens, 3) {
        Err(at) => {
            return Err(at);
        },
        Ok(list) => list,
    };
    if end != tokens.len() {
        return Err(end);
    }
    let no_names: Vec<ColumnRef> = Vec::new();
    let no_assignments: Vec<Binding> = Vec::new();
    assert(names_view(no_names@) =~= Seq::<ColumnRefView>::empty());
    assert(bindings_view(no_assignments@) =~= Seq::<BindingView>::empty());
    Ok(
        ParsedQuery {
            operation: Operation::Delete,
            table,
            wildcard: false,
            selected: no_names,
            assignments: no_assignments,
            conditions,
            limit: None,
        },
    )
}

/// Reads the statement that the tokens of a template spell.
fn read_statement(template: &str, tokens: &Vec<Token>) -> (found: Result<ParsedQuery, usize>)
    requires
        within(lexemes(tokens@), template@.len() as int),
    ensures
        same_statement(found, parse_tokens(template@, lexemes(tokens@))),
        found matches Err(at) ==> at <= tokens.len(),
{
    if word_is(template, tokens, 0, "select") {
        read_select(template, tokens)
    } else if word_is(template, tokens, 0, "insert") {
        read_insert(template, tokens)
    } else if word_is(template, tokens, 0, "update") {
        read_update(template, tokens)
    } else if word_is(template, tokens, 0, "delete") {
        read_delete(template, tokens)
    } else {
        Err(0)
    }
}

/// Reads the statement that a template holds. Where the template leaves the grammar, the
/// error is the character offset of the first token that does not fit, or the length of
/// the template where a token is missing at its end.
pub fn parse(template: &str) -> (found: Result<ParsedQuery, usize>)
    ensures
        same_statement(found, parse_spec(template@)),
{
    let chars = chars_of(template);
    match tokenize(&chars) {
        Err(position) => Err(position),
        Ok(tokens) => match read_statement(template, &tokens) {
            Ok(query) => Ok(query),
            Err(at) => {
                if at < tokens.len() {
                    assert(lexemes(tokens@)[at as int] == tokens[at as int]@);
                    Err(tokens[at].start)
                } else {
                    Err(chars.len())
                }
            },
        },
    }
}

} // verus!

//! The generator and the validator agree: for a table whose names are plain names, each
//! generated statement is a statement of the validator's grammar, passes validation, and
//! expects of its parameters the types of the columns that they stand for.
//!
//! The proof writes each statement as a list of pieces (words and signs, some followed
//! by a blank), shows that the pieces spell the generated text and are the tokens of
//! that text, reads the statement off the pieces, and holds it against the schema.
use crate::generator::{
    column_names, delete_text, insert_text, join, key_tests, marks, select_unique_text,
    update_text, where_clause, EntityDefinitionSetView,
};
use crate::lexer::{
    is_space, is_word_start, lex, lex_from, run_end, scan_token, CharClass, Lexeme, TokenKind,
};
use crate::parser::{
    admitted_comparison, comparison_at, is_joiner, is_kind, is_name, is_reserved, is_word,
    name_at, operand_at, pair_up, parse_bindings, parse_delete, parse_insert, parse_limit,
    parse_names, parse_operands, parse_select, parse_spec, parse_tokens, parse_update,
    parse_where, text_at, BindingView, ColumnRefView, Comparison, ListKind, OperandKind,
    OperandView, Operation, ParsedQueryView,
};
use crate::schema::{
    lemma_position_in, lemma_positions_of, position_in, positions_of, ColumnType, ColumnView,
    TableSchemaView,
};
use crate::validator::{
    all_fit, all_known, bindings, checked_to, column_named, columns_of, descriptor_of,
    expected_parameters, fits, found_type, lemma_parameters_match_placeholders, rank,
    referenced, row_shape, slot_of, slots, slots_of, types_of, validates_to, ParamExprView,
    QueryDescriptorView, SlotView,
};
use vstd::prelude::*;

verus! {

/// A token as a statement is written with: its kind, its text, and whether a blank
/// follows it.
pub struct Piece {
    pub kind: TokenKind,
    pub text: Seq<char>,
    pub gap: bool,
}

/// Whether the text is a word: a letter or `_`, then letters, digits and `_`.
pub open spec fn is_word_text(word: Seq<char>) -> bool {
    &&& word.len() > 0
    &&& is_word_start(word[0])
    &&& forall|k: int| 0 <= k < word.len() ==> CharClass::WordChar.holds(#[trigger] word[k])
}

/// Whether the piece is written as its kind demands. Only words, `?`, `,`, `(`, `)` and
/// `=` are written.
pub open spec fn piece_ok(piece: Piece) -> bool {
    match piece.kind {
        TokenKind::Word => is_word_text(piece.text),
        TokenKind::Placeholder => piece.text == seq!['?'],
        TokenKind::Comma => piece.text == seq![','],
        TokenKind::OpenParen => piece.text == seq!['('],
        TokenKind::CloseParen => piece.text == seq![')'],
        TokenKind::Equal => piece.text == seq!['='],
        _ => false,
    }
}

/// Whether the piece at `i` and the next are kept apart: a blank stands between two
/// words.
pub open spec fn apart(pieces: Seq<Piece>, i: int) -> bool {
    pieces[i].kind == TokenKind::Word && pieces[i + 1].kind == TokenKind::Word ==> pieces[i].gap
}

/// Whether every piece is written as its kind demands, and a blank stands between any
/// two words.
pub open spec fn pieces_ok(pieces: Seq<Piece>) -> bool {
    &&& forall|i: int| 0 <= i < pieces.len() ==> piece_ok(#[trigger] pieces[i])
    &&& forall|i: int| 0 <= i < pieces.len() - 1 ==> #[trigger] apart(pieces, i)
}

/// The text of a piece with the blank that follows it, if one does.
pub open spec fn piece_text(piece: Piece) -> Seq<char> {
    if piece.gap {
        piece.text.push(' ')
    } else {
        piece.text
    }
}

/// The text that the pieces spell.
pub open spec fn spell(pieces: Seq<Piece>) -> Seq<char>
    decreases pieces.len(),
{
    if pieces.len() == 0 {
        Seq::empty()
    } else {
        piece_text(pieces[0]) + spell(pieces.drop_first())
    }
}

/// Where the piece at `i` starts in a text in which the pieces are spelt from `pos` on.
pub open spec fn start_of(pieces: Seq<Piece>, pos: int, i: int) -> int
    decreases i,
{
    if i <= 0 {
        pos
    } else {
        start_of(pieces, pos, i - 1) + piece_text(pieces[i - 1]).len()
    }
}

/// The tokens of a text in which the pieces are spelt from `pos` on.
pub open spec fn tokens_at(pieces: Seq<Piece>, pos: int) -> Seq<Lexeme> {
    Seq::new(
        pieces.len(),
        |i: int|
            Lexeme {
                kind: pieces[i].kind,
                start: start_of(pieces, pos, i),
                end: start_of(pieces, pos, i) + pieces[i].text.len(),
            },
    )
}

proof fn lemma_start_shifts(pieces: Seq<Piece>, pos: int, i: int)
    requires
        pieces.len() > 0,
        0 <= i < pieces.len(),
    ensures
        start_of(pieces, pos, i + 1) == start_of(
            pieces.drop_first(),
            pos + piece_text(pieces[0]).len(),
            i,
        ),
    decreases i,
{
    let rest = pieces.drop_first();
    if i > 0 {
        lemma_start_shifts(pieces, pos, i - 1);
        assert(rest[i - 1] == pieces[i]);
    } else {
        assert(start_of(pieces, pos, 0) == pos);
    }
}

proof fn lemma_tokens_shift(pieces: Seq<Piece>, pos: int)
    requires
        pieces.len() > 0,
    ensures
        tokens_at(pieces, pos) == seq![
            Lexeme { kind: pieces[0].kind, start: pos, end: pos + pieces[0].text.len() },
        ] + tokens_at(pieces.drop_first(), pos + piece_text(pieces[0]).len()),
{
    let rest = pieces.drop_first();
    let shifted = tokens_at(rest, pos + piece_text(pieces[0]).len());
    let all = tokens_at(pieces, pos);
    let first = Lexeme { kind: pieces[0].kind, start: pos, end: pos + pieces[0].text.len() };
    assert forall|i: int| 0 <= i < all.len() implies all[i] == (seq![first] + shifted)[i] by {
        if i > 0 {
            lemma_start_shifts(pieces, pos, i - 1);
            assert(rest[i - 1] == pieces[i]);
        }
    }
    assert(all =~= seq![first] + shifted);
}

/// A run ends where the characters of its class end.
proof fn lemma_run_ends_at(s: Seq<char>, pos: int, end: int, class: CharClass)
    requires
        0 <= pos <= end <= s.len(),
        forall|k: int| pos <= k < end ==> class.holds(#[trigger] s[k]),
        end < s.len() ==> !class.holds(s[end]),
    ensures
        run_end(s, pos, class) == end,
    decreases end - pos,
{
    if pos < end {
        lemma_run_ends_at(s, pos + 1, end, class);
    }
}

/// The first character of what some pieces spell is no character of a word, unless the
/// first piece is a word.
proof fn lemma_spelling_starts(pieces: Seq<Piece>)
    requires
        pieces.len() > 0,
        pieces_ok(pieces),
    ensures
        spell(pieces).len() > 0,
        spell(pieces)[0] == pieces[0].text[0],
        pieces[0].kind != TokenKind::Word ==> !CharClass::WordChar.holds(spell(pieces)[0]),
        !is_space(spell(pieces)[0]),
{
    assert(piece_ok(pieces[0]));
}

/// Where pieces are spelt from `pos` on, the first piece stands at `pos` and the others
/// are spelt behind it.
proof fn lemma_first_piece(s: Seq<char>, pos: int, pieces: Seq<Piece>)
    requires
        0 <= pos <= s.len(),
        pieces.len() > 0,
        s.subrange(pos, s.len() as int) == spell(pieces),
    ensures
        pos + piece_text(pieces[0]).len() <= s.len(),
        s.subrange(pos, pos + piece_text(pieces[0]).len()) == piece_text(pieces[0]),
        s.subrange(pos + piece_text(pieces[0]).len(), s.len() as int) == spell(
            pieces.drop_first(),
        ),
{
    let tail = s.subrange(pos, s.len() as int);
    let first = piece_text(pieces[0]);
    let rest = spell(pieces.drop_first());
    assert(tail.len() == first.len() + rest.len());
    assert(s.subrange(pos, pos + first.len()) =~= tail.subrange(0, first.len() as int));
    assert(tail.subrange(0, first.len() as int) =~= first);
    assert(s.subrange(pos + first.len(), s.len() as int) =~= tail.subrange(
        first.len() as int,
        tail.len() as int,
    ));
    assert(tail.subrange(first.len() as int, tail.len() as int) =~= rest);
}

proof fn lemma_rest_ok(pieces: Seq<Piece>)
    requires
        pieces.len() > 0,
        pieces_ok(pieces),
    ensures
        pieces_ok(pieces.drop_first()),
{
    let rest = pieces.drop_first();
    assert forall|i: int| 0 <= i < rest.len() implies piece_ok(#[trigger] rest[i]) by {
        assert(rest[i] == pieces[i + 1]);
    }
    assert forall|i: int| 0 <= i < rest.len() - 1 implies #[trigger] apart(rest, i) by {
        assert(apart(pieces, i + 1));
        assert(rest[i] == pieces[i + 1]);
        assert(rest[i + 1] == pieces[i + 2]);
    }
}

/// What stands behind a word that is spelt as a piece is no character of a word.
proof fn lemma_word_ends(s: Seq<char>, pos: int, pieces: Seq<Piece>)
    requires
        0 <= pos <= s.len(),
        pieces.len() > 0,
        pieces_ok(pieces),
        pieces[0].kind == TokenKind::Word,
        s.subrange(pos, s.len() as int) == spell(pieces),
    ensures
        pos + pieces[0].text.len() <= s.len(),
        pos + pieces[0].text.len() < s.len() ==> !CharClass::WordChar.holds(
            s[pos + pieces[0].text.len()],
        ),
{
    let piece = pieces[0];
    let rest = pieces.drop_first();
    let end = pos + piece.text.len();
    lemma_first_piece(s, pos, pieces);
    let first = s.subrange(pos, pos + piece_text(piece).len());
    if end < s.len() {
        if piece.gap {
            assert(first[piece.text.len() as int] == s[end]);
        } else {
            let behind = s.subrange(end, s.len() as int);
            assert(behind.len() > 0);
            assert(rest.len() > 0);
            lemma_rest_ok(pieces);
            lemma_spelling_starts(rest);
            assert(behind[0] == s[end]);
            assert(rest[0] == pieces[1]);
            assert(apart(pieces, 0));
        }
    }
}

/// Where pieces are spelt from `pos` on, the token at `pos` is the first piece.
proof fn lemma_first_piece_scans(s: Seq<char>, pos: int, pieces: Seq<Piece>)
    requires
        0 <= pos <= s.len(),
        pieces.len() > 0,
        pieces_ok(pieces),
        s.subrange(pos, s.len() as int) == spell(pieces),
    ensures
        pos < s.len(),
        !is_space(s[pos]),
        scan_token(s, pos) == Some(
            Lexeme { kind: pieces[0].kind, start: pos, end: pos + pieces[0].text.len() },
        ),
        pieces[0].gap ==> pos + pieces[0].text.len() < s.len() && s[pos + pieces[0].text.len()]
            == ' ',
{
    let piece = pieces[0];
    let word = piece.text;
    let end = pos + word.len();
    lemma_first_piece(s, pos, pieces);
    let first = s.subrange(pos, pos + piece_text(piece).len());
    assert(piece_ok(piece));
    assert(first[0] == s[pos]);
    assert(s[pos] == word[0]);
    if piece.gap {
        assert(first[word.len() as int] == s[end]);
    }
    if piece.kind == TokenKind::Word {
        lemma_word_ends(s, pos, pieces);
        assert(CharClass::WordChar.holds(word[0]));
        assert forall|k: int| pos + 1 <= k < end implies CharClass::WordChar.holds(
            #[trigger] s[k],
        ) by {
            assert(first[k - pos] == s[k]);
            assert(CharClass::WordChar.holds(word[k - pos]));
        }
        lemma_run_ends_at(s, pos + 1, end, CharClass::WordChar);
    }
}

/// A text in which well-written pieces are spelt has them as its tokens.
pub proof fn lemma_lexes_to_pieces(s: Seq<char>, pos: int, pieces: Seq<Piece>)
    requires
        0 <= pos <= s.len(),
        pieces_ok(pieces),
        s.subrange(pos, s.len() as int) == spell(pieces),
    ensures
        lex_from(s, pos) == Ok::<Seq<Lexeme>, int>(tokens_at(pieces, pos)),
    decreases pieces.len(),
{
    if pieces.len() == 0 {
        assert(s.subrange(pos, s.len() as int).len() == 0);
        assert(tokens_at(pieces, pos) =~= Seq::<Lexeme>::empty());
    } else {
        let piece = pieces[0];
        let rest = pieces.drop_first();
        let end = pos + piece.text.len();
        let next = pos + piece_text(piece).len();
        lemma_first_piece(s, pos, pieces);
        lemma_first_piece_scans(s, pos, pieces);
        lemma_rest_ok(pieces);
        lemma_lexes_to_pieces(s, next, rest);
        lemma_tokens_shift(pieces, pos);
        if piece.gap {
            assert(lex_from(s, end) == lex_from(s, next));
        }
    }
}

/// Where pieces are spelt from `pos` on, each piece's text stands where the piece starts.
proof fn lemma_piece_stands(s: Seq<char>, pos: int, pieces: Seq<Piece>, i: int)
    requires
        0 <= pos <= s.len(),
        0 <= i < pieces.len(),
        s.subrange(pos, s.len() as int) == spell(pieces),
    ensures
        pos <= start_of(pieces, pos, i),
        start_of(pieces, pos, i) + pieces[i].text.len() <= s.len(),
        s.subrange(start_of(pieces, pos, i), start_of(pieces, pos, i) + pieces[i].text.len())
            == pieces[i].text,
    decreases i,
{
    lemma_first_piece(s, pos, pieces);
    let first = piece_text(pieces[0]);
    if i == 0 {
        assert(start_of(pieces, pos, 0) == pos);
        assert(s.subrange(pos, pos + pieces[0].text.len()) =~= first.subrange(
            0,
            pieces[0].text.len() as int,
        )) by {
            assert(s.subrange(pos, pos + first.len()) == first);
            assert forall|k: int| 0 <= k < pieces[0].text.len() implies s.subrange(
                pos,
                pos + pieces[0].text.len(),
            )[k] == first[k] by {
                assert(s.subrange(pos, pos + first.len())[k] == s[pos + k]);
            }
        }
        assert(first.subrange(0, pieces[0].text.len() as int) =~= pieces[0].text);
    } else {
        let rest = pieces.drop_first();
        lemma_piece_stands(s, pos + first.len(), rest, i - 1);
        lemma_start_shifts(pieces, pos, i - 1);
        assert(rest[i - 1] == pieces[i]);
    }
}

/// Whether the tokens are the pieces: as many, of the same kinds, with the same texts.
pub open spec fn written(s: Seq<char>, tokens: Seq<Lexeme>, pieces: Seq<Piece>) -> bool {
    &&& tokens.len() == pieces.len()
    &&& forall|i: int|
        0 <= i < tokens.len() ==> (#[trigger] tokens[i]).kind == pieces[i].kind && text_at(
            s,
            tokens[i],
        ) == pieces[i].text
}

/// The text that well-written pieces spell has the pieces as its tokens.
pub proof fn lemma_spelling_lexes(pieces: Seq<Piece>)
    requires
        pieces_ok(pieces),
    ensures
        lex(spell(pieces)) is Ok,
        written(spell(pieces), lex(spell(pieces))->Ok_0, pieces),
{
    let s = spell(pieces);
    assert(s.subrange(0, s.len() as int) =~= s);
    lemma_lexes_to_pieces(s, 0, pieces);
    let tokens = tokens_at(pieces, 0);
    assert forall|i: int| 0 <= i < tokens.len() implies (#[trigger] tokens[i]).kind
        == pieces[i].kind && text_at(s, tokens[i]) == pieces[i].text by {
        lemma_piece_stands(s, 0, pieces, i);
    }
}

/// Whether the text is a plain name: a word that the grammar does not reserve.
pub open spec fn is_plain_name(name: Seq<char>) -> bool {
    is_word_text(name) && !is_reserved(name)
}

/// Whether the piece at `i` exists and is of the given kind.
pub open spec fn piece_is(pieces: Seq<Piece>, i: int, kind: TokenKind) -> bool {
    0 <= i < pieces.len() && pieces[i].kind == kind
}

/// Whether the piece at `i` exists and is the given word.
pub open spec fn piece_is_word(pieces: Seq<Piece>, i: int, word: Seq<char>) -> bool {
    piece_is(pieces, i, TokenKind::Word) && pieces[i].text == word
}

/// Whether the pieces from `i` on list the names, with commas between them and none
/// behind them.
pub open spec fn lists_names(pieces: Seq<Piece>, i: int, names: Seq<Seq<char>>) -> bool
    decreases names.len(),
{
    &&& names.len() > 0
    &&& piece_is_word(pieces, i, names[0])
    &&& !is_reserved(names[0])
    &&& if names.len() == 1 {
        !piece_is(pieces, i + 1, TokenKind::Comma)
    } else {
        piece_is(pieces, i + 1, TokenKind::Comma) && lists_names(pieces, i + 2, names.drop_first())
    }
}

/// Whether the pieces from `i` on list `count` placeholders, with commas between them
/// and none behind them.
pub open spec fn lists_marks(pieces: Seq<Piece>, i: int, count: nat) -> bool
    decreases count,
{
    &&& count > 0
    &&& piece_is(pieces, i, TokenKind::Placeholder)
    &&& if count == 1 {
        !piece_is(pieces, i + 1, TokenKind::Comma)
    } else {
        piece_is(pieces, i + 1, TokenKind::Comma) && lists_marks(
            pieces,
            i + 2,
            (count - 1) as nat,
        )
    }
}

/// Whether the piece at `i` joins two bindings of a list of the given kind.
pub open spec fn piece_joins(pieces: Seq<Piece>, i: int, list: ListKind) -> bool {
    match list {
        ListKind::Conditions => piece_is_word(pieces, i, "and"@),
        ListKind::Assignments => piece_is(pieces, i, TokenKind::Comma),
    }
}

/// Whether the pieces from `i` on compare each of the names with a placeholder, joined
/// as the kind of list demands, with no joiner behind them.
pub open spec fn lists_tests(
    pieces: Seq<Piece>,
    i: int,
    names: Seq<Seq<char>>,
    list: ListKind,
) -> bool
    decreases names.len(),
{
    &&& names.len() > 0
    &&& piece_is_word(pieces, i, names[0])
    &&& !is_reserved(names[0])
    &&& piece_is(pieces, i + 1, TokenKind::Equal)
    &&& piece_is(pieces, i + 2, TokenKind::Placeholder)
    &&& if names.len() == 1 {
        !piece_joins(pieces, i + 3, list)
    } else {
        piece_joins(pieces, i + 3, list) && lists_tests(pieces, i + 4, names.drop_first(), list)
    }
}

/// The names of the references, in order.
pub open spec fn ref_names(refs: Seq<ColumnRefView>) -> Seq<Seq<char>> {
    refs.map_values(|name: ColumnRefView| name.name)
}

/// Whether every operand is a placeholder.
pub open spec fn all_marks(operands: Seq<OperandView>) -> bool {
    forall|j: int| 0 <= j < operands.len() ==> (#[trigger] operands[j]).kind
        == OperandKind::Placeholder
}

/// Whether the bindings compare the names, in order, each with a placeholder for
/// equality.
pub open spec fn tests_of(bindings: Seq<BindingView>, names: Seq<Seq<char>>) -> bool {
    &&& bindings.len() == names.len()
    &&& forall|j: int|
        0 <= j < bindings.len() ==> (#[trigger] bindings[j]).column.name == names[j]
            && bindings[j].comparison == Comparison::Equal && bindings[j].operand.kind
            == OperandKind::Placeholder
}

/// What the tokens say of the pieces, at one place.
proof fn lemma_token_is_piece(s: Seq<char>, tokens: Seq<Lexeme>, pieces: Seq<Piece>, i: int)
    requires
        written(s, tokens, pieces),
    ensures
        forall|kind: TokenKind| is_kind(tokens, i, kind) == piece_is(pieces, i, kind),
        forall|word: Seq<char>| is_word(s, tokens, i, word) == piece_is_word(pieces, i, word),
        is_name(s, tokens, i) == (piece_is(pieces, i, TokenKind::Word) && !is_reserved(
            pieces[i].text,
        )),
        piece_is(pieces, i, TokenKind::Word) ==> name_at(s, tokens, i).name == pieces[i].text,
        piece_is(pieces, i, TokenKind::Placeholder) ==> operand_at(s, tokens, i) == Some(
            OperandView { kind: OperandKind::Placeholder, position: tokens[i].start },
        ),
        piece_is(pieces, i, TokenKind::Equal) ==> comparison_at(tokens, i) == Some(
            Comparison::Equal,
        ),
        forall|list: ListKind| is_joiner(s, tokens, i, list) == piece_joins(pieces, i, list),
{
    if 0 <= i < tokens.len() {
        assert(tokens[i].kind == pieces[i].kind);
    }
}

/// A list of names is read as it is written.
proof fn lemma_names_parse(
    s: Seq<char>,
    tokens: Seq<Lexeme>,
    pieces: Seq<Piece>,
    i: int,
    names: Seq<Seq<char>>,
)
    requires
        written(s, tokens, pieces),
        lists_names(pieces, i, names),
    ensures
        parse_names(s, tokens, i) is Ok,
        parse_names(s, tokens, i)->Ok_0.1 == i + 2 * names.len() - 1,
        ref_names(parse_names(s, tokens, i)->Ok_0.0) == names,
    decreases names.len(),
{
    lemma_token_is_piece(s, tokens, pieces, i);
    lemma_token_is_piece(s, tokens, pieces, i + 1);
    let head = name_at(s, tokens, i);
    if names.len() == 1 {
        assert(ref_names(seq![head]) =~= names);
    } else {
        lemma_names_parse(s, tokens, pieces, i + 2, names.drop_first());
        let rest = parse_names(s, tokens, i + 2)->Ok_0.0;
        assert(ref_names(seq![head] + rest) =~= seq![names[0]] + names.drop_first());
        assert(seq![names[0]] + names.drop_first() =~= names);
    }
}

/// A list of placeholders is read as it is written.
proof fn lemma_marks_parse(
    s: Seq<char>,
    tokens: Seq<Lexeme>,
    pieces: Seq<Piece>,
    i: int,
    count: nat,
)
    requires
        written(s, tokens, pieces),
        lists_marks(pieces, i, count),
    ensures
        parse_operands(s, tokens, i) is Ok,
        parse_operands(s, tokens, i)->Ok_0.1 == i + 2 * count - 1,
        parse_operands(s, tokens, i)->Ok_0.0.len() == count,
        all_marks(parse_operands(s, tokens, i)->Ok_0.0),
    decreases count,
{
    lemma_token_is_piece(s, tokens, pieces, i);
    lemma_token_is_piece(s, tokens, pieces, i + 1);
    if count > 1 {
        lemma_marks_parse(s, tokens, pieces, i + 2, (count - 1) as nat);
        let head = operand_at(s, tokens, i)->0;
        let rest = parse_operands(s, tokens, i + 2)->Ok_0.0;
        let all = seq![head] + rest;
        assert forall|j: int| 0 <= j < all.len() implies (#[trigger] all[j]).kind
            == OperandKind::Placeholder by {
            if j > 0 {
                assert(all[j] == rest[j - 1]);
            }
        }
    }
}

/// A list of comparisons with placeholders is read as it is written.
proof fn lemma_tests_parse(
    s: Seq<char>,
    tokens: Seq<Lexeme>,
    pieces: Seq<Piece>,
    i: int,
    names: Seq<Seq<char>>,
    list: ListKind,
)
    requires
        written(s, tokens, pieces),
        lists_tests(pieces, i, names, list),
    ensures
        parse_bindings(s, tokens, i, list) is Ok,
        parse_bindings(s, tokens, i, list)->Ok_0.1 == i + 4 * names.len() - 1,
        tests_of(parse_bindings(s, tokens, i, list)->Ok_0.0, names),
    decreases names.len(),
{
    lemma_token_is_piece(s, tokens, pieces, i);
    lemma_token_is_piece(s, tokens, pieces, i + 1);
    lemma_token_is_piece(s, tokens, pieces, i + 2);
    lemma_token_is_piece(s, tokens, pieces, i + 3);
    assert(admitted_comparison(tokens, i + 1, list) == Some(Comparison::Equal));
    let binding = BindingView {
        column: name_at(s, tokens, i),
        comparison: Comparison::Equal,
        operand: operand_at(s, tokens, i + 2)->0,
    };
    if names.len() > 1 {
        lemma_tests_parse(s, tokens, pieces, i + 4, names.drop_first(), list);
        let rest = parse_bindings(s, tokens, i + 4, list)->Ok_0.0;
        let all = seq![binding] + rest;
        assert forall|j: int| 0 <= j < all.len() implies (#[trigger] all[j]).column.name
            == names[j] && all[j].comparison == Comparison::Equal && all[j].operand.kind
            == OperandKind::Placeholder by {
            if j > 0 {
                assert(all[j] == rest[j - 1]);
                assert(names.drop_first()[j - 1] == names[j]);
            }
        }
    }
}

/// A word, with or without a blank behind it.
pub open spec fn word(text: Seq<char>, gap: bool) -> Piece {
    Piece { kind: TokenKind::Word, text, gap }
}

/// A piece of punctuation, with or without a blank behind it.
pub open spec fn sign(kind: TokenKind, gap: bool) -> Piece {
    Piece {
        kind,
        text: match kind {
            TokenKind::Placeholder => seq!['?'],
            TokenKind::Comma => seq![','],
            TokenKind::OpenParen => seq!['('],
            TokenKind::CloseParen => seq![')'],
            _ => seq!['='],
        },
        gap,
    }
}

/// The pieces of a list of names: the names with `, ` between them.
pub open spec fn name_pieces(names: Seq<Seq<char>>, gap: bool) -> Seq<Piece>
    decreases names.len(),
{
    if names.len() == 0 {
        Seq::empty()
    } else if names.len() == 1 {
        seq![word(names[0], gap)]
    } else {
        seq![word(names[0], false), sign(TokenKind::Comma, true)] + name_pieces(
            names.drop_first(),
            gap,
        )
    }
}

/// The pieces of a list of placeholders: as many `?` with `, ` between them.
pub open spec fn mark_pieces(count: nat) -> Seq<Piece>
    decreases count,
{
    if count == 0 {
        Seq::empty()
    } else if count == 1 {
        seq![sign(TokenKind::Placeholder, false)]
    } else {
        seq![sign(TokenKind::Placeholder, false), sign(TokenKind::Comma, true)] + mark_pieces(
            (count - 1) as nat,
        )
    }
}

/// The pieces of the comparisons of a `where` clause: each name with ` = ?`, and ` and `
/// between them.
pub open spec fn test_pieces(names: Seq<Seq<char>>) -> Seq<Piece>
    decreases names.len(),
{
    if names.len() == 0 {
        Seq::empty()
    } else if names.len() == 1 {
        seq![
            word(names[0], true),
            sign(TokenKind::Equal, true),
            sign(TokenKind::Placeholder, false),
        ]
    } else {
        seq![
            word(names[0], true),
            sign(TokenKind::Equal, true),
            sign(TokenKind::Placeholder, true),
            word("and"@, true),
        ] + test_pieces(names.drop_first())
    }
}

/// Each name with ` = ?` behind it.
pub open spec fn tests(names: Seq<Seq<char>>) -> Seq<Seq<char>> {
    names.map_values(|name: Seq<char>| name + " = ?"@)
}

/// Pieces spell one after another what they spell apart.
pub proof fn lemma_spell_joined(front: Seq<Piece>, back: Seq<Piece>)
    ensures
        spell(front + back) == spell(front) + spell(back),
    decreases front.len(),
{
    if front.len() == 0 {
        assert(front + back =~= back);
        assert(spell(front) + spell(back) =~= spell(back));
    } else {
        assert((front + back).drop_first() =~= front.drop_first() + back);
        lemma_spell_joined(front.drop_first(), back);
        assert(piece_text(front[0]) + (spell(front.drop_first()) + spell(back)) =~= (piece_text(
            front[0],
        ) + spell(front.drop_first())) + spell(back));
    }
}

/// One piece spells its text.
proof fn lemma_spell_one(piece: Piece)
    ensures
        spell(seq![piece]) == piece_text(piece),
{
    let one = seq![piece];
    assert(one.drop_first() =~= Seq::<Piece>::empty());
    assert(spell(one.drop_first()) =~= Seq::<char>::empty());
    assert(piece_text(piece) + Seq::<char>::empty() =~= piece_text(piece));
}

/// Two pieces spell their texts, one after the other.
proof fn lemma_spell_two(first: Piece, second: Piece)
    ensures
        spell(seq![first, second]) == piece_text(first) + piece_text(second),
{
    assert(seq![first, second] =~= seq![first] + seq![second]);
    lemma_spell_joined(seq![first], seq![second]);
    lemma_spell_one(first);
    lemma_spell_one(second);
}

/// Joining starts with the first part: the first part, the separator, and the other
/// parts joined.
pub proof fn lemma_join_from_the_front(parts: Seq<Seq<char>>, separator: Seq<char>)
    requires
        parts.len() >= 2,
    ensures
        join(parts, separator) == parts[0] + separator + join(parts.drop_first(), separator),
    decreases parts.len(),
{
    let front = parts.drop_last();
    let back = parts.drop_first();
    if parts.len() == 2 {
        assert(join(front, separator) == parts[0]);
        assert(join(back, separator) == parts[1]);
    } else {
        lemma_join_from_the_front(front, separator);
        assert(front.drop_first() =~= back.drop_last());
        assert(front[0] == parts[0]);
        assert(back.last() == parts.last());
        let middle = join(back.drop_last(), separator);
        assert(parts[0] + separator + middle + separator + parts.last() =~= parts[0] + separator
            + (middle + separator + parts.last()));
    }
}

/// The pieces of a list of names spell the names joined with `, `.
pub proof fn lemma_names_spelt(names: Seq<Seq<char>>, gap: bool)
    requires
        names.len() > 0,
    ensures
        spell(name_pieces(names, gap)) == if gap {
            join(names, ", "@).push(' ')
        } else {
            join(names, ", "@)
        },
    decreases names.len(),
{
    reveal_strlit(", ");
    if names.len() == 1 {
        lemma_spell_one(word(names[0], gap));
    } else {
        let head = seq![word(names[0], false), sign(TokenKind::Comma, true)];
        let rest = names.drop_first();
        lemma_names_spelt(rest, gap);
        lemma_spell_joined(head, name_pieces(rest, gap));
        lemma_join_from_the_front(names, ", "@);
        lemma_spell_two(word(names[0], false), sign(TokenKind::Comma, true));
        assert(piece_text(sign(TokenKind::Comma, true)) =~= ", "@);
        if gap {
            assert((names[0] + ", "@) + join(rest, ", "@).push(' ') =~= (names[0] + ", "@ + join(
                rest,
                ", "@,
            )).push(' '));
        }
    }
}

/// The pieces of a list of placeholders spell as many `?` joined with `, `.
pub proof fn lemma_marks_spelt(count: nat)
    requires
        count > 0,
    ensures
        spell(mark_pieces(count)) == join(marks(count), ", "@),
    decreases count,
{
    reveal_strlit(", ");
    reveal_strlit("?");
    assert(piece_text(sign(TokenKind::Placeholder, false)) =~= "?"@);
    if count == 1 {
        lemma_spell_one(sign(TokenKind::Placeholder, false));
    } else {
        let head = seq![sign(TokenKind::Placeholder, false), sign(TokenKind::Comma, true)];
        let fewer = (count - 1) as nat;
        lemma_marks_spelt(fewer);
        lemma_spell_joined(head, mark_pieces(fewer));
        lemma_join_from_the_front(marks(count), ", "@);
        assert(marks(count).drop_first() =~= marks(fewer));
        lemma_spell_two(sign(TokenKind::Placeholder, false), sign(TokenKind::Comma, true));
        assert(piece_text(sign(TokenKind::Comma, true)) =~= ", "@);
    }
}

/// The pieces of the comparisons of a `where` clause spell the names, each with ` = ?`,
/// joined with ` and `.
pub proof fn lemma_tests_spelt(names: Seq<Seq<char>>)
    requires
        names.len() > 0,
    ensures
        spell(test_pieces(names)) == join(tests(names), " and "@),
    decreases names.len(),
{
    reveal_strlit(" = ?");
    reveal_strlit(" and ");
    reveal_strlit("and");
    let pieces = test_pieces(names);
    let first = seq![word(names[0], true), sign(TokenKind::Equal, true)];
    lemma_spell_two(word(names[0], true), sign(TokenKind::Equal, true));
    assert(spell(first) =~= names[0] + seq![' ', '=', ' ']) by {
        assert(piece_text(sign(TokenKind::Equal, true)) =~= seq!['=', ' ']);
        assert(piece_text(word(names[0], true)) =~= names[0] + seq![' ']);
    }
    assert(tests(names)[0] == names[0] + " = ?"@);
    if names.len() == 1 {
        let last = seq![sign(TokenKind::Placeholder, false)];
        assert(pieces =~= first + last);
        lemma_spell_joined(first, last);
        lemma_spell_one(sign(TokenKind::Placeholder, false));
        assert(names[0] + seq![' ', '=', ' '] + seq!['?'] =~= names[0] + " = ?"@);
    } else {
        let rest = names.drop_first();
        let link = seq![sign(TokenKind::Placeholder, true), word("and"@, true)];
        assert(pieces =~= first + (link + test_pieces(rest)));
        lemma_tests_spelt(rest);
        lemma_spell_joined(link, test_pieces(rest));
        lemma_spell_joined(first, link + test_pieces(rest));
        lemma_spell_two(sign(TokenKind::Placeholder, true), word("and"@, true));
        assert(spell(link) =~= seq!['?', ' ', 'a', 'n', 'd', ' ']) by {
            assert(piece_text(sign(TokenKind::Placeholder, true)) =~= seq!['?', ' ']);
            assert(piece_text(word("and"@, true)) =~= seq!['a', 'n', 'd', ' ']);
        }
        lemma_join_from_the_front(tests(names), " and "@);
        assert(tests(names).drop_first() =~= tests(rest));
        assert(names[0] + seq![' ', '=', ' '] + (seq!['?', ' ', 'a', 'n', 'd', ' '] + join(
            tests(rest),
            " and "@,
        )) =~= names[0] + " = ?"@ + " and "@ + join(tests(rest), " and "@));
    }
}

/// Whether every text of the list is a plain name.
pub open spec fn plain_names(names: Seq<Seq<char>>) -> bool {
    forall|j: int| 0 <= j < names.len() ==> is_plain_name(#[trigger] names[j])
}

proof fn lemma_plain_rest(names: Seq<Seq<char>>)
    requires
        names.len() > 0,
        plain_names(names),
    ensures
        plain_names(names.drop_first()),
        is_plain_name(names[0]),
{
    assert forall|j: int| 0 <= j < names.drop_first().len() implies is_plain_name(
        #[trigger] names.drop_first()[j],
    ) by {
        assert(names.drop_first()[j] == names[j + 1]);
    }
}

/// Well-written pieces behind well-written pieces are well written, if a blank or a sign
/// stands where they meet.
proof fn lemma_ok_joined(front: Seq<Piece>, back: Seq<Piece>)
    requires
        pieces_ok(front),
        pieces_ok(back),
        front.len() > 0 && back.len() > 0 ==> front.last().gap || front.last().kind
            != TokenKind::Word || back[0].kind != TokenKind::Word,
    ensures
        pieces_ok(front + back),
{
    let all = front + back;
    assert forall|i: int| 0 <= i < all.len() implies piece_ok(#[trigger] all[i]) by {
        if i < front.len() {
            assert(all[i] == front[i]);
        } else {
            assert(all[i] == back[i - front.len()]);
        }
    }
    assert forall|i: int| 0 <= i < all.len() - 1 implies #[trigger] apart(all, i) by {
        if i + 1 < front.len() {
            assert(apart(front, i));
            assert(all[i] == front[i] && all[i + 1] == front[i + 1]);
        } else if i >= front.len() {
            assert(apart(back, i - front.len()));
            assert(all[i] == back[i - front.len()] && all[i + 1] == back[i + 1 - front.len()]);
        } else {
            assert(all[i] == front.last() && all[i + 1] == back[0]);
        }
    }
}

proof fn lemma_one_ok(piece: Piece)
    requires
        piece_ok(piece),
    ensures
        pieces_ok(seq![piece]),
{
}

/// The pieces of a list of plain names are well written: there are `2n - 1`, the first
/// is a word, and the last is a word with the blank asked for.
proof fn lemma_name_pieces(names: Seq<Seq<char>>, gap: bool)
    requires
        names.len() > 0,
        plain_names(names),
    ensures
        pieces_ok(name_pieces(names, gap)),
        name_pieces(names, gap).len() == 2 * names.len() - 1,
        name_pieces(names, gap)[0].kind == TokenKind::Word,
        name_pieces(names, gap).last().kind == TokenKind::Word,
        name_pieces(names, gap).last().gap == gap,
    decreases names.len(),
{
    lemma_plain_rest(names);
    if names.len() == 1 {
        lemma_one_ok(word(names[0], gap));
    } else {
        let head = seq![word(names[0], false), sign(TokenKind::Comma, true)];
        let rest = name_pieces(names.drop_first(), gap);
        lemma_name_pieces(names.drop_first(), gap);
        assert(pieces_ok(head)) by {
            assert(apart(head, 0));
        }
        lemma_ok_joined(head, rest);
        assert((head + rest).last() == rest.last());
        assert((head + rest)[0] == head[0]);
    }
}

/// The pieces of a list of placeholders are well written: there are `2n - 1`, and the
/// first and the last are placeholders without a blank.
proof fn lemma_mark_pieces(count: nat)
    requires
        count > 0,
    ensures
        pieces_ok(mark_pieces(count)),
        mark_pieces(count).len() == 2 * count - 1,
        mark_pieces(count)[0].kind == TokenKind::Placeholder,
        mark_pieces(count).last().kind == TokenKind::Placeholder,
    decreases count,
{
    if count == 1 {
        lemma_one_ok(sign(TokenKind::Placeholder, false));
    } else {
        let head = seq![sign(TokenKind::Placeholder, false), sign(TokenKind::Comma, true)];
        let rest = mark_pieces((count - 1) as nat);
        lemma_mark_pieces((count - 1) as nat);
        assert(pieces_ok(head)) by {
            assert(apart(head, 0));
        }
        lemma_ok_joined(head, rest);
        assert((head + rest).last() == rest.last());
        assert((head + rest)[0] == head[0]);
    }
}

proof fn lemma_and_is_a_word()
    ensures
        is_word_text("and"@),
{
    reveal_strlit("and");
}

/// The pieces of the comparisons of plain names are well written: there are `4n - 1`,
/// the first is a word, and the last is a placeholder.
proof fn lemma_test_pieces(names: Seq<Seq<char>>)
    requires
        names.len() > 0,
        plain_names(names),
    ensures
        pieces_ok(test_pieces(names)),
        test_pieces(names).len() == 4 * names.len() - 1,
        test_pieces(names)[0].kind == TokenKind::Word,
        test_pieces(names).last().kind == TokenKind::Placeholder,
    decreases names.len(),
{
    lemma_plain_rest(names);
    lemma_and_is_a_word();
    if names.len() == 1 {
        let all = test_pieces(names);
        assert(pieces_ok(all)) by {
            assert forall|i: int| 0 <= i < all.len() - 1 implies #[trigger] apart(all, i) by {}
        }
    } else {
        let head = seq![
            word(names[0], true),
            sign(TokenKind::Equal, true),
            sign(TokenKind::Placeholder, true),
            word("and"@, true),
        ];
        let rest = test_pieces(names.drop_first());
        lemma_test_pieces(names.drop_first());
        assert(pieces_ok(head)) by {
            assert forall|i: int| 0 <= i < head.len() - 1 implies #[trigger] apart(head, i) by {}
        }
        lemma_ok_joined(head, rest);
        assert((head + rest).last() == rest.last());
        assert((head + rest)[0] == head[0]);
    }
}

/// Where the pieces of a list of plain names stand among other pieces, with no comma
/// behind them, the names are listed there.
proof fn lemma_names_listed(pieces: Seq<Piece>, i: int, names: Seq<Seq<char>>, gap: bool)
    requires
        names.len() > 0,
        plain_names(names),
        0 <= i,
        i + 2 * names.len() - 1 <= pieces.len(),
        pieces.subrange(i, i + 2 * names.len() - 1) == name_pieces(names, gap),
        !piece_is(pieces, i + 2 * names.len() - 1, TokenKind::Comma),
    ensures
        lists_names(pieces, i, names),
    decreases names.len(),
{
    let part = pieces.subrange(i, i + 2 * names.len() - 1);
    lemma_plain_rest(names);
    assert(part[0] == pieces[i]);
    if names.len() > 1 {
        let rest = names.drop_first();
        lemma_name_pieces(rest, gap);
        assert(part[1] == pieces[i + 1]);
        assert(pieces.subrange(i + 2, i + 2 + 2 * rest.len() - 1) =~= name_pieces(rest, gap)) by {
            assert forall|k: int| 0 <= k < 2 * rest.len() - 1 implies pieces[i + 2 + k]
                == name_pieces(rest, gap)[k] by {
                assert(part[k + 2] == pieces[i + (k + 2)]);
            }
        }
        lemma_names_listed(pieces, i + 2, rest, gap);
    }
}

/// Where the pieces of a list of placeholders stand among other pieces, with no comma
/// behind them, the placeholders are listed there.
proof fn lemma_marks_listed(pieces: Seq<Piece>, i: int, count: nat)
    requires
        count > 0,
        0 <= i,
        i + 2 * count - 1 <= pieces.len(),
        pieces.subrange(i, i + 2 * count - 1) == mark_pieces(count),
        !piece_is(pieces, i + 2 * count - 1, TokenKind::Comma),
    ensures
        lists_marks(pieces, i, count),
    decreases count,
{
    let part = pieces.subrange(i, i + 2 * count - 1);
    assert(part[0] == pieces[i]);
    if count > 1 {
        let fewer = (count - 1) as nat;
        lemma_mark_pieces(fewer);
        assert(part[1] == pieces[i + 1]);
        assert(pieces.subrange(i + 2, i + 2 + 2 * fewer - 1) =~= mark_pieces(fewer)) by {
            assert forall|k: int| 0 <= k < 2 * fewer - 1 implies pieces[i + 2 + k] == mark_pieces(
                fewer,
            )[k] by {
                assert(part[k + 2] == pieces[i + (k + 2)]);
            }
        }
        lemma_marks_listed(pieces, i + 2, fewer);
    }
}

/// Where the pieces of the comparisons of plain names stand among other pieces, with no
/// `and` behind them, the comparisons are listed there as conditions.
proof fn lemma_tests_listed(pieces: Seq<Piece>, i: int, names: Seq<Seq<char>>)
    requires
        names.len() > 0,
        plain_names(names),
        0 <= i,
        i + 4 * names.len() - 1 <= pieces.len(),
        pieces.subrange(i, i + 4 * names.len() - 1) == test_pieces(names),
        !piece_is_word(pieces, i + 4 * names.len() - 1, "and"@),
    ensures
        lists_tests(pieces, i, names, ListKind::Conditions),
    decreases names.len(),
{
    let part = pieces.subrange(i, i + 4 * names.len() - 1);
    lemma_plain_rest(names);
    assert(part[0] == pieces[i]);
    assert(part[1] == pieces[i + 1]);
    assert(part[2] == pieces[i + 2]);
    if names.len() > 1 {
        let rest = names.drop_first();
        lemma_test_pieces(rest);
        assert(part[3] == pieces[i + 3]);
        assert(pieces.subrange(i + 4, i + 4 + 4 * rest.len() - 1) =~= test_pieces(rest)) by {
            assert forall|k: int| 0 <= k < 4 * rest.len() - 1 implies pieces[i + 4 + k]
                == test_pieces(rest)[k] by {
                assert(part[k + 4] == pieces[i + (k + 4)]);
            }
        }
        lemma_tests_listed(pieces, i + 4, rest);
    }
}

/// The names of the key columns, in schema order.
pub open spec fn key_names(columns: Seq<ColumnView>) -> Seq<Seq<char>> {
    positions_of(columns, true).map_values(|position: int| columns[position].name)
}

/// Whether the table and every column have plain names, and no two columns the same.
pub open spec fn plainly_named(schema: TableSchemaView) -> bool {
    &&& is_plain_name(schema.table)
    &&& plain_names(column_names(schema.columns))
    &&& column_names(schema.columns).no_duplicates()
}

/// The pieces of the clause that picks the row of a primary key.
pub open spec fn where_pieces(columns: Seq<ColumnView>) -> Seq<Piece> {
    seq![word("where"@, true)] + test_pieces(key_names(columns))
}

/// The pieces of the generated `insert` statement.
pub open spec fn insert_pieces(schema: TableSchemaView) -> Seq<Piece> {
    seq![
        word("insert"@, true),
        word("into"@, true),
        word(schema.table, false),
        sign(TokenKind::OpenParen, false),
    ] + name_pieces(column_names(schema.columns), false) + seq![
        sign(TokenKind::CloseParen, true),
        word("values"@, true),
        sign(TokenKind::OpenParen, false),
    ] + mark_pieces(schema.columns.len()) + seq![sign(TokenKind::CloseParen, false)]
}

/// The pieces of the generated `select` statement.
pub open spec fn select_pieces(schema: TableSchemaView) -> Seq<Piece> {
    seq![word("select"@, true)] + name_pieces(column_names(schema.columns), true) + seq![
        word("from"@, true),
        word(schema.table, true),
    ] + where_pieces(schema.columns)
}

/// The pieces of the generated `update` statement of a column.
pub open spec fn update_pieces(schema: TableSchemaView, column: Seq<char>) -> Seq<Piece> {
    seq![
        word("update"@, true),
        word(schema.table, true),
        word("set"@, true),
        word(column, true),
        sign(TokenKind::Equal, true),
        sign(TokenKind::Placeholder, true),
    ] + where_pieces(schema.columns)
}

/// The pieces of the generated `delete` statement.
pub open spec fn delete_pieces(schema: TableSchemaView) -> Seq<Piece> {
    seq![word("delete"@, true), word("from"@, true), word(schema.table, true)] + where_pieces(
        schema.columns,
    )
}

/// The words of the grammar are words.
proof fn lemma_keywords()
    ensures
        is_word_text("select"@),
        is_word_text("from"@),
        is_word_text("where"@),
        is_word_text("insert"@),
        is_word_text("into"@),
        is_word_text("values"@),
        is_word_text("update"@),
        is_word_text("set"@),
        is_word_text("delete"@),
        "select"@ != "insert"@,
        "select"@ != "update"@,
        "select"@ != "delete"@,
        "insert"@ != "update"@,
        "insert"@ != "delete"@,
        "update"@ != "delete"@,
        "where"@ != "and"@,
        "where"@ != "limit"@,
{
    reveal_strlit("select");
    reveal_strlit("from");
    reveal_strlit("where");
    reveal_strlit("insert");
    reveal_strlit("into");
    reveal_strlit("values");
    reveal_strlit("update");
    reveal_strlit("set");
    reveal_strlit("delete");
    reveal_strlit("and");
    reveal_strlit("limit");
    assert("select"@[0] == 's' && "insert"@[0] == 'i' && "update"@[0] == 'u' && "delete"@[0]
        == 'd' && "where"@[0] == 'w' && "and"@[0] == 'a' && "limit"@[0] == 'l');
}

proof fn lemma_spell_three(first: Piece, second: Piece, third: Piece)
    ensures
        spell(seq![first, second, third]) == piece_text(first) + piece_text(second) + piece_text(
            third,
        ),
{
    assert(seq![first, second, third] =~= seq![first, second] + seq![third]);
    lemma_spell_joined(seq![first, second], seq![third]);
    lemma_spell_two(first, second);
    lemma_spell_one(third);
}

/// The key columns of a table that has a primary key.
proof fn lemma_key_names(schema: TableSchemaView)
    requires
        schema.has_primary_key(),
        plain_names(column_names(schema.columns)),
    ensures
        key_names(schema.columns).len() > 0,
        plain_names(key_names(schema.columns)),
        key_tests(schema.columns) == tests(key_names(schema.columns)),
        forall|k: int|
            0 <= k < key_names(schema.columns).len() ==> exists|i: int|
                0 <= i < schema.columns.len() && schema.columns[i].name == #[trigger] key_names(
                    schema.columns,
                )[k],
{
    let columns = schema.columns;
    lemma_positions_of(columns, true);
    let i = choose|i: int|
        0 <= i < columns.len() && (#[trigger] columns[i]).role == crate::schema::KeyRole::PartitionKey;
    assert(positions_of(columns, true).contains(i));
    assert forall|k: int| 0 <= k < key_names(columns).len() implies is_plain_name(
        #[trigger] key_names(columns)[k],
    ) by {
        let p = positions_of(columns, true)[k];
        assert(column_names(columns)[p] == columns[p].name);
    }
    assert(key_tests(columns) =~= tests(key_names(columns)));
    assert forall|k: int| 0 <= k < key_names(columns).len() implies exists|i: int|
        0 <= i < columns.len() && columns[i].name == #[trigger] key_names(columns)[k] by {
        let p = positions_of(columns, true)[k];
        assert(columns[p].name == key_names(columns)[k]);
    }
}

/// The pieces of the `where` clause are well written and spell the clause.
proof fn lemma_where_pieces(schema: TableSchemaView)
    requires
        schema.has_primary_key(),
        plain_names(column_names(schema.columns)),
    ensures
        pieces_ok(where_pieces(schema.columns)),
        spell(where_pieces(schema.columns)) == where_clause(schema.columns),
        where_pieces(schema.columns).len() == 4 * key_names(schema.columns).len(),
        where_pieces(schema.columns)[0] == word("where"@, true),
{
    let names = key_names(schema.columns);
    lemma_key_names(schema);
    lemma_keywords();
    lemma_test_pieces(names);
    lemma_tests_spelt(names);
    let head = seq![word("where"@, true)];
    lemma_one_ok(word("where"@, true));
    lemma_ok_joined(head, test_pieces(names));
    lemma_spell_joined(head, test_pieces(names));
    lemma_spell_one(word("where"@, true));
    reveal_strlit("where");
    reveal_strlit("where ");
    assert(piece_text(word("where"@, true)) =~= "where "@);
}

/// The pieces of the generated `insert` statement are well written and spell it.
proof fn lemma_insert_pieces(schema: TableSchemaView)
    requires
        schema.columns.len() > 0,
        plainly_named(schema),
    ensures
        pieces_ok(insert_pieces(schema)),
        spell(insert_pieces(schema)) == insert_text(schema),
{
    let names = column_names(schema.columns);
    let count = schema.columns.len();
    let head = seq![
        word("insert"@, true),
        word("into"@, true),
        word(schema.table, false),
        sign(TokenKind::OpenParen, false),
    ];
    let listed = name_pieces(names, false);
    let middle = seq![
        sign(TokenKind::CloseParen, true),
        word("values"@, true),
        sign(TokenKind::OpenParen, false),
    ];
    let marked = mark_pieces(count);
    let tail = seq![sign(TokenKind::CloseParen, false)];
    lemma_keywords();
    lemma_name_pieces(names, false);
    lemma_mark_pieces(count);
    assert(pieces_ok(head)) by {
        assert forall|i: int| 0 <= i < head.len() - 1 implies #[trigger] apart(head, i) by {}
    }
    assert(pieces_ok(middle)) by {
        assert forall|i: int| 0 <= i < middle.len() - 1 implies #[trigger] apart(middle, i) by {}
    }
    lemma_one_ok(sign(TokenKind::CloseParen, false));
    lemma_ok_joined(head, listed);
    lemma_ok_joined(head + listed, middle);
    lemma_ok_joined(head + listed + middle, marked);
    lemma_ok_joined(head + listed + middle + marked, tail);
    lemma_spell_joined(head, listed);
    lemma_spell_joined(head + listed, middle);
    lemma_spell_joined(head + listed + middle, marked);
    lemma_spell_joined(head + listed + middle + marked, tail);
    lemma_names_spelt(names, false);
    lemma_marks_spelt(count);
    assert(spell(head) == "insert into "@ + schema.table + "("@) by {
        reveal_strlit("insert");
        reveal_strlit("into");
        reveal_strlit("insert into ");
        reveal_strlit("(");
        assert(head =~= seq![word("insert"@, true), word("into"@, true)] + seq![
            word(schema.table, false),
            sign(TokenKind::OpenParen, false),
        ]);
        lemma_spell_joined(
            seq![word("insert"@, true), word("into"@, true)],
            seq![word(schema.table, false), sign(TokenKind::OpenParen, false)],
        );
        lemma_spell_two(word("insert"@, true), word("into"@, true));
        lemma_spell_two(word(schema.table, false), sign(TokenKind::OpenParen, false));
        assert(piece_text(word("insert"@, true)) + piece_text(word("into"@, true))
            =~= "insert into "@);
        assert(piece_text(sign(TokenKind::OpenParen, false)) =~= "("@);
        assert("insert into "@ + (schema.table + "("@) =~= "insert into "@ + schema.table + "("@);
    }
    assert(spell(middle) == ") values ("@) by {
        reveal_strlit("values");
        reveal_strlit(") values (");
        lemma_spell_three(
            sign(TokenKind::CloseParen, true),
            word("values"@, true),
            sign(TokenKind::OpenParen, false),
        );
        assert(piece_text(sign(TokenKind::CloseParen, true)) + piece_text(word("values"@, true))
            + piece_text(sign(TokenKind::OpenParen, false)) =~= ") values ("@);
    }
    assert(spell(tail) == ")"@) by {
        reveal_strlit(")");
        lemma_spell_one(sign(TokenKind::CloseParen, false));
        assert(piece_text(sign(TokenKind::CloseParen, false)) =~= ")"@);
    }
}

/// The pieces of the generated `select` statement are well written and spell it.
proof fn lemma_select_pieces(schema: TableSchemaView)
    requires
        schema.columns.len() > 0,
        schema.has_primary_key(),
        plainly_named(schema),
    ensures
        pieces_ok(select_pieces(schema)),
        spell(select_pieces(schema)) == select_unique_text(schema),
{
    let names = column_names(schema.columns);
    let head = seq![word("select"@, true)];
    let listed = name_pieces(names, true);
    let middle = seq![word("from"@, true), word(schema.table, true)];
    let clause = where_pieces(schema.columns);
    lemma_keywords();
    lemma_name_pieces(names, true);
    lemma_where_pieces(schema);
    lemma_one_ok(word("select"@, true));
    assert(pieces_ok(middle)) by {
        assert forall|i: int| 0 <= i < middle.len() - 1 implies #[trigger] apart(middle, i) by {}
    }
    lemma_ok_joined(head, listed);
    lemma_ok_joined(head + listed, middle);
    lemma_ok_joined(head + listed + middle, clause);
    lemma_spell_joined(head, listed);
    lemma_spell_joined(head + listed, middle);
    lemma_spell_joined(head + listed + middle, clause);
    lemma_names_spelt(names, true);
    assert(spell(head) == "select "@) by {
        reveal_strlit("select");
        reveal_strlit("select ");
        lemma_spell_one(word("select"@, true));
        assert(piece_text(word("select"@, true)) =~= "select "@);
    }
    assert(spell(middle) == "from "@ + schema.table + " "@) by {
        reveal_strlit("from");
        reveal_strlit("from ");
        reveal_strlit(" ");
        lemma_spell_two(word("from"@, true), word(schema.table, true));
        assert(piece_text(word("from"@, true)) + piece_text(word(schema.table, true)) =~= "from "@
            + schema.table + " "@);
    }
    assert("select "@ + join(names, ", "@).push(' ') + ("from "@ + schema.table + " "@)
        + where_clause(schema.columns) =~= select_unique_text(schema)) by {
        reveal_strlit("from ");
        reveal_strlit(" from ");
    }
}

/// The pieces of the generated `update` statement of a column are well written and
/// spell it.
proof fn lemma_update_pieces(schema: TableSchemaView, column: Seq<char>)
    requires
        schema.has_primary_key(),
        plainly_named(schema),
        is_plain_name(column),
    ensures
        pieces_ok(update_pieces(schema, column)),
        spell(update_pieces(schema, column)) == update_text(schema, column),
{
    let head = seq![
        word("update"@, true),
        word(schema.table, true),
        word("set"@, true),
        word(column, true),
        sign(TokenKind::Equal, true),
        sign(TokenKind::Placeholder, true),
    ];
    let clause = where_pieces(schema.columns);
    lemma_keywords();
    lemma_where_pieces(schema);
    assert(pieces_ok(head)) by {
        assert forall|i: int| 0 <= i < head.len() - 1 implies #[trigger] apart(head, i) by {}
    }
    lemma_ok_joined(head, clause);
    lemma_spell_joined(head, clause);
    assert(spell(head) == "update "@ + schema.table + " set "@ + column + " = ? "@) by {
        reveal_strlit("update");
        reveal_strlit("update ");
        reveal_strlit("set");
        reveal_strlit(" set ");
        reveal_strlit(" = ? ");
        let front = seq![word("update"@, true), word(schema.table, true), word("set"@, true)];
        let back = seq![
            word(column, true),
            sign(TokenKind::Equal, true),
            sign(TokenKind::Placeholder, true),
        ];
        assert(head =~= front + back);
        lemma_spell_joined(front, back);
        lemma_spell_three(word("update"@, true), word(schema.table, true), word("set"@, true));
        lemma_spell_three(
            word(column, true),
            sign(TokenKind::Equal, true),
            sign(TokenKind::Placeholder, true),
        );
        assert(piece_text(word("update"@, true)) + piece_text(word(schema.table, true))
            + piece_text(word("set"@, true)) + (piece_text(word(column, true)) + piece_text(
            sign(TokenKind::Equal, true),
        ) + piece_text(sign(TokenKind::Placeholder, true))) =~= "update "@ + schema.table
            + " set "@ + column + " = ? "@);
    }
}

/// The pieces of the generated `delete` statement are well written and spell it.
proof fn lemma_delete_pieces(schema: TableSchemaView)
    requires
        schema.has_primary_key(),
        plainly_named(schema),
    ensures
        pieces_ok(delete_pieces(schema)),
        spell(delete_pieces(schema)) == delete_text(schema),
{
    let head = seq![word("delete"@, true), word("from"@, true), word(schema.table, true)];
    let clause = where_pieces(schema.columns);
    lemma_keywords();
    lemma_where_pieces(schema);
    assert(pieces_ok(head)) by {
        assert forall|i: int| 0 <= i < head.len() - 1 implies #[trigger] apart(head, i) by {}
    }
    lemma_ok_joined(head, clause);
    lemma_spell_joined(head, clause);
    assert(spell(head) == "delete from "@ + schema.table + " "@) by {
        reveal_strlit("delete");
        reveal_strlit("from");
        reveal_strlit("delete from ");
        reveal_strlit(" ");
        lemma_spell_three(word("delete"@, true), word("from"@, true), word(schema.table, true));
        assert(piece_text(word("delete"@, true)) + piece_text(word("from"@, true)) + piece_text(
            word(schema.table, true),
        ) =~= "delete from "@ + schema.table + " "@);
    }
}

/// Whether the statement is of the given operation on the given table, lists the
/// selected names, assigns a placeholder to each of the assigned names and compares each
/// of the compared names with a placeholder for equality, and has no `limit`.
pub open spec fn reads_as(
    query: ParsedQueryView,
    operation: Operation,
    table: Seq<char>,
    selected: Seq<Seq<char>>,
    assigned: Seq<Seq<char>>,
    compared: Seq<Seq<char>>,
) -> bool {
    &&& query.operation == operation
    &&& query.table.name == table
    &&& !query.wildcard
    &&& ref_names(query.selected) == selected
    &&& tests_of(query.assignments, assigned)
    &&& tests_of(query.conditions, compared)
    &&& query.limit is None
}

/// Where the pieces end with the `where` clause of a table, the clause is read as it is
/// written, and nothing is left behind it.
proof fn lemma_where_reads(
    s: Seq<char>,
    tokens: Seq<Lexeme>,
    pieces: Seq<Piece>,
    i: int,
    schema: TableSchemaView,
)
    requires
        written(s, tokens, pieces),
        schema.has_primary_key(),
        plain_names(column_names(schema.columns)),
        0 <= i,
        pieces.len() == i + 4 * key_names(schema.columns).len(),
        pieces.subrange(i, pieces.len() as int) == where_pieces(schema.columns),
    ensures
        is_word(s, tokens, i, "where"@),
        parse_bindings(s, tokens, i + 1, ListKind::Conditions) is Ok,
        parse_bindings(s, tokens, i + 1, ListKind::Conditions)->Ok_0.1 == tokens.len(),
        tests_of(
            parse_bindings(s, tokens, i + 1, ListKind::Conditions)->Ok_0.0,
            key_names(schema.columns),
        ),
        parse_where(s, tokens, i) == parse_bindings(s, tokens, i + 1, ListKind::Conditions),
        parse_limit(s, tokens, tokens.len() as int) == Ok::<(Option<OperandView>, int), int>(
            (None, tokens.len() as int),
        ),
{
    let names = key_names(schema.columns);
    let clause = where_pieces(schema.columns);
    lemma_key_names(schema);
    lemma_test_pieces(names);
    let part = pieces.subrange(i, pieces.len() as int);
    assert(part[0] == pieces[i]);
    assert(clause[0] == word("where"@, true));
    lemma_token_is_piece(s, tokens, pieces, i);
    lemma_token_is_piece(s, tokens, pieces, pieces.len() as int);
    assert(pieces.subrange(i + 1, i + 1 + 4 * names.len() - 1) =~= test_pieces(names)) by {
        assert forall|k: int| 0 <= k < 4 * names.len() - 1 implies pieces[i + 1 + k]
            == test_pieces(names)[k] by {
            assert(part[k + 1] == pieces[i + (k + 1)]);
            assert(clause[k + 1] == test_pieces(names)[k]);
        }
    }
    lemma_tests_listed(pieces, i + 1, names);
    lemma_tests_parse(s, tokens, pieces, i + 1, names, ListKind::Conditions);
}

/// The generated `insert` statement is read as an insert of a placeholder into every
/// column, in schema order.
pub proof fn lemma_insert_reads(schema: TableSchemaView)
    requires
        schema.columns.len() > 0,
        plainly_named(schema),
    ensures
        parse_spec(insert_text(schema)) is Ok,
        reads_as(
            parse_spec(insert_text(schema))->Ok_0,
            Operation::Insert,
            schema.table,
            Seq::empty(),
            column_names(schema.columns),
            Seq::empty(),
        ),
{
    let s = insert_text(schema);
    let pieces = insert_pieces(schema);
    let names = column_names(schema.columns);
    let n = schema.columns.len() as int;
    lemma_insert_pieces(schema);
    lemma_spelling_lexes(pieces);
    let tokens = lex(s)->Ok_0;
    lemma_keywords();
    lemma_name_pieces(names, false);
    lemma_mark_pieces(n as nat);
    assert(pieces.len() == 4 * n + 6);
    assert(pieces[0] == word("insert"@, true));
    assert(pieces[1] == word("into"@, true));
    assert(pieces[2] == word(schema.table, false));
    assert(pieces[3] == sign(TokenKind::OpenParen, false));
    assert(pieces[2 * n + 3] == sign(TokenKind::CloseParen, true));
    assert(pieces[2 * n + 4] == word("values"@, true));
    assert(pieces[2 * n + 5] == sign(TokenKind::OpenParen, false));
    assert(pieces[4 * n + 5] == sign(TokenKind::CloseParen, false));
    assert(pieces.subrange(4, 4 + 2 * n - 1) =~= name_pieces(names, false));
    assert(pieces.subrange(2 * n + 6, 2 * n + 6 + 2 * n - 1) =~= mark_pieces(n as nat));
    lemma_token_is_piece(s, tokens, pieces, 0);
    lemma_token_is_piece(s, tokens, pieces, 1);
    lemma_token_is_piece(s, tokens, pieces, 2);
    lemma_token_is_piece(s, tokens, pieces, 3);
    lemma_token_is_piece(s, tokens, pieces, 2 * n + 3);
    lemma_token_is_piece(s, tokens, pieces, 2 * n + 4);
    lemma_token_is_piece(s, tokens, pieces, 2 * n + 5);
    lemma_token_is_piece(s, tokens, pieces, 4 * n + 5);
    lemma_names_listed(pieces, 4, names, false);
    lemma_names_parse(s, tokens, pieces, 4, names);
    lemma_marks_listed(pieces, 2 * n + 6, n as nat);
    lemma_marks_parse(s, tokens, pieces, 2 * n + 6, n as nat);
    let refs = parse_names(s, tokens, 4)->Ok_0.0;
    let values = parse_operands(s, tokens, 2 * n + 6)->Ok_0.0;
    assert(refs.len() == names.len());
    assert(parse_tokens(s, tokens) == parse_insert(s, tokens));
    let query = parse_insert(s, tokens)->Ok_0;
    assert(tests_of(pair_up(refs, values), names)) by {
        assert forall|j: int| 0 <= j < refs.len() implies (#[trigger] pair_up(
            refs,
            values,
        )[j]).column.name == names[j] && pair_up(refs, values)[j].comparison
            == Comparison::Equal && pair_up(refs, values)[j].operand.kind
            == OperandKind::Placeholder by {
            assert(ref_names(refs)[j] == refs[j].name);
            assert(values[j].kind == OperandKind::Placeholder);
        }
    }
    assert(ref_names(query.selected) =~= Seq::<Seq<char>>::empty());
}

/// The generated `select` statement is read as a select of every column, in schema
/// order, that compares every key column with a placeholder.
pub proof fn lemma_select_reads(schema: TableSchemaView)
    requires
        schema.columns.len() > 0,
        schema.has_primary_key(),
        plainly_named(schema),
    ensures
        parse_spec(select_unique_text(schema)) is Ok,
        reads_as(
            parse_spec(select_unique_text(schema))->Ok_0,
            Operation::Select,
            schema.table,
            column_names(schema.columns),
            Seq::empty(),
            key_names(schema.columns),
        ),
{
    let s = select_unique_text(schema);
    let pieces = select_pieces(schema);
    let names = column_names(schema.columns);
    let n = schema.columns.len() as int;
    let k = key_names(schema.columns).len() as int;
    lemma_select_pieces(schema);
    lemma_spelling_lexes(pieces);
    let tokens = lex(s)->Ok_0;
    lemma_keywords();
    lemma_name_pieces(names, true);
    lemma_where_pieces(schema);
    assert(pieces.len() == 2 * n + 2 + 4 * k);
    assert(pieces[0] == word("select"@, true));
    assert(pieces[1] == name_pieces(names, true)[0]);
    assert(pieces[2 * n] == word("from"@, true));
    assert(pieces[2 * n + 1] == word(schema.table, true));
    assert(pieces.subrange(1, 1 + 2 * n - 1) =~= name_pieces(names, true));
    assert(pieces.subrange(2 * n + 2, pieces.len() as int) =~= where_pieces(schema.columns));
    lemma_token_is_piece(s, tokens, pieces, 0);
    lemma_token_is_piece(s, tokens, pieces, 1);
    lemma_token_is_piece(s, tokens, pieces, 2 * n);
    lemma_token_is_piece(s, tokens, pieces, 2 * n + 1);
    lemma_names_listed(pieces, 1, names, true);
    lemma_names_parse(s, tokens, pieces, 1, names);
    lemma_where_reads(s, tokens, pieces, 2 * n + 2, schema);
    assert(parse_tokens(s, tokens) == parse_select(s, tokens));
    let query = parse_select(s, tokens)->Ok_0;
    assert(tests_of(query.assignments, Seq::<Seq<char>>::empty()));
}

/// The generated `update` statement of a column is read as an update that assigns a
/// placeholder to the column and compares every key column with a placeholder.
pub proof fn lemma_update_reads(schema: TableSchemaView, column: Seq<char>)
    requires
        schema.has_primary_key(),
        plainly_named(schema),
        is_plain_name(column),
    ensures
        parse_spec(update_text(schema, column)) is Ok,
        reads_as(
            parse_spec(update_text(schema, column))->Ok_0,
            Operation::Update,
            schema.table,
            Seq::empty(),
            seq![column],
            key_names(schema.columns),
        ),
{
    let s = update_text(schema, column);
    let pieces = update_pieces(schema, column);
    let k = key_names(schema.columns).len() as int;
    lemma_update_pieces(schema, column);
    lemma_spelling_lexes(pieces);
    let tokens = lex(s)->Ok_0;
    lemma_keywords();
    lemma_where_pieces(schema);
    assert(pieces.len() == 6 + 4 * k);
    assert(pieces[0] == word("update"@, true));
    assert(pieces[1] == word(schema.table, true));
    assert(pieces[2] == word("set"@, true));
    assert(pieces[3] == word(column, true));
    assert(pieces[4] == sign(TokenKind::Equal, true));
    assert(pieces[5] == sign(TokenKind::Placeholder, true));
    assert(pieces[6] == word("where"@, true));
    assert(pieces.subrange(6, pieces.len() as int) =~= where_pieces(schema.columns));
    lemma_token_is_piece(s, tokens, pieces, 0);
    lemma_token_is_piece(s, tokens, pieces, 1);
    lemma_token_is_piece(s, tokens, pieces, 2);
    lemma_token_is_piece(s, tokens, pieces, 6);
    assert(lists_tests(pieces, 3, seq![column], ListKind::Assignments));
    lemma_tests_parse(s, tokens, pieces, 3, seq![column], ListKind::Assignments);
    lemma_where_reads(s, tokens, pieces, 6, schema);
    assert(parse_tokens(s, tokens) == parse_update(s, tokens));
    let query = parse_update(s, tokens)->Ok_0;
    assert(ref_names(query.selected) =~= Seq::<Seq<char>>::empty());
}

/// The generated `delete` statement is read as a delete that compares every key column
/// with a placeholder.
pub proof fn lemma_delete_reads(schema: TableSchemaView)
    requires
        schema.has_primary_key(),
        plainly_named(schema),
    ensures
        parse_spec(delete_text(schema)) is Ok,
        reads_as(
            parse_spec(delete_text(schema))->Ok_0,
            Operation::Delete,
            schema.table,
            Seq::empty(),
            Seq::empty(),
            key_names(schema.columns),
        ),
{
    let s = delete_text(schema);
    let pieces = delete_pieces(schema);
    let k = key_names(schema.columns).len() as int;
    lemma_delete_pieces(schema);
    lemma_spelling_lexes(pieces);
    let tokens = lex(s)->Ok_0;
    lemma_keywords();
    lemma_where_pieces(schema);
    assert(pieces.len() == 3 + 4 * k);
    assert(pieces[0] == word("delete"@, true));
    assert(pieces[1] == word("from"@, true));
    assert(pieces[2] == word(schema.table, true));
    assert(pieces.subrange(3, pieces.len() as int) =~= where_pieces(schema.columns));
    lemma_token_is_piece(s, tokens, pieces, 0);
    lemma_token_is_piece(s, tokens, pieces, 1);
    lemma_token_is_piece(s, tokens, pieces, 2);
    lemma_where_reads(s, tokens, pieces, 3, schema);
    assert(parse_tokens(s, tokens) == parse_delete(s, tokens));
    let query = parse_delete(s, tokens)->Ok_0;
    assert(ref_names(query.selected) =~= Seq::<Seq<char>>::empty());
    assert(tests_of(query.assignments, Seq::<Seq<char>>::empty()));
}

/// A column of a table is known by its name, and where no two columns have the same
/// name, the name leads to the column itself.
proof fn lemma_column_is_known(schema: TableSchemaView, i: int)
    requires
        0 <= i < schema.columns.len(),
    ensures
        schema.has_column(schema.columns[i].name),
        column_names(schema.columns).no_duplicates() ==> column_named(
            schema,
            schema.columns[i].name,
        ) == schema.columns[i],
{
    let name = schema.columns[i].name;
    lemma_position_in(schema.columns, name);
    if column_names(schema.columns).no_duplicates() {
        let found = position_in(schema.columns, name)->0;
        if found != i {
            assert(column_names(schema.columns)[found] == column_names(schema.columns)[i]);
        }
    }
}

/// The types that the columns of the given names have, in order.
pub open spec fn types_named(schema: TableSchemaView, names: Seq<Seq<char>>) -> Seq<ColumnType> {
    names.map_values(|name: Seq<char>| column_named(schema, name).column_type)
}

/// Where every slot holds a placeholder, each slot expects one parameter, and the
/// parameters are expected in the order of the slots.
proof fn lemma_all_placeholders(slots: Seq<SlotView>, i: int)
    requires
        forall|j: int| 0 <= j < slots.len() ==> (#[trigger] slots[j]).kind
            == OperandKind::Placeholder,
        0 <= i <= slots.len(),
    ensures
        expected_parameters(slots.take(i)).len() == i,
        forall|j: int|
            0 <= j < i ==> expected_parameters(slots.take(i))[j] == (#[trigger] slots[j]).expected,
        rank(slots, i) == i,
    decreases i,
{
    if i > 0 {
        lemma_all_placeholders(slots, i - 1);
        let upto = slots.take(i);
        assert(upto.drop_last() =~= slots.take(i - 1));
        assert(upto.last() == slots[i - 1]);
    }
}

/// A statement that binds a placeholder to each of its columns, all of them columns of
/// the table, passes the checks where the supplied parameters fit the columns, and then
/// expects of each parameter the type of its column.
proof fn lemma_bound_columns_check(
    schema: TableSchemaView,
    template: Seq<char>,
    query: ParsedQueryView,
    params: Seq<ParamExprView>,
    selected: Seq<Seq<char>>,
    assigned: Seq<Seq<char>>,
    compared: Seq<Seq<char>>,
)
    requires
        reads_as(query, query.operation, schema.table, selected, assigned, compared),
        forall|j: int| 0 <= j < selected.len() ==> schema.has_column(#[trigger] selected[j]),
        forall|j: int|
            0 <= j < (assigned + compared).len() ==> schema.has_column(
                #[trigger] (assigned + compared)[j],
            ),
        params.len() == (assigned + compared).len(),
        forall|j: int|
            0 <= j < params.len() ==> column_named(
                schema,
                (assigned + compared)[j],
            ).column_type.accepts_spec((#[trigger] params[j]).value_type),
    ensures
        checked_to(
            schema,
            template,
            query,
            params,
            Ok(descriptor_of(schema, template, query)),
        ),
        descriptor_of(schema, template, query).parameter_types == types_named(
            schema,
            assigned + compared,
        ),
{
    let bound = assigned + compared;
    let pairs = bindings(query);
    let places = slots(schema, query);
    let names = referenced(query);
    let types = types_of(params);
    assert(pairs.len() == bound.len());
    assert forall|j: int| 0 <= j < pairs.len() implies (#[trigger] pairs[j]).column.name
        == bound[j] && pairs[j].operand.kind == OperandKind::Placeholder by {
        if j < query.assignments.len() {
            assert(pairs[j] == query.assignments[j]);
        } else {
            assert(pairs[j] == query.conditions[j - query.assignments.len()]);
        }
    }
    assert(places =~= slots_of(schema, pairs));
    assert forall|j: int| 0 <= j < places.len() implies (#[trigger] places[j]).kind
        == OperandKind::Placeholder && places[j].expected == column_named(
        schema,
        bound[j],
    ).column_type by {
        assert(places[j] == slot_of(schema, pairs[j]));
    }
    assert(all_known(schema, names)) by {
        assert forall|j: int| 0 <= j < names.len() implies schema.has_column(
            (#[trigger] names[j]).name,
        ) by {
            if j < query.selected.len() {
                assert(names[j] == query.selected[j]);
                assert(ref_names(query.selected)[j] == query.selected[j].name);
            } else {
                let at = j - query.selected.len();
                assert(names[j] == columns_of(pairs)[at]);
                assert(columns_of(pairs)[at] == pairs[at].column);
                assert(schema.has_column(bound[at]));
            }
        }
    }
    lemma_all_placeholders(places, places.len() as int);
    assert(places.take(places.len() as int) =~= places);
    lemma_parameters_match_placeholders(schema, query);
    assert(all_fit(places, types)) by {
        assert forall|j: int| 0 <= j < places.len() implies fits(
            places[j].expected,
            #[trigger] found_type(places, types, j),
        ) by {
            lemma_all_placeholders(places, j);
            assert(types[j] == params[j].value_type);
        }
    }
    assert(expected_parameters(places) =~= types_named(schema, bound)) by {
        assert forall|j: int| 0 <= j < places.len() implies expected_parameters(places)[j]
            == types_named(schema, bound)[j] by {
            assert(places[j].expected == column_named(schema, bound[j]).column_type);
        }
    }
}

/// The types of the columns, in order.
pub open spec fn column_types(columns: Seq<ColumnView>) -> Seq<ColumnType> {
    columns.map_values(|column: ColumnView| column.column_type)
}

/// The types of the key columns, in schema order.
pub open spec fn key_types(columns: Seq<ColumnView>) -> Seq<ColumnType> {
    positions_of(columns, true).map_values(|position: int| columns[position].column_type)
}

/// Whether the parameters fit the types, one for one.
pub open spec fn parameters_fit(types: Seq<ColumnType>, params: Seq<ParamExprView>) -> bool {
    &&& params.len() == types.len()
    &&& forall|j: int|
        0 <= j < params.len() ==> types[j].accepts_spec((#[trigger] params[j]).value_type)
}

/// What the columns of a plainly named table are known by.
proof fn lemma_names_lead_to_columns(schema: TableSchemaView)
    requires
        schema.has_primary_key(),
        plainly_named(schema),
    ensures
        forall|j: int|
            0 <= j < schema.columns.len() ==> schema.has_column(
                #[trigger] column_names(schema.columns)[j],
            ),
        types_named(schema, column_names(schema.columns)) == column_types(schema.columns),
        forall|j: int|
            0 <= j < key_names(schema.columns).len() ==> schema.has_column(
                #[trigger] key_names(schema.columns)[j],
            ),
        types_named(schema, key_names(schema.columns)) == key_types(schema.columns),
        column_names(schema.columns).map_values(|name: Seq<char>| column_named(schema, name))
            == schema.columns,
{
    let columns = schema.columns;
    lemma_positions_of(columns, true);
    assert forall|j: int| 0 <= j < columns.len() implies schema.has_column(
        #[trigger] column_names(columns)[j],
    ) && column_named(schema, column_names(columns)[j]) == columns[j] by {
        lemma_column_is_known(schema, j);
    }
    assert(types_named(schema, column_names(columns)) =~= column_types(columns));
    assert forall|j: int| 0 <= j < key_names(columns).len() implies schema.has_column(
        #[trigger] key_names(columns)[j],
    ) && column_named(schema, key_names(columns)[j]) == columns[positions_of(
        columns,
        true,
    )[j]] by {
        lemma_column_is_known(schema, positions_of(columns, true)[j]);
    }
    assert(types_named(schema, key_names(columns)) =~= key_types(columns));
    assert(column_names(columns).map_values(|name: Seq<char>| column_named(schema, name))
        =~= columns);
}

/// The generated `insert` statement of a plainly named table passes validation with
/// parameters that fit the columns, and expects of them the types of the columns, in
/// schema order.
pub proof fn lemma_insert_validates(schema: TableSchemaView, params: Seq<ParamExprView>)
    requires
        schema.columns.len() > 0,
        schema.has_primary_key(),
        plainly_named(schema),
        parameters_fit(column_types(schema.columns), params),
    ensures
        validates_to(
            schema,
            insert_text(schema),
            params,
            Ok(
                QueryDescriptorView {
                    statement: insert_text(schema),
                    operation: Operation::Insert,
                    parameter_types: column_types(schema.columns),
                    row_shape: Seq::empty(),
                },
            ),
        ),
{
    let names = column_names(schema.columns);
    lemma_insert_reads(schema);
    lemma_names_lead_to_columns(schema);
    let query = parse_spec(insert_text(schema))->Ok_0;
    let none = Seq::<Seq<char>>::empty();
    assert(names + none =~= names);
    assert forall|j: int| 0 <= j < params.len() implies column_named(
        schema,
        (names + none)[j],
    ).column_type.accepts_spec((#[trigger] params[j]).value_type) by {
        assert(types_named(schema, names)[j] == column_types(schema.columns)[j]);
    }
    lemma_bound_columns_check(schema, insert_text(schema), query, params, none, names, none);
}

/// The generated `select` statement of a plainly named table passes validation with
/// parameters that fit the key columns, expects of them the types of the key columns,
/// and returns rows of the table's columns.
pub proof fn lemma_select_unique_validates(schema: TableSchemaView, params: Seq<ParamExprView>)
    requires
        schema.columns.len() > 0,
        schema.has_primary_key(),
        plainly_named(schema),
        parameters_fit(key_types(schema.columns), params),
    ensures
        validates_to(
            schema,
            select_unique_text(schema),
            params,
            Ok(
                QueryDescriptorView {
                    statement: select_unique_text(schema),
                    operation: Operation::Select,
                    parameter_types: key_types(schema.columns),
                    row_shape: schema.columns,
                },
            ),
        ),
{
    let names = column_names(schema.columns);
    let keys = key_names(schema.columns);
    lemma_select_reads(schema);
    lemma_names_lead_to_columns(schema);
    let query = parse_spec(select_unique_text(schema))->Ok_0;
    let none = Seq::<Seq<char>>::empty();
    assert(none + keys =~= keys);
    assert forall|j: int| 0 <= j < params.len() implies column_named(
        schema,
        (none + keys)[j],
    ).column_type.accepts_spec((#[trigger] params[j]).value_type) by {
        assert(types_named(schema, keys)[j] == key_types(schema.columns)[j]);
    }
    lemma_bound_columns_check(schema, select_unique_text(schema), query, params, names, none, keys);
    assert(row_shape(schema, query) =~= schema.columns) by {
        assert forall|j: int| 0 <= j < query.selected.len() implies column_named(
            schema,
            query.selected[j].name,
        ) == schema.columns[j] by {
            assert(ref_names(query.selected)[j] == query.selected[j].name);
            lemma_column_is_known(schema, j);
        }
    }
}

/// The generated `delete` statement of a plainly named table passes validation with
/// parameters that fit the key columns, and expects of them the types of the key
/// columns.
pub proof fn lemma_delete_validates(schema: TableSchemaView, params: Seq<ParamExprView>)
    requires
        schema.has_primary_key(),
        plainly_named(schema),
        parameters_fit(key_types(schema.columns), params),
    ensures
        validates_to(
            schema,
            delete_text(schema),
            params,
            Ok(
                QueryDescriptorView {
                    statement: delete_text(schema),
                    operation: Operation::Delete,
                    parameter_types: key_types(schema.columns),
                    row_shape: Seq::empty(),
                },
            ),
        ),
{
    let keys = key_names(schema.columns);
    lemma_delete_reads(schema);
    lemma_names_lead_to_columns(schema);
    let query = parse_spec(delete_text(schema))->Ok_0;
    let none = Seq::<Seq<char>>::empty();
    assert(none + keys =~= keys);
    assert forall|j: int| 0 <= j < params.len() implies column_named(
        schema,
        (none + keys)[j],
    ).column_type.accepts_spec((#[trigger] params[j]).value_type) by {
        assert(types_named(schema, keys)[j] == key_types(schema.columns)[j]);
    }
    lemma_bound_columns_check(schema, delete_text(schema), query, params, none, none, keys);
}

/// The generated `update` statement of a column of a plainly named table passes
/// validation with parameters that fit the column and then the key columns, and expects
/// of them the type of the column and then the types of the key columns.
pub proof fn lemma_update_validates(
    schema: TableSchemaView,
    field: int,
    params: Seq<ParamExprView>,
)
    requires
        schema.has_primary_key(),
        plainly_named(schema),
        0 <= field < schema.columns.len(),
        parameters_fit(
            seq![schema.columns[field].column_type] + key_types(schema.columns),
            params,
        ),
    ensures
        validates_to(
            schema,
            update_text(schema, schema.columns[field].name),
            params,
            Ok(
                QueryDescriptorView {
                    statement: update_text(schema, schema.columns[field].name),
                    operation: Operation::Update,
                    parameter_types: seq![schema.columns[field].column_type] + key_types(
                        schema.columns,
                    ),
                    row_shape: Seq::empty(),
                },
            ),
        ),
{
    let column = schema.columns[field].name;
    let keys = key_names(schema.columns);
    let text = update_text(schema, column);
    assert(is_plain_name(column)) by {
        assert(column_names(schema.columns)[field] == column);
    }
    lemma_update_reads(schema, column);
    lemma_names_lead_to_columns(schema);
    lemma_column_is_known(schema, field);
    let query = parse_spec(text)->Ok_0;
    let none = Seq::<Seq<char>>::empty();
    let bound = seq![column] + keys;
    let types = seq![schema.columns[field].column_type] + key_types(schema.columns);
    assert(types_named(schema, bound) =~= types) by {
        assert forall|j: int| 0 <= j < bound.len() implies types_named(schema, bound)[j]
            == types[j] by {
            if j > 0 {
                assert(bound[j] == keys[j - 1]);
                assert(types_named(schema, keys)[j - 1] == key_types(schema.columns)[j - 1]);
            }
        }
    }
    assert forall|j: int| 0 <= j < bound.len() implies schema.has_column(#[trigger] bound[j]) by {
        if j > 0 {
            assert(bound[j] == keys[j - 1]);
        }
    }
    assert forall|j: int| 0 <= j < params.len() implies column_named(
        schema,
        bound[j],
    ).column_type.accepts_spec((#[trigger] params[j]).value_type) by {
        assert(types_named(schema, bound)[j] == types[j]);
    }
    lemma_bound_columns_check(schema, text, query, params, none, seq![column], keys);
}

/// Every statement of the definitions generated for a plainly named table passes
/// validation against the table's schema, with parameters that fit the columns that the
/// statement binds; and the validated statement expects of its parameters the types of
/// those columns: all columns for `insert`, the key columns for `select_unique` and
/// `delete`, the updated column and then the key columns for an update.
pub proof fn lemma_generated_statements_validate(
    definitions: EntityDefinitionSetView,
    row: Seq<ParamExprView>,
    key: Seq<ParamExprView>,
    method: int,
    change: Seq<ParamExprView>,
)
    requires
        definitions.wf(),
        plainly_named(definitions.schema()),
        parameters_fit(column_types(definitions.fields), row),
        parameters_fit(key_types(definitions.fields), key),
        0 <= method < definitions.updates.len(),
        parameters_fit(
            seq![definitions.fields[definitions.updates[method].field].column_type] + key_types(
                definitions.fields,
            ),
            change,
        ),
    ensures
        validates_to(
            definitions.schema(),
            definitions.insert,
            row,
            Ok(
                QueryDescriptorView {
                    statement: definitions.insert,
                    operation: Operation::Insert,
                    parameter_types: column_types(definitions.fields),
                    row_shape: Seq::empty(),
                },
            ),
        ),
        validates_to(
            definitions.schema(),
            definitions.select_unique,
            key,
            Ok(
                QueryDescriptorView {
                    statement: definitions.select_unique,
                    operation: Operation::Select,
                    parameter_types: key_types(definitions.fields),
                    row_shape: definitions.fields,
                },
            ),
        ),
        validates_to(
            definitions.schema(),
            definitions.delete,
            key,
            Ok(
                QueryDescriptorView {
                    statement: definitions.delete,
                    operation: Operation::Delete,
                    parameter_types: key_types(definitions.fields),
                    row_shape: Seq::empty(),
                },
            ),
        ),
        validates_to(
            definitions.schema(),
            definitions.updates[method].statement,
            change,
            Ok(
                QueryDescriptorView {
                    statement: definitions.updates[method].statement,
                    operation: Operation::Update,
                    parameter_types: seq![
                        definitions.fields[definitions.updates[method].field].column_type,
                    ] + key_types(definitions.fields),
                    row_shape: Seq::empty(),
                },
            ),
        ),
{
    let schema = definitions.schema();
    lemma_positions_of(definitions.fields, false);
    let field = definitions.updates[method].field;
    assert(field == positions_of(definitions.fields, false)[method]);
    lemma_insert_validates(schema, row);
    lemma_select_unique_validates(schema, key);
    lemma_delete_validates(schema, key);
    lemma_update_validates(schema, field, change);
}

} // verus!

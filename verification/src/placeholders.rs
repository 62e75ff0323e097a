//! The placeholders of a statement are the `?` tokens of its template: reading a
//! template neither loses a placeholder nor makes one up.
use crate::lexer::{lex, Lexeme, TokenKind};
use crate::error::BuildErrorView;
use crate::parser::{
    admitted_comparison, is_joiner, is_kind, is_name, is_word, operand_at, pair_up,
    parse_bindings, parse_delete, parse_insert, parse_limit, parse_names, parse_operands,
    parse_select, parse_spec, parse_update, parse_where, BindingView, ListKind, OperandKind,
    OperandView, ParsedQueryView,
};
use crate::schema::TableSchemaView;
use crate::validator::{
    all_known, bindings, operands, placeholder_count, placeholder_positions, referenced,
    validates_to, ParamExprView, QueryDescriptorView,
};
use vstd::prelude::*;

verus! {

/// The character offsets of the `?` tokens, in order.
pub open spec fn placeholder_tokens(tokens: Seq<Lexeme>) -> Seq<int>
    decreases tokens.len(),
{
    if tokens.len() == 0 {
        Seq::empty()
    } else if tokens.last().kind == TokenKind::Placeholder {
        placeholder_tokens(tokens.drop_last()).push(tokens.last().start)
    } else {
        placeholder_tokens(tokens.drop_last())
    }
}

/// The character offsets of the `?` tokens among the tokens from `from` up to `to`.
pub open spec fn between(tokens: Seq<Lexeme>, from: int, to: int) -> Seq<int> {
    placeholder_tokens(tokens.subrange(from, to))
}

/// The operands of the bindings, in order.
pub open spec fn operands_of(bindings: Seq<BindingView>) -> Seq<OperandView> {
    bindings.map_values(|binding: BindingView| binding.operand)
}

proof fn lemma_tokens_joined(front: Seq<Lexeme>, back: Seq<Lexeme>)
    ensures
        placeholder_tokens(front + back) == placeholder_tokens(front) + placeholder_tokens(back),
    decreases back.len(),
{
    if back.len() == 0 {
        assert(front + back =~= front);
        assert(placeholder_tokens(front) + placeholder_tokens(back) =~= placeholder_tokens(front));
    } else {
        assert((front + back).drop_last() =~= front + back.drop_last());
        assert((front + back).last() == back.last());
        lemma_tokens_joined(front, back.drop_last());
        let before = placeholder_tokens(front) + placeholder_tokens(back.drop_last());
        assert(before.push(back.last().start) =~= placeholder_tokens(front) + placeholder_tokens(
            back.drop_last(),
        ).push(back.last().start));
    }
}

proof fn lemma_operands_joined(front: Seq<OperandView>, back: Seq<OperandView>)
    ensures
        placeholder_positions(front + back) == placeholder_positions(front)
            + placeholder_positions(back),
    decreases back.len(),
{
    if back.len() == 0 {
        assert(front + back =~= front);
        assert(placeholder_positions(front) + placeholder_positions(back)
            =~= placeholder_positions(front));
    } else {
        assert((front + back).drop_last() =~= front + back.drop_last());
        assert((front + back).last() == back.last());
        lemma_operands_joined(front, back.drop_last());
        let before = placeholder_positions(front) + placeholder_positions(back.drop_last());
        assert(before.push(back.last().position) =~= placeholder_positions(front)
            + placeholder_positions(back.drop_last()).push(back.last().position));
    }
}

proof fn lemma_between_joined(tokens: Seq<Lexeme>, from: int, mid: int, to: int)
    requires
        0 <= from <= mid <= to <= tokens.len(),
    ensures
        between(tokens, from, to) == between(tokens, from, mid) + between(tokens, mid, to),
{
    assert(tokens.subrange(from, to) =~= tokens.subrange(from, mid) + tokens.subrange(mid, to));
    lemma_tokens_joined(tokens.subrange(from, mid), tokens.subrange(mid, to));
}

proof fn lemma_between_one(tokens: Seq<Lexeme>, i: int)
    requires
        0 <= i < tokens.len(),
    ensures
        between(tokens, i, i + 1) == if tokens[i].kind == TokenKind::Placeholder {
            seq![tokens[i].start]
        } else {
            Seq::<int>::empty()
        },
        between(tokens, i, i) == Seq::<int>::empty(),
{
    let one = tokens.subrange(i, i + 1);
    assert(one.last() == tokens[i]);
    assert(one.drop_last() =~= Seq::<Lexeme>::empty());
    assert(placeholder_tokens(one.drop_last()) =~= Seq::<int>::empty());
    if tokens[i].kind == TokenKind::Placeholder {
        assert(Seq::<int>::empty().push(tokens[i].start) =~= seq![tokens[i].start]);
    }
    assert(tokens.subrange(i, i) =~= Seq::<Lexeme>::empty());
}

proof fn lemma_one_operand(operand: OperandView)
    ensures
        placeholder_positions(seq![operand]) == if operand.kind == OperandKind::Placeholder {
            seq![operand.position]
        } else {
            Seq::<int>::empty()
        },
        placeholder_positions(Seq::<OperandView>::empty()) == Seq::<int>::empty(),
{
    let one = seq![operand];
    assert(one.last() == operand);
    assert(one.drop_last() =~= Seq::<OperandView>::empty());
    assert(placeholder_positions(one.drop_last()) =~= Seq::<int>::empty());
    if operand.kind == OperandKind::Placeholder {
        assert(Seq::<int>::empty().push(operand.position) =~= seq![operand.position]);
    }
}

/// An operand is a placeholder exactly where its token is a `?`, and it stands where its
/// token stands.
proof fn lemma_operand_token(s: Seq<char>, tokens: Seq<Lexeme>, i: int)
    ensures
        operand_at(s, tokens, i) matches Some(operand) ==> 0 <= i < tokens.len() && between(
            tokens,
            i,
            i + 1,
        ) == placeholder_positions(seq![operand]),
{
    if let Some(operand) = operand_at(s, tokens, i) {
        lemma_between_one(tokens, i);
        lemma_one_operand(operand);
    }
}

proof fn lemma_names_hold_no_placeholder(s: Seq<char>, tokens: Seq<Lexeme>, i: int)
    requires
        0 <= i,
    ensures
        parse_names(s, tokens, i) matches Ok((_, next)) ==> i < next <= tokens.len() && between(
            tokens,
            i,
            next,
        ) == Seq::<int>::empty(),
    decreases tokens.len() - i,
{
    if is_name(s, tokens, i) {
        lemma_between_one(tokens, i);
        if is_kind(tokens, i + 1, TokenKind::Comma) {
            lemma_between_one(tokens, i + 1);
            lemma_names_hold_no_placeholder(s, tokens, i + 2);
            if let Ok((_, next)) = parse_names(s, tokens, i + 2) {
                lemma_between_joined(tokens, i, i + 1, next);
                lemma_between_joined(tokens, i + 1, i + 2, next);
            }
        }
    }
}

proof fn lemma_operands_hold_their_placeholders(s: Seq<char>, tokens: Seq<Lexeme>, i: int)
    requires
        0 <= i,
    ensures
        parse_operands(s, tokens, i) matches Ok((found, next)) ==> i < next <= tokens.len()
            && between(tokens, i, next) == placeholder_positions(found),
    decreases tokens.len() - i,
{
    if let Some(operand) = operand_at(s, tokens, i) {
        lemma_operand_token(s, tokens, i);
        if is_kind(tokens, i + 1, TokenKind::Comma) {
            lemma_between_one(tokens, i + 1);
            lemma_operands_hold_their_placeholders(s, tokens, i + 2);
            if let Ok((rest, next)) = parse_operands(s, tokens, i + 2) {
                lemma_between_joined(tokens, i, i + 1, next);
                lemma_between_joined(tokens, i + 1, i + 2, next);
                lemma_operands_joined(seq![operand], rest);
            }
        }
    }
}

proof fn lemma_bindings_hold_their_placeholders(
    s: Seq<char>,
    tokens: Seq<Lexeme>,
    i: int,
    list: ListKind,
)
    requires
        0 <= i,
    ensures
        parse_bindings(s, tokens, i, list) matches Ok((found, next)) ==> i < next <= tokens.len()
            && between(tokens, i, next) == placeholder_positions(operands_of(found)),
    decreases tokens.len() - i,
{
    if is_name(s, tokens, i) {
        if let Some(comparison) = admitted_comparison(tokens, i + 1, list) {
            if let Some(operand) = operand_at(s, tokens, i + 2) {
                lemma_between_one(tokens, i);
                lemma_between_one(tokens, i + 1);
                lemma_operand_token(s, tokens, i + 2);
                lemma_between_joined(tokens, i, i + 1, i + 3);
                lemma_between_joined(tokens, i + 1, i + 2, i + 3);
                let binding = BindingView {
                    column: crate::parser::name_at(s, tokens, i),
                    comparison,
                    operand,
                };
                assert(operands_of(seq![binding]) =~= seq![operand]);
                if is_joiner(s, tokens, i + 3, list) {
                    lemma_between_one(tokens, i + 3);
                    lemma_bindings_hold_their_placeholders(s, tokens, i + 4, list);
                    if let Ok((rest, next)) = parse_bindings(s, tokens, i + 4, list) {
                        lemma_between_joined(tokens, i, i + 3, next);
                        lemma_between_joined(tokens, i + 3, i + 4, next);
                        lemma_operands_joined(seq![operand], operands_of(rest));
                        assert(operands_of(seq![binding] + rest) =~= seq![operand] + operands_of(
                            rest,
                        ));
                    }
                }
            }
        }
    }
}

proof fn lemma_where_holds_its_placeholders(s: Seq<char>, tokens: Seq<Lexeme>, i: int)
    requires
        0 <= i <= tokens.len(),
    ensures
        parse_where(s, tokens, i) matches Ok((found, next)) ==> i <= next <= tokens.len()
            && between(tokens, i, next) == placeholder_positions(operands_of(found)),
{
    if is_word(s, tokens, i, "where"@) {
        lemma_between_one(tokens, i);
        lemma_bindings_hold_their_placeholders(s, tokens, i + 1, ListKind::Conditions);
        if let Ok((found, next)) = parse_bindings(s, tokens, i + 1, ListKind::Conditions) {
            lemma_between_joined(tokens, i, i + 1, next);
        }
    } else {
        assert(tokens.subrange(i, i) =~= Seq::<Lexeme>::empty());
        assert(operands_of(Seq::<BindingView>::empty()) =~= Seq::<OperandView>::empty());
    }
}

/// The operand of a `limit` clause, as a list.
pub open spec fn limit_operands(limit: Option<OperandView>) -> Seq<OperandView> {
    match limit {
        Some(operand) => seq![operand],
        None => Seq::empty(),
    }
}

proof fn lemma_limit_holds_its_placeholder(s: Seq<char>, tokens: Seq<Lexeme>, i: int)
    requires
        0 <= i <= tokens.len(),
    ensures
        parse_limit(s, tokens, i) matches Ok((limit, next)) ==> i <= next <= tokens.len()
            && between(tokens, i, next) == placeholder_positions(limit_operands(limit)),
{
    if is_word(s, tokens, i, "limit"@) {
        if let Some(operand) = operand_at(s, tokens, i + 1) {
            lemma_between_one(tokens, i);
            lemma_operand_token(s, tokens, i + 1);
            lemma_between_joined(tokens, i, i + 1, i + 2);
        }
    } else {
        assert(tokens.subrange(i, i) =~= Seq::<Lexeme>::empty());
    }
}

/// The operands of a statement: those of its assignments, of its conditions and of its
/// `limit` clause, in this order.
proof fn lemma_operands_in_parts(query: ParsedQueryView)
    ensures
        placeholder_positions(operands(query)) == placeholder_positions(
            operands_of(query.assignments),
        ) + placeholder_positions(operands_of(query.conditions)) + placeholder_positions(
            limit_operands(query.limit),
        ),
{
    let assigned = operands_of(query.assignments);
    let compared = operands_of(query.conditions);
    let limited = limit_operands(query.limit);
    assert(operands_of(bindings(query)) =~= assigned + compared);
    assert(operands(query) =~= (assigned + compared) + limited);
    lemma_operands_joined(assigned + compared, limited);
    lemma_operands_joined(assigned, compared);
}

/// A token that is no `?` adds nothing to the placeholders of the tokens after it.
proof fn lemma_skip(tokens: Seq<Lexeme>, i: int, to: int)
    requires
        0 <= i < to <= tokens.len(),
        tokens[i].kind != TokenKind::Placeholder,
    ensures
        between(tokens, i, to) == between(tokens, i + 1, to),
{
    lemma_between_one(tokens, i);
    lemma_between_joined(tokens, i, i + 1, to);
    assert(Seq::<int>::empty() + between(tokens, i + 1, to) =~= between(tokens, i + 1, to));
}

/// The placeholders of two stretches of tokens, one after the other.
proof fn lemma_then(tokens: Seq<Lexeme>, from: int, mid: int, to: int, first: Seq<int>)
    requires
        0 <= from <= mid <= to <= tokens.len(),
        between(tokens, from, mid) == first,
    ensures
        between(tokens, from, to) == first + between(tokens, mid, to),
{
    lemma_between_joined(tokens, from, mid, to);
}

proof fn lemma_nothing_left(tokens: Seq<Lexeme>)
    ensures
        between(tokens, tokens.len() as int, tokens.len() as int) == Seq::<int>::empty(),
        between(tokens, 0, tokens.len() as int) == placeholder_tokens(tokens),
        placeholder_positions(Seq::<OperandView>::empty()) == Seq::<int>::empty(),
{
    assert(tokens.subrange(tokens.len() as int, tokens.len() as int) =~= Seq::<Lexeme>::empty());
    assert(tokens.subrange(0, tokens.len() as int) =~= tokens);
}

proof fn lemma_select(s: Seq<char>, tokens: Seq<Lexeme>)
    requires
        is_word(s, tokens, 0, "select"@),
    ensures
        parse_select(s, tokens) matches Ok(query) ==> placeholder_positions(operands(query))
            == placeholder_tokens(tokens),
{
    if let Ok(query) = parse_select(s, tokens) {
        let end = tokens.len() as int;
        let none = Seq::<int>::empty();
        let from = if is_kind(tokens, 1, TokenKind::Star) {
            2
        } else {
            parse_names(s, tokens, 1)->Ok_0.1
        };
        let (conditions, after_where) = parse_where(s, tokens, from + 2)->Ok_0;
        let compared = placeholder_positions(operands_of(conditions));
        let limited = placeholder_positions(limit_operands(query.limit));
        lemma_nothing_left(tokens);
        assert(between(tokens, 1, from) == none && 1 < from <= end) by {
            if is_kind(tokens, 1, TokenKind::Star) {
                lemma_between_one(tokens, 1);
            } else {
                lemma_names_hold_no_placeholder(s, tokens, 1);
            }
        }
        assert(between(tokens, from + 2, after_where) == compared && from + 2 <= after_where
            <= end) by {
            lemma_where_holds_its_placeholders(s, tokens, from + 2);
        }
        assert(between(tokens, after_where, end) == limited) by {
            lemma_limit_holds_its_placeholder(s, tokens, after_where);
        }
        assert(between(tokens, from + 2, end) == compared + limited) by {
            lemma_then(tokens, from + 2, after_where, end, compared);
        }
        assert(between(tokens, from, end) == compared + limited) by {
            lemma_skip(tokens, from, end);
            lemma_skip(tokens, from + 1, end);
        }
        assert(between(tokens, 1, end) == compared + limited) by {
            lemma_then(tokens, 1, from, end, none);
            assert(none + (compared + limited) =~= compared + limited);
        }
        assert(between(tokens, 0, end) == compared + limited) by {
            lemma_skip(tokens, 0, end);
        }
        assert(placeholder_positions(operands(query)) == compared + limited) by {
            lemma_operands_in_parts(query);
            assert(operands_of(query.assignments) =~= Seq::<OperandView>::empty());
            assert(none + compared + limited =~= compared + limited);
        }
    }
}

proof fn lemma_insert(s: Seq<char>, tokens: Seq<Lexeme>)
    requires
        is_word(s, tokens, 0, "insert"@),
    ensures
        parse_insert(s, tokens) matches Ok(query) ==> placeholder_positions(operands(query))
            == placeholder_tokens(tokens),
{
    if let Ok(query) = parse_insert(s, tokens) {
        let last = tokens.len() as int;
        let none = Seq::<int>::empty();
        let (names, close) = parse_names(s, tokens, 4)->Ok_0;
        let (values, end) = parse_operands(s, tokens, close + 3)->Ok_0;
        let bound = placeholder_positions(values);
        lemma_nothing_left(tokens);
        assert(between(tokens, 4, close) == none && 4 < close <= last) by {
            lemma_names_hold_no_placeholder(s, tokens, 4);
        }
        assert(between(tokens, close + 3, end) == bound && close + 3 < end <= last) by {
            lemma_operands_hold_their_placeholders(s, tokens, close + 3);
        }
        assert(between(tokens, end, last) == none) by {
            lemma_between_one(tokens, end);
        }
        assert(between(tokens, close + 3, last) == bound) by {
            lemma_then(tokens, close + 3, end, last, bound);
            assert(bound + none =~= bound);
        }
        assert(between(tokens, close, last) == bound) by {
            lemma_skip(tokens, close, last);
            lemma_skip(tokens, close + 1, last);
            lemma_skip(tokens, close + 2, last);
        }
        assert(between(tokens, 4, last) == bound) by {
            lemma_then(tokens, 4, close, last, none);
            assert(none + bound =~= bound);
        }
        assert(between(tokens, 0, last) == bound) by {
            lemma_skip(tokens, 0, last);
            lemma_skip(tokens, 1, last);
            lemma_skip(tokens, 2, last);
            lemma_skip(tokens, 3, last);
        }
        assert(placeholder_positions(operands(query)) == bound) by {
            lemma_operands_in_parts(query);
            assert(operands_of(pair_up(names, values)) =~= values);
            assert(operands_of(query.conditions) =~= Seq::<OperandView>::empty());
            assert(bound + none + none =~= bound);
        }
    }
}

proof fn lemma_update(s: Seq<char>, tokens: Seq<Lexeme>)
    requires
        is_word(s, tokens, 0, "update"@),
    ensures
        parse_update(s, tokens) matches Ok(query) ==> placeholder_positions(operands(query))
            == placeholder_tokens(tokens),
{
    if let Ok(query) = parse_update(s, tokens) {
        let last = tokens.len() as int;
        let none = Seq::<int>::empty();
        let (assignments, after_set) = parse_bindings(s, tokens, 3, ListKind::Assignments)->Ok_0;
        let assigned = placeholder_positions(operands_of(assignments));
        let compared = placeholder_positions(operands_of(query.conditions));
        lemma_nothing_left(tokens);
        assert(between(tokens, 3, after_set) == assigned && 3 < after_set <= last) by {
            lemma_bindings_hold_their_placeholders(s, tokens, 3, ListKind::Assignments);
        }
        assert(between(tokens, after_set + 1, last) == compared) by {
            lemma_bindings_hold_their_placeholders(
                s,
                tokens,
                after_set + 1,
                ListKind::Conditions,
            );
        }
        assert(between(tokens, after_set, last) == compared) by {
            lemma_skip(tokens, after_set, last);
        }
        assert(between(tokens, 3, last) == assigned + compared) by {
            lemma_then(tokens, 3, after_set, last, assigned);
        }
        assert(between(tokens, 0, last) == assigned + compared) by {
            lemma_skip(tokens, 0, last);
            lemma_skip(tokens, 1, last);
            lemma_skip(tokens, 2, last);
        }
        assert(placeholder_positions(operands(query)) == assigned + compared) by {
            lemma_operands_in_parts(query);
            assert(assigned + compared + none =~= assigned + compared);
        }
    }
}

proof fn lemma_delete(s: Seq<char>, tokens: Seq<Lexeme>)
    requires
        is_word(s, tokens, 0, "delete"@),
    ensures
        parse_delete(s, tokens) matches Ok(query) ==> placeholder_positions(operands(query))
            == placeholder_tokens(tokens),
{
    if let Ok(query) = parse_delete(s, tokens) {
        let last = tokens.len() as int;
        let none = Seq::<int>::empty();
        let compared = placeholder_positions(operands_of(query.conditions));
        lemma_nothing_left(tokens);
        assert(between(tokens, 3, last) == compared) by {
            lemma_where_holds_its_placeholders(s, tokens, 3);
        }
        assert(between(tokens, 0, last) == compared) by {
            lemma_skip(tokens, 0, last);
            lemma_skip(tokens, 1, last);
            lemma_skip(tokens, 2, last);
        }
        assert(placeholder_positions(operands(query)) == compared) by {
            lemma_operands_in_parts(query);
            assert(operands_of(query.assignments) =~= Seq::<OperandView>::empty());
            assert(none + compared + none =~= compared);
        }
    }
}

/// The placeholders of a statement are the `?` tokens of its template, one for one and
/// each at its place. In particular a template holds as many placeholders as it holds
/// `?` outside quoted texts.
pub proof fn lemma_placeholders_are_the_question_marks(template: Seq<char>)
    requires
        parse_spec(template) is Ok,
    ensures
        lex(template) is Ok,
        placeholder_positions(operands(parse_spec(template)->Ok_0)) == placeholder_tokens(
            lex(template)->Ok_0,
        ),
        placeholder_count(parse_spec(template)->Ok_0) == placeholder_tokens(
            lex(template)->Ok_0,
        ).len(),
{
    let tokens = lex(template)->Ok_0;
    if is_word(template, tokens, 0, "select"@) {
        lemma_select(template, tokens);
    } else if is_word(template, tokens, 0, "insert"@) {
        lemma_insert(template, tokens);
    } else if is_word(template, tokens, 0, "update"@) {
        lemma_update(template, tokens);
    } else if is_word(template, tokens, 0, "delete"@) {
        lemma_delete(template, tokens);
    }
}

/// A template that holds another number of `?` tokens than parameters were supplied
/// fails with `ArityMismatch`. This holds of every template that is a statement of the
/// grammar, addresses the schema's table and names only columns that the table has.
pub proof fn lemma_question_marks_must_match_parameters(
    schema: TableSchemaView,
    template: Seq<char>,
    params: Seq<ParamExprView>,
    outcome: Result<QueryDescriptorView, BuildErrorView>,
)
    requires
        parse_spec(template) is Ok,
        parse_spec(template)->Ok_0.table.name == schema.table,
        all_known(schema, referenced(parse_spec(template)->Ok_0)),
        placeholder_tokens(lex(template)->Ok_0).len() != params.len(),
        validates_to(schema, template, params, outcome),
    ensures
        outcome is Err,
        outcome->Err_0 is ArityMismatch,
{
    lemma_placeholders_are_the_question_marks(template);
}

} // verus!

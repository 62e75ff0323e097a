//! Splitting a query template into tokens.
use vstd::prelude::*;

verus! {

/// The kinds of token a query template is made of.
#[derive(Clone, Copy, Debug, PartialEq, Eq, Structural)]
pub enum TokenKind {
    /// A keyword or a name: a letter or `_`, then letters, digits and `_`.
    Word,
    /// A whole number, with or without a leading `-`.
    Number,
    /// A text between single quotes.
    Text,
    /// `?`
    Placeholder,
    /// `*`
    Star,
    /// `,`
    Comma,
    /// `(`
    OpenParen,
    /// `)`
    CloseParen,
    /// `=`
    Equal,
    /// `<`
    Less,
    /// `<=`
    LessEqual,
    /// `>`
    Greater,
    /// `>=`
    GreaterEqual,
}

/// A token: its kind and the characters it spans, `start` included and `end` excluded.
#[derive(Clone, Copy, Debug, PartialEq, Eq)]
pub struct Token {
    pub kind: TokenKind,
    pub start: usize,
    pub end: usize,
}

/// The mathematical value of a [`Token`].
pub struct Lexeme {
    pub kind: TokenKind,
    pub start: int,
    pub end: int,
}

impl View for Token {
    type V = Lexeme;

    open spec fn view(&self) -> Lexeme {
        Lexeme { kind: self.kind, start: self.start as int, end: self.end as int }
    }
}

/// The views of a list of tokens, in order.
pub open spec fn lexemes(tokens: Seq<Token>) -> Seq<Lexeme> {
    tokens.map_values(|token: Token| token@)
}

/// The classes of character that a token may run over.
#[derive(Clone, Copy, Debug, PartialEq, Eq, Structural)]
pub enum CharClass {
    /// `0` to `9`.
    Digit,
    /// Letters, digits and `_`.
    WordChar,
    /// Every character but the single quote.
    Unquoted,
}

/// Whether the character separates tokens: a blank, a tab or a line break.
pub open spec fn is_space(c: char) -> bool {
    c == ' ' || c == '\t' || c == '\n' || c == '\r'
}

/// Whether the character is one of `0` to `9`.
pub open spec fn is_digit(c: char) -> bool {
    '0' <= c <= '9'
}

/// Whether a word can start with the character: a letter of `a` to `z` or `A` to `Z`,
/// or `_`.
pub open spec fn is_word_start(c: char) -> bool {
    ('a' <= c <= 'z') || ('A' <= c <= 'Z') || c == '_'
}

impl CharClass {
    /// Whether the character belongs to the class.
    pub open spec fn holds(self, c: char) -> bool {
        match self {
            CharClass::Digit => is_digit(c),
            CharClass::WordChar => is_word_start(c) || is_digit(c),
            CharClass::Unquoted => c != '\'',
        }
    }

    /// Whether the character belongs to the class.
    pub fn contains(self, c: char) -> (member: bool)
        ensures
            member == self.holds(c),
    {
        match self {
            CharClass::Digit => digit(c),
            CharClass::WordChar => word_start(c) || digit(c),
            CharClass::Unquoted => c != '\'',
        }
    }
}

fn space(c: char) -> (r: bool)
    ensures
        r == is_space(c),
{
    c == ' ' || c == '\t' || c == '\n' || c == '\r'
}

fn digit(c: char) -> (r: bool)
    ensures
        r == is_digit(c),
{
    '0' <= c && c <= '9'
}

fn word_start(c: char) -> (r: bool)
    ensures
        r == is_word_start(c),
{
    ('a' <= c && c <= 'z') || ('A' <= c && c <= 'Z') || c == '_'
}

/// Where the run of characters of one class that starts at `pos` ends: the first position
/// from `pos` on that holds no character of the class, or the end of the text.
pub open spec fn run_end(s: Seq<char>, pos: int, class: CharClass) -> int
    decreases s.len() - pos,
{
    if 0 <= pos < s.len() && class.holds(s[pos]) {
        run_end(s, pos + 1, class)
    } else {
        pos
    }
}

/// A run ends at or after its start and within the text, every character before its end
/// belongs to the class, and the character at its end does not.
pub proof fn lemma_run_end(s: Seq<char>, pos: int, class: CharClass)
    requires
        0 <= pos <= s.len(),
    ensures
        pos <= run_end(s, pos, class) <= s.len(),
        forall|i: int| pos <= i < run_end(s, pos, class) ==> class.holds(#[trigger] s[i]),
        run_end(s, pos, class) < s.len() ==> !class.holds(s[run_end(s, pos, class)]),
    decreases s.len() - pos,
{
    if pos < s.len() && class.holds(s[pos]) {
        lemma_run_end(s, pos + 1, class);
    }
}

/// The token that starts at `pos`, where the text holds a character that is no space.
pub open spec fn scan_token(s: Seq<char>, pos: int) -> Option<Lexeme> {
    let c = s[pos];
    let next_is = |d: char| pos + 1 < s.len() && s[pos + 1] == d;
    if c == '?' {
        Some(Lexeme { kind: TokenKind::Placeholder, start: pos, end: pos + 1 })
    } else if c == '*' {
        Some(Lexeme { kind: TokenKind::Star, start: pos, end: pos + 1 })
    } else if c == ',' {
        Some(Lexeme { kind: TokenKind::Comma, start: pos, end: pos + 1 })
    } else if c == '(' {
        Some(Lexeme { kind: TokenKind::OpenParen, start: pos, end: pos + 1 })
    } else if c == ')' {
        Some(Lexeme { kind: TokenKind::CloseParen, start: pos, end: pos + 1 })
    } else if c == '=' {
        Some(Lexeme { kind: TokenKind::Equal, start: pos, end: pos + 1 })
    } else if c == '<' {
        if next_is('=') {
            Some(Lexeme { kind: TokenKind::LessEqual, start: pos, end: pos + 2 })
        } else {
            Some(Lexeme { kind: TokenKind::Less, start: pos, end: pos + 1 })
        }
    } else if c == '>' {
        if next_is('=') {
            Some(Lexeme { kind: TokenKind::GreaterEqual, start: pos, end: pos + 2 })
        } else {
            Some(Lexeme { kind: TokenKind::Greater, start: pos, end: pos + 1 })
        }
    } else if is_digit(c) {
        Some(
            Lexeme {
                kind: TokenKind::Number,
                start: pos,
                end: run_end(s, pos + 1, CharClass::Digit),
            },
        )
    } else if c == '-' && pos + 1 < s.len() && is_digit(s[pos + 1]) {
        Some(
            Lexeme {
                kind: TokenKind::Number,
                start: pos,
                end: run_end(s, pos + 2, CharClass::Digit),
            },
        )
    } else if is_word_start(c) {
        Some(
            Lexeme {
                kind: TokenKind::Word,
                start: pos,
                end: run_end(s, pos + 1, CharClass::WordChar),
            },
        )
    } else if c == '\'' {
        let close = run_end(s, pos + 1, CharClass::Unquoted);
        if close < s.len() {
            Some(Lexeme { kind: TokenKind::Text, start: pos, end: close + 1 })
        } else {
            None
        }
    } else {
        None
    }
}

/// A token is not empty and lies within the text.
pub proof fn lemma_scan_token(s: Seq<char>, pos: int)
    requires
        0 <= pos < s.len(),
    ensures
        scan_token(s, pos) matches Some(t) ==> t.start == pos && pos < t.end <= s.len(),
{
    lemma_run_end(s, pos + 1, CharClass::Digit);
    lemma_run_end(s, pos + 1, CharClass::WordChar);
    lemma_run_end(s, pos + 1, CharClass::Unquoted);
    if pos + 1 < s.len() {
        lemma_run_end(s, pos + 2, CharClass::Digit);
    }
}

/// The tokens of the text from `pos` on, or the position of the first character that
/// starts no token.
pub open spec fn lex_from(s: Seq<char>, pos: int) -> Result<Seq<Lexeme>, int>
    decreases s.len() - pos,
{
    if pos < 0 || pos >= s.len() {
        Ok(Seq::empty())
    } else if is_space(s[pos]) {
        lex_from(s, pos + 1)
    } else {
        match scan_token(s, pos) {
            None => Err(pos),
            Some(token) => {
                proof {
                    lemma_scan_token(s, pos);
                }
                match lex_from(s, token.end) {
                    Ok(rest) => Ok(seq![token] + rest),
                    Err(p) => Err(p),
                }
            },
        }
    }
}

/// Every token lies within the text, from the reading position on, and is not empty.
pub proof fn lemma_lex_within(s: Seq<char>, pos: int)
    requires
        0 <= pos <= s.len(),
    ensures
        lex_from(s, pos) matches Ok(tokens) ==> forall|i: int|
            0 <= i < tokens.len() ==> pos <= (#[trigger] tokens[i]).start < tokens[i].end
                <= s.len(),
    decreases s.len() - pos,
{
    if pos >= s.len() {
    } else if is_space(s[pos]) {
        lemma_lex_within(s, pos + 1);
    } else {
        lemma_scan_token(s, pos);
        if let Some(token) = scan_token(s, pos) {
            lemma_lex_within(s, token.end);
        }
    }
}

/// Whether the character at `k` belongs to one of the tokens.
pub open spec fn covered(tokens: Seq<Lexeme>, k: int) -> bool {
    exists|i: int| 0 <= i < tokens.len() && (#[trigger] tokens[i]).start <= k < tokens[i].end
}

/// The tokens of a text stand in the order of the text and do not overlap, and every
/// character that belongs to no token is a space.
pub proof fn lemma_tokens_cover_the_text(s: Seq<char>, pos: int)
    requires
        0 <= pos <= s.len(),
    ensures
        lex_from(s, pos) matches Ok(tokens) ==> {
            &&& forall|i: int, j: int|
                0 <= i < j < tokens.len() ==> (#[trigger] tokens[i]).end <= (
                #[trigger] tokens[j]).start
            &&& forall|k: int| pos <= k < s.len() ==> is_space(s[k]) || #[trigger] covered(tokens, k)
        },
    decreases s.len() - pos,
{
    if pos >= s.len() {
    } else if is_space(s[pos]) {
        lemma_tokens_cover_the_text(s, pos + 1);
    } else {
        lemma_scan_token(s, pos);
        if let Some(token) = scan_token(s, pos) {
            lemma_tokens_cover_the_text(s, token.end);
            lemma_lex_within(s, token.end);
            if let Ok(rest) = lex_from(s, token.end) {
                let tokens = seq![token] + rest;
                assert forall|i: int, j: int| 0 <= i < j < tokens.len() implies (
                #[trigger] tokens[i]).end <= (#[trigger] tokens[j]).start by {
                    assert(tokens[j] == rest[j - 1]);
                    if i > 0 {
                        assert(tokens[i] == rest[i - 1]);
                    }
                }
                assert forall|k: int| pos <= k < s.len() implies is_space(s[k]) || #[trigger] covered(
                    tokens,
                    k,
                ) by {
                    if k < token.end {
                        assert(tokens[0] == token);
                    } else if !is_space(s[k]) {
                        assert(covered(rest, k));
                        let i = choose|i: int|
                            0 <= i < rest.len() && (#[trigger] rest[i]).start <= k < rest[i].end;
                        assert(tokens[i + 1] == rest[i]);
                    }
                }
            }
        }
    }
}

/// What a token of each kind looks like: a word is a letter or `_` followed by letters,
/// digits and `_`, as many as there are; a number is digits, as many as there are,
/// after an optional `-`; a text stands between two quotes and holds none.
pub proof fn lemma_token_shapes(s: Seq<char>, pos: int)
    requires
        0 <= pos < s.len(),
    ensures
        scan_token(s, pos) matches Some(token) ==> match token.kind {
            TokenKind::Word => {
                &&& is_word_start(s[pos])
                &&& forall|k: int| pos <= k < token.end ==> CharClass::WordChar.holds(#[trigger] s[k])
                &&& token.end < s.len() ==> !CharClass::WordChar.holds(s[token.end])
            },
            TokenKind::Number => {
                &&& is_digit(s[pos]) || s[pos] == '-'
                &&& forall|k: int| pos < k < token.end ==> is_digit(#[trigger] s[k])
                &&& token.end < s.len() ==> !is_digit(s[token.end])
            },
            TokenKind::Text => {
                &&& s[pos] == '\''
                &&& s[token.end - 1] == '\''
                &&& forall|k: int| pos < k < token.end - 1 ==> #[trigger] s[k] != '\''
            },
            _ => true,
        },
{
    lemma_run_end(s, pos + 1, CharClass::Digit);
    lemma_run_end(s, pos + 1, CharClass::WordChar);
    lemma_run_end(s, pos + 1, CharClass::Unquoted);
    if pos + 1 < s.len() {
        lemma_run_end(s, pos + 2, CharClass::Digit);
    }
}

/// Every token of a text is the token that starts where it stands.
pub proof fn lemma_tokens_are_scanned(s: Seq<char>, pos: int)
    requires
        0 <= pos <= s.len(),
    ensures
        lex_from(s, pos) matches Ok(tokens) ==> forall|i: int|
            0 <= i < tokens.len() ==> 0 <= (#[trigger] tokens[i]).start < s.len() && scan_token(
                s,
                tokens[i].start,
            ) == Some(tokens[i]),
    decreases s.len() - pos,
{
    if pos >= s.len() {
    } else if is_space(s[pos]) {
        lemma_tokens_are_scanned(s, pos + 1);
    } else {
        lemma_scan_token(s, pos);
        if let Some(token) = scan_token(s, pos) {
            lemma_tokens_are_scanned(s, token.end);
            if let Ok(rest) = lex_from(s, token.end) {
                let tokens = seq![token] + rest;
                assert forall|i: int| 0 <= i < tokens.len() implies 0 <= (
                #[trigger] tokens[i]).start < s.len() && scan_token(s, tokens[i].start) == Some(
                    tokens[i],
                ) by {
                    if i > 0 {
                        assert(tokens[i] == rest[i - 1]);
                    }
                }
            }
        }
    }
}

/// A `?` of the text is a token of its own unless it stands inside a quoted text, and
/// every `?` token is a `?` of the text.
pub proof fn lemma_question_marks(s: Seq<char>)
    ensures
        lex(s) matches Ok(tokens) ==> {
            &&& forall|i: int|
                0 <= i < tokens.len() && (#[trigger] tokens[i]).kind == TokenKind::Placeholder
                    ==> s[tokens[i].start] == '?' && tokens[i].end == tokens[i].start + 1
            &&& forall|k: int|
                0 <= k < s.len() && #[trigger] s[k] == '?' ==> exists|i: int|
                    0 <= i < tokens.len() && (#[trigger] tokens[i]).start <= k < tokens[i].end && (
                    tokens[i].kind == TokenKind::Placeholder || tokens[i].kind == TokenKind::Text)
        },
{
    if let Ok(tokens) = lex(s) {
        lemma_tokens_are_scanned(s, 0);
        lemma_tokens_cover_the_text(s, 0);
        assert forall|k: int| 0 <= k < s.len() && #[trigger] s[k] == '?' implies exists|i: int|
            0 <= i < tokens.len() && (#[trigger] tokens[i]).start <= k < tokens[i].end && (
            tokens[i].kind == TokenKind::Placeholder || tokens[i].kind == TokenKind::Text) by {
            assert(covered(tokens, k));
            let i = choose|i: int|
                0 <= i < tokens.len() && (#[trigger] tokens[i]).start <= k < tokens[i].end;
            lemma_token_shapes(s, tokens[i].start);
            lemma_scan_token(s, tokens[i].start);
            if tokens[i].kind == TokenKind::Word {
                assert(CharClass::WordChar.holds(s[k]));
            } else if tokens[i].kind == TokenKind::Number {
                if k > tokens[i].start {
                    assert(is_digit(s[k]));
                }
            }
        }
    }
}

/// Whether every token lies within a text of `len` characters.
pub open spec fn within(tokens: Seq<Lexeme>, len: int) -> bool {
    forall|i: int|
        0 <= i < tokens.len() ==> 0 <= (#[trigger] tokens[i]).start < tokens[i].end <= len
}

/// The tokens of a text, or the position of the first character that starts no token.
pub open spec fn lex(s: Seq<char>) -> Result<Seq<Lexeme>, int> {
    lex_from(s, 0)
}

/// `found` in front of what is still to come.
pub open spec fn after(found: Seq<Lexeme>, rest: Result<Seq<Lexeme>, int>) -> Result<
    Seq<Lexeme>,
    int,
> {
    match rest {
        Ok(more) => Ok(found + more),
        Err(p) => Err(p),
    }
}

/// Finds the end of the run of characters of one class that starts at `pos`.
fn scan_run(chars: &Vec<char>, pos: usize, class: CharClass) -> (end: usize)
    requires
        pos <= chars.len(),
    ensures
        end == run_end(chars@, pos as int, class),
        pos <= end <= chars.len(),
{
    let mut i = pos;
    while i < chars.len() && class.contains(chars[i])
        invariant
            pos <= i <= chars.len(),
            run_end(chars@, pos as int, class) == run_end(chars@, i as int, class),
        decreases chars.len() - i,
    {
        i += 1;
    }
    i
}

/// Reads the token that starts at `pos`.
fn next_token(chars: &Vec<char>, pos: usize) -> (token: Option<Token>)
    requires
        pos < chars.len(),
    ensures
        match token {
            Some(t) => scan_token(chars@, pos as int) == Some(t@),
            None => scan_token(chars@, pos as int) is None,
        },
{
    let c = chars[pos];
    let followed_by_equal = pos + 1 < chars.len() && chars[pos + 1] == '=';
    proof {
        lemma_scan_token(chars@, pos as int);
    }
    if c == '?' {
        Some(Token { kind: TokenKind::Placeholder, start: pos, end: pos + 1 })
    } else if c == '*' {
        Some(Token { kind: TokenKind::Star, start: pos, end: pos + 1 })
    } else if c == ',' {
        Some(Token { kind: TokenKind::Comma, start: pos, end: pos + 1 })
    } else if c == '(' {
        Some(Token { kind: TokenKind::OpenParen, start: pos, end: pos + 1 })
    } else if c == ')' {
        Some(Token { kind: TokenKind::CloseParen, start: pos, end: pos + 1 })
    } else if c == '=' {
        Some(Token { kind: TokenKind::Equal, start: pos, end: pos + 1 })
    } else if c == '<' {
        if followed_by_equal {
            Some(Token { kind: TokenKind::LessEqual, start: pos, end: pos + 2 })
        } else {
            Some(Token { kind: TokenKind::Less, start: pos, end: pos + 1 })
        }
    } else if c == '>' {
        if followed_by_equal {
            Some(Token { kind: TokenKind::GreaterEqual, start: pos, end: pos + 2 })
        } else {
            Some(Token { kind: TokenKind::Greater, start: pos, end: pos + 1 })
        }
    } else if digit(c) {
        let end = scan_run(chars, pos + 1, CharClass::Digit);
        Some(Token { kind: TokenKind::Number, start: pos, end })
    } else if c == '-' && pos + 1 < chars.len() && digit(chars[pos + 1]) {
        let end = scan_run(chars, pos + 2, CharClass::Digit);
        Some(Token { kind: TokenKind::Number, start: pos, end })
    } else if word_start(c) {
        let end = scan_run(chars, pos + 1, CharClass::WordChar);
        Some(Token { kind: TokenKind::Word, start: pos, end })
    } else if c == '\'' {
        let close = scan_run(chars, pos + 1, CharClass::Unquoted);
        if close < chars.len() {
            Some(Token { kind: TokenKind::Text, start: pos, end: close + 1 })
        } else {
            None
        }
    } else {
        None
    }
}

/// Splits a text into its tokens. Spaces separate tokens and belong to none; a character
/// that starts no token stops the reading, and its position is the error.
pub fn tokenize(chars: &Vec<char>) -> (tokens: Result<Vec<Token>, usize>)
    ensures
        match tokens {
            Ok(found) => lex(chars@) == Ok::<Seq<Lexeme>, int>(lexemes(found@)) && within(
                lexemes(found@),
                chars@.len() as int,
            ),
            Err(position) => lex(chars@) == Err::<Seq<Lexeme>, int>(position as int) && position
                < chars.len(),
        },
{
    let mut found: Vec<Token> = Vec::new();
    let mut pos: usize = 0;
    while pos < chars.len()
        invariant
            pos <= chars.len(),
            lex(chars@) == after(lexemes(found@), lex_from(chars@, pos as int)),
        decreases chars.len() - pos,
    {
        if space(chars[pos]) {
            pos += 1;
        } else {
            match next_token(chars, pos) {
                None => {
                    return Err(pos);
                },
                Some(token) => {
                    proof {
                        lemma_scan_token(chars@, pos as int);
                        let rest = lex_from(chars@, token.end as int);
                        let before = lexemes(found@);
                        assert(lexemes(found@.push(token)) =~= before.push(token@));
                        if let Ok(more) = rest {
                            assert(before + (seq![token@] + more) =~= before.push(token@) + more);
                        }
                    }
                    found.push(token);
                    pos = token.end;
                },
            }
        }
    }
    proof {
        assert(lexemes(found@) + Seq::<Lexeme>::empty() =~= lexemes(found@));
        lemma_lex_within(chars@, 0);
    }
    Ok(found)
}

} // verus!

//! Helpers for working with text as sequences of characters.
use vstd::prelude::*;

verus! {

/// The characters of a text, in order.
pub fn chars_of(s: &str) -> (chars: Vec<char>)
    ensures
        chars@ == s@,
{
    let mut chars: Vec<char> = Vec::new();
    for c in it: s.chars()
        invariant
            chars@ == it.seq().take(it.index() as int),
            it.seq() == s@,
    {
        chars.push(c);
    }
    chars
}

/// Compares two texts with `==` of `str`, which holds exactly when both hold the same
/// characters in the same order.
#[verifier::external_body]
pub(crate) fn same_text(a: &str, b: &str) -> (same: bool)
    ensures
        same == (a@ == b@),
{
    a == b
}

/// The views of a list of texts, in order.
pub open spec fn texts_view(texts: Seq<String>) -> Seq<Seq<char>> {
    texts.map_values(|text: String| text@)
}

/// The index of the first text of the list that equals `text`, if there is one.
pub open spec fn find_text(texts: Seq<Seq<char>>, text: Seq<char>) -> Option<int>
    decreases texts.len(),
{
    if texts.len() == 0 {
        None
    } else if texts[0] == text {
        Some(0)
    } else {
        match find_text(texts.drop_first(), text) {
            Some(i) => Some(i + 1),
            None => None,
        }
    }
}

/// What a found index means: the text there is the one looked for, and no earlier one
/// is; and nothing is found only where the list does not hold the text.
pub proof fn lemma_find_text(texts: Seq<Seq<char>>, text: Seq<char>)
    ensures
        match find_text(texts, text) {
            Some(i) => {
                &&& 0 <= i < texts.len()
                &&& texts[i] == text
                &&& forall|j: int| 0 <= j < i ==> #[trigger] texts[j] != text
            },
            None => forall|j: int| 0 <= j < texts.len() ==> #[trigger] texts[j] != text,
        },
    decreases texts.len(),
{
    if texts.len() == 0 {
    } else if texts[0] == text {
    } else {
        let rest = texts.drop_first();
        lemma_find_text(rest, text);
        match find_text(rest, text) {
            Some(i) => {
                assert forall|j: int| 0 <= j < i + 1 implies #[trigger] texts[j] != text by {
                    if j > 0 {
                        assert(texts[j] == rest[j - 1]);
                    }
                }
            },
            None => {
                assert forall|j: int| 0 <= j < texts.len() implies #[trigger] texts[j] != text by {
                    if j > 0 {
                        assert(texts[j] == rest[j - 1]);
                    }
                }
            },
        }
    }
}

/// The list without the first text that equals `text`.
pub open spec fn without_text(texts: Seq<Seq<char>>, text: Seq<char>) -> Seq<Seq<char>> {
    match find_text(texts, text) {
        Some(i) => texts.remove(i),
        None => texts,
    }
}

/// A text is found in a list exactly where the list holds it.
pub proof fn lemma_found_iff_contains(texts: Seq<Seq<char>>, text: Seq<char>)
    ensures
        find_text(texts, text) is Some <==> texts.contains(text),
{
    lemma_find_text(texts, text);
    if let Some(i) = find_text(texts, text) {
        assert(texts[i] == text);
    }
}

/// What a list without a text holds: of a list that holds no text twice, every text but
/// that one, and nothing twice.
pub proof fn lemma_without_text(texts: Seq<Seq<char>>, text: Seq<char>)
    requires
        texts.no_duplicates(),
    ensures
        without_text(texts, text).no_duplicates(),
        !without_text(texts, text).contains(text),
        forall|other: Seq<char>|
            other != text ==> (#[trigger] without_text(texts, text).contains(other)
                <==> texts.contains(other)),
{
    lemma_find_text(texts, text);
    let rest = without_text(texts, text);
    match find_text(texts, text) {
        None => {},
        Some(i) => {
            assert forall|a: int, b: int| 0 <= a < rest.len() && 0 <= b < rest.len() && a
                != b implies rest[a] != rest[b] by {
                let a0 = if a < i { a } else { a + 1 };
                let b0 = if b < i { b } else { b + 1 };
                assert(rest[a] == texts[a0] && rest[b] == texts[b0]);
            }
            if rest.contains(text) {
                let a = choose|a: int| 0 <= a < rest.len() && rest[a] == text;
                let a0 = if a < i { a } else { a + 1 };
                assert(rest[a] == texts[a0]);
            }
            assert forall|other: Seq<char>| other != text implies (#[trigger] rest.contains(other)
                <==> texts.contains(other)) by {
                if rest.contains(other) {
                    let a = choose|a: int| 0 <= a < rest.len() && rest[a] == other;
                    let a0 = if a < i { a } else { a + 1 };
                    assert(texts[a0] == other);
                }
                if texts.contains(other) {
                    let a0 = choose|a0: int| 0 <= a0 < texts.len() && texts[a0] == other;
                    let a = if a0 < i { a0 } else { a0 - 1 };
                    assert(rest[a] == other);
                }
            }
        },
    }
}

/// A list without a text still holds every other text that it held, whether or not it
/// held a text twice.
pub proof fn lemma_without_text_keeps(texts: Seq<Seq<char>>, text: Seq<char>, other: Seq<char>)
    requires
        other != text,
    ensures
        without_text(texts, text).contains(other) <==> texts.contains(other),
{
    lemma_find_text(texts, text);
    let rest = without_text(texts, text);
    if let Some(i) = find_text(texts, text) {
        if rest.contains(other) {
            let a = choose|a: int| 0 <= a < rest.len() && rest[a] == other;
            let a0 = if a < i { a } else { a + 1 };
            assert(texts[a0] == other);
        }
        if texts.contains(other) {
            let a0 = choose|a0: int| 0 <= a0 < texts.len() && texts[a0] == other;
            let a = if a0 < i { a0 } else { a0 - 1 };
            assert(rest[a] == other);
        }
    }
}

} // verus!

//! What normalisation and tokenisation make of a text, as functions on
//! sequences of characters.

use crate::charset::{kept, lowercase, whitespace};
use vstd::prelude::*;

verus! {

/// The regular expression that matches each character to delete: one outside
/// the class of ASCII letters, ASCII digits and whitespace.
pub const STRIP_PATTERN: &'static str = "[^a-zA-Z0-9\\s]";

/// The text without the characters that are not kept. Nothing takes their
/// place, so the neighbours of a deleted character become adjacent.
pub open spec fn strip(text: Seq<char>) -> Seq<char> {
    text.filter(|c: char| kept(c))
}

/// The stripped text in lower case.
pub open spec fn normalize(text: Seq<char>) -> Seq<char> {
    strip(text).map_values(|c: char| lowercase(c))
}

/// Length of the longest prefix of `s` that holds no whitespace.
pub open spec fn word_len(s: Seq<char>) -> nat
    decreases s.len(),
{
    if s.len() == 0 || whitespace(s[0]) {
        0
    } else {
        1 + word_len(s.drop_first())
    }
}

/// The maximal runs of characters other than whitespace, in the order in
/// which they stand in `s`. None of them is empty.
pub open spec fn split_whitespace(s: Seq<char>) -> Seq<Seq<char>>
    decreases s.len(),
    via split_whitespace_decreases
{
    if s.len() == 0 {
        Seq::empty()
    } else if whitespace(s[0]) {
        split_whitespace(s.drop_first())
    } else {
        seq![s.take(word_len(s) as int)] + split_whitespace(s.skip(word_len(s) as int))
    }
}

#[via_fn]
proof fn split_whitespace_decreases(s: Seq<char>) {
    lemma_word_len_bound(s);
}

/// The tokens of a text: the words of its normal form.
pub open spec fn tokens_of(text: Seq<char>) -> Seq<Seq<char>> {
    split_whitespace(normalize(text))
}

/// True when `s` holds no whitespace.
pub open spec fn solid(s: Seq<char>) -> bool {
    forall|i: int| 0 <= i < s.len() ==> !whitespace(#[trigger] s[i])
}

/// True when `s` holds nothing but whitespace.
pub open spec fn blank(s: Seq<char>) -> bool {
    forall|i: int| 0 <= i < s.len() ==> whitespace(#[trigger] s[i])
}

/// The characters that stripping leaves are kept characters of the text.
pub proof fn lemma_strip_elements(text: Seq<char>)
    ensures
        forall|i: int|
            0 <= i < strip(text).len() ==> kept(#[trigger] strip(text)[i]) && text.contains(
                strip(text)[i],
            ),
    decreases text.len(),
{
    reveal(Seq::filter);
    if text.len() > 0 {
        let init = text.drop_last();
        lemma_strip_elements(init);
        assert forall|i: int| 0 <= i < strip(text).len() implies kept(#[trigger] strip(text)[i])
            && text.contains(strip(text)[i]) by {
            if i < strip(init).len() {
                assert(strip(text)[i] == strip(init)[i]);
                let p = choose|p: int| 0 <= p < init.len() && init[p] == strip(init)[i];
                assert(text[p] == strip(text)[i]);
            } else {
                assert(text[text.len() - 1] == strip(text)[i]);
            }
        }
    }
}

/// The measured prefix fits in `s`, and is not empty where `s` begins with a
/// character other than whitespace.
pub proof fn lemma_word_len_bound(s: Seq<char>)
    ensures
        word_len(s) <= s.len(),
        s.len() > 0 && !whitespace(s[0]) ==> word_len(s) >= 1,
    decreases s.len(),
{
    if s.len() > 0 && !whitespace(s[0]) {
        lemma_word_len_bound(s.drop_first());
    }
}

/// A run without whitespace that ends where `rest` begins with whitespace, or
/// where the text ends, is a whole word.
pub proof fn lemma_word_len_of_run(word: Seq<char>, rest: Seq<char>)
    requires
        solid(word),
        rest.len() == 0 || whitespace(rest[0]),
    ensures
        word_len(word + rest) == word.len(),
    decreases word.len(),
{
    let s = word + rest;
    if word.len() == 0 {
        assert(s =~= rest);
    } else {
        assert(s[0] == word[0]);
        assert(s.drop_first() =~= word.drop_first() + rest);
        assert forall|i: int| 0 <= i < word.drop_first().len() implies !whitespace(
            #[trigger] word.drop_first()[i],
        ) by {
            assert(word.drop_first()[i] == word[i + 1]);
        }
        lemma_word_len_of_run(word.drop_first(), rest);
    }
}

/// A run without whitespace that ends where `rest` begins with whitespace, or
/// where the text ends, is the first word, and the other words are those of
/// `rest`.
pub proof fn lemma_split_run(word: Seq<char>, rest: Seq<char>)
    requires
        word.len() > 0,
        solid(word),
        rest.len() == 0 || whitespace(rest[0]),
    ensures
        split_whitespace(word + rest) == seq![word] + split_whitespace(rest),
{
    let s = word + rest;
    lemma_word_len_of_run(word, rest);
    assert(s[0] == word[0]);
    assert(s.take(word.len() as int) =~= word);
    assert(s.skip(word.len() as int) =~= rest);
}

/// A word is never empty and holds no whitespace.
pub proof fn lemma_words_are_solid(s: Seq<char>)
    ensures
        forall|k: int|
            0 <= k < split_whitespace(s).len() ==> (#[trigger] split_whitespace(s)[k]).len() > 0
                && solid(split_whitespace(s)[k]),
    decreases s.len(),
{
    if s.len() == 0 {
        assert(split_whitespace(s).len() == 0);
    } else if whitespace(s[0]) {
        lemma_words_are_solid(s.drop_first());
        assert(split_whitespace(s) == split_whitespace(s.drop_first()));
    } else {
        let n = word_len(s) as int;
        lemma_word_len_bound(s);
        lemma_word_is_solid(s);
        lemma_words_are_solid(s.skip(n));
        assert forall|k: int| 0 <= k < split_whitespace(s).len() implies (
        #[trigger] split_whitespace(s)[k]).len() > 0 && solid(split_whitespace(s)[k]) by {
            if k > 0 {
                assert(split_whitespace(s)[k] == split_whitespace(s.skip(n))[k - 1]);
            }
        }
    }
}

/// The prefix that `word_len` measures holds no whitespace.
pub proof fn lemma_word_is_solid(s: Seq<char>)
    ensures
        solid(s.take(word_len(s) as int)),
    decreases s.len(),
{
    lemma_word_len_bound(s);
    if s.len() > 0 && !whitespace(s[0]) {
        let tail = s.drop_first();
        lemma_word_is_solid(tail);
        lemma_word_len_bound(tail);
        let n = word_len(s) as int;
        assert forall|i: int| 0 <= i < s.take(n).len() implies !whitespace(
            #[trigger] s.take(n)[i],
        ) by {
            if i > 0 {
                assert(s.take(n)[i] == tail.take(n - 1)[i - 1]);
            }
        }
    }
}

/// Every word is a run of characters of the text.
pub proof fn lemma_words_are_made_of(s: Seq<char>, p: spec_fn(char) -> bool)
    requires
        forall|i: int| 0 <= i < s.len() ==> p(#[trigger] s[i]),
    ensures
        forall|k: int, i: int|
            0 <= k < split_whitespace(s).len() && 0 <= i < split_whitespace(s)[k].len() ==> p(
                #[trigger] split_whitespace(s)[k][i],
            ),
    decreases s.len(),
{
    if s.len() == 0 {
        assert(split_whitespace(s).len() == 0);
    } else if whitespace(s[0]) {
        assert forall|i: int| 0 <= i < s.drop_first().len() implies p(
            #[trigger] s.drop_first()[i],
        ) by {
            assert(s.drop_first()[i] == s[i + 1]);
        }
        lemma_words_are_made_of(s.drop_first(), p);
        assert(split_whitespace(s) == split_whitespace(s.drop_first()));
    } else {
        let n = word_len(s) as int;
        lemma_word_len_bound(s);
        assert forall|i: int| 0 <= i < s.skip(n).len() implies p(#[trigger] s.skip(n)[i]) by {
            assert(s.skip(n)[i] == s[i + n]);
        }
        lemma_words_are_made_of(s.skip(n), p);
        assert forall|k: int, i: int|
            0 <= k < split_whitespace(s).len() && 0 <= i < split_whitespace(s)[k].len() implies p(
            #[trigger] split_whitespace(s)[k][i],
        ) by {
            if k > 0 {
                assert(split_whitespace(s)[k] == split_whitespace(s.skip(n))[k - 1]);
            } else {
                assert(split_whitespace(s)[0] == s.take(n));
                assert(s.take(n)[i] == s[i]);
            }
        }
    }
}

/// A text of whitespace alone has no words.
pub proof fn lemma_blank_has_no_words(s: Seq<char>)
    requires
        blank(s),
    ensures
        split_whitespace(s) == Seq::<Seq<char>>::empty(),
    decreases s.len(),
{
    if s.len() > 0 {
        assert(whitespace(s[0]));
        assert forall|i: int| 0 <= i < s.drop_first().len() implies whitespace(
            #[trigger] s.drop_first()[i],
        ) by {
            assert(s.drop_first()[i] == s[i + 1]);
        }
        lemma_blank_has_no_words(s.drop_first());
    }
}

} // verus!

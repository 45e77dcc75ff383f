//! What holds of every encoding, stated over the functions that the
//! encoder's contracts are written in.

use crate::charset::{alphanumeric, lemma_lowercase_kept, lowercase, whitespace};
use crate::text::{
    lemma_blank_has_no_words, lemma_strip_elements, lemma_words_are_made_of,
    lemma_words_are_solid, normalize, solid, strip, tokens_of,
};
use crate::vocabulary::{
    encoding, has_slot, in_capacity, learn, lemma_learn, lemma_learn_known, lemma_mass_update,
    lemma_mass_zero, lemma_occurrences_bound, mass,
};
use vstd::prelude::*;

verus! {

/// Encoding a text a second time, right after the first, learns nothing and
/// gives the same counts.
pub proof fn theorem_repeat_is_identical(vocab: Seq<Seq<char>>, text: Seq<char>, max_words: nat)
    ensures
        learn(learn(vocab, tokens_of(text)), tokens_of(text)) == learn(vocab, tokens_of(text)),
        encoding(
            learn(learn(vocab, tokens_of(text)), tokens_of(text)),
            tokens_of(text),
            max_words,
        ) == encoding(learn(vocab, tokens_of(text)), tokens_of(text), max_words),
{
    let tokens = tokens_of(text);
    lemma_learn(vocab, tokens);
    lemma_learn_known(learn(vocab, tokens), tokens);
}

/// The counts sum to the number of tokens that have a slot.
pub proof fn theorem_mass_counts_slotted_tokens(
    vocab: Seq<Seq<char>>,
    tokens: Seq<Seq<char>>,
    max_words: nat,
)
    requires
        vocab.no_duplicates(),
    ensures
        mass(encoding(vocab, tokens, max_words)) == in_capacity(vocab, tokens, max_words),
    decreases tokens.len(),
{
    let counts = encoding(vocab, tokens, max_words);
    if tokens.len() == 0 {
        lemma_mass_zero(counts);
    } else {
        let init = tokens.drop_last();
        let before = encoding(vocab, init, max_words);
        theorem_mass_counts_slotted_tokens(vocab, init, max_words);
        if has_slot(vocab, tokens.last(), max_words) {
            let i = choose|i: int|
                0 <= i < vocab.len() && i < max_words && #[trigger] vocab[i] == tokens.last();
            assert(counts =~= before.update(i, before[i] + 1));
            lemma_mass_update(before, i, before[i] + 1);
        } else {
            assert(counts =~= before);
        }
    }
}

/// Where a token of the text has a slot, the counts have a positive sum. The
/// entries of the feature vector, each a count over that sum, then add up to
/// one.
pub proof fn theorem_mass_is_positive(
    vocab: Seq<Seq<char>>,
    tokens: Seq<Seq<char>>,
    max_words: nat,
    j: int,
)
    requires
        0 <= j < tokens.len(),
        has_slot(vocab, tokens[j], max_words),
    ensures
        mass(encoding(vocab, tokens, max_words)) > 0,
{
    let counts = encoding(vocab, tokens, max_words);
    let i = choose|i: int|
        0 <= i < vocab.len() && i < max_words && #[trigger] vocab[i] == tokens[j];
    lemma_occurrences_bound(tokens, vocab[i]);
    assert(counts[i] > 0);
    lemma_mass_zero(counts);
}

/// Every token is a word of lower-case ASCII letters and ASCII digits, and
/// none is empty.
pub proof fn theorem_token_alphabet(text: Seq<char>)
    ensures
        forall|k: int|
            0 <= k < tokens_of(text).len() ==> (#[trigger] tokens_of(text)[k]).len() > 0,
        forall|k: int, i: int|
            0 <= k < tokens_of(text).len() && 0 <= i < tokens_of(text)[k].len() ==> {
                let c = #[trigger] tokens_of(text)[k][i];
                'a' <= c <= 'z' || '0' <= c <= '9'
            },
{
    let normal = normalize(text);
    let clean = |c: char| whitespace(c) || 'a' <= c <= 'z' || '0' <= c <= '9';
    lemma_strip_elements(text);
    assert forall|i: int| 0 <= i < normal.len() implies clean(#[trigger] normal[i]) by {
        assert(normal[i] == lowercase(strip(text)[i]));
        lemma_lowercase_kept(strip(text)[i]);
    }
    lemma_words_are_made_of(normal, clean);
    lemma_words_are_solid(normal);
    assert forall|k: int, i: int|
        0 <= k < tokens_of(text).len() && 0 <= i < tokens_of(text)[k].len() implies {
        let c = #[trigger] tokens_of(text)[k][i];
        'a' <= c <= 'z' || '0' <= c <= '9'
    } by {
        assert(clean(tokens_of(text)[k][i]));
        assert(solid(tokens_of(text)[k]));
    }
}

/// Once the vocabulary has filled every slot, no text gives a slot to a word
/// that is not in the vocabulary yet.
pub proof fn theorem_exhaustion_is_permanent(
    vocab: Seq<Seq<char>>,
    tokens: Seq<Seq<char>>,
    word: Seq<char>,
    max_words: nat,
)
    requires
        vocab.len() >= max_words,
        !vocab.contains(word),
    ensures
        !has_slot(learn(vocab, tokens), word, max_words),
{
    let after = learn(vocab, tokens);
    lemma_learn(vocab, tokens);
    if has_slot(after, word, max_words) {
        let i = choose|i: int|
            0 <= i < after.len() && i < max_words && #[trigger] after[i] == word;
        assert(after.take(vocab.len() as int)[i] == after[i]);
        assert(vocab[i] == word);
    }
}

/// A text without ASCII letters and digits, so one of punctuation and
/// whitespace alone or an empty one, has no tokens: encoding it learns
/// nothing, and every count is zero.
pub proof fn theorem_no_words(vocab: Seq<Seq<char>>, text: Seq<char>, max_words: nat)
    requires
        forall|i: int| 0 <= i < text.len() ==> !alphanumeric(#[trigger] text[i]),
    ensures
        tokens_of(text) == Seq::<Seq<char>>::empty(),
        learn(vocab, tokens_of(text)) == vocab,
        encoding(vocab, tokens_of(text), max_words) == Seq::new(max_words, |i: int| 0nat),
        mass(encoding(vocab, tokens_of(text), max_words)) == 0,
{
    let stripped = strip(text);
    let normal = normalize(text);
    lemma_strip_elements(text);
    assert forall|i: int| 0 <= i < normal.len() implies whitespace(#[trigger] normal[i]) by {
        let c = stripped[i];
        assert(normal[i] == lowercase(c));
        let p = choose|p: int| 0 <= p < text.len() && text[p] == c;
        assert(!alphanumeric(text[p]));
        lemma_lowercase_kept(c);
    }
    lemma_blank_has_no_words(normal);
    let counts = encoding(vocab, tokens_of(text), max_words);
    assert(counts =~= Seq::new(max_words, |i: int| 0nat));
    lemma_mass_zero(counts);
}

/// Indices do not shift: after text `a` was encoded, encoding any text `b`
/// and then `a` again gives `a` the counts that it had the first time.
pub proof fn theorem_indices_are_stable(
    vocab: Seq<Seq<char>>,
    a: Seq<char>,
    b: Seq<char>,
    max_words: nat,
)
    ensures
        encoding(
            learn(learn(learn(vocab, tokens_of(a)), tokens_of(b)), tokens_of(a)),
            tokens_of(a),
            max_words,
        ) == encoding(learn(vocab, tokens_of(a)), tokens_of(a), max_words),
{
    let ta = tokens_of(a);
    let tb = tokens_of(b);
    let first = learn(vocab, ta);
    let second = learn(first, tb);
    lemma_learn(vocab, ta);
    lemma_learn(first, tb);
    assert forall|j: int| 0 <= j < ta.len() implies second.contains(#[trigger] ta[j]) by {
        let p = choose|p: int| 0 <= p < first.len() && first[p] == ta[j];
        assert(second.take(first.len() as int)[p] == second[p]);
    }
    lemma_learn_known(second, ta);
    assert forall|i: int| 0 <= i < max_words implies #[trigger] encoding(second, ta, max_words)[i]
        == encoding(first, ta, max_words)[i] by {
        if i < first.len() {
            assert(second.take(first.len() as int)[i] == second[i]);
        } else if i < second.len() {
            lemma_occurrences_bound(ta, second[i]);
            if ta.contains(second[i]) {
                let j = choose|j: int| 0 <= j < ta.len() && ta[j] == second[i];
                assert(first.contains(ta[j]));
            }
        }
    }
    assert(encoding(second, ta, max_words) =~= encoding(first, ta, max_words));
}

} // verus!

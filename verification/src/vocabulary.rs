//! The vocabulary as a sequence of distinct tokens, each standing at its own
//! index, and the count vector that a text has over it.

use vstd::prelude::*;

verus! {

/// The vocabulary after one token was seen: a token that is not in it yet
/// goes to its end and so gets the next free index, a known token changes
/// nothing.
pub open spec fn with_token(vocab: Seq<Seq<char>>, token: Seq<char>) -> Seq<Seq<char>> {
    if vocab.contains(token) {
        vocab
    } else {
        vocab.push(token)
    }
}

/// The vocabulary after the tokens were seen in order.
pub open spec fn learn(vocab: Seq<Seq<char>>, tokens: Seq<Seq<char>>) -> Seq<Seq<char>>
    decreases tokens.len(),
{
    if tokens.len() == 0 {
        vocab
    } else {
        with_token(learn(vocab, tokens.drop_last()), tokens.last())
    }
}

/// How many times `word` stands in `tokens`.
pub open spec fn occurrences(tokens: Seq<Seq<char>>, word: Seq<char>) -> nat
    decreases tokens.len(),
{
    if tokens.len() == 0 {
        0
    } else {
        occurrences(tokens.drop_last(), word) + if tokens.last() == word {
            1nat
        } else {
            0nat
        }
    }
}

/// The count vector of `tokens` over `vocab`, cut to `max_words` slots: slot
/// `i` counts the token whose index is `i`, and is zero where the vocabulary
/// has no such token. A token whose index is `max_words` or more has no slot.
pub open spec fn encoding(vocab: Seq<Seq<char>>, tokens: Seq<Seq<char>>, max_words: nat) -> Seq<
    nat,
> {
    Seq::new(
        max_words,
        |i: int|
            if i < vocab.len() {
                occurrences(tokens, vocab[i])
            } else {
                0nat
            },
    )
}

/// The sum of all counts.
pub open spec fn mass(counts: Seq<nat>) -> nat
    decreases counts.len(),
{
    if counts.len() == 0 {
        0
    } else {
        mass(counts.drop_last()) + counts.last()
    }
}

/// True when `token` stands in `vocab` at an index below `max_words`.
pub open spec fn has_slot(vocab: Seq<Seq<char>>, token: Seq<char>, max_words: nat) -> bool {
    exists|i: int| 0 <= i < vocab.len() && i < max_words && #[trigger] vocab[i] == token
}

/// How many of the tokens have a slot.
pub open spec fn in_capacity(vocab: Seq<Seq<char>>, tokens: Seq<Seq<char>>, max_words: nat) -> nat
    decreases tokens.len(),
{
    if tokens.len() == 0 {
        0
    } else {
        in_capacity(vocab, tokens.drop_last(), max_words) + if has_slot(
            vocab,
            tokens.last(),
            max_words,
        ) {
            1nat
        } else {
            0nat
        }
    }
}

/// True when every token is in the vocabulary.
pub open spec fn covers(vocab: Seq<Seq<char>>, tokens: Seq<Seq<char>>) -> bool {
    forall|j: int| 0 <= j < tokens.len() ==> vocab.contains(#[trigger] tokens[j])
}

/// With a new word at its end, the vocabulary still holds no word twice, and
/// its set of words has grown by that word.
pub proof fn lemma_push_new(vocab: Seq<Seq<char>>, word: Seq<char>)
    requires
        vocab.no_duplicates(),
        !vocab.contains(word),
    ensures
        vocab.push(word).no_duplicates(),
        vocab.push(word).to_set() == vocab.to_set().insert(word),
{
    let next = vocab.push(word);
    assert forall|w: Seq<char>| #[trigger]
        next.to_set().contains(w) == vocab.to_set().insert(word).contains(w) by {
        if next.contains(w) {
            let p = choose|p: int| 0 <= p < next.len() && next[p] == w;
            if p < vocab.len() {
                assert(vocab[p] == w);
            }
        }
        if vocab.contains(w) {
            let p = choose|p: int| 0 <= p < vocab.len() && vocab[p] == w;
            assert(next[p] == w);
        }
        assert(next[vocab.len() as int] == word);
    }
    assert(next.to_set() =~= vocab.to_set().insert(word));
}

/// A word stands in the tokens at most as often as there are tokens, and not
/// at all exactly where the tokens do not contain it.
pub proof fn lemma_occurrences_bound(tokens: Seq<Seq<char>>, word: Seq<char>)
    ensures
        occurrences(tokens, word) <= tokens.len(),
        !tokens.contains(word) ==> occurrences(tokens, word) == 0,
        tokens.contains(word) ==> occurrences(tokens, word) > 0,
    decreases tokens.len(),
{
    if tokens.len() > 0 {
        let init = tokens.drop_last();
        lemma_occurrences_bound(init, word);
        if tokens.contains(word) {
            let j = choose|j: int| 0 <= j < tokens.len() && tokens[j] == word;
            if j < init.len() {
                assert(init[j] == word);
            }
        }
        if init.contains(word) {
            let j = choose|j: int| 0 <= j < init.len() && init[j] == word;
            assert(tokens[j] == word);
        }
    }
}

/// Learning keeps what was known in its place, keeps the tokens distinct, and
/// knows every token afterwards.
pub proof fn lemma_learn(vocab: Seq<Seq<char>>, tokens: Seq<Seq<char>>)
    ensures
        vocab.len() <= learn(vocab, tokens).len() <= vocab.len() + tokens.len(),
        learn(vocab, tokens).take(vocab.len() as int) == vocab,
        vocab.no_duplicates() ==> learn(vocab, tokens).no_duplicates(),
        covers(learn(vocab, tokens), tokens),
        forall|i: int|
            vocab.len() <= i < learn(vocab, tokens).len() ==> tokens.contains(
                #[trigger] learn(vocab, tokens)[i],
            ) && !vocab.contains(learn(vocab, tokens)[i]),
    decreases tokens.len(),
{
    let after = learn(vocab, tokens);
    if tokens.len() == 0 {
        assert(after.take(vocab.len() as int) =~= vocab);
    } else {
        let init = tokens.drop_last();
        let seen = learn(vocab, init);
        lemma_learn(vocab, init);
        assert(after.take(vocab.len() as int) =~= seen.take(vocab.len() as int));
        assert forall|j: int| 0 <= j < tokens.len() implies after.contains(
            #[trigger] tokens[j],
        ) by {
            if j < init.len() {
                assert(seen.contains(init[j]));
                let p = choose|p: int| 0 <= p < seen.len() && seen[p] == init[j];
                assert(after[p] == tokens[j]);
            } else if seen.contains(tokens.last()) {
            } else {
                assert(after[seen.len() as int] == tokens[j]);
            }
        }
        assert forall|i: int| vocab.len() <= i < after.len() implies tokens.contains(
            #[trigger] after[i],
        ) && !vocab.contains(after[i]) by {
            if i < seen.len() {
                assert(after[i] == seen[i]);
                assert(init.contains(seen[i]));
                let j = choose|j: int| 0 <= j < init.len() && init[j] == seen[i];
                assert(tokens[j] == after[i]);
            } else {
                assert(after[i] == tokens.last());
                assert(tokens[tokens.len() - 1] == after[i]);
                if vocab.contains(after[i]) {
                    let p = choose|p: int| 0 <= p < vocab.len() && vocab[p] == after[i];
                    assert(seen.take(vocab.len() as int)[p] == seen[p]);
                    assert(seen[p] == after[i]);
                }
            }
        }
    }
}

/// Tokens that are all known teach nothing.
pub proof fn lemma_learn_known(vocab: Seq<Seq<char>>, tokens: Seq<Seq<char>>)
    requires
        covers(vocab, tokens),
    ensures
        learn(vocab, tokens) == vocab,
    decreases tokens.len(),
{
    if tokens.len() > 0 {
        let init = tokens.drop_last();
        assert forall|j: int| 0 <= j < init.len() implies vocab.contains(#[trigger] init[j]) by {
            assert(init[j] == tokens[j]);
        }
        lemma_learn_known(vocab, init);
        assert(vocab.contains(tokens[tokens.len() - 1]));
    }
}

/// Changing one count changes the sum by as much.
pub proof fn lemma_mass_update(counts: Seq<nat>, i: int, value: nat)
    requires
        0 <= i < counts.len(),
    ensures
        mass(counts.update(i, value)) + counts[i] == mass(counts) + value,
    decreases counts.len(),
{
    let next = counts.update(i, value);
    if i == counts.len() - 1 {
        assert(next.drop_last() =~= counts.drop_last());
    } else {
        assert(next.drop_last() =~= counts.drop_last().update(i, value));
        lemma_mass_update(counts.drop_last(), i, value);
    }
}

/// The sum is zero exactly where every count is zero.
pub proof fn lemma_mass_zero(counts: Seq<nat>)
    ensures
        mass(counts) == 0 <==> forall|i: int| 0 <= i < counts.len() ==> counts[i] == 0,
    decreases counts.len(),
{
    if counts.len() > 0 {
        let init = counts.drop_last();
        lemma_mass_zero(init);
        if mass(counts) == 0 {
            assert forall|i: int| 0 <= i < counts.len() implies counts[i] == 0 by {
                if i < init.len() {
                    assert(init[i] == counts[i]);
                }
            }
        }
        if forall|i: int| 0 <= i < counts.len() ==> counts[i] == 0 {
            assert forall|i: int| 0 <= i < init.len() implies init[i] == 0 by {
                assert(init[i] == counts[i]);
            }
        }
    }
}

/// Counting one more token adds one to the slot of its index, if it has a
/// slot, and changes no other slot.
pub proof fn lemma_encoding_step(
    vocab: Seq<Seq<char>>,
    seen: Seq<Seq<char>>,
    token: Seq<char>,
    index: int,
    max_words: nat,
)
    requires
        vocab.no_duplicates(),
        covers(vocab, seen),
        0 <= index < with_token(vocab, token).len(),
        with_token(vocab, token)[index] == token,
    ensures
        with_token(vocab, token).no_duplicates(),
        covers(with_token(vocab, token), seen.push(token)),
        encoding(vocab, seen, max_words).len() == max_words,
        index < max_words ==> encoding(with_token(vocab, token), seen.push(token), max_words)
            == encoding(vocab, seen, max_words).update(
            index,
            encoding(vocab, seen, max_words)[index] + 1,
        ),
        index >= max_words ==> encoding(with_token(vocab, token), seen.push(token), max_words)
            == encoding(vocab, seen, max_words),
{
    let next = with_token(vocab, token);
    let more = seen.push(token);
    let before = encoding(vocab, seen, max_words);
    let after = encoding(next, more, max_words);
    assert(more.drop_last() =~= seen);
    assert(more.last() == token);
    assert forall|j: int| 0 <= j < more.len() implies next.contains(#[trigger] more[j]) by {
        if j < seen.len() {
            let p = choose|p: int| 0 <= p < vocab.len() && vocab[p] == seen[j];
            assert(next[p] == more[j]);
        }
    }
    if !vocab.contains(token) {
        lemma_occurrences_bound(seen, token);
        if seen.contains(token) {
            let j = choose|j: int| 0 <= j < seen.len() && seen[j] == token;
            assert(vocab.contains(seen[j]));
        }
    }
    assert forall|i: int| 0 <= i < max_words implies #[trigger] after[i] == if i == index {
        before[i] + 1
    } else {
        before[i]
    } by {
        if i < vocab.len() {
            assert(next[i] == vocab[i]);
        }
    }
    if index < max_words {
        assert(after =~= before.update(index, before[index] + 1));
    } else {
        assert(after =~= before);
    }
}

} // verus!

//! The text encoder: it assigns vocabulary indices to the words it meets and
//! turns a text into the counts of its words.

use crate::charset::{is_whitespace, lowercase, to_lowercase};
use crate::features::{as_nats, FeatureVector};
use crate::text::{lemma_split_run, normalize, solid, split_whitespace, tokens_of, STRIP_PATTERN};
use crate::trusted::replace_all;
use crate::vocabulary::{
    covers, encoding, learn, lemma_encoding_step, lemma_mass_update, lemma_mass_zero,
    lemma_occurrences_bound, lemma_push_new, mass, with_token,
};
use vstd::hash_map::StringHashMap;
use vstd::prelude::*;

verus! {

/// A bag-of-words encoder with a vocabulary that grows as texts are encoded.
pub struct TextProcessor {
    word_index: StringHashMap<usize>,
    next_index: usize,
    max_words: usize,
    vocabulary: Ghost<Seq<Seq<char>>>,
}

impl TextProcessor {
    /// The words met so far, each at its index.
    pub closed spec fn vocabulary(&self) -> Seq<Seq<char>> {
        self.vocabulary@
    }

    /// The number of slots of every feature vector.
    pub closed spec fn capacity(&self) -> nat {
        self.max_words as nat
    }

    /// No word stands twice in the vocabulary. The index map holds exactly
    /// the words of the vocabulary, each with its position, and the counter
    /// is the next free index.
    #[verifier::type_invariant]
    spec fn wf(&self) -> bool {
        &&& self.vocabulary@.no_duplicates()
        &&& self.next_index == self.vocabulary@.len()
        &&& self.word_index@.dom() =~= self.vocabulary@.to_set()
        &&& forall|i: int|
            0 <= i < self.vocabulary@.len() ==> self.word_index@[#[trigger] self.vocabulary@[i]]
                == i
    }

    /// An encoder with an empty vocabulary and `max_words` slots.
    pub fn new(max_words: usize) -> (processor: Self)
        ensures
            processor.vocabulary() == Seq::<Seq<char>>::empty(),
            processor.capacity() == max_words,
    {
        TextProcessor {
            word_index: StringHashMap::new(),
            next_index: 0,
            max_words,
            vocabulary: Ghost(Seq::empty()),
        }
    }

    /// The number of slots of every feature vector.
    pub fn max_words(&self) -> (n: usize)
        ensures
            n == self.capacity(),
    {
        self.max_words
    }

    /// The number of words met so far, which is the next free index.
    pub fn vocabulary_size(&self) -> (n: usize)
        ensures
            n == self.vocabulary().len(),
            self.vocabulary().no_duplicates(),
    {
        proof {
            use_type_invariant(self);
        }
        self.next_index
    }

    /// The index of `token`, which is assigned now if the token is new.
    pub fn assign_index(&mut self, token: &str) -> (index: usize)
        ensures
            final(self).vocabulary().no_duplicates(),
            final(self).capacity() == old(self).capacity(),
            final(self).vocabulary() == with_token(old(self).vocabulary(), token@),
            index < final(self).vocabulary().len(),
            final(self).vocabulary()[index as int] == token@,
    {
        proof {
            use_type_invariant(&*self);
        }
        let ghost vocab = self.vocabulary@;
        match self.word_index.get(token) {
            Some(index) => {
                proof {
                    assert(vocab.to_set().contains(token@));
                    let j = choose|j: int| 0 <= j < vocab.len() && vocab[j] == token@;
                    assert(self.word_index@[vocab[j]] == j);
                }
                *index
            },
            None => {
                let index: usize = self.next_index;
                // The fields change together, so the old state is taken out
                // whole and a new one is put in its place.
                let mut taken = TextProcessor::new(self.max_words);
                std::mem::swap(self, &mut taken);
                let TextProcessor { mut word_index, next_index: _, max_words, vocabulary: _ } =
                    taken;
                word_index.insert(token.to_owned(), index);
                // One entry for each index: the size of the map is the next free index.
                let next_index: usize = word_index.len();
                proof {
                    lemma_push_new(vocab, token@);
                    vocab.push(token@).unique_seq_to_set();
                }
                *self = TextProcessor {
                    word_index,
                    next_index,
                    max_words,
                    vocabulary: Ghost(vocab.push(token@)),
                };
                index
            },
        }
    }

    /// Encodes `text`: the counts of its tokens over the vocabulary, which
    /// first learns the tokens that are new.
    pub fn process_text(&mut self, text: &str) -> (features: FeatureVector)
        ensures
            final(self).vocabulary().no_duplicates(),
            final(self).capacity() == old(self).capacity(),
            final(self).vocabulary() == learn(old(self).vocabulary(), tokens_of(text@)),
            features@ == encoding(
                final(self).vocabulary(),
                tokens_of(text@),
                old(self).capacity(),
            ),
            features.wf(),
    {
        proof {
            use_type_invariant(&*self);
        }
        let cleaned = self.clean_text(text);
        let tokens = self.tokenize(cleaned.as_str());
        let ghost words = tokens.deep_view();
        let ghost known = self.vocabulary@;
        let mut counts: Vec<usize> = vec![0; self.max_words];
        let mut total: usize = 0;
        let mut k: usize = 0;
        proof {
            assert(words.take(0) =~= Seq::<Seq<char>>::empty());
            assert(as_nats(counts@) =~= encoding(known, words.take(0), self.max_words as nat));
            lemma_mass_zero(as_nats(counts@));
        }
        while k < tokens.len()
            invariant
                k <= tokens.len(),
                words == tokens.deep_view(),
                self.vocabulary@.no_duplicates(),
                self.max_words == old(self).max_words,
                counts.len() == self.max_words,
                self.vocabulary@ == learn(known, words.take(k as int)),
                covers(self.vocabulary@, words.take(k as int)),
                as_nats(counts@) == encoding(
                    self.vocabulary@,
                    words.take(k as int),
                    self.max_words as nat,
                ),
                total == mass(as_nats(counts@)),
                total <= k,
            decreases tokens.len() - k,
        {
            let ghost vocab = self.vocabulary@;
            let ghost seen = words.take(k as int);
            let ghost before = as_nats(counts@);
            let index: usize = self.assign_index(tokens[k].as_str());
            proof {
                assert(tokens[k as int]@ == words[k as int]);
                assert(words.take(k + 1) =~= seen.push(words[k as int]));
                assert(words.take(k + 1).drop_last() =~= seen);
                lemma_encoding_step(vocab, seen, words[k as int], index as int, self.max_words as nat);
            }
            if index < self.max_words {
                proof {
                    assert(before[index as int] == counts[index as int]);
                    if index < vocab.len() {
                        lemma_occurrences_bound(seen, vocab[index as int]);
                    }
                    lemma_mass_update(before, index as int, before[index as int] + 1);
                }
                let count: usize = counts[index];
                counts.set(index, count + 1);
                total = total + 1;
                proof {
                    assert(as_nats(counts@) =~= before.update(
                        index as int,
                        before[index as int] + 1,
                    ));
                }
            }
            k = k + 1;
        }
        proof {
            assert(words.take(k as int) =~= words);
        }
        FeatureVector { counts, total }
    }

    /// The normal form of `text`: without the characters that are neither
    /// ASCII letters, ASCII digits nor whitespace, and in lower case.
    pub fn clean_text(&self, text: &str) -> (cleaned: String)
        ensures
            cleaned@ == normalize(text@),
    {
        proof {
            reveal_strlit("");
        }
        let stripped = replace_all(STRIP_PATTERN, text, "");
        let mut cleaned = String::new();
        for c in it: stripped.as_str().chars()
            invariant
                it.seq() == stripped@,
                cleaned@ == stripped@.take(it.index()).map_values(|c: char| lowercase(c)),
        {
            proof {
                let i = it.index();
                assert(c == stripped@[i]);
                assert(stripped@.take(i + 1).map_values(|c: char| lowercase(c))
                    =~= stripped@.take(i).map_values(|c: char| lowercase(c)).push(lowercase(c)));
            }
            cleaned.push(to_lowercase(c));
        }
        proof {
            assert(stripped@.take(stripped@.len() as int) =~= stripped@);
        }
        cleaned
    }

    /// The words of `text`: its maximal runs of characters other than
    /// whitespace, in order.
    pub fn tokenize(&self, text: &str) -> (tokens: Vec<String>)
        ensures
            tokens.deep_view() == split_whitespace(text@),
    {
        let mut tokens: Vec<String> = Vec::new();
        let mut word = String::new();
        proof {
            assert(word@ + text@.skip(0) =~= text@);
            assert(tokens.deep_view() =~= Seq::<Seq<char>>::empty());
        }
        for c in it: text.chars()
            invariant
                it.seq() == text@,
                solid(word@),
                split_whitespace(text@) == tokens.deep_view() + split_whitespace(
                    word@ + text@.skip(it.index()),
                ),
        {
            let ghost i = it.index();
            let ghost rest = text@.skip(i);
            let ghost done = tokens.deep_view();
            let ghost whole = word@;
            proof {
                assert(c == text@[i]);
                assert(rest.len() > 0 && rest[0] == c);
                assert(rest.drop_first() =~= text@.skip(i + 1));
            }
            if is_whitespace(c) {
                proof {
                    assert(split_whitespace(rest) == split_whitespace(text@.skip(i + 1)));
                }
                if !word.as_str().is_empty() {
                    proof {
                        lemma_split_run(whole, rest);
                    }
                    tokens.push(word);
                    word = String::new();
                    proof {
                        assert(tokens.deep_view() =~= done.push(whole));
                        assert(word@ + text@.skip(i + 1) =~= text@.skip(i + 1));
                        assert(done + (seq![whole] + split_whitespace(rest)) =~= done.push(whole)
                            + split_whitespace(rest));
                    }
                } else {
                    proof {
                        assert(whole + rest =~= rest);
                        assert(word@ + text@.skip(i + 1) =~= text@.skip(i + 1));
                    }
                }
            } else {
                proof {
                    assert(whole.push(c) + text@.skip(i + 1) =~= whole + rest);
                }
                word.push(c);
            }
        }
        let ghost done = tokens.deep_view();
        let ghost whole = word@;
        proof {
            assert(text@.skip(text@.len() as int) =~= Seq::<char>::empty());
            assert(whole + Seq::<char>::empty() =~= whole);
        }
        if !word.as_str().is_empty() {
            proof {
                lemma_split_run(whole, Seq::empty());
            }
            tokens.push(word);
            proof {
                assert(tokens.deep_view() =~= done.push(whole));
                assert(done + (seq![whole] + Seq::<Seq<char>>::empty()) =~= done.push(whole));
            }
        } else {
            proof {
                assert(done + Seq::<Seq<char>>::empty() =~= done);
            }
        }
        tokens
    }
}

} // verus!

use toxic_classifier::features::FeatureVector;
use toxic_classifier::preprocess::TextProcessor;

fn entries(features: &FeatureVector) -> Vec<f64> {
    features
        .counts
        .iter()
        .map(|&c| if features.total > 0 { c as f64 / features.total as f64 } else { 0.0 })
        .collect()
}

#[test]
fn new_encoder_is_empty() {
    let p = TextProcessor::new(7);
    assert_eq!(p.max_words(), 7);
    assert_eq!(p.vocabulary_size(), 0);
}

#[test]
fn encodes_counts_by_first_seen_index() {
    let mut p = TextProcessor::new(5);
    let v = p.process_text("Hi, Hi!! friend");
    assert_eq!(v.counts, vec![2, 1, 0, 0, 0]);
    assert_eq!(v.total, 3);
    assert_eq!(p.vocabulary_size(), 2);
    let e = entries(&v);
    let expected = [2.0 / 3.0, 1.0 / 3.0, 0.0, 0.0, 0.0];
    assert_eq!(e.len(), 5);
    for i in 0..5 {
        assert!((e[i] - expected[i]).abs() < 1e-12);
    }
}

#[test]
fn same_text_twice_gives_the_same_vector() {
    let mut p = TextProcessor::new(8);
    let first = p.process_text("You are not nice, you are NOT!");
    let size = p.vocabulary_size();
    let second = p.process_text("You are not nice, you are NOT!");
    assert_eq!(first, second);
    assert_eq!(first.counts, vec![2, 2, 2, 1, 0, 0, 0, 0]);
    assert_eq!(p.vocabulary_size(), size);
    assert_eq!(size, 4);
}

#[test]
fn entries_sum_to_one() {
    let mut p = TextProcessor::new(16);
    for text in ["a b c a b a", "thanks for your help", "x", "a a a a a a a", "q w e r t y u"] {
        let v = p.process_text(text);
        let sum: f64 = entries(&v).iter().sum();
        assert!((sum - 1.0).abs() < 1e-9);
        assert_eq!(v.counts.iter().sum::<usize>(), v.total);
        assert!(v.total > 0);
    }
}

#[test]
fn empty_text_gives_the_zero_vector() {
    let mut p = TextProcessor::new(6);
    let v = p.process_text("");
    assert_eq!(v.counts, vec![0; 6]);
    assert_eq!(v.total, 0);
    assert_eq!(entries(&v), vec![0.0; 6]);
    assert_eq!(p.vocabulary_size(), 0);
}

#[test]
fn punctuation_and_whitespace_give_the_zero_vector() {
    let mut p = TextProcessor::new(3);
    p.process_text("known words");
    for text in ["   ", "!!! ... ???", " \t\n", "-- \u{2014} (\u{e9}) \u{a0}", ",", "\u{4f60}\u{597d}"] {
        let v = p.process_text(text);
        assert_eq!(v.counts, vec![0, 0, 0]);
        assert_eq!(v.total, 0);
    }
    assert_eq!(p.vocabulary_size(), 2);
}

#[test]
fn indices_do_not_shift() {
    let mut p = TextProcessor::new(10);
    let a1 = p.process_text("go die in a hole");
    let b = p.process_text("could you please explain a hole to me");
    let a2 = p.process_text("go die in a hole");
    assert_eq!(a1, a2);
    assert_eq!(a1.counts, vec![1, 1, 1, 1, 1, 0, 0, 0, 0, 0]);
    assert_eq!(b.counts, vec![0, 0, 0, 1, 1, 1, 1, 1, 1, 1]);
    assert_eq!(b.total, 7);
    assert_eq!(p.vocabulary_size(), 11);
}

#[test]
fn tokens_beyond_capacity_are_dropped() {
    let mut p = TextProcessor::new(2);
    let v = p.process_text("one two three three one");
    assert_eq!(v.counts, vec![2, 1]);
    assert_eq!(v.total, 3);
    assert_eq!(p.vocabulary_size(), 3);
    let e = entries(&v);
    assert!((e[0] - 2.0 / 3.0).abs() < 1e-12 && (e[1] - 1.0 / 3.0).abs() < 1e-12);
}

#[test]
fn exhausted_capacity_stays_exhausted() {
    let mut p = TextProcessor::new(2);
    p.process_text("one two three");
    let v = p.process_text("three four five");
    assert_eq!(v.counts, vec![0, 0]);
    assert_eq!(v.total, 0);
    assert_eq!(p.vocabulary_size(), 5);
    let w = p.process_text("five two");
    assert_eq!(w.counts, vec![0, 1]);
    assert_eq!(w.total, 1);
}

#[test]
fn zero_capacity_still_learns() {
    let mut p = TextProcessor::new(0);
    let v = p.process_text("any words at all");
    assert!(v.counts.is_empty());
    assert_eq!(v.total, 0);
    assert_eq!(p.vocabulary_size(), 4);
}

#[test]
fn merged_words_are_one_token() {
    let mut p = TextProcessor::new(3);
    let v = p.process_text("don't dont DON'T");
    assert_eq!(v.counts, vec![3, 0, 0]);
    assert_eq!(p.vocabulary_size(), 1);
}

#[test]
fn assign_index_counts_up_from_zero() {
    let mut p = TextProcessor::new(2);
    assert_eq!(p.assign_index("alpha"), 0);
    assert_eq!(p.assign_index("beta"), 1);
    assert_eq!(p.assign_index("alpha"), 0);
    assert_eq!(p.assign_index("gamma"), 2);
    assert_eq!(p.assign_index("beta"), 1);
    assert_eq!(p.vocabulary_size(), 3);
    let v = p.process_text("gamma beta beta");
    assert_eq!(v.counts, vec![0, 2]);
}

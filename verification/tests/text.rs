use regex::Regex;
use toxic_classifier::charset::{is_alphanumeric, is_whitespace, to_lowercase};
use toxic_classifier::preprocess::TextProcessor;
use toxic_classifier::text::STRIP_PATTERN;

fn every_char() -> impl Iterator<Item = char> {
    (0u32..=0x10ffff).filter_map(char::from_u32)
}

#[test]
fn whitespace_is_the_unicode_property() {
    for c in every_char() {
        assert_eq!(is_whitespace(c), c.is_whitespace(), "U+{:04X}", c as u32);
    }
}

#[test]
fn whitespace_code_points() {
    for c in [' ', '\t', '\n', '\u{b}', '\u{c}', '\r', '\u{85}', '\u{a0}', '\u{1680}'] {
        assert!(is_whitespace(c));
    }
    for c in ['\u{2000}', '\u{200a}', '\u{2028}', '\u{2029}', '\u{202f}', '\u{205f}', '\u{3000}'] {
        assert!(is_whitespace(c));
    }
    for c in ['a', '0', '_', '\u{8}', '\u{e}', '\u{200b}', '\u{180e}', '\u{feff}'] {
        assert!(!is_whitespace(c));
    }
}

#[test]
fn alphanumeric_is_ascii_only() {
    for c in every_char() {
        assert_eq!(is_alphanumeric(c), c.is_ascii_alphanumeric(), "U+{:04X}", c as u32);
    }
    assert!(is_alphanumeric('a') && is_alphanumeric('Z') && is_alphanumeric('7'));
    assert!(!is_alphanumeric('\u{e9}') && !is_alphanumeric('_') && !is_alphanumeric(' '));
}

#[test]
fn lowercase_of_a_char() {
    assert_eq!(to_lowercase('A'), 'a');
    assert_eq!(to_lowercase('M'), 'm');
    assert_eq!(to_lowercase('Z'), 'z');
    assert_eq!(to_lowercase('a'), 'a');
    assert_eq!(to_lowercase('5'), '5');
    assert_eq!(to_lowercase('@'), '@');
    assert_eq!(to_lowercase('['), '[');
    assert_eq!(to_lowercase('\u{c9}'), '\u{c9}');
    for c in every_char() {
        assert_eq!(to_lowercase(c), c.to_ascii_lowercase());
    }
}

#[test]
fn lowercase_agrees_with_unicode_on_kept_chars() {
    for c in every_char() {
        if is_alphanumeric(c) || is_whitespace(c) {
            let lower: String = c.to_lowercase().collect();
            assert_eq!(lower, to_lowercase(c).to_string());
        }
    }
}

#[test]
fn strip_pattern_text() {
    assert_eq!(STRIP_PATTERN, r"[^a-zA-Z0-9\s]");
}

#[test]
fn clean_text_deletes_punctuation() {
    let p = TextProcessor::new(4);
    assert_eq!(p.clean_text("Hi, Hi!! friend"), "hi hi friend");
    assert_eq!(p.clean_text("!?.,;:"), "");
    assert_eq!(p.clean_text(""), "");
}

#[test]
fn clean_text_merges_around_deleted_chars() {
    let p = TextProcessor::new(4);
    assert_eq!(p.clean_text("don't"), "dont");
    assert_eq!(p.clean_text("e-mail"), "email");
    assert_eq!(p.clean_text("a_b"), "ab");
}

#[test]
fn clean_text_lowercases() {
    let p = TextProcessor::new(4);
    assert_eq!(p.clean_text("HeLLo WORLD 42"), "hello world 42");
}

#[test]
fn clean_text_keeps_whitespace_as_it_is() {
    let p = TextProcessor::new(4);
    assert_eq!(p.clean_text("a\tb\nc  d\r\n"), "a\tb\nc  d\r\n");
    assert_eq!(p.clean_text("a\u{a0}b\u{2003}c\u{3000}"), "a\u{a0}b\u{2003}c\u{3000}");
}

#[test]
fn clean_text_deletes_letters_outside_ascii() {
    let p = TextProcessor::new(4);
    assert_eq!(p.clean_text("caf\u{e9} na\u{ef}ve \u{3a3}x"), "caf nave x");
    assert_eq!(p.clean_text("\u{4f60}\u{597d} ok"), " ok");
    assert_eq!(p.clean_text("\u{661}\u{662}3"), "3");
}

#[test]
fn clean_text_on_every_char() {
    let all: String = every_char().collect();
    let re = Regex::new(r"[^a-zA-Z0-9\s]").unwrap();
    let expected = re.replace_all(&all, "").to_lowercase();
    let p = TextProcessor::new(1);
    assert_eq!(p.clean_text(&all), expected);
    assert_eq!(expected.chars().count(), 62 + 25);
}

#[test]
fn tokenize_splits_on_runs_of_whitespace() {
    let p = TextProcessor::new(4);
    assert_eq!(p.tokenize("hi hi friend"), vec!["hi", "hi", "friend"]);
    assert_eq!(p.tokenize("  a \t\n b   c  "), vec!["a", "b", "c"]);
    assert_eq!(p.tokenize("one"), vec!["one"]);
}

#[test]
fn tokenize_of_blank_text_is_empty() {
    let p = TextProcessor::new(4);
    assert!(p.tokenize("").is_empty());
    assert!(p.tokenize(" \t\r\n\u{a0}\u{2028}").is_empty());
}

#[test]
fn tokenize_splits_on_unicode_whitespace() {
    let p = TextProcessor::new(4);
    assert_eq!(p.tokenize("a\u{a0}b\u{2003}c\u{3000}d\u{85}e"), vec!["a", "b", "c", "d", "e"]);
    assert_eq!(p.tokenize("a\u{200b}b"), vec!["a\u{200b}b"]);
}

#[test]
fn tokenize_keeps_other_characters() {
    let p = TextProcessor::new(4);
    assert_eq!(p.tokenize("Don't  stop!"), vec!["Don't", "stop!"]);
}

#[test]
fn tokenize_agrees_with_split_whitespace() {
    let p = TextProcessor::new(4);
    let texts = [
        "",
        " ",
        "x",
        " x",
        "x ",
        "a b",
        "a  b",
        "\ta\nb\r\nc\u{b}d\u{c}e",
        "\u{1680}a\u{2000}b\u{200a}c\u{2029}d\u{202f}e\u{205f}f",
        "The quick  brown\tfox, jumps! over\nthe lazy dog.",
    ];
    for text in texts {
        let expected: Vec<String> = text.split_whitespace().map(|s| s.to_string()).collect();
        assert_eq!(p.tokenize(text), expected);
    }
    let all: String = every_char().collect();
    let expected: Vec<String> = all.split_whitespace().map(|s| s.to_string()).collect();
    assert_eq!(p.tokenize(&all), expected);
}

#[test]
fn tokens_hold_lowercase_letters_and_digits_only() {
    let p = TextProcessor::new(4);
    let all: String = every_char().collect();
    let texts = ["You're an IDIOT, and I hate you!", "R2-D2 & C-3PO\u{a0}(1977)", all.as_str()];
    for text in texts {
        let tokens = p.tokenize(&p.clean_text(text));
        assert!(!tokens.is_empty());
        for token in tokens {
            assert!(!token.is_empty());
            assert!(token.chars().all(|c| c.is_ascii_lowercase() || c.is_ascii_digit()));
        }
    }
    assert_eq!(
        p.tokenize(&p.clean_text("R2-D2 & C-3PO\u{a0}(1977)")),
        vec!["r2d2", "c3po", "1977"]
    );
}

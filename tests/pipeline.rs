use text_normalizer::lexicon::Lexicon;
use text_normalizer::number::is_a_number;
use text_normalizer::patterns::ReplacementTable;
use text_normalizer::pipeline::{
    apply, is_math_equation, is_punctuations_or_symbols, needs_no_correction, process_text,
    text_profanity_process,
};
use text_normalizer::text::{join_with_space, split_words};
use text_normalizer::unicode::unicode_normalize;

fn strings(v: &[&str]) -> Vec<String> {
    v.iter().map(|s| s.to_string()).collect()
}

fn lexicon(words: &[&str], frequencies: &[&str]) -> Lexicon {
    Lexicon::new(&strings(words), &strings(frequencies), &Vec::new(), None, &Vec::new())
}

#[test]
fn numbers_and_punctuation_pass_unchanged() {
    let lex = lexicon(&[], &["hello 100"]);
    assert_eq!(process_text(&lex, "42"), "42");
    assert_eq!(process_text(&lex, "3.14"), "3.14");
    assert_eq!(process_text(&lex, "..."), "...");
    assert_eq!(process_text(&lex, "!?"), "!?");
    assert_eq!(process_text(&lex, "42 3.14 ... !?"), "42 3.14 ... !?");
}

#[test]
fn known_words_pass_unchanged() {
    let lex = lexicon(&["hello", "cooool"], &["cool 100"]);
    assert_eq!(process_text(&lex, "hello"), "hello");
    assert_eq!(process_text(&lex, "cooool"), "cooool");
}

#[test]
fn tokens_are_lowercased_and_rejoined() {
    let lex = lexicon(&["hello", "world", "àb"], &[]);
    assert_eq!(process_text(&lex, "  Hello \t WORLD  "), "hello world");
    assert_eq!(process_text(&lex, "ÀB"), "àb");
    assert_eq!(process_text(&lex, ""), "");
}

#[test]
fn unknown_tokens_are_corrected() {
    let lex = lexicon(&["hello", "how", "are", "you"], &["hello 100"]);
    assert_eq!(process_text(&lex, "Hello.How.Are.You helllo"), "hello how are you hello");
}

#[test]
fn math_tokens_pass() {
    let lex = lexicon(&[], &[]);
    assert_eq!(process_text(&lex, "1+1=2"), "1+1=2");
    assert!(is_math_equation("2*3=6"));
    assert!(!is_math_equation("2x"));
    assert!(is_punctuations_or_symbols("!?$"));
    assert!(!is_punctuations_or_symbols("a!"));
    assert!(needs_no_correction(&lex, "3e5"));
}

#[test]
fn float_literal_grammar() {
    for s in ["42", "3.14", "-3.", ".5", "+1e10", "1E-3", "inf", "-Infinity", "NaN", "0"] {
        assert!(is_a_number(s), "{}", s);
    }
    for s in ["", ".", "e5", "1e", "1e+", "--1", "1.2.3", "abc", "1_000", "infinite", " 1"] {
        assert!(!is_a_number(s), "{}", s);
    }
}

#[test]
fn whole_line_is_normalized() {
    let lex = lexicon(&["mail", "me", "at", "email"], &[]);
    let emoticons = ReplacementTable::new();
    let emojis = ReplacementTable::new();
    let r = text_profanity_process("Mail me at foo@bar.com", &emoticons, &emojis, &lex);
    assert_eq!(r, "mail me at email");
}

#[test]
fn apply_runs_a_step() {
    assert_eq!(apply("ﬁ", unicode_normalize), "fi");
}

#[test]
fn text_helpers() {
    let w = split_words(" a  bc\n d ");
    assert_eq!(w, vec!["a".to_string(), "bc".to_string(), "d".to_string()]);
    assert_eq!(join_with_space(&w), "a bc d");
}

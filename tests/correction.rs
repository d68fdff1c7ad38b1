use text_normalizer::corrector::{
    choose_hypothesis, correct_unknown_word, prepare_segmentation_input, reconcile_segmentations,
    space_out_non_words, strip_white_space, word_segmentation_without_accents, Hypothesis,
};
use text_normalizer::lexicon::Lexicon;
use text_normalizer::spelling::{float_bits_lt, Segmentation};

fn strings(v: &[&str]) -> Vec<String> {
    v.iter().map(|s| s.to_string()).collect()
}

fn english(words: &[&str], frequencies: &[&str], tags: &[&str]) -> Lexicon {
    Lexicon::new(&strings(words), &strings(frequencies), &Vec::new(), None, &strings(tags))
}

#[test]
fn punctuation_separated_known_words() {
    let lex = english(&["hello", "how", "are", "you"], &[], &[]);
    assert_eq!(correct_unknown_word(&lex, "hello.how.are.you"), "hello how are you");
}

#[test]
fn punctuation_separated_words_use_suggestions() {
    let lex = english(&["hello"], &["hello 100", "world 50"], &[]);
    assert_eq!(correct_unknown_word(&lex, "hello,wrld"), "hello world");
}

#[test]
fn repeated_letters_then_segmentation() {
    let lex = english(&[], &["hello 100"], &[]);
    assert_eq!(correct_unknown_word(&lex, "helllo"), "hello");
}

#[test]
fn fused_words_are_segmented() {
    let lex = english(&[], &["you 100", "are 100", "a 100", "now 100"], &[]);
    assert_eq!(correct_unknown_word(&lex, "youarea"), "you are a");
}

#[test]
fn tagged_term_isolated_before_segmentation() {
    let lex = english(&[], &["you 100", "are 100", "a 100", "now 100", "fuck 10"], &["fuck"]);
    assert_eq!(prepare_segmentation_input(&lex, "youareafucknow"), "youarea fuck now");
    let r = correct_unknown_word(&lex, "youareafucknow");
    let words: Vec<&str> = r.split_whitespace().collect();
    assert_eq!(words, vec!["you", "are", "a", "fuck", "now"]);
}

#[test]
fn only_marks_give_empty() {
    let lex = english(&[], &["hello 100"], &[]);
    assert_eq!(correct_unknown_word(&lex, "\u{0301}"), "");
}

#[test]
fn stage_helpers() {
    assert_eq!(space_out_non_words("a.b-c1"), "a b c1");
    assert_eq!(strip_white_space(" a b\tc "), "abc");
}

#[test]
fn remap_counts_graphemes_not_bytes() {
    assert_eq!(word_segmentation_without_accents("đẹptrai", "dep trai"), "đẹp trai");
    assert_eq!(word_segmentation_without_accents("xinchàobạn", "xin chao ban"), "xin chào bạn");
    assert_eq!(word_segmentation_without_accents("abc", "abc"), "abc");
}

#[test]
fn remap_keeps_boundaries_within_text() {
    assert_eq!(word_segmentation_without_accents("ab", "abcd e"), "ab ");
}

fn seg(s: &str, d: i64, p: f64) -> Segmentation {
    Segmentation { segmented_string: s.to_string(), distance_sum: d, prob_log_sum_bits: p.to_bits() }
}

#[test]
fn tie_break_policy() {
    assert_eq!(choose_hypothesis(true, 0, 5, true, false), Hypothesis::AccentSensitive);
    assert_eq!(choose_hypothesis(false, 1, 2, false, false), Hypothesis::AccentStripped);
    assert_eq!(choose_hypothesis(false, 3, 2, true, false), Hypothesis::AccentSensitive);
    assert_eq!(choose_hypothesis(false, 2, 2, true, false), Hypothesis::AccentStripped);
    assert_eq!(choose_hypothesis(false, 2, 2, false, false), Hypothesis::AccentSensitive);
    assert_eq!(choose_hypothesis(false, 2, 2, false, true), Hypothesis::AccentSensitive);
}

#[test]
fn reconcile_prefers_lower_distance() {
    let r = reconcile_segmentations("đẹptrai", &seg("dep trai", 1, -9.0), &seg("đẹpt rai", 4, -5.0));
    assert_eq!(r, "đẹp trai");
}

#[test]
fn reconcile_keeps_accented_when_they_agree() {
    let r = reconcile_segmentations("đẹptrai", &seg("dep trai", 5, -9.0), &seg("đẹp trai", 1, -5.0));
    assert_eq!(r, "đẹp trai");
    let r = reconcile_segmentations("đẹptrai", &seg("dep trai", 0, -9.0), &seg("đẹp trai", 1, -5.0));
    assert_eq!(r, "đẹp trai");
}

#[test]
fn reconcile_breaks_distance_ties_by_probability() {
    let r = reconcile_segmentations("đẹptrai", &seg("dep trai", 2, -9.0), &seg("đẹpt rai", 2, -5.0));
    assert_eq!(r, "đẹp trai");
    let r = reconcile_segmentations("đẹptrai", &seg("dep trai", 2, -5.0), &seg("đẹpt rai", 2, -9.0));
    assert_eq!(r, "đẹpt rai");
    let r = reconcile_segmentations("đẹptrai", &seg("dep trai", 2, -5.0), &seg("đẹpt rai", 2, -5.0));
    assert_eq!(r, "đẹpt rai");
}

#[test]
fn vietnamese_lower_distance_remaps_onto_accents() {
    let lex = Lexicon::new(
        &Vec::new(),
        &strings(&["đẹpt 100"]),
        &Vec::new(),
        Some(&strings(&["dep 100", "trai 100"])),
        &Vec::new(),
    );
    assert_eq!(correct_unknown_word(&lex, "đẹptrai"), "đẹp trai");
}

#[test]
fn float_bit_comparison() {
    assert!(float_bits_lt((-1.0f64).to_bits(), 2.0f64.to_bits()));
    assert!(float_bits_lt((-3.0f64).to_bits(), (-2.0f64).to_bits()));
    assert!(!float_bits_lt((-2.0f64).to_bits(), (-3.0f64).to_bits()));
    assert!(float_bits_lt(1.0f64.to_bits(), 1.5f64.to_bits()));
    assert!(!float_bits_lt(0.0f64.to_bits(), (-0.0f64).to_bits()));
    assert!(!float_bits_lt((-0.0f64).to_bits(), 0.0f64.to_bits()));
    assert!(!float_bits_lt(f64::NAN.to_bits(), 1.0f64.to_bits()));
    assert!(!float_bits_lt(1.0f64.to_bits(), f64::NAN.to_bits()));
    assert!(float_bits_lt(f64::NEG_INFINITY.to_bits(), f64::MIN.to_bits()));
    assert!(!float_bits_lt((-4.5f64).to_bits(), (-4.5f64).to_bits()));
}

#[test]
fn lexicon_membership_is_exact() {
    let lex = english(&["hello", "Hello", "xin chào"], &[], &[]);
    assert!(lex.is_in_corpora("hello"));
    assert!(lex.is_in_corpora("Hello"));
    assert!(lex.is_in_corpora("xin chào"));
    assert!(!lex.is_in_corpora("hell"));
    assert!(!lex.is_in_corpora(""));
    assert!(lex.dictionary_without_accents().is_none());
    assert_eq!(lex.tag_table().len(), 0);
}

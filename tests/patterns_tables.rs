use text_normalizer::lexicon::{tagging_table, uncommented_lines};
use text_normalizer::patterns::{
    aho_corasick_replace_all, emoji_table, get_emoticons_hashmap, get_english_contractions_hashmap,
    get_unicode_emojis_hashmap, get_wikipedia_file_namespace_regex, get_wikipedia_namespace_regex,
    get_wikipedia_shortcuts_hashmap, get_wikipedia_shortcuts_keys_hashmap,
    get_wikipedia_shortcuts_values_hashmap, replace_emoticons, replace_english_contractions,
    replace_unicode_emojis, replace_wikipedia_shortcuts, EmojiEntry, ReplacementTable,
};
use text_normalizer::pipeline::{replace_emails, replace_urls};

fn pairs(v: &[(&str, &str)]) -> Vec<(String, String)> {
    v.iter().map(|(a, b)| (a.to_string(), b.to_string())).collect()
}

#[test]
fn contractions_expand() {
    let t = get_english_contractions_hashmap();
    assert_eq!(t.len(), 10);
    assert_eq!(replace_english_contractions("I can't go", &t), "I can not go");
    assert_eq!(replace_english_contractions("they're here", &t), "they are here");
}

#[test]
fn replacement_ignores_ascii_case_and_prefers_longest() {
    let t = ReplacementTable::from_pairs(&pairs(&[("ab", "X"), ("abc", "Y")]));
    assert_eq!(aho_corasick_replace_all("zABCz ab", &t), "zYz X");
}

#[test]
fn empty_table_leaves_text() {
    let t = ReplacementTable::new();
    assert_eq!(aho_corasick_replace_all("same text", &t), "same text");
}

#[test]
fn emoticon_table_skips_words() {
    let t = get_emoticons_hashmap(&pairs(&[(":)", "smile"), ("xd", "laugh"), ("<3", "heart")]));
    assert_eq!(t.len(), 2);
    assert_eq!(replace_emoticons("hi :) <3", &t), "hi  smile   heart ");
}

#[test]
fn emoji_table_filters_versions() {
    let entries = vec![
        EmojiEntry { major: 15, minor: 1, variants: Some(pairs(&[("👍", "thumbs up"), ("👍🏽", "thumbs up: medium skin tone")])) },
        EmojiEntry { major: 16, minor: 0, variants: Some(pairs(&[("🫩", "face with bags")])) },
        EmojiEntry { major: 6, minor: 0, variants: None },
    ];
    let t = emoji_table(&entries);
    assert_eq!(t.len(), 2);
    assert_eq!(replace_unicode_emojis("ok 👍🏽", &t), "ok  (thumbs up: medium skin tone) ");
}

#[test]
fn unicode_emoji_catalog_table() {
    let t = get_unicode_emojis_hashmap();
    assert!(t.len() > 0);
    assert_eq!(replace_unicode_emojis("👍", &t), " (thumbs up) ");
}

#[test]
fn wikipedia_tables() {
    let e = pairs(&[("WP:NPOV", "Wikipedia:Neutral point of view")]);
    assert_eq!(get_wikipedia_shortcuts_keys_hashmap(&e).len(), 1);
    assert_eq!(get_wikipedia_shortcuts_values_hashmap(&e).len(), 1);
    let t = get_wikipedia_shortcuts_hashmap(&e);
    assert_eq!(t.len(), 2);
    assert_eq!(replace_wikipedia_shortcuts("see wp:npov", &t), "see  (wikipedia shortcut) ");
}

#[test]
fn wikipedia_regexes() {
    assert!(get_wikipedia_namespace_regex().starts_with("(talk|user|wikipedia"));
    assert!(get_wikipedia_file_namespace_regex().starts_with("(file|image)"));
}

#[test]
fn emails_and_urls_become_tags() {
    assert_eq!(replace_emails("write to foo@bar.com now"), "write to  (email)  now");
    assert_eq!(replace_urls("see example.com/page now"), "see  (url)  now");
    assert_eq!(replace_urls("nothing here"), "nothing here");
}

#[test]
fn tagging_sets_terms_apart() {
    let t = tagging_table(&vec!["bad".to_string()]);
    assert_eq!(aho_corasick_replace_all("sobadnow", &t), "so bad now");
}

#[test]
fn comment_lines_are_skipped() {
    let lines = vec!["# header".to_string(), "word".to_string(), "".to_string(), "two words".to_string()];
    assert_eq!(uncommented_lines(&lines), vec!["word".to_string(), "two words".to_string()]);
}

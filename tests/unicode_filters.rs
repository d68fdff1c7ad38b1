use text_normalizer::unicode::{
    get_unicode_block, get_unicode_category, unicode_decode, unicode_decode_vietnamese,
    unicode_filter_by_blocks, unicode_filter_by_categories, unicode_normalize,
};

#[test]
fn categories_of_characters() {
    assert_eq!(get_unicode_category(&'a'), 'L');
    assert_eq!(get_unicode_category(&'7'), 'N');
    assert_eq!(get_unicode_category(&'.'), 'P');
    assert_eq!(get_unicode_category(&'+'), 'S');
    assert_eq!(get_unicode_category(&' '), 'Z');
    assert_eq!(get_unicode_category(&'\u{0301}'), 'M');
    assert_eq!(get_unicode_category(&'\u{0007}'), 'C');
}

#[test]
fn block_of_characters() {
    assert_eq!(get_unicode_block(&'a'), Some("Basic Latin".to_string()));
    assert_eq!(get_unicode_block(&'б'), Some("Cyrillic".to_string()));
}

#[test]
fn normalize_to_nfkc() {
    assert_eq!(unicode_normalize("ﬁne"), "fine");
    assert_eq!(unicode_normalize("e\u{0301}"), "é");
}

#[test]
fn filter_blocks_drops_other_scripts() {
    assert_eq!(unicode_filter_by_blocks("abбв—c"), "ab—c");
    assert_eq!(unicode_filter_by_blocks(""), "");
}

#[test]
fn filter_categories_drops_controls() {
    assert_eq!(unicode_filter_by_categories("a\u{0007}b\u{200B}c"), "abc");
}

#[test]
fn decode_to_ascii() {
    assert_eq!(unicode_decode("đẹp"), "dep");
    assert_eq!(unicode_decode("plain"), "plain");
}

#[test]
fn decode_keeps_vietnamese_letters() {
    assert_eq!(unicode_decode_vietnamese("đẹp ß"), "đẹp ss");
    assert_eq!(unicode_decode_vietnamese("Ñandú"), "Nandú");
}

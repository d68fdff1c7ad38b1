//! Per-character Unicode classification and the filters built on it.
use vstd::prelude::*;
use unicode_blocks::find_unicode_block;
use unicode_normalization::UnicodeNormalization;
use unicode_properties::{GeneralCategoryGroup, UnicodeGeneralCategory};
use crate::text::{chars_of, push_char};

verus! {

/// The letter of a character's general category group: one of
/// `L`, `M`, `N`, `P`, `S`, `Z` and `C`.
pub uninterp spec fn category_of(c: char) -> char;

/// The name of the Unicode block a character lies in, if any.
pub uninterp spec fn block_name_of(c: char) -> Option<Seq<char>>;

/// The NFKC normal form of a string.
pub uninterp spec fn nfkc_of(s: Seq<char>) -> Seq<char>;

/// The ASCII transliteration of a string.
pub uninterp spec fn ascii_of(s: Seq<char>) -> Seq<char>;

pub open spec fn is_category_letter(k: char) -> bool {
    k == 'L' || k == 'M' || k == 'N' || k == 'P' || k == 'S' || k == 'Z' || k == 'C'
}

/// Relies on `unicode_properties::UnicodeGeneralCategory::general_category_group`:
/// the group of the character's general category, one letter per group.
#[verifier::external_body]
pub fn get_unicode_category(letter: &char) -> (r: char)
    ensures
        r == category_of(*letter),
        is_category_letter(r),
{
    match letter.general_category_group() {
        GeneralCategoryGroup::Letter => 'L',
        GeneralCategoryGroup::Mark => 'M',
        GeneralCategoryGroup::Number => 'N',
        GeneralCategoryGroup::Punctuation => 'P',
        GeneralCategoryGroup::Symbol => 'S',
        GeneralCategoryGroup::Separator => 'Z',
        GeneralCategoryGroup::Other => 'C',
    }
}

/// Relies on `unicode_blocks::find_unicode_block` and `UnicodeBlock::name`:
/// the name of the block that holds the character, `None` outside every block.
#[verifier::external_body]
pub fn get_unicode_block(letter: &char) -> (r: Option<String>)
    ensures
        r matches Some(n) ==> block_name_of(*letter) == Some(n@),
        r is None ==> block_name_of(*letter) is None,
{
    find_unicode_block(*letter).map(|b| b.name().to_owned())
}

/// Relies on `unicode_normalization::UnicodeNormalization::nfkc`: the
/// compatibility composition of the text.
#[verifier::external_body]
pub fn unicode_normalize(text: &str) -> (r: String)
    ensures
        r@ == nfkc_of(text@),
{
    text.nfkc().collect::<String>()
}

/// Relies on `deunicode::deunicode`: every character replaced by its ASCII
/// transliteration.
#[verifier::external_body]
pub fn unicode_decode(text: &str) -> (r: String)
    ensures
        r@ == ascii_of(text@),
{
    deunicode::deunicode(text)
}

/// Relies on `str::contains`: whether `needle` occurs as a contiguous part of `hay`.
#[verifier::external_body]
fn str_contains(hay: &str, needle: &str) -> (r: bool)
    ensures
        r == has_infix(hay@, needle@),
{
    hay.contains(needle)
}

pub open spec fn has_infix(hay: Seq<char>, needle: Seq<char>) -> bool {
    exists|i: int| 0 <= i <= hay.len() - needle.len() && #[trigger] hay.subrange(i, i + needle.len()) == needle
}

/// Whether a block name belongs to the scripts and symbols that are kept.
pub open spec fn allowed_block_name(name: Seq<char>) -> bool {
    ||| has_infix(name, "Latin"@)
    ||| has_infix(name, "Greek"@)
    ||| has_infix(name, "Phonetic"@)
    ||| has_infix(name, "Spacing"@)
    ||| has_infix(name, "General Punctuation"@)
    ||| has_infix(name, "Currency Symbols"@)
    ||| has_infix(name, "IPA"@)
}

pub open spec fn in_allowed_block(c: char) -> bool {
    block_name_of(c) matches Some(n) && allowed_block_name(n)
}

/// The characters of `s` that satisfy `keep`, in order.
pub open spec fn kept_chars(s: Seq<char>, keep: spec_fn(char) -> bool) -> Seq<char>
    decreases s.len(),
{
    if s.len() == 0 {
        Seq::empty()
    } else if keep(s.last()) {
        kept_chars(s.drop_last(), keep).push(s.last())
    } else {
        kept_chars(s.drop_last(), keep)
    }
}

fn char_in_allowed_block(c: char) -> (r: bool)
    ensures
        r == in_allowed_block(c),
{
    match get_unicode_block(&c) {
        None => false,
        Some(name) => {
            let n = name.as_str();
            str_contains(n, "Latin") || str_contains(n, "Greek") || str_contains(n, "Phonetic")
                || str_contains(n, "Spacing") || str_contains(n, "General Punctuation")
                || str_contains(n, "Currency Symbols") || str_contains(n, "IPA")
        },
    }
}

/// Keeps the characters whose Unicode block is one of the accepted ones.
pub fn unicode_filter_by_blocks(text: &str) -> (r: String)
    ensures
        r@ == kept_chars(text@, |c: char| in_allowed_block(c)),
{
    let cs = chars_of(text);
    let mut out = String::new();
    let mut i: usize = 0;
    while i < cs.len()
        invariant
            cs@ == text@,
            i <= cs@.len(),
            out@ == kept_chars(cs@.take(i as int), |c: char| in_allowed_block(c)),
        decreases cs@.len() - i,
    {
        assert(cs@.take(i + 1).drop_last() =~= cs@.take(i as int));
        if char_in_allowed_block(cs[i]) {
            push_char(&mut out, cs[i]);
        }
        i = i + 1;
    }
    assert(cs@.take(i as int) =~= cs@);
    out
}

/// Drops the characters of the "other" category group (controls, formats,
/// unassigned and private-use code points).
pub fn unicode_filter_by_categories(text: &str) -> (r: String)
    ensures
        r@ == kept_chars(text@, |c: char| category_of(c) != 'C'),
{
    let cs = chars_of(text);
    let mut out = String::new();
    let mut i: usize = 0;
    while i < cs.len()
        invariant
            cs@ == text@,
            i <= cs@.len(),
            out@ == kept_chars(cs@.take(i as int), |c: char| category_of(c) != 'C'),
        decreases cs@.len() - i,
    {
        assert(cs@.take(i + 1).drop_last() =~= cs@.take(i as int));
        if get_unicode_category(&cs[i]) != 'C' {
            push_char(&mut out, cs[i]);
        }
        i = i + 1;
    }
    assert(cs@.take(i as int) =~= cs@);
    out
}

/// The letters of the Vietnamese alphabet, with every tone mark, in both cases.
pub const VIETNAMESE_LETTERS: &'static str = "AaÁáÀàẢảÃãẠạĂăẮắẰằẲẳẴẵẶặÂâẤấẦầẨẩẪẫẬậBbCcDdĐđEeÉéÈèẺẻẼẽẸẹÊêẾếỀềỂểỄễỆệGgHhIiÍíÌìỈỉĨĩỊịKkLlMmNnOoÓóÒòỎỏÕõỌọÔôỐốỒồỔổỖỗỘộƠơỚớỜờỞởỠỡỢợPpQqRrSsTtUuÚúÙùỦủŨũỤụƯưỨứỪừỬửỮữỰựVvXxYyÝýỲỳỶỷỸỹỴỵ";

/// What the Vietnamese-preserving transliteration makes of one character.
pub open spec fn vietnamese_decoded_char(c: char) -> Seq<char> {
    if VIETNAMESE_LETTERS@.contains(c) {
        seq![c]
    } else {
        ascii_of(seq![c])
    }
}

/// The Vietnamese-preserving transliteration of a string, character by character.
pub open spec fn vietnamese_decoded(s: Seq<char>) -> Seq<char>
    decreases s.len(),
{
    if s.len() == 0 {
        Seq::empty()
    } else {
        vietnamese_decoded(s.drop_last()) + vietnamese_decoded_char(s.last())
    }
}

fn is_vietnamese_letter(c: char) -> (r: bool)
    ensures
        r == VIETNAMESE_LETTERS@.contains(c),
{
    let letters = chars_of(VIETNAMESE_LETTERS);
    let mut i: usize = 0;
    while i < letters.len()
        invariant
            letters@ == VIETNAMESE_LETTERS@,
            i <= letters@.len(),
            forall|j: int| 0 <= j < i ==> letters@[j] != c,
        decreases letters@.len() - i,
    {
        if letters[i] == c {
            return true;
        }
        i = i + 1;
    }
    false
}

/// Transliterates to ASCII every character that is not a Vietnamese letter,
/// and keeps the Vietnamese letters with their diacritics.
pub fn unicode_decode_vietnamese(text: &str) -> (r: String)
    ensures
        r@ == vietnamese_decoded(text@),
{
    let cs = chars_of(text);
    let mut out = String::new();
    let mut i: usize = 0;
    while i < cs.len()
        invariant
            cs@ == text@,
            i <= cs@.len(),
            out@ == vietnamese_decoded(cs@.take(i as int)),
        decreases cs@.len() - i,
    {
        assert(cs@.take(i + 1).drop_last() =~= cs@.take(i as int));
        let c = cs[i];
        if is_vietnamese_letter(c) {
            push_char(&mut out, c);
        } else {
            let mut one = String::new();
            push_char(&mut one, c);
            let decoded = unicode_decode(one.as_str());
            assert(one@ =~= seq![c]);
            out.append(decoded.as_str());
        }
        i = i + 1;
    }
    assert(cs@.take(i as int) =~= cs@);
    out
}

} // verus!

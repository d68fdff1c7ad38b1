//! The text pipeline: splits text into tokens, lets through the tokens that
//! need no repair and sends the others to the correction engine.
use vstd::prelude::*;
use linkify::{LinkFinder, LinkKind};
use crate::corrector::{correct_unknown_word, corrected};
use crate::lexicon::Lexicon;
use crate::number::{is_a_number, is_float_literal};
use crate::patterns::{aho_corasick_replace_all, replaced_all, replaced_by_table, string_views, ReplacementTable};
use crate::text::{chars_of, join_with_space, joined, lower_of, lowercase, split_words, white_space, words_of};
use crate::unicode::{
    category_of, get_unicode_category, in_allowed_block, kept_chars, nfkc_of, unicode_decode_vietnamese,
    unicode_filter_by_blocks, unicode_filter_by_categories, unicode_normalize, vietnamese_decoded,
};

verus! {

/// Every character is punctuation or a symbol.
pub open spec fn punctuation_or_symbols(w: Seq<char>) -> bool {
    forall|i: int| 0 <= i < w.len() ==> #[trigger] category_of(w[i]) == 'P' || category_of(w[i]) == 'S'
}

/// Every character is a number, a symbol or punctuation.
pub open spec fn math_like(w: Seq<char>) -> bool {
    forall|i: int| 0 <= i < w.len() ==> #[trigger] category_of(w[i]) == 'N' || category_of(w[i]) == 'S'
        || category_of(w[i]) == 'P'
}

/// Whether every character of `word` is punctuation or a symbol.
pub fn is_punctuations_or_symbols(word: &str) -> (r: bool)
    ensures
        r == punctuation_or_symbols(word@),
{
    let cs = chars_of(word);
    let mut i: usize = 0;
    while i < cs.len()
        invariant
            cs@ == word@,
            i <= cs@.len(),
            forall|j: int| 0 <= j < i ==> #[trigger] category_of(cs@[j]) == 'P' || category_of(cs@[j]) == 'S',
        decreases cs@.len() - i,
    {
        let k = get_unicode_category(&cs[i]);
        if k != 'P' && k != 'S' {
            return false;
        }
        i = i + 1;
    }
    true
}

/// Whether `word` looks like a formula: numbers, symbols and punctuation only.
pub fn is_math_equation(word: &str) -> (r: bool)
    ensures
        r == math_like(word@),
{
    let cs = chars_of(word);
    let mut i: usize = 0;
    while i < cs.len()
        invariant
            cs@ == word@,
            i <= cs@.len(),
            forall|j: int| 0 <= j < i ==> #[trigger] category_of(cs@[j]) == 'N' || category_of(cs@[j]) == 'S'
                || category_of(cs@[j]) == 'P',
        decreases cs@.len() - i,
    {
        let k = get_unicode_category(&cs[i]);
        if k != 'N' && k != 'S' && k != 'P' {
            return false;
        }
        i = i + 1;
    }
    true
}

/// The rules that let a lowercased token through unchanged, in order: a
/// number, punctuation and symbols only, a formula, a known word.
pub open spec fn passes_through(lex: &Lexicon, w: Seq<char>) -> bool {
    ||| is_float_literal(w)
    ||| punctuation_or_symbols(w)
    ||| math_like(w)
    ||| lex.known(w)
}

/// Whether a lowercased token goes through unchanged.
pub fn needs_no_correction(lex: &Lexicon, word: &str) -> (r: bool)
    ensures
        r == passes_through(lex, word@),
{
    is_a_number(word) || is_punctuations_or_symbols(word) || is_math_equation(word) || lex.is_in_corpora(word)
}

/// What the pipeline may put out for the token `w`: the lowercased token
/// where it passes through, else what the correction engine may make of it.
pub open spec fn token_output(lex: &Lexicon, w: Seq<char>, out: Seq<char>) -> bool {
    if passes_through(lex, lower_of(w)) {
        out == lower_of(w)
    } else {
        corrected(lex, lower_of(w), out)
    }
}

/// `r` is one output per token of `text`, joined by single spaces.
pub open spec fn processed(lex: &Lexicon, text: Seq<char>, r: Seq<char>) -> bool {
    exists|outs: Seq<Seq<char>>|
        #![trigger joined(outs)]
        outs.len() == words_of(text).len() && r == joined(outs) && forall|i: int|
            0 <= i < outs.len() ==> token_output(lex, words_of(text)[i], #[trigger] outs[i])
}

/// Normalizes each white-space separated token of `text` and joins the
/// results with single spaces.
pub fn process_text(lex: &Lexicon, text: &str) -> (r: String)
    requires
        lex.wf(),
    ensures
        processed(lex, text@, r@),
{
    let words = split_words(text);
    let ghost ws = string_views(words@);
    assert(ws =~= words_of(text@));
    let mut outs: Vec<String> = Vec::new();
    let mut i: usize = 0;
    while i < words.len()
        invariant
            lex.wf(),
            ws == string_views(words@),
            i <= words@.len(),
            outs@.len() == i,
            forall|j: int| 0 <= j < i ==> token_output(lex, ws[j], #[trigger] outs@[j]@),
        decreases words@.len() - i,
    {
        let word = lowercase(words[i].as_str());
        let out = if needs_no_correction(lex, word.as_str()) {
            word
        } else {
            correct_unknown_word(lex, word.as_str())
        };
        outs.push(out);
        i = i + 1;
    }
    let r = join_with_space(&outs);
    let ghost ov = string_views(outs@);
    assert(ov.len() == words_of(text@).len() && r@ == joined(ov) && forall|k: int|
        0 <= k < ov.len() ==> token_output(lex, words_of(text@)[k], #[trigger] ov[k]));
    r
}

proof fn lemma_single_token(w: Seq<char>)
    requires
        w.len() > 0,
        forall|i: int| 0 <= i < w.len() ==> !white_space(#[trigger] w[i]),
    ensures
        words_of(w) == seq![w],
    decreases w.len(),
{
    if w.len() == 1 {
        assert(w.drop_last() =~= Seq::<char>::empty());
        assert(words_of(w.drop_last()) =~= Seq::<Seq<char>>::empty());
        assert(seq![w.last()] =~= w);
    } else {
        let pre = w.drop_last();
        assert forall|i: int| 0 <= i < pre.len() implies !white_space(#[trigger] pre[i]) by {
            assert(pre[i] == w[i]);
        }
        lemma_single_token(pre);
        assert(!white_space(w[w.len() - 2]));
        assert(pre.push(w.last()) =~= w);
        assert(seq![pre].update(0, pre.push(w.last())) =~= seq![w]);
    }
}

proof fn lemma_single_token_passes(lex: &Lexicon, w: Seq<char>, r: Seq<char>)
    requires
        processed(lex, w, r),
        w.len() > 0,
        forall|i: int| 0 <= i < w.len() ==> !white_space(#[trigger] w[i]),
        lower_of(w) == w,
        passes_through(lex, w),
    ensures
        r == w,
{
    lemma_single_token(w);
    let outs = choose|outs: Seq<Seq<char>>|
        #![trigger joined(outs)]
        outs.len() == words_of(w).len() && r == joined(outs) && forall|i: int|
            0 <= i < outs.len() ==> token_output(lex, words_of(w)[i], #[trigger] outs[i]);
    assert(token_output(lex, words_of(w)[0], outs[0]));
}

/// A word of the dictionary, written in lowercase and alone on its line,
/// comes out of the pipeline unchanged.
pub proof fn lemma_known_word_unchanged(lex: &Lexicon, w: Seq<char>, r: Seq<char>)
    requires
        processed(lex, w, r),
        w.len() > 0,
        forall|i: int| 0 <= i < w.len() ==> !white_space(#[trigger] w[i]),
        lower_of(w) == w,
        lex.known(w),
    ensures
        r == w,
{
    lemma_single_token_passes(lex, w, r);
}

/// A number, or a run of punctuation and symbols, alone on its line and
/// unaffected by lowercasing, comes out of the pipeline unchanged.
pub proof fn lemma_number_or_punctuation_unchanged(lex: &Lexicon, w: Seq<char>, r: Seq<char>)
    requires
        processed(lex, w, r),
        w.len() > 0,
        forall|i: int| 0 <= i < w.len() ==> !white_space(#[trigger] w[i]),
        lower_of(w) == w,
        is_float_literal(w) || punctuation_or_symbols(w),
    ensures
        r == w,
{
    lemma_single_token_passes(lex, w, r);
}

/// The e-mail addresses that `linkify` finds in a text, in order.
pub uninterp spec fn emails_in(text: Seq<char>) -> Seq<Seq<char>>;

/// The URLs, with or without a scheme, that `linkify` finds in a text, in order.
pub uninterp spec fn urls_in(text: Seq<char>) -> Seq<Seq<char>>;

/// Relies on `linkify::LinkFinder::links` restricted to `LinkKind::Email`.
#[verifier::external_body]
fn find_emails(text: &str) -> (r: Vec<String>)
    ensures
        string_views(r@) == emails_in(text@),
{
    let mut finder = LinkFinder::new();
    finder.kinds(&[LinkKind::Email]);
    finder.links(text).map(|l| l.as_str().to_owned()).collect()
}

/// Relies on `linkify::LinkFinder::links` restricted to `LinkKind::Url`,
/// with the scheme optional.
#[verifier::external_body]
fn find_urls(text: &str) -> (r: Vec<String>)
    ensures
        string_views(r@) == urls_in(text@),
{
    let mut finder = LinkFinder::new();
    finder.kinds(&[LinkKind::Url]);
    finder.url_must_have_scheme(false);
    finder.links(text).map(|l| l.as_str().to_owned()).collect()
}

/// `text` with the patterns replaced, or unchanged where no automaton can be built.
pub open spec fn replaced_or_kept(patterns: Seq<Seq<char>>, replacements: Seq<Seq<char>>, text: Seq<char>) -> Seq<char> {
    match replaced_all(patterns, replacements, text) {
        Some(t) => t,
        None => text,
    }
}

/// A table that maps every given pattern to the same tag.
fn uniform_table(patterns: &Vec<String>, tag: &str) -> (r: ReplacementTable)
    ensures
        r.wf(),
        r.patterns_view() == string_views(patterns@),
        r.replacements_view() == Seq::new(patterns@.len(), |i: int| tag@),
{
    let mut r = ReplacementTable::new();
    let mut i: usize = 0;
    while i < patterns.len()
        invariant
            i <= patterns@.len(),
            r.wf(),
            r.patterns_view() =~= string_views(patterns@.take(i as int)),
            r.replacements_view() =~= Seq::new(i as nat, |j: int| tag@),
        decreases patterns@.len() - i,
    {
        r.insert(patterns[i].clone(), tag.to_owned());
        i = i + 1;
        assert(patterns@.take(i as int).drop_last() =~= patterns@.take(i - 1));
    }
    assert(patterns@.take(i as int) =~= patterns@);
    r
}

pub open spec fn email_tag() -> Seq<char> {
    " (email) "@
}

pub open spec fn url_tag() -> Seq<char> {
    " (url) "@
}

/// Replaces every e-mail address found in the text by the e-mail tag.
pub fn replace_emails(text: &str) -> (r: String)
    ensures
        r@ == replaced_or_kept(emails_in(text@), Seq::new(emails_in(text@).len(), |i: int| email_tag()), text@),
{
    let found = find_emails(text);
    let table = uniform_table(&found, " (email) ");
    aho_corasick_replace_all(text, &table)
}

/// Replaces every URL found in the text by the URL tag.
pub fn replace_urls(text: &str) -> (r: String)
    ensures
        r@ == replaced_or_kept(urls_in(text@), Seq::new(urls_in(text@).len(), |i: int| url_tag()), text@),
{
    let found = find_urls(text);
    let table = uniform_table(&found, " (url) ");
    aho_corasick_replace_all(text, &table)
}

/// The text after the substitution and filtering steps, before tokens are
/// corrected: NFKC form, e-mails, URLs, emoticons and emojis replaced,
/// characters outside the accepted blocks and of the "other" categories
/// dropped, non-Vietnamese letters transliterated.
pub open spec fn cleaned(text: Seq<char>, emoticons: &ReplacementTable, emojis: &ReplacementTable) -> Seq<char> {
    let t1 = nfkc_of(text);
    let t2 = replaced_or_kept(emails_in(t1), Seq::new(emails_in(t1).len(), |i: int| email_tag()), t1);
    let t3 = replaced_or_kept(urls_in(t2), Seq::new(urls_in(t2).len(), |i: int| url_tag()), t2);
    let t4 = replaced_by_table(emoticons, t3);
    let t5 = replaced_by_table(emojis, t4);
    let t6 = kept_chars(t5, |c: char| in_allowed_block(c));
    let t7 = kept_chars(t6, |c: char| category_of(c) != 'C');
    vietnamese_decoded(t7)
}

/// The whole normalization of one line of text.
pub fn text_profanity_process(
    text: &str,
    emoticons: &ReplacementTable,
    emojis: &ReplacementTable,
    lex: &Lexicon,
) -> (r: String)
    requires
        emoticons.wf(),
        emojis.wf(),
        lex.wf(),
    ensures
        processed(lex, cleaned(text@, emoticons, emojis), r@),
{
    let t = apply(text, unicode_normalize);
    let t = apply(t.as_str(), replace_emails);
    let t = apply(t.as_str(), replace_urls);
    let t = aho_corasick_replace_all(t.as_str(), emoticons);
    let t = aho_corasick_replace_all(t.as_str(), emojis);
    let t = apply(t.as_str(), unicode_filter_by_blocks);
    let t = apply(t.as_str(), unicode_filter_by_categories);
    let t = apply(t.as_str(), unicode_decode_vietnamese);
    process_text(lex, t.as_str())
}

/// Runs one text-to-text step on `line`.
pub fn apply<F: Fn(&str) -> String>(line: &str, f: F) -> (r: String)
    requires
        f.requires((line,)),
    ensures
        f.ensures((line,), r),
{
    f(line)
}

} // verus!

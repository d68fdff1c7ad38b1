//! The frequency dictionaries: fuzzy lookup and word segmentation, and the
//! comparison of segmentation scores.
use vstd::prelude::*;
use symspell::{SymSpell, UnicodeStringStrategy, Verbosity};

verus! {

/// A word-frequency dictionary (optionally with bigram frequencies) that
/// answers fuzzy lookups and segments fused words.
#[verifier::external_body]
pub struct Dictionary {
    spell: SymSpell<UnicodeStringStrategy>,
}

/// The largest edit distance that lookups in the dictionary may ask for.
pub uninterp spec fn lookup_distance_limit(dictionary: Dictionary) -> int;

/// The edit distance used for suggestions and segmentation.
pub const MAX_EDIT_DISTANCE: i64 = 2;

/// Relies on `SymSpell::default`: an empty dictionary whose lookups may ask
/// for an edit distance of up to 2.
#[verifier::external_body]
pub(crate) fn new_dictionary() -> (r: Dictionary)
    ensures
        lookup_distance_limit(r) == 2,
{
    Dictionary { spell: SymSpell::default() }
}

/// Relies on `SymSpell::load_dictionary_line`: adds a "word count" line;
/// the lookup limit stays as it was.
#[verifier::external_body]
pub(crate) fn load_word_line(dictionary: &mut Dictionary, line: &str)
    ensures
        lookup_distance_limit(*final(dictionary)) == lookup_distance_limit(*old(dictionary)),
{
    dictionary.spell.load_dictionary_line(line, 0, 1, " ");
}

/// Relies on `SymSpell::load_bigram_dictionary_line`: adds a
/// "word word count" line; the lookup limit stays as it was.
#[verifier::external_body]
pub(crate) fn load_bigram_line(dictionary: &mut Dictionary, line: &str)
    ensures
        lookup_distance_limit(*final(dictionary)) == lookup_distance_limit(*old(dictionary)),
{
    dictionary.spell.load_bigram_dictionary_line(line, 0, 2, " ");
}

/// Relies on `SymSpell::lookup` with `Verbosity::Top`, which yields at most
/// one suggestion and panics when the distance exceeds the dictionary's limit.
#[verifier::external_body]
pub(crate) fn top_suggestion(dictionary: &Dictionary, word: &str) -> (r: Option<String>)
    requires
        lookup_distance_limit(*dictionary) >= MAX_EDIT_DISTANCE,
{
    dictionary.spell.lookup(word, Verbosity::Top, MAX_EDIT_DISTANCE).into_iter().next().map(|s| s.term)
}

/// One segmentation hypothesis: the text with word boundaries inserted, its
/// total edit distance, and the bits of its total log10 probability.
pub struct Segmentation {
    pub segmented_string: String,
    pub distance_sum: i64,
    pub prob_log_sum_bits: u64,
}

/// Relies on `SymSpell::word_segmentation`, which panics on empty input and
/// looks words up at the given edit distance.
#[verifier::external_body]
pub(crate) fn word_segmentation(dictionary: &Dictionary, input: &str) -> (r: Segmentation)
    requires
        input@.len() > 0,
        lookup_distance_limit(*dictionary) >= MAX_EDIT_DISTANCE,
{
    let c = dictionary.spell.word_segmentation(input, MAX_EDIT_DISTANCE);
    Segmentation {
        segmented_string: c.segmented_string,
        distance_sum: c.distance_sum,
        prob_log_sum_bits: c.prob_log_sum.to_bits(),
    }
}

pub open spec fn sign_bit(b: u64) -> bool {
    b >= 0x8000_0000_0000_0000
}

pub open spec fn magnitude(b: u64) -> u64 {
    if sign_bit(b) { (b - 0x8000_0000_0000_0000) as u64 } else { b }
}

/// Whether the bits encode a NaN: all exponent bits set, fraction not zero.
pub open spec fn is_nan_bits(b: u64) -> bool {
    magnitude(b) > 0x7FF0_0000_0000_0000
}

/// IEEE 754 `a < b` on two binary64 values given by their bits: false when
/// either is NaN; the two zeros are equal; otherwise sign and magnitude order.
pub open spec fn float_bits_less(a: u64, b: u64) -> bool {
    if is_nan_bits(a) || is_nan_bits(b) {
        false
    } else if magnitude(a) == 0 && magnitude(b) == 0 {
        false
    } else if sign_bit(a) && !sign_bit(b) {
        true
    } else if !sign_bit(a) && sign_bit(b) {
        false
    } else if !sign_bit(a) {
        magnitude(a) < magnitude(b)
    } else {
        magnitude(a) > magnitude(b)
    }
}

/// `a < b` on the binary64 values whose bits are given.
pub fn float_bits_lt(a: u64, b: u64) -> (r: bool)
    ensures
        r == float_bits_less(a, b),
{
    let sa = a >= 0x8000_0000_0000_0000;
    let sb = b >= 0x8000_0000_0000_0000;
    let ma = if sa { a - 0x8000_0000_0000_0000 } else { a };
    let mb = if sb { b - 0x8000_0000_0000_0000 } else { b };
    if ma > 0x7FF0_0000_0000_0000 || mb > 0x7FF0_0000_0000_0000 {
        false
    } else if ma == 0 && mb == 0 {
        false
    } else if sa && !sb {
        true
    } else if !sa && sb {
        false
    } else if !sa {
        ma < mb
    } else {
        ma > mb
    }
}

} // verus!

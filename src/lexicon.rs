//! The loaded dictionaries of one language, built once and then only read.
use vstd::prelude::*;
use vstd::hash_set::StringHashSet;
use crate::patterns::{spaced, string_views, ReplacementTable};
use crate::spelling::{load_bigram_line, load_word_line, lookup_distance_limit, new_dictionary, Dictionary, MAX_EDIT_DISTANCE};
use crate::text::chars_of;

verus! {

/// Everything the correction engine consults: the set of valid words, the
/// frequency dictionary, for Vietnamese a second frequency dictionary of
/// accent-free forms, and the terms (swear words, names) that are set apart
/// before segmentation.
pub struct Lexicon {
    words: StringHashSet,
    dictionary: Dictionary,
    dictionary_without_accents: Option<Dictionary>,
    tags: ReplacementTable,
}

/// Whether `w` is one of the strings of `v`.
pub open spec fn listed(v: Seq<String>, w: Seq<char>) -> bool {
    exists|i: int| 0 <= i < v.len() && (#[trigger] v[i])@ == w
}

/// The tagging entries for the given terms: each term, set between spaces.
pub open spec fn tag_replacements(terms: Seq<Seq<char>>) -> Seq<Seq<char>> {
    terms.map_values(|t: Seq<char>| spaced(t))
}

impl Lexicon {
    /// Whether `w` is a valid word.
    pub closed spec fn known(&self, w: Seq<char>) -> bool {
        self.words@.contains(w)
    }

    /// The table that isolates tagged terms.
    pub closed spec fn tags(&self) -> ReplacementTable {
        self.tags
    }

    /// Whether an accent-free dictionary stands beside the main one.
    pub closed spec fn has_accentless_model(&self) -> bool {
        self.dictionary_without_accents is Some
    }

    pub closed spec fn wf(&self) -> bool {
        &&& self.tags.wf()
        &&& lookup_distance_limit(self.dictionary) >= MAX_EDIT_DISTANCE
        &&& (self.dictionary_without_accents matches Some(d) ==> lookup_distance_limit(d) >= MAX_EDIT_DISTANCE)
    }

    /// Builds a lexicon from the valid words, the "word count" lines of the
    /// frequency dictionary, its "word word count" bigram lines, for
    /// Vietnamese the lines of the accent-free dictionary, and the terms to
    /// tag.
    pub fn new(
        words: &Vec<String>,
        frequency_lines: &Vec<String>,
        bigram_lines: &Vec<String>,
        accentless_lines: Option<&Vec<String>>,
        tagged_terms: &Vec<String>,
    ) -> (r: Lexicon)
        ensures
            r.wf(),
            forall|w: Seq<char>| r.known(w) <==> listed(words@, w),
            r.has_accentless_model() == accentless_lines is Some,
            r.tags().patterns_view() == string_views(tagged_terms@),
            r.tags().replacements_view() == tag_replacements(string_views(tagged_terms@)),
    {
        let mut set = StringHashSet::new();
        let mut i: usize = 0;
        while i < words.len()
            invariant
                i <= words@.len(),
                forall|w: Seq<char>| set@.contains(w) <==> listed(words@.take(i as int), w),
            decreases words@.len() - i,
        {
            set.insert(words[i].clone());
            i = i + 1;
            assert forall|w: Seq<char>| set@.contains(w) <==> listed(words@.take(i as int), w) by {
                if listed(words@.take(i as int), w) {
                    let j = choose|j: int| 0 <= j < i && (#[trigger] words@.take(i as int)[j])@ == w;
                    if j < i - 1 {
                        assert(words@.take(i - 1)[j] == words@.take(i as int)[j]);
                    }
                }
                if listed(words@.take(i - 1), w) {
                    let j = choose|j: int| 0 <= j < i - 1 && (#[trigger] words@.take(i - 1)[j])@ == w;
                    assert(words@.take(i as int)[j] == words@.take(i - 1)[j]);
                }
                assert(words@.take(i as int)[i - 1] == words@[i - 1]);
            }
        }
        assert(words@.take(words@.len() as int) =~= words@);
        let dictionary = load_dictionary(frequency_lines, bigram_lines);
        let dictionary_without_accents = match accentless_lines {
            Some(lines) => Some(load_dictionary(lines, &Vec::new())),
            None => None,
        };
        Lexicon { words: set, dictionary, dictionary_without_accents, tags: tagging_table(tagged_terms) }
    }

    /// Whether `word` is a valid word.
    pub fn is_in_corpora(&self, word: &str) -> (r: bool)
        ensures
            r == self.known(word@),
    {
        self.words.contains(word)
    }

    /// The frequency dictionary used for suggestions and segmentation.
    pub fn dictionary(&self) -> (r: &Dictionary)
        requires
            self.wf(),
        ensures
            lookup_distance_limit(*r) >= MAX_EDIT_DISTANCE,
    {
        &self.dictionary
    }

    /// The accent-free frequency dictionary, where there is one.
    pub fn dictionary_without_accents(&self) -> (r: Option<&Dictionary>)
        requires
            self.wf(),
        ensures
            r is Some == self.has_accentless_model(),
            r matches Some(d) ==> lookup_distance_limit(*d) >= MAX_EDIT_DISTANCE,
    {
        match &self.dictionary_without_accents {
            Some(d) => Some(d),
            None => None,
        }
    }

    /// The table that sets tagged terms apart.
    pub fn tag_table(&self) -> (r: &ReplacementTable)
        requires
            self.wf(),
        ensures
            *r == self.tags(),
            r.wf(),
    {
        &self.tags
    }
}

fn load_dictionary(frequency_lines: &Vec<String>, bigram_lines: &Vec<String>) -> (r: Dictionary)
    ensures
        lookup_distance_limit(r) == MAX_EDIT_DISTANCE,
{
    let mut d = new_dictionary();
    let mut i: usize = 0;
    while i < frequency_lines.len()
        invariant
            lookup_distance_limit(d) == MAX_EDIT_DISTANCE,
        decreases frequency_lines@.len() - i,
    {
        load_word_line(&mut d, frequency_lines[i].as_str());
        i = i + 1;
    }
    let mut j: usize = 0;
    while j < bigram_lines.len()
        invariant
            lookup_distance_limit(d) == MAX_EDIT_DISTANCE,
        decreases bigram_lines@.len() - j,
    {
        load_bigram_line(&mut d, bigram_lines[j].as_str());
        j = j + 1;
    }
    d
}

/// The table that sets each term apart by surrounding it with spaces.
pub fn tagging_table(terms: &Vec<String>) -> (r: ReplacementTable)
    ensures
        r.wf(),
        r.patterns_view() == string_views(terms@),
        r.replacements_view() == tag_replacements(string_views(terms@)),
{
    let mut r = ReplacementTable::new();
    let mut i: usize = 0;
    while i < terms.len()
        invariant
            i <= terms@.len(),
            r.wf(),
            r.patterns_view() =~= string_views(terms@.take(i as int)),
            r.replacements_view() =~= tag_replacements(string_views(terms@.take(i as int))),
        decreases terms@.len() - i,
    {
        let mut spaced_term = String::new();
        spaced_term.append(" ");
        spaced_term.append(terms[i].as_str());
        spaced_term.append(" ");
        proof {
            reveal_strlit(" ");
        }
        assert(spaced_term@ =~= spaced(terms@[i as int]@));
        r.insert(terms[i].clone(), spaced_term);
        i = i + 1;
        assert(terms@.take(i as int).drop_last() =~= terms@.take(i - 1));
    }
    assert(terms@.take(i as int) =~= terms@);
    r
}

/// Whether a word-list line is a comment or blank.
pub open spec fn is_comment_line(line: Seq<char>) -> bool {
    line.len() == 0 || line[0] == '#'
}

/// The lines that are neither blank nor comments, in order.
pub open spec fn entry_lines(lines: Seq<Seq<char>>) -> Seq<Seq<char>>
    decreases lines.len(),
{
    if lines.len() == 0 {
        Seq::empty()
    } else if is_comment_line(lines.last()) {
        entry_lines(lines.drop_last())
    } else {
        entry_lines(lines.drop_last()).push(lines.last())
    }
}

/// Drops blank lines and the comment lines, those that start with `#`.
pub fn uncommented_lines(lines: &Vec<String>) -> (r: Vec<String>)
    ensures
        string_views(r@) == entry_lines(string_views(lines@)),
{
    let mut out: Vec<String> = Vec::new();
    let mut i: usize = 0;
    while i < lines.len()
        invariant
            i <= lines@.len(),
            string_views(out@) =~= entry_lines(string_views(lines@.take(i as int))),
        decreases lines@.len() - i,
    {
        assert(string_views(lines@.take(i + 1)).drop_last() =~= string_views(lines@.take(i as int)));
        let cs = chars_of(lines[i].as_str());
        if cs.len() > 0 && cs[0] != '#' {
            out.push(lines[i].clone());
        }
        i = i + 1;
    }
    assert(lines@.take(i as int) =~= lines@);
    out
}

} // verus!

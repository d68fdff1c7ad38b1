//! Replacement of fixed patterns (emoticons, emojis, contractions, shortcuts)
//! by their mapped text, and the tables that hold those patterns.
use vstd::prelude::*;
use aho_corasick::{AhoCorasick, MatchKind};
use crate::text::chars_of;

verus! {

/// What a leftmost-longest, ASCII-case-insensitive Aho-Corasick automaton
/// over `patterns` makes of `text` when each match is replaced by the
/// replacement of the same index; `None` where the automaton cannot be built.
pub uninterp spec fn replaced_all(
    patterns: Seq<Seq<char>>,
    replacements: Seq<Seq<char>>,
    text: Seq<char>,
) -> Option<Seq<char>>;

/// The views of a sequence of strings.
pub open spec fn string_views(v: Seq<String>) -> Seq<Seq<char>> {
    v.map_values(|s: String| s@)
}

/// Relies on `aho_corasick::AhoCorasickBuilder::build` (ASCII case folding,
/// leftmost-longest matching) and `AhoCorasick::replace_all`, which panics
/// unless there are as many replacements as patterns.
#[verifier::external_body]
fn replace_with_automaton(patterns: &Vec<String>, replacements: &Vec<String>, text: &str) -> (r: Option<String>)
    requires
        patterns@.len() == replacements@.len(),
    ensures
        r matches Some(t) ==> replaced_all(string_views(patterns@), string_views(replacements@), text@) == Some(t@),
        r is None ==> replaced_all(string_views(patterns@), string_views(replacements@), text@) is None,
{
    let ac = AhoCorasick::builder()
        .ascii_case_insensitive(true)
        .match_kind(MatchKind::LeftmostLongest)
        .build(patterns)
        .ok()?;
    Some(ac.replace_all(text, replacements))
}

/// An ordered list of patterns, each with the text that replaces it.
pub struct ReplacementTable {
    patterns: Vec<String>,
    replacements: Vec<String>,
}

impl ReplacementTable {
    pub closed spec fn patterns_view(&self) -> Seq<Seq<char>> {
        string_views(self.patterns@)
    }

    pub closed spec fn replacements_view(&self) -> Seq<Seq<char>> {
        string_views(self.replacements@)
    }

    /// Patterns and replacements pair up one to one.
    pub closed spec fn wf(&self) -> bool {
        self.patterns@.len() == self.replacements@.len()
    }

    /// An empty table.
    pub fn new() -> (r: ReplacementTable)
        ensures
            r.wf(),
            r.patterns_view() == Seq::<Seq<char>>::empty(),
            r.replacements_view() == Seq::<Seq<char>>::empty(),
    {
        let r = ReplacementTable { patterns: Vec::new(), replacements: Vec::new() };
        assert(r.patterns_view() =~= Seq::<Seq<char>>::empty());
        assert(r.replacements_view() =~= Seq::<Seq<char>>::empty());
        r
    }

    /// The number of patterns.
    pub fn len(&self) -> (r: usize)
        requires
            self.wf(),
        ensures
            r == self.patterns_view().len(),
            r == self.replacements_view().len(),
    {
        self.patterns.len()
    }

    /// Appends one pattern with its replacement.
    pub fn insert(&mut self, pattern: String, replacement: String)
        requires
            old(self).wf(),
        ensures
            final(self).wf(),
            final(self).patterns_view() == old(self).patterns_view().push(pattern@),
            final(self).replacements_view() == old(self).replacements_view().push(replacement@),
    {
        let ghost p = pattern@;
        let ghost q = replacement@;
        self.patterns.push(pattern);
        self.replacements.push(replacement);
        assert(self.patterns_view() =~= old(self).patterns_view().push(p));
        assert(self.replacements_view() =~= old(self).replacements_view().push(q));
    }

    /// Builds a table from pattern/replacement pairs, in their order.
    pub fn from_pairs(pairs: &Vec<(String, String)>) -> (r: ReplacementTable)
        ensures
            r.wf(),
            r.patterns_view() == pairs@.map_values(|p: (String, String)| p.0@),
            r.replacements_view() == pairs@.map_values(|p: (String, String)| p.1@),
    {
        let mut r = ReplacementTable::new();
        let mut i: usize = 0;
        while i < pairs.len()
            invariant
                i <= pairs@.len(),
                r.wf(),
                r.patterns_view() =~= pairs@.take(i as int).map_values(|p: (String, String)| p.0@),
                r.replacements_view() =~= pairs@.take(i as int).map_values(|p: (String, String)| p.1@),
            decreases pairs@.len() - i,
        {
            r.insert(pairs[i].0.clone(), pairs[i].1.clone());
            i = i + 1;
            assert(pairs@.take(i as int).drop_last() =~= pairs@.take(i - 1));
        }
        assert(pairs@.take(i as int) =~= pairs@);
        r
    }
}

/// The text after the table's patterns are replaced; where no automaton can
/// be built from the patterns the text is left as it is.
pub open spec fn replaced_by_table(table: &ReplacementTable, text: Seq<char>) -> Seq<char> {
    match replaced_all(table.patterns_view(), table.replacements_view(), text) {
        Some(t) => t,
        None => text,
    }
}

/// Replaces, left to right, the longest pattern of the table that matches
/// (ignoring ASCII case) with its replacement.
pub fn aho_corasick_replace_all(text: &str, table: &ReplacementTable) -> (r: String)
    requires
        table.wf(),
    ensures
        r@ == replaced_by_table(table, text@),
{
    match replace_with_automaton(&table.patterns, &table.replacements, text) {
        Some(t) => t,
        None => text.to_owned(),
    }
}

/// Replaces the emoticons of `table` by their names.
pub fn replace_emoticons(text: &str, table: &ReplacementTable) -> (r: String)
    requires
        table.wf(),
    ensures
        r@ == replaced_by_table(table, text@),
{
    aho_corasick_replace_all(text, table)
}

/// Replaces the emojis of `table` by their names.
pub fn replace_unicode_emojis(text: &str, table: &ReplacementTable) -> (r: String)
    requires
        table.wf(),
    ensures
        r@ == replaced_by_table(table, text@),
{
    aho_corasick_replace_all(text, table)
}

/// Expands the English contractions of `table`.
pub fn replace_english_contractions(text: &str, table: &ReplacementTable) -> (r: String)
    requires
        table.wf(),
    ensures
        r@ == replaced_by_table(table, text@),
{
    aho_corasick_replace_all(text, table)
}

/// Replaces the Wikipedia shortcuts of `table` by a fixed tag.
pub fn replace_wikipedia_shortcuts(text: &str, table: &ReplacementTable) -> (r: String)
    requires
        table.wf(),
    ensures
        r@ == replaced_by_table(table, text@),
{
    aho_corasick_replace_all(text, table)
}

/// The English contractions and their expansions.
pub open spec fn english_contractions() -> Seq<(Seq<char>, Seq<char>)> {
    seq![
        ("won't"@, "will not"@),
        ("can't"@, "can not"@),
        ("n't"@, " not"@),
        ("'re"@, " are"@),
        ("'s"@, " is"@),
        ("'d"@, " would"@),
        ("'ll"@, " will"@),
        ("'t"@, " not"@),
        ("'ve"@, " have"@),
        ("'m"@, " am"@),
    ]
}

/// The table of English contractions.
pub fn get_english_contractions_hashmap() -> (r: ReplacementTable)
    ensures
        r.wf(),
        r.patterns_view() == english_contractions().map_values(|p: (Seq<char>, Seq<char>)| p.0),
        r.replacements_view() == english_contractions().map_values(|p: (Seq<char>, Seq<char>)| p.1),
{
    let mut r = ReplacementTable::new();
    r.insert("won't".to_owned(), "will not".to_owned());
    r.insert("can't".to_owned(), "can not".to_owned());
    r.insert("n't".to_owned(), " not".to_owned());
    r.insert("'re".to_owned(), " are".to_owned());
    r.insert("'s".to_owned(), " is".to_owned());
    r.insert("'d".to_owned(), " would".to_owned());
    r.insert("'ll".to_owned(), " will".to_owned());
    r.insert("'t".to_owned(), " not".to_owned());
    r.insert("'ve".to_owned(), " have".to_owned());
    r.insert("'m".to_owned(), " am".to_owned());
    assert(r.patterns_view() =~= english_contractions().map_values(|p: (Seq<char>, Seq<char>)| p.0));
    assert(r.replacements_view() =~= english_contractions().map_values(|p: (Seq<char>, Seq<char>)| p.1));
    r
}

pub open spec fn is_ascii_letter(c: char) -> bool {
    ('a' <= c && c <= 'z') || ('A' <= c && c <= 'Z')
}

/// Whether every character of `s` is an ASCII letter (true of the empty string).
pub open spec fn all_ascii_letters(s: Seq<char>) -> bool {
    forall|i: int| 0 <= i < s.len() ==> is_ascii_letter(#[trigger] s[i])
}

fn only_ascii_letters(s: &str) -> (r: bool)
    ensures
        r == all_ascii_letters(s@),
{
    let cs = chars_of(s);
    let mut i: usize = 0;
    while i < cs.len()
        invariant
            cs@ == s@,
            i <= cs@.len(),
            forall|j: int| 0 <= j < i ==> is_ascii_letter(#[trigger] cs@[j]),
        decreases cs@.len() - i,
    {
        let c = cs[i];
        if !(('a' <= c && c <= 'z') || ('A' <= c && c <= 'Z')) {
            return false;
        }
        i = i + 1;
    }
    true
}

/// `name` between single spaces.
pub open spec fn spaced(name: Seq<char>) -> Seq<char> {
    seq![' '] + name + seq![' ']
}

fn spaced_string(name: &str) -> (r: String)
    ensures
        r@ == spaced(name@),
{
    let mut s = String::new();
    s.append(" ");
    s.append(name);
    s.append(" ");
    proof {
        reveal_strlit(" ");
    }
    assert(s@ =~= spaced(name@));
    s
}

/// The emoticon entries that a table keeps: those whose emoticon is not a plain word.
pub open spec fn emoticon_entries(pairs: Seq<(Seq<char>, Seq<char>)>) -> Seq<(Seq<char>, Seq<char>)>
    decreases pairs.len(),
{
    if pairs.len() == 0 {
        Seq::empty()
    } else {
        let prev = emoticon_entries(pairs.drop_last());
        let p = pairs.last();
        if all_ascii_letters(p.0) {
            prev
        } else {
            prev.push((p.0, spaced(p.1)))
        }
    }
}

pub open spec fn pair_views(pairs: Seq<(String, String)>) -> Seq<(Seq<char>, Seq<char>)> {
    pairs.map_values(|p: (String, String)| (p.0@, p.1@))
}

/// The emoticon table built from (emoticon, name) entries: emoticons made
/// only of ASCII letters are left out, and each name is set between spaces.
pub fn get_emoticons_hashmap(entries: &Vec<(String, String)>) -> (r: ReplacementTable)
    ensures
        r.wf(),
        r.patterns_view() == emoticon_entries(pair_views(entries@)).map_values(|p: (Seq<char>, Seq<char>)| p.0),
        r.replacements_view() == emoticon_entries(pair_views(entries@)).map_values(|p: (Seq<char>, Seq<char>)| p.1),
{
    let mut r = ReplacementTable::new();
    let mut i: usize = 0;
    while i < entries.len()
        invariant
            i <= entries@.len(),
            r.wf(),
            r.patterns_view() =~= emoticon_entries(pair_views(entries@.take(i as int))).map_values(|p: (Seq<char>, Seq<char>)| p.0),
            r.replacements_view() =~= emoticon_entries(pair_views(entries@.take(i as int))).map_values(|p: (Seq<char>, Seq<char>)| p.1),
        decreases entries@.len() - i,
    {
        assert(pair_views(entries@.take(i + 1)).drop_last() =~= pair_views(entries@.take(i as int)));
        let emoticon = &entries[i].0;
        let name = &entries[i].1;
        if !only_ascii_letters(emoticon.as_str()) {
            r.insert(emoticon.clone(), spaced_string(name.as_str()));
        }
        i = i + 1;
    }
    assert(entries@.take(i as int) =~= entries@);
    r
}

/// The tag that stands for any Wikipedia shortcut.
pub open spec fn shortcut_tag() -> Seq<char> {
    " (wikipedia shortcut) "@
}

fn shortcut_tag_string() -> (r: String)
    ensures
        r@ == shortcut_tag(),
{
    " (wikipedia shortcut) ".to_owned()
}

/// The keys (or the values) of (shortcut, target) entries.
pub open spec fn entry_sides(entries: Seq<(String, String)>, keys: bool) -> Seq<Seq<char>> {
    entries.map_values(|p: (String, String)| if keys { p.0@ } else { p.1@ })
}

/// Appends to `table` the keys (or the values) of the entries, each mapped to
/// the shortcut tag.
fn push_tagged(table: &mut ReplacementTable, entries: &Vec<(String, String)>, keys: bool)
    requires
        old(table).wf(),
    ensures
        final(table).wf(),
        final(table).patterns_view() == old(table).patterns_view() + entry_sides(entries@, keys),
        final(table).replacements_view() == old(table).replacements_view()
            + Seq::new(entries@.len(), |i: int| shortcut_tag()),
{
    let ghost p0 = table.patterns_view();
    let ghost q0 = table.replacements_view();
    let mut i: usize = 0;
    while i < entries.len()
        invariant
            i <= entries@.len(),
            table.wf(),
            table.patterns_view() =~= p0 + entry_sides(entries@.take(i as int), keys),
            table.replacements_view() =~= q0 + Seq::new(i as nat, |j: int| shortcut_tag()),
        decreases entries@.len() - i,
    {
        let text = if keys { entries[i].0.clone() } else { entries[i].1.clone() };
        table.insert(text, shortcut_tag_string());
        i = i + 1;
        assert(entry_sides(entries@.take(i as int), keys) =~= entry_sides(entries@.take(i - 1), keys).push(text@));
    }
    assert(entries@.take(i as int) =~= entries@);
}

/// Each shortcut of the (shortcut, target) entries, mapped to the shortcut tag.
pub fn get_wikipedia_shortcuts_keys_hashmap(entries: &Vec<(String, String)>) -> (r: ReplacementTable)
    ensures
        r.wf(),
        r.patterns_view() == entry_sides(entries@, true),
        r.replacements_view() == Seq::new(entries@.len(), |i: int| shortcut_tag()),
{
    let mut r = ReplacementTable::new();
    push_tagged(&mut r, entries, true);
    assert(r.patterns_view() =~= entry_sides(entries@, true));
    assert(r.replacements_view() =~= Seq::new(entries@.len(), |i: int| shortcut_tag()));
    r
}

/// Each target of the (shortcut, target) entries, mapped to the shortcut tag.
pub fn get_wikipedia_shortcuts_values_hashmap(entries: &Vec<(String, String)>) -> (r: ReplacementTable)
    ensures
        r.wf(),
        r.patterns_view() == entry_sides(entries@, false),
        r.replacements_view() == Seq::new(entries@.len(), |i: int| shortcut_tag()),
{
    let mut r = ReplacementTable::new();
    push_tagged(&mut r, entries, false);
    assert(r.patterns_view() =~= entry_sides(entries@, false));
    assert(r.replacements_view() =~= Seq::new(entries@.len(), |i: int| shortcut_tag()));
    r
}

/// The shortcut table: every shortcut and every target of the entries,
/// shortcuts first, each mapped to the shortcut tag.
pub fn get_wikipedia_shortcuts_hashmap(entries: &Vec<(String, String)>) -> (r: ReplacementTable)
    ensures
        r.wf(),
        r.patterns_view() == entry_sides(entries@, true) + entry_sides(entries@, false),
        r.replacements_view() == Seq::new(2 * entries@.len(), |i: int| shortcut_tag()),
{
    let mut r = ReplacementTable::new();
    push_tagged(&mut r, entries, true);
    push_tagged(&mut r, entries, false);
    assert(r.patterns_view() =~= entry_sides(entries@, true) + entry_sides(entries@, false));
    assert(r.replacements_view() =~= Seq::new(2 * entries@.len(), |i: int| shortcut_tag()));
    r
}

/// The pattern that recognises links into Wikipedia's namespaces.
pub fn get_wikipedia_namespace_regex() -> (r: String)
    ensures
        r@ == WIKIPEDIA_NAMESPACE_REGEX@,
{
    WIKIPEDIA_NAMESPACE_REGEX.to_owned()
}

/// The pattern that recognises links to Wikipedia's files and images.
pub fn get_wikipedia_file_namespace_regex() -> (r: String)
    ensures
        r@ == WIKIPEDIA_FILE_NAMESPACE_REGEX@,
{
    WIKIPEDIA_FILE_NAMESPACE_REGEX.to_owned()
}

pub const WIKIPEDIA_NAMESPACE_REGEX: &'static str = r#"(talk|user|wikipedia|wp|project|wt|template|tm|help|category|portal|draft|timedtext|module|special|topic|education program|book|gadget|gadget definition)((_| )talk)?:[\w\/#]+"#;

pub const WIKIPEDIA_FILE_NAMESPACE_REGEX: &'static str = r#"(file|image)((_| )talk)?:([\w\s\(\)\&\-\"\']+)((\.(\w{3}))|,|\.|\)|\")"#;

/// One emoji of the catalog: the Unicode version that introduced it and,
/// where skin tones apply, each skin-tone variant with its name.
pub struct EmojiEntry {
    pub major: u32,
    pub minor: u32,
    pub variants: Option<Vec<(String, String)>>,
}

/// Relies on `emojis::iter`, `Emoji::unicode_version` and `Emoji::skin_tones`:
/// the catalog, one entry per emoji.
#[verifier::external_body]
fn emoji_catalog() -> (r: Vec<EmojiEntry>) {
    emojis::iter()
        .map(|e| EmojiEntry {
            major: e.unicode_version().major(),
            minor: e.unicode_version().minor(),
            variants: e.skin_tones().map(|tones| tones.map(|v| (v.as_str().to_owned(), v.name().to_owned())).collect()),
        })
        .collect()
}

/// Unicode versions up to 15.1 are covered.
pub open spec fn supported_version(major: u32, minor: u32) -> bool {
    major < 15 || (major == 15 && minor <= 1)
}

/// `name` in parentheses, between single spaces.
pub open spec fn emoji_tag(name: Seq<char>) -> Seq<char> {
    " ("@ + name + ") "@
}

/// The (emoji, tag) pairs that one catalog entry contributes.
pub open spec fn entry_pairs(e: EmojiEntry) -> Seq<(Seq<char>, Seq<char>)> {
    match e.variants {
        Some(v) if supported_version(e.major, e.minor) =>
            v@.map_values(|p: (String, String)| (p.0@, emoji_tag(p.1@))),
        _ => Seq::empty(),
    }
}

/// The pairs of all catalog entries, in order.
pub open spec fn catalog_pairs(entries: Seq<EmojiEntry>) -> Seq<(Seq<char>, Seq<char>)>
    decreases entries.len(),
{
    if entries.len() == 0 {
        Seq::empty()
    } else {
        catalog_pairs(entries.drop_last()) + entry_pairs(entries.last())
    }
}

/// The emoji table of the catalog entries: every skin-tone variant of the
/// emojis of Unicode 15.1 or earlier, mapped to its name in parentheses.
pub fn emoji_table(entries: &Vec<EmojiEntry>) -> (r: ReplacementTable)
    ensures
        r.wf(),
        r.patterns_view() == catalog_pairs(entries@).map_values(|p: (Seq<char>, Seq<char>)| p.0),
        r.replacements_view() == catalog_pairs(entries@).map_values(|p: (Seq<char>, Seq<char>)| p.1),
{
    let mut r = ReplacementTable::new();
    let mut i: usize = 0;
    while i < entries.len()
        invariant
            i <= entries@.len(),
            r.wf(),
            r.patterns_view() =~= catalog_pairs(entries@.take(i as int)).map_values(|p: (Seq<char>, Seq<char>)| p.0),
            r.replacements_view() =~= catalog_pairs(entries@.take(i as int)).map_values(|p: (Seq<char>, Seq<char>)| p.1),
        decreases entries@.len() - i,
    {
        assert(entries@.take(i + 1).drop_last() =~= entries@.take(i as int));
        let e = &entries[i];
        let ghost pre = catalog_pairs(entries@.take(i as int));
        let ghost add = entry_pairs(*e);
        if e.major < 15 || (e.major == 15 && e.minor <= 1) {
            if let Some(v) = &e.variants {
                let mut j: usize = 0;
                while j < v.len()
                    invariant
                        j <= v@.len(),
                        r.wf(),
                        add == v@.map_values(|p: (String, String)| (p.0@, emoji_tag(p.1@))),
                        r.patterns_view() =~= (pre + add.take(j as int)).map_values(|p: (Seq<char>, Seq<char>)| p.0),
                        r.replacements_view() =~= (pre + add.take(j as int)).map_values(|p: (Seq<char>, Seq<char>)| p.1),
                    decreases v@.len() - j,
                {
                    let mut tag = String::new();
                    tag.append(" (");
                    tag.append(v[j].1.as_str());
                    tag.append(") ");
                    r.insert(v[j].0.clone(), tag);
                    j = j + 1;
                    assert((pre + add.take(j as int)).drop_last() =~= pre + add.take(j - 1));
                }
                assert(add.take(j as int) =~= add);
            } else {
                assert(add =~= Seq::<(Seq<char>, Seq<char>)>::empty());
                assert(pre + add =~= pre);
            }
        } else {
            assert(add =~= Seq::<(Seq<char>, Seq<char>)>::empty());
            assert(pre + add =~= pre);
        }
        i = i + 1;
    }
    assert(entries@.take(i as int) =~= entries@);
    r
}

/// The table of Unicode emojis with skin tones, from the emoji catalog.
pub fn get_unicode_emojis_hashmap() -> (r: ReplacementTable)
    ensures
        r.wf(),
{
    let catalog = emoji_catalog();
    emoji_table(&catalog)
}

} // verus!

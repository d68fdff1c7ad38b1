//! The correction engine: repairs one token that is not in the dictionary.
use vstd::prelude::*;
use unicode_segmentation::UnicodeSegmentation;
use crate::bigram::{normalized, reduce_bigram};
use crate::lexicon::Lexicon;
use crate::patterns::{aho_corasick_replace_all, replaced_by_table, string_views};
use crate::spelling::{float_bits_less, float_bits_lt, top_suggestion, word_segmentation, Segmentation};
use crate::text::{chars_of, join_with_space, joined, push_char, split_words, white_space, is_white_space, words_of};
use crate::unicode::{ascii_of, category_of, get_unicode_category, kept_chars, unicode_decode};

verus! {

/// The extended grapheme clusters of a string, in order.
pub uninterp spec fn graphemes_of(s: Seq<char>) -> Seq<Seq<char>>;

/// Relies on `UnicodeSegmentation::graphemes` with extended clusters.
#[verifier::external_body]
fn graphemes(text: &str) -> (r: Vec<String>)
    ensures
        string_views(r@) == graphemes_of(text@),
{
    text.graphemes(true).map(|g| g.to_owned()).collect()
}

pub open spec fn is_word_char(c: char) -> bool {
    category_of(c) == 'L' || category_of(c) == 'N'
}

/// Every character that is neither a letter nor a number, turned into a space.
pub open spec fn spaced_out(w: Seq<char>) -> Seq<char> {
    w.map_values(|c: char| if is_word_char(c) { c } else { ' ' })
}

/// The characters of `s` that are not white space.
pub open spec fn squeezed(s: Seq<char>) -> Seq<char> {
    kept_chars(s, |c: char| !white_space(c))
}

/// What segmentation is asked to split: the token with punctuation and
/// white space removed, its letter runs reduced, and the tagged terms set
/// apart by spaces.
pub open spec fn segmentation_input(lex: &Lexicon, word: Seq<char>) -> Seq<char> {
    replaced_by_table(&lex.tags(), normalized(squeezed(spaced_out(word))))
}

/// Replaces each character that is neither a letter nor a number by a space.
pub fn space_out_non_words(word: &str) -> (r: String)
    ensures
        r@ == spaced_out(word@),
{
    let cs = chars_of(word);
    let mut out = String::new();
    let mut i: usize = 0;
    while i < cs.len()
        invariant
            cs@ == word@,
            i <= cs@.len(),
            out@ =~= spaced_out(word@).take(i as int),
        decreases cs@.len() - i,
    {
        let k = get_unicode_category(&cs[i]);
        if k == 'L' || k == 'N' {
            push_char(&mut out, cs[i]);
        } else {
            push_char(&mut out, ' ');
        }
        i = i + 1;
    }
    out
}

/// Removes every white-space character.
pub fn strip_white_space(s: &str) -> (r: String)
    ensures
        r@ == squeezed(s@),
{
    let cs = chars_of(s);
    let mut out = String::new();
    let mut i: usize = 0;
    while i < cs.len()
        invariant
            cs@ == s@,
            i <= cs@.len(),
            out@ == kept_chars(cs@.take(i as int), |c: char| !white_space(c)),
        decreases cs@.len() - i,
    {
        assert(cs@.take(i + 1).drop_last() =~= cs@.take(i as int));
        if !is_white_space(cs[i]) {
            push_char(&mut out, cs[i]);
        }
        i = i + 1;
    }
    assert(cs@.take(i as int) =~= cs@);
    out
}

/// Noise reduction and tagging: the string that segmentation receives.
pub fn prepare_segmentation_input(lex: &Lexicon, word: &str) -> (r: String)
    requires
        lex.wf(),
    ensures
        r@ == segmentation_input(lex, word@),
{
    let candidate = space_out_non_words(word);
    let squeezed_word = strip_white_space(candidate.as_str());
    let reduced = reduce_bigram(squeezed_word.as_str());
    aho_corasick_replace_all(reduced.as_str(), lex.tag_table())
}

/// What one sub-word becomes: itself when known, else its suggestion if any.
pub open spec fn subword_choice(sub: Seq<char>, known: bool, suggestion: Option<Seq<char>>) -> Option<Seq<char>> {
    if known { Some(sub) } else { suggestion }
}

pub open spec fn subwords_resolved(subs: Seq<Seq<char>>, known: Seq<bool>, suggestions: Seq<Option<Seq<char>>>) -> bool {
    forall|i: int| 0 <= i < subs.len() ==> (#[trigger] subword_choice(subs[i], known[i], suggestions[i])) is Some
}

/// The sub-words joined by spaces, each resolved; `None` when one is not.
pub open spec fn assembled(subs: Seq<Seq<char>>, known: Seq<bool>, suggestions: Seq<Option<Seq<char>>>) -> Option<Seq<char>> {
    if subwords_resolved(subs, known, suggestions) {
        Some(joined(Seq::new(subs.len(), |i: int| subword_choice(subs[i], known[i], suggestions[i])->0)))
    } else {
        None
    }
}

pub open spec fn option_views(v: Seq<Option<String>>) -> Seq<Option<Seq<char>>> {
    v.map_values(|o: Option<String>| match o { Some(s) => Some(s@), None => None })
}

/// Joins the sub-words, each kept when known and otherwise replaced by its
/// suggestion; gives `None` as soon as an unknown sub-word has none.
pub fn assemble_subwords(subs: &Vec<String>, known: &Vec<bool>, suggestions: &Vec<Option<String>>) -> (r: Option<String>)
    requires
        known@.len() == subs@.len(),
        suggestions@.len() == subs@.len(),
    ensures
        r matches Some(t) ==> assembled(string_views(subs@), known@, option_views(suggestions@)) == Some(t@),
        r is None ==> assembled(string_views(subs@), known@, option_views(suggestions@)) is None,
{
    let ghost subv = string_views(subs@);
    let ghost sugv = option_views(suggestions@);
    let mut out: Vec<String> = Vec::new();
    let mut i: usize = 0;
    while i < subs.len()
        invariant
            i <= subs@.len(),
            known@.len() == subs@.len(),
            suggestions@.len() == subs@.len(),
            subv == string_views(subs@),
            sugv == option_views(suggestions@),
            out@.len() == i,
            forall|j: int| 0 <= j < i ==> (#[trigger] subword_choice(subv[j], known@[j], sugv[j])) == Some(out@[j]@),
        decreases subs@.len() - i,
    {
        if known[i] {
            out.push(subs[i].clone());
        } else {
            match &suggestions[i] {
                Some(s) => out.push(s.clone()),
                None => {
                    assert(!subwords_resolved(subv, known@, sugv)) by {
                        assert(subword_choice(subv[i as int], known@[i as int], sugv[i as int]) is None);
                    }
                    return None;
                },
            }
        }
        i = i + 1;
    }
    let r = join_with_space(&out);
    assert(string_views(out@) =~= Seq::new(subv.len(), |j: int| subword_choice(subv[j], known@[j], sugv[j])->0));
    Some(r)
}

/// Stage A: every sub-word is kept when known, else replaced by its best
/// suggestion within edit distance 2; `None` when some sub-word has none.
fn correct_subwords(lex: &Lexicon, subs: &Vec<String>) -> (r: Option<String>)
    requires
        lex.wf(),
    ensures
        (forall|i: int| 0 <= i < subs@.len() ==> lex.known(#[trigger] subs@[i]@))
            ==> (r matches Some(t) && t@ == joined(string_views(subs@))),
{
    let mut known: Vec<bool> = Vec::new();
    let mut suggestions: Vec<Option<String>> = Vec::new();
    let mut i: usize = 0;
    while i < subs.len()
        invariant
            lex.wf(),
            i <= subs@.len(),
            known@.len() == i,
            suggestions@.len() == i,
            forall|j: int| 0 <= j < i ==> #[trigger] known@[j] == lex.known(subs@[j]@),
        decreases subs@.len() - i,
    {
        let k = lex.is_in_corpora(subs[i].as_str());
        known.push(k);
        if k {
            suggestions.push(None);
        } else {
            suggestions.push(top_suggestion(lex.dictionary(), subs[i].as_str()));
        }
        i = i + 1;
    }
    let r = assemble_subwords(subs, &known, &suggestions);
    proof {
        let subv = string_views(subs@);
        let sugv = option_views(suggestions@);
        if forall|i: int| 0 <= i < subs@.len() ==> lex.known(#[trigger] subs@[i]@) {
            assert forall|j: int| 0 <= j < subv.len() implies (#[trigger] subword_choice(subv[j], known@[j], sugv[j])) is Some by {
                assert(lex.known(subs@[j]@));
            }
            assert(Seq::new(subv.len(), |j: int| subword_choice(subv[j], known@[j], sugv[j])->0) =~= subv) by {
                assert forall|j: int| 0 <= j < subv.len() implies #[trigger] subword_choice(subv[j], known@[j], sugv[j])->0 == subv[j] by {
                    assert(lex.known(subs@[j]@));
                }
            }
        }
    }
    r
}

/// The number of characters of `s` other than the space.
pub open spec fn letters_in(s: Seq<char>) -> int
    decreases s.len(),
{
    if s.len() == 0 {
        0
    } else {
        letters_in(s.drop_last()) + if s.last() == ' ' { 0int } else { 1int }
    }
}

/// For each space of `s`, in order, the number of other characters before it.
pub open spec fn boundary_counts(s: Seq<char>) -> Seq<int>
    decreases s.len(),
{
    if s.len() == 0 {
        Seq::empty()
    } else if s.last() == ' ' {
        boundary_counts(s.drop_last()).push(letters_in(s.drop_last()))
    } else {
        boundary_counts(s.drop_last())
    }
}

/// The strings of `gs`, one after another.
pub open spec fn concat(gs: Seq<Seq<char>>) -> Seq<char>
    decreases gs.len(),
{
    if gs.len() == 0 {
        Seq::empty()
    } else {
        concat(gs.drop_last()) + gs.last()
    }
}

pub open spec fn clamp(k: int, n: int) -> int {
    if k < n { k } else { n }
}

/// Where piece `k` starts, in clusters: the count before the `k`-th
/// boundary, kept within the text.
pub open spec fn piece_start(cuts: Seq<int>, n: int, k: int) -> int {
    if k == 0 { 0 } else { clamp(cuts[k - 1], n) }
}

pub open spec fn piece_end(cuts: Seq<int>, n: int, k: int) -> int {
    if k == cuts.len() { n } else { clamp(cuts[k], n) }
}

/// The clusters of `g` cut at the given counts.
pub open spec fn cut_pieces(g: Seq<Seq<char>>, cuts: Seq<int>) -> Seq<Seq<char>> {
    Seq::new(cuts.len() + 1, |k: int| concat(g.subrange(piece_start(cuts, g.len() as int, k), piece_end(cuts, g.len() as int, k))))
}

/// The clusters `g` of the accented text, with a space wherever the
/// accent-free segmentation `spell` has one: each boundary falls after as
/// many clusters as `spell` has characters before that space.
pub open spec fn remapped(g: Seq<Seq<char>>, spell: Seq<char>) -> Seq<char> {
    joined(cut_pieces(g, boundary_counts(spell)))
}

proof fn lemma_boundary_counts_sorted(s: Seq<char>)
    ensures
        forall|a: int, b: int| 0 <= a <= b < boundary_counts(s).len() ==> boundary_counts(s)[a] <= boundary_counts(s)[b],
        forall|a: int| 0 <= a < boundary_counts(s).len() ==> 0 <= #[trigger] boundary_counts(s)[a] <= letters_in(s),
        letters_in(s) >= 0,
    decreases s.len(),
{
    if s.len() > 0 {
        let pre = s.drop_last();
        lemma_boundary_counts_sorted(pre);
        let cp = boundary_counts(pre);
        let c = boundary_counts(s);
        if s.last() == ' ' {
            assert(c == cp.push(letters_in(pre)));
            assert forall|a: int, b: int| 0 <= a <= b < c.len() implies c[a] <= c[b] by {
                if b < cp.len() {
                    assert(c[a] == cp[a] && c[b] == cp[b]);
                } else {
                    assert(c[b] == letters_in(pre));
                    if a < cp.len() {
                        assert(c[a] == cp[a]);
                    }
                }
            }
            assert forall|a: int| 0 <= a < c.len() implies 0 <= #[trigger] c[a] <= letters_in(s) by {
                if a < cp.len() {
                    assert(c[a] == cp[a]);
                }
            }
        }
    }
}

proof fn lemma_concat_split(g: Seq<Seq<char>>, a: int, b: int, c: int)
    requires
        0 <= a <= b <= c <= g.len(),
    ensures
        concat(g.subrange(a, b)) + concat(g.subrange(b, c)) == concat(g.subrange(a, c)),
    decreases c - b,
{
    if b == c {
        assert(g.subrange(b, c) =~= Seq::<Seq<char>>::empty());
        assert(concat(g.subrange(a, b)) + Seq::<char>::empty() =~= concat(g.subrange(a, b)));
    } else {
        lemma_concat_split(g, a, b, c - 1);
        assert(g.subrange(b, c).drop_last() =~= g.subrange(b, c - 1));
        assert(g.subrange(a, c).drop_last() =~= g.subrange(a, c - 1));
        assert(concat(g.subrange(a, b)) + (concat(g.subrange(b, c - 1)) + g[c - 1])
            =~= (concat(g.subrange(a, b)) + concat(g.subrange(b, c - 1))) + g[c - 1]);
    }
}

/// Re-cutting loses and repeats nothing: the pieces of the clusters `g`,
/// put back together, are the clusters of `g` in order, for any
/// accent-free segmentation `spell`.
pub proof fn lemma_pieces_cover_text(g: Seq<Seq<char>>, spell: Seq<char>)
    ensures
        concat(cut_pieces(g, boundary_counts(spell))) == concat(g),
{
    let cuts = boundary_counts(spell);
    let n = g.len() as int;
    let pieces = cut_pieces(g, cuts);
    lemma_boundary_counts_sorted(spell);
    assert forall|k: int| 0 <= k <= cuts.len() implies 0 <= #[trigger] piece_start(cuts, n, k) <= piece_end(cuts, n, k) <= n by {
        if 0 < k < cuts.len() {
            assert(cuts[k - 1] <= cuts[k]);
        }
        if k > 0 {
            assert(cuts[k - 1] >= 0);
        }
        if k < cuts.len() {
            assert(cuts[k] >= 0);
        }
    }
    lemma_prefix_pieces(g, cuts, cuts.len() as int);
    assert(pieces.take(cuts.len() + 1 as int) =~= pieces);
    assert(g.subrange(0, n) =~= g);
}

proof fn lemma_prefix_pieces(g: Seq<Seq<char>>, cuts: Seq<int>, k: int)
    requires
        0 <= k <= cuts.len(),
        forall|j: int| 0 <= j <= cuts.len() ==> 0 <= #[trigger] piece_start(cuts, g.len() as int, j)
            <= piece_end(cuts, g.len() as int, j) <= g.len(),
    ensures
        concat(cut_pieces(g, cuts).take(k + 1)) == concat(g.subrange(0, piece_end(cuts, g.len() as int, k))),
    decreases k,
{
    let n = g.len() as int;
    let pieces = cut_pieces(g, cuts);
    assert(pieces.take(k + 1).drop_last() =~= pieces.take(k));
    assert(piece_start(cuts, n, k) <= piece_end(cuts, n, k));
    assert(pieces.take(k + 1).last() == pieces[k]);
    assert(pieces[k] == concat(g.subrange(piece_start(cuts, n, k), piece_end(cuts, n, k))));
    if k == 0 {
        assert(pieces.take(0) =~= Seq::<Seq<char>>::empty());
        assert(concat(Seq::<Seq<char>>::empty()) =~= Seq::<char>::empty());
        assert(Seq::<char>::empty() + pieces[0] =~= pieces[0]);
    } else {
        lemma_prefix_pieces(g, cuts, k - 1);
        assert(piece_start(cuts, n, k) == piece_end(cuts, n, k - 1));
        lemma_concat_split(g, 0, piece_start(cuts, n, k), piece_end(cuts, n, k));
    }
}

/// The counts before each space of `spell`, in order.
fn boundary_positions(spell: &str) -> (r: Vec<usize>)
    ensures
        r@.map_values(|c: usize| c as int) == boundary_counts(spell@),
        forall|a: int, b: int| 0 <= a <= b < r@.len() ==> r@[a] <= r@[b],
{
    let cs = chars_of(spell);
    let mut cuts: Vec<usize> = Vec::new();
    let mut count: usize = 0;
    let mut i: usize = 0;
    while i < cs.len()
        invariant
            cs@ == spell@,
            i <= cs@.len(),
            count <= i,
            count as int == letters_in(cs@.take(i as int)),
            cuts@.map_values(|c: usize| c as int) =~= boundary_counts(cs@.take(i as int)),
            forall|a: int, b: int| 0 <= a <= b < cuts@.len() ==> cuts@[a] <= cuts@[b],
            forall|a: int| 0 <= a < cuts@.len() ==> cuts@[a] <= count,
        decreases cs@.len() - i,
    {
        assert(cs@.take(i + 1).drop_last() =~= cs@.take(i as int));
        if cs[i] == ' ' {
            cuts.push(count);
        } else {
            count = count + 1;
        }
        i = i + 1;
    }
    assert(cs@.take(i as int) =~= cs@);
    cuts
}

/// The clusters `g[from..to]`, one after another.
fn concat_range(g: &Vec<String>, from: usize, to: usize) -> (r: String)
    requires
        from <= to <= g@.len(),
    ensures
        r@ == concat(string_views(g@).subrange(from as int, to as int)),
{
    let ghost gv = string_views(g@);
    let mut out = String::new();
    let mut j: usize = from;
    while j < to
        invariant
            gv == string_views(g@),
            from <= j <= to <= g@.len(),
            out@ == concat(gv.subrange(from as int, j as int)),
        decreases to - j,
    {
        out.append(g[j].as_str());
        j = j + 1;
        assert(gv.subrange(from as int, j as int).drop_last() =~= gv.subrange(from as int, j - 1));
    }
    out
}

/// Cuts the clusters `g` where the accent-free segmentation `spell` places
/// its spaces.
fn remap_boundaries(g: &Vec<String>, spell: &str) -> (r: String)
    ensures
        r@ == remapped(string_views(g@), spell@),
{
    let ghost gv = string_views(g@);
    let cuts = boundary_positions(spell);
    let ghost cv = cuts@.map_values(|c: usize| c as int);
    let n = g.len();
    let mut pieces: Vec<String> = Vec::new();
    let mut last: usize = 0;
    let mut k: usize = 0;
    while k < cuts.len()
        invariant
            gv == string_views(g@),
            n == g@.len(),
            cv == cuts@.map_values(|c: usize| c as int),
            forall|a: int, b: int| 0 <= a <= b < cuts@.len() ==> cuts@[a] <= cuts@[b],
            k <= cuts@.len(),
            last as int == piece_start(cv, n as int, k as int),
            last <= n,
            string_views(pieces@) =~= cut_pieces(gv, cv).take(k as int),
        decreases cuts@.len() - k,
    {
        let to = if cuts[k] < n { cuts[k] } else { n };
        if k > 0 {
            assert(cuts@[k - 1] <= cuts@[k as int]);
        }
        assert(cv[k as int] == cuts@[k as int] as int);
        let ghost before = string_views(pieces@);
        let piece = concat_range(g, last, to);
        pieces.push(piece);
        assert(string_views(pieces@) =~= before.push(cut_pieces(gv, cv)[k as int]));
        last = to;
        k = k + 1;
    }
    let ghost before = string_views(pieces@);
    let piece = concat_range(g, last, n);
    pieces.push(piece);
    assert(string_views(pieces@) =~= before.push(cut_pieces(gv, cv)[cv.len() as int]));
    assert(string_views(pieces@) =~= cut_pieces(gv, cv));
    join_with_space(&pieces)
}

/// Re-cuts `text` at the word boundaries of its accent-free segmentation
/// `spell`, counting grapheme clusters: the words keep their accents.
pub fn word_segmentation_without_accents(text: &str, spell: &str) -> (r: String)
    ensures
        r@ == remapped(graphemes_of(text@), spell@),
{
    let g = graphemes(text);
    remap_boundaries(&g, spell)
}

/// The two segmentation hypotheses of the Vietnamese model.
#[derive(PartialEq, Eq, Structural, Clone, Copy, Debug)]
pub enum Hypothesis {
    AccentSensitive,
    AccentStripped,
}

/// The tie-break between the hypotheses: agreement keeps the accented one;
/// then the lower total edit distance wins; on equal distances the
/// accent-free one wins when its log-probability sum is lower. The next step
/// picks the accented hypothesis when the accent-free sum exceeds itself,
/// which never holds (see `lemma_self_comparison_never_holds`); the default
/// picks the accented hypothesis as well.
pub open spec fn preferred(
    agree: bool,
    stripped_distance: int,
    accented_distance: int,
    stripped_prob_lower: bool,
    stripped_prob_above_itself: bool,
) -> Hypothesis {
    if agree {
        Hypothesis::AccentSensitive
    } else if stripped_distance < accented_distance {
        Hypothesis::AccentStripped
    } else if stripped_distance > accented_distance {
        Hypothesis::AccentSensitive
    } else if stripped_prob_lower {
        Hypothesis::AccentStripped
    } else if stripped_prob_above_itself {
        Hypothesis::AccentSensitive
    } else {
        Hypothesis::AccentSensitive
    }
}

/// No log-probability sum exceeds itself, NaN included: the fifth step of
/// the tie-break never applies.
pub proof fn lemma_self_comparison_never_holds(bits: u64)
    ensures
        !float_bits_less(bits, bits),
{
}

/// Picks a hypothesis by the tie-break policy.
pub fn choose_hypothesis(
    agree: bool,
    stripped_distance: i64,
    accented_distance: i64,
    stripped_prob_lower: bool,
    stripped_prob_above_itself: bool,
) -> (r: Hypothesis)
    ensures
        r == preferred(agree, stripped_distance as int, accented_distance as int, stripped_prob_lower, stripped_prob_above_itself),
{
    if agree {
        Hypothesis::AccentSensitive
    } else if stripped_distance < accented_distance {
        Hypothesis::AccentStripped
    } else if stripped_distance > accented_distance {
        Hypothesis::AccentSensitive
    } else if stripped_prob_lower {
        Hypothesis::AccentStripped
    } else if stripped_prob_above_itself {
        Hypothesis::AccentSensitive
    } else {
        Hypothesis::AccentSensitive
    }
}

/// What the Vietnamese model returns for the segmentation input `text`, given
/// the accent-free hypothesis (made on the transliteration of `text`) and
/// the accented one.
pub open spec fn reconciled(text: Seq<char>, stripped: Segmentation, accented: Segmentation) -> Seq<char> {
    let agree = stripped.segmented_string@ == ascii_of(accented.segmented_string@);
    match preferred(
        agree,
        stripped.distance_sum as int,
        accented.distance_sum as int,
        float_bits_less(stripped.prob_log_sum_bits, accented.prob_log_sum_bits),
        float_bits_less(stripped.prob_log_sum_bits, stripped.prob_log_sum_bits),
    ) {
        Hypothesis::AccentStripped => remapped(graphemes_of(text), stripped.segmented_string@),
        Hypothesis::AccentSensitive => accented.segmented_string@,
    }
}

/// Settles between the accent-free and the accented segmentation of `text`.
pub fn reconcile_segmentations(text: &str, stripped: &Segmentation, accented: &Segmentation) -> (r: String)
    ensures
        r@ == reconciled(text@, *stripped, *accented),
{
    let decoded = unicode_decode(accented.segmented_string.as_str());
    let agree = stripped.segmented_string == decoded;
    let lower = float_bits_lt(stripped.prob_log_sum_bits, accented.prob_log_sum_bits);
    let above_itself = float_bits_lt(stripped.prob_log_sum_bits, stripped.prob_log_sum_bits);
    match choose_hypothesis(agree, stripped.distance_sum, accented.distance_sum, lower, above_itself) {
        Hypothesis::AccentStripped => word_segmentation_without_accents(text, stripped.segmented_string.as_str()),
        Hypothesis::AccentSensitive => accented.segmented_string.clone(),
    }
}

/// Where the accent-free hypothesis has the strictly lower edit distance
/// and the two disagree, the result is the accented text re-cut at the
/// accent-free word boundaries, counted in grapheme clusters.
pub proof fn lemma_lower_distance_remaps(text: Seq<char>, stripped: Segmentation, accented: Segmentation)
    requires
        stripped.distance_sum < accented.distance_sum,
        stripped.segmented_string@ != ascii_of(accented.segmented_string@),
    ensures
        reconciled(text, stripped, accented) == remapped(graphemes_of(text), stripped.segmented_string@),
{
}

/// Whether stage A settles the token: it holds a character that is neither
/// letter nor number, and every sub-word between such characters is known.
pub open spec fn resolved_by_subwords(lex: &Lexicon, word: Seq<char>) -> bool {
    &&& spaced_out(word) != word
    &&& forall|i: int| 0 <= i < words_of(spaced_out(word)).len() ==> lex.known(#[trigger] words_of(spaced_out(word))[i])
}

/// What the correction engine promises of its result `r` for `word`.
pub open spec fn corrected(lex: &Lexicon, word: Seq<char>, r: Seq<char>) -> bool {
    &&& resolved_by_subwords(lex, word) ==> r == joined(words_of(spaced_out(word)))
    &&& (!resolved_by_subwords(lex, word) && spaced_out(word) == word && segmentation_input(lex, word).len() == 0)
        ==> r.len() == 0
}

/// Repairs a token that is not in the dictionary: first as known words split
/// by punctuation, else by reducing repeated letters, setting tagged terms
/// apart and segmenting; for Vietnamese the accent-free and the accented
/// segmentation are weighed against each other.
pub fn correct_unknown_word(lex: &Lexicon, word: &str) -> (r: String)
    requires
        lex.wf(),
    ensures
        corrected(lex, word@, r@),
{
    let candidate = space_out_non_words(word);
    let as_given = word.to_owned();
    if candidate != as_given {
        let subs = split_words(candidate.as_str());
        proof {
            assert(string_views(subs@) =~= words_of(candidate@));
            if resolved_by_subwords(lex, word@) {
                assert forall|i: int| 0 <= i < subs@.len() implies lex.known(#[trigger] subs@[i]@) by {
                    assert(subs@[i]@ == words_of(spaced_out(word@))[i]);
                }
            }
        }
        if let Some(t) = correct_subwords(lex, &subs) {
            return t;
        }
    }
    assert(!resolved_by_subwords(lex, word@));
    let input = prepare_segmentation_input(lex, word);
    // segmentation needs at least one character
    if input.as_str().unicode_len() == 0 {
        return input;
    }
    match lex.dictionary_without_accents() {
        None => word_segmentation(lex.dictionary(), input.as_str()).segmented_string,
        Some(accentless) => {
            let accented = word_segmentation(lex.dictionary(), input.as_str());
            let decoded = unicode_decode(input.as_str());
            // nothing is left to segment once transliteration drops every character
            if decoded.as_str().unicode_len() == 0 {
                return accented.segmented_string;
            }
            let stripped = word_segmentation(accentless, decoded.as_str());
            reconcile_segmentations(input.as_str(), &stripped, &accented)
        },
    }
}

} // verus!

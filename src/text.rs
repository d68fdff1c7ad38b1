//! Character-level helpers shared by the normalizer, the correction engine
//! and the text pipeline.
use vstd::prelude::*;

verus! {

/// Whether a character has Unicode's White_Space property, as decided by
/// `char::is_whitespace`.
pub uninterp spec fn white_space(c: char) -> bool;

/// The lowercase mapping of a string, as computed by `str::to_lowercase`.
pub uninterp spec fn lower_of(s: Seq<char>) -> Seq<char>;

/// Relies on `char::is_whitespace`: true exactly for White_Space characters,
/// among them the ASCII space.
#[verifier::external_body]
pub(crate) fn is_white_space(c: char) -> (r: bool)
    ensures
        r == white_space(c),
        c == ' ' ==> r,
{
    c.is_whitespace()
}

/// Relies on `str::to_lowercase`: the result depends on the characters alone,
/// and the empty string stays empty.
#[verifier::external_body]
pub(crate) fn lowercase(s: &str) -> (r: String)
    ensures
        r@ == lower_of(s@),
        s@.len() == 0 ==> r@.len() == 0,
{
    s.to_lowercase()
}

/// Relies on `String::push`: appends one character.
#[verifier::external_body]
pub(crate) fn push_char(s: &mut String, c: char)
    ensures
        final(s)@ == old(s)@.push(c),
{
    s.push(c)
}

/// The characters of a string, in order.
pub fn chars_of(s: &str) -> (r: Vec<char>)
    ensures
        r@ == s@,
{
    let mut v: Vec<char> = Vec::new();
    for c in it: s.chars()
        invariant
            v@ == it.seq().take(it.index() as int),
            it.seq() == s@,
    {
        v.push(c);
    }
    v
}

/// The string made of the given characters, in order.
pub fn string_of(v: &Vec<char>) -> (r: String)
    ensures
        r@ == v@,
{
    let mut s = String::new();
    let mut i: usize = 0;
    while i < v.len()
        invariant
            i <= v@.len(),
            s@ == v@.take(i as int),
        decreases v@.len() - i,
    {
        push_char(&mut s, v[i]);
        i = i + 1;
        assert(v@.take(i as int) =~= v@.take(i - 1).push(v@[i - 1]));
    }
    assert(v@.take(v@.len() as int) =~= v@);
    s
}

/// The words of `s`, separated by single spaces.
pub open spec fn joined(words: Seq<Seq<char>>) -> Seq<char>
    decreases words.len(),
{
    if words.len() == 0 {
        Seq::empty()
    } else if words.len() == 1 {
        words[0]
    } else {
        joined(words.drop_last()) + seq![' '] + words.last()
    }
}

/// Joins strings with a single space between neighbours.
pub fn join_with_space(words: &Vec<String>) -> (r: String)
    ensures
        r@ == joined(words@.map_values(|w: String| w@)),
{
    let ghost views = words@.map_values(|w: String| w@);
    let mut s = String::new();
    let mut i: usize = 0;
    while i < words.len()
        invariant
            i <= words@.len(),
            views == words@.map_values(|w: String| w@),
            s@ == joined(views.take(i as int)),
        decreases words@.len() - i,
    {
        if i > 0 {
            s.append(" ");
        }
        s.append(words[i].as_str());
        i = i + 1;
        proof {
            reveal_strlit(" ");
            assert(views.take(i as int).drop_last() =~= views.take(i - 1));
        }
    }
    assert(views.take(words@.len() as int) =~= views);
    s
}

/// The maximal runs of non-white-space characters of `s`, in order.
pub open spec fn words_of(s: Seq<char>) -> Seq<Seq<char>>
    decreases s.len(),
{
    if s.len() == 0 {
        Seq::empty()
    } else {
        let prev = words_of(s.drop_last());
        let c = s.last();
        if white_space(c) {
            prev
        } else if s.len() == 1 || white_space(s[s.len() - 2]) {
            prev.push(seq![c])
        } else {
            prev.update(prev.len() - 1, prev.last().push(c))
        }
    }
}

/// Splits `s` into its maximal runs of non-white-space characters.
pub fn split_words(s: &str) -> (r: Vec<String>)
    ensures
        r@.map_values(|w: String| w@) == words_of(s@),
{
    let cs = chars_of(s);
    let mut done: Vec<String> = Vec::new();
    let mut cur: Vec<char> = Vec::new();
    let mut i: usize = 0;
    while i < cs.len()
        invariant
            i <= cs@.len(),
            cs@ == s@,
            cur@.len() > 0 <==> (i > 0 && !white_space(cs@[i - 1])),
            cur@.len() > 0 ==> words_of(cs@.take(i as int)) == done@.map_values(|w: String| w@).push(cur@),
            cur@.len() == 0 ==> words_of(cs@.take(i as int)) == done@.map_values(|w: String| w@),
        decreases cs@.len() - i,
    {
        let c = cs[i];
        let ghost pre = cs@.take(i as int);
        let ghost old_done = done@.map_values(|w: String| w@);
        let ghost old_cur = cur@;
        assert(cs@.take(i + 1).drop_last() =~= pre);
        assert(cs@.take(i + 1).last() == c);
        if is_white_space(c) {
            if cur.len() > 0 {
                let w = string_of(&cur);
                done.push(w);
                assert(done@.map_values(|w: String| w@) =~= old_done.push(old_cur));
                cur = Vec::new();
            }
        } else {
            let had = cur.len() > 0;
            cur.push(c);
            if had {
                assert(old_done.push(old_cur).update(old_done.len() as int, old_cur.push(c))
                    =~= old_done.push(cur@));
            } else {
                assert(cur@ =~= seq![c]);
            }
        }
        i = i + 1;
    }
    if cur.len() > 0 {
        let w = string_of(&cur);
        done.push(w);
    }
    assert(cs@.take(cs@.len() as int) =~= cs@);
    done
}

} // verus!

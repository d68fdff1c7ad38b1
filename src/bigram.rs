//! Reduction of repeated letters inside one token, by way of its bigrams.
use vstd::prelude::*;
use crate::text::{chars_of, push_char};

verus! {

/// A pair of adjacent characters.
pub type Bigram = (char, char);

/// The `n - 1` bigrams of a token of `n` characters, in order.
pub open spec fn bigrams_of(w: Seq<char>) -> Seq<Bigram> {
    if w.len() == 0 {
        Seq::empty()
    } else {
        Seq::new((w.len() - 1) as nat, |i: int| (w[i], w[i + 1]))
    }
}

pub open spec fn is_double(b: Bigram) -> bool {
    b.0 == b.1
}

/// First pass: of each run of consecutive doubled bigrams only the first stays.
pub open spec fn collapse_runs(bs: Seq<Bigram>) -> Seq<Bigram>
    decreases bs.len(),
{
    if bs.len() == 0 {
        Seq::empty()
    } else {
        let prev = collapse_runs(bs.drop_last());
        if bs.len() >= 2 && is_double(bs.last()) && is_double(bs[bs.len() - 2]) {
            prev
        } else {
            prev.push(bs.last())
        }
    }
}

/// Second pass: every doubled bigram goes.
pub open spec fn drop_doubles(bs: Seq<Bigram>) -> Seq<Bigram>
    decreases bs.len(),
{
    if bs.len() == 0 {
        Seq::empty()
    } else if is_double(bs.last()) {
        drop_doubles(bs.drop_last())
    } else {
        drop_doubles(bs.drop_last()).push(bs.last())
    }
}

/// The number of doubled bigrams in `bs`.
pub open spec fn double_count(bs: Seq<Bigram>) -> nat
    decreases bs.len(),
{
    if bs.len() == 0 {
        0
    } else {
        double_count(bs.drop_last()) + if is_double(bs.last()) { 1nat } else { 0nat }
    }
}

/// The first character of each bigram, then the last character of the last one.
pub open spec fn joined_bigrams(bs: Seq<Bigram>) -> Seq<char>
    recommends
        bs.len() > 0,
{
    bs.map_values(|b: Bigram| b.0).push(bs.last().1)
}

/// Whether the bigrams kept by the first pass hold too many doubles: the
/// rebuilt length `len` exceeds 3 and the doubles exceed `0.3 * len`.
pub open spec fn too_dense(kept: Seq<Bigram>) -> bool {
    let len = kept.len() + 1;
    len > 3 && 10 * double_count(kept) > 3 * len
}

/// Whether the first pass over `w` stays at or below the density threshold.
pub open spec fn below_density_threshold(w: Seq<char>) -> bool {
    w.len() <= 1 || !too_dense(collapse_runs(bigrams_of(w)))
}

/// What the normalizer makes of a token.
pub open spec fn normalized(w: Seq<char>) -> Seq<char> {
    if w.len() <= 1 {
        w
    } else {
        let kept = collapse_runs(bigrams_of(w));
        if too_dense(kept) {
            joined_bigrams(drop_doubles(kept))
        } else {
            joined_bigrams(kept)
        }
    }
}

/// Each bigram starts with the character that ends the one before it.
pub open spec fn is_chain(bs: Seq<Bigram>) -> bool {
    forall|i: int| 0 < i < bs.len() ==> #[trigger] bs[i].0 == bs[i - 1].1
}

/// No two neighbouring bigrams are both doubled.
pub open spec fn no_adjacent_doubles(bs: Seq<Bigram>) -> bool {
    forall|i: int| 0 < i < bs.len() ==> !(is_double(#[trigger] bs[i]) && is_double(bs[i - 1]))
}

proof fn lemma_collapse_chain(bs: Seq<Bigram>)
    requires
        is_chain(bs),
        bs.len() > 0,
    ensures
        collapse_runs(bs).len() > 0,
        collapse_runs(bs).last() == bs.last(),
        is_chain(collapse_runs(bs)),
        no_adjacent_doubles(collapse_runs(bs)),
    decreases bs.len(),
{
    let pre = bs.drop_last();
    let prev = collapse_runs(pre);
    let c = collapse_runs(bs);
    if bs.len() == 1 {
        assert(prev == Seq::<Bigram>::empty());
        assert(c =~= seq![bs[0]]);
    } else {
        assert(is_chain(pre)) by {
            assert forall|i: int| 0 < i < pre.len() implies #[trigger] pre[i].0 == pre[i - 1].1 by {
                assert(bs[i].0 == bs[i - 1].1);
            }
        }
        lemma_collapse_chain(pre);
        let n = bs.len() - 1;
        assert(bs[n].0 == bs[n - 1].1);
        if is_double(bs[n]) && is_double(bs[n - 1]) {
            assert(c == prev);
            assert(bs[n] == bs[n - 1]);
        } else {
            assert(c == prev.push(bs[n]));
            assert forall|i: int| 0 < i < c.len() implies #[trigger] c[i].0 == c[i - 1].1 by {
                if i < c.len() - 1 {
                    assert(c[i] == prev[i]);
                    assert(c[i - 1] == prev[i - 1]);
                }
            }
            assert forall|i: int| 0 < i < c.len() implies !(is_double(#[trigger] c[i]) && is_double(c[i - 1])) by {
                if i < c.len() - 1 {
                    assert(c[i] == prev[i]);
                    assert(c[i - 1] == prev[i - 1]);
                }
            }
        }
    }
}

proof fn lemma_collapse_keeps(k: Seq<Bigram>)
    requires
        no_adjacent_doubles(k),
    ensures
        collapse_runs(k) == k,
    decreases k.len(),
{
    if k.len() > 0 {
        let pre = k.drop_last();
        assert(no_adjacent_doubles(pre)) by {
            assert forall|i: int| 0 < i < pre.len() implies !(is_double(#[trigger] pre[i]) && is_double(pre[i - 1])) by {
                assert(!(is_double(k[i]) && is_double(k[i - 1])));
            }
        }
        lemma_collapse_keeps(pre);
        if k.len() >= 2 {
            assert(!(is_double(k[k.len() - 1]) && is_double(k[k.len() - 2])));
        }
        assert(pre.push(k.last()) =~= k);
    }
}

proof fn lemma_chain_round_trip(k: Seq<Bigram>)
    requires
        is_chain(k),
        k.len() > 0,
    ensures
        joined_bigrams(k).len() == k.len() + 1,
        bigrams_of(joined_bigrams(k)) =~= k,
{
    let w = joined_bigrams(k);
    assert forall|i: int| 0 <= i < k.len() implies #[trigger] bigrams_of(w)[i] == k[i] by {
        if i + 1 < k.len() {
            assert(k[i + 1].0 == k[i].1);
        }
    }
}

proof fn lemma_drop_doubles_nonempty(bs: Seq<Bigram>, j: int)
    requires
        0 <= j < bs.len(),
        !is_double(bs[j]),
    ensures
        drop_doubles(bs).len() > 0,
    decreases bs.len(),
{
    if j < bs.len() - 1 {
        lemma_drop_doubles_nonempty(bs.drop_last(), j);
    }
}

/// Tokens of at most one character come back unchanged; the first pass
/// already gives a token free of runs, so the normalizer is idempotent on
/// every token whose first pass stays below the density threshold.
pub proof fn lemma_normalize_idempotent(w: Seq<char>)
    requires
        below_density_threshold(w),
    ensures
        normalized(normalized(w)) == normalized(w),
{
    if w.len() > 1 {
        let bs = bigrams_of(w);
        assert(is_chain(bs));
        lemma_collapse_chain(bs);
        let kept = collapse_runs(bs);
        lemma_chain_round_trip(kept);
        lemma_collapse_keeps(kept);
    }
}

/// Short tokens pass through the normalizer unchanged.
pub proof fn lemma_normalize_short(w: Seq<char>)
    requires
        w.len() <= 1,
    ensures
        normalized(w) == w,
{
}

/// The bigrams of `word`, in order.
pub fn split_bigram(word: &str) -> (r: Vec<Bigram>)
    ensures
        r@ == bigrams_of(word@),
{
    let letters = chars_of(word);
    let mut bigrams: Vec<Bigram> = Vec::new();
    if letters.len() == 0 {
        return bigrams;
    }
    let mut i: usize = 0;
    while i < letters.len() - 1
        invariant
            letters@ == word@,
            letters@.len() > 0,
            i < letters@.len(),
            bigrams@ =~= bigrams_of(word@).take(i as int),
        decreases letters@.len() - i,
    {
        bigrams.push((letters[i], letters[i + 1]));
        i = i + 1;
    }
    assert(bigrams_of(word@).take(i as int) =~= bigrams_of(word@));
    bigrams
}

/// Rebuilds a token from its bigrams.
pub fn join_bigram(bigrams: &Vec<Bigram>) -> (r: String)
    requires
        bigrams@.len() > 0,
    ensures
        r@ == joined_bigrams(bigrams@),
{
    let mut new_word = String::new();
    let mut i: usize = 0;
    while i < bigrams.len()
        invariant
            i <= bigrams@.len(),
            new_word@ =~= bigrams@.take(i as int).map_values(|b: Bigram| b.0),
        decreases bigrams@.len() - i,
    {
        push_char(&mut new_word, bigrams[i].0);
        i = i + 1;
    }
    assert(bigrams@.take(i as int) =~= bigrams@);
    push_char(&mut new_word, bigrams[bigrams.len() - 1].1);
    new_word
}

/// Collapses noisy letter repetition in a token ("helllo" becomes "hello");
/// where doubled letters are dense ("hheelloo") every doubled pair goes
/// ("helo"). Tokens of at most one character come back unchanged.
pub fn reduce_bigram(word: &str) -> (r: String)
    ensures
        r@ == normalized(word@),
        word@.len() <= 1 ==> r@ == word@,
{
    let bigrams = split_bigram(word);
    if bigrams.len() == 0 {
        return word.to_owned();
    }
    let ghost bs = bigrams@;
    let mut new_bigrams: Vec<Bigram> = Vec::new();
    let mut repeat_flag = false;
    let mut duplication_num: usize = 0;
    let mut i: usize = 0;
    while i < bigrams.len()
        invariant
            bs == bigrams@,
            i <= bs.len(),
            new_bigrams@ == collapse_runs(bs.take(i as int)),
            duplication_num == double_count(new_bigrams@),
            duplication_num <= i,
            repeat_flag == (i > 0 && is_double(bs[i - 1])),
        decreases bs.len() - i,
    {
        let bigram = bigrams[i];
        assert(bs.take(i + 1).drop_last() =~= bs.take(i as int));
        let ghost prev = new_bigrams@;
        if bigram.0 == bigram.1 {
            if repeat_flag {
                i = i + 1;
                continue;
            }
            repeat_flag = true;
            duplication_num = duplication_num + 1;
        } else {
            repeat_flag = false;
        }
        new_bigrams.push(bigram);
        assert(new_bigrams@.drop_last() =~= prev);
        i = i + 1;
    }
    assert(bs.take(i as int) =~= bs);
    proof {
        assert(is_chain(bs));
        lemma_collapse_chain(bs);
    }
    let len_bigrams = new_bigrams.len() as u128 + 1;
    if len_bigrams > 3 && 10 * (duplication_num as u128) > 3 * len_bigrams {
        let ghost kept = new_bigrams@;
        let mut new_new_bigrams: Vec<Bigram> = Vec::new();
        let mut j: usize = 0;
        while j < new_bigrams.len()
            invariant
                kept == new_bigrams@,
                j <= kept.len(),
                new_new_bigrams@ == drop_doubles(kept.take(j as int)),
            decreases kept.len() - j,
        {
            let bigram = new_bigrams[j];
            assert(kept.take(j + 1).drop_last() =~= kept.take(j as int));
            if bigram.0 != bigram.1 {
                new_new_bigrams.push(bigram);
            }
            j = j + 1;
        }
        assert(kept.take(j as int) =~= kept);
        proof {
            if is_double(kept[0]) {
                assert(!is_double(kept[1]));
                lemma_drop_doubles_nonempty(kept, 1);
            } else {
                lemma_drop_doubles_nonempty(kept, 0);
            }
        }
        return join_bigram(&new_new_bigrams);
    }
    join_bigram(&new_bigrams)
}

} // verus!

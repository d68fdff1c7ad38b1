use text_normalizer::bigram::{join_bigram, reduce_bigram, split_bigram};

#[test]
fn reduce_bigram_collapses_single_run() {
    assert_eq!(reduce_bigram("helllo"), "hello");
}

#[test]
fn reduce_bigram_drops_dense_doubles() {
    assert_eq!(reduce_bigram("hheelloo"), "helo");
}

#[test]
fn reduce_bigram_keeps_short_tokens() {
    assert_eq!(reduce_bigram(""), "");
    assert_eq!(reduce_bigram("a"), "a");
    assert_eq!(reduce_bigram("é"), "é");
}

#[test]
fn reduce_bigram_keeps_valid_double_letters() {
    assert_eq!(reduce_bigram("book"), "book");
    assert_eq!(reduce_bigram("hello"), "hello");
}

#[test]
fn reduce_bigram_is_idempotent_below_threshold() {
    for w in ["helllo", "cooool", "aaaa", "abc", "xyyyz", "bookkeeper"] {
        let once = reduce_bigram(w);
        assert_eq!(reduce_bigram(&once), once);
    }
}

#[test]
fn reduce_bigram_threshold_boundary() {
    // kept bigrams "aa", "ab", "bc": len 4, one double: 1 > 1.2 fails, kept as is
    assert_eq!(reduce_bigram("aabc"), "aabc");
    // "aabb": kept "aa","ab","bb": len 4, two doubles: 2 > 1.2, all doubles go
    assert_eq!(reduce_bigram("aabb"), "ab");
    // three characters never reach the second pass
    assert_eq!(reduce_bigram("aab"), "aab");
}

#[test]
fn split_and_join_bigrams() {
    let b = split_bigram("hello");
    assert_eq!(b, vec![('h', 'e'), ('e', 'l'), ('l', 'l'), ('l', 'o')]);
    assert_eq!(join_bigram(&b), "hello");
    assert_eq!(split_bigram("a").len(), 0);
    assert_eq!(split_bigram("").len(), 0);
}

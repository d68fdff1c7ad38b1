//! Recognition of the decimal literals that `f64`'s `FromStr` accepts.
use vstd::prelude::*;
use crate::text::chars_of;

verus! {

pub open spec fn is_digit(c: char) -> bool {
    '0' <= c && c <= '9'
}

pub open spec fn all_digits(s: Seq<char>) -> bool {
    forall|i: int| 0 <= i < s.len() ==> is_digit(#[trigger] s[i])
}

pub open spec fn is_sign(c: char) -> bool {
    c == '+' || c == '-'
}

/// `Digit+ | Digit+ '.' Digit* | Digit* '.' Digit+`
pub open spec fn is_decimal(m: Seq<char>) -> bool {
    ||| m.len() > 0 && all_digits(m)
    ||| m.len() > 1 && exists|d: int|
        0 <= d < m.len() && m[d] == '.' && all_digits(#[trigger] m.take(d)) && all_digits(m.skip(d + 1))
}

pub open spec fn is_exp_char(c: char) -> bool {
    c == 'e' || c == 'E'
}

/// `'e' Sign? Digit+`, the `e` in either case.
pub open spec fn is_exponent(e: Seq<char>) -> bool {
    &&& e.len() >= 2
    &&& is_exp_char(e[0])
    &&& {
        ||| all_digits(e.skip(1))
        ||| e.len() >= 3 && is_sign(e[1]) && all_digits(e.skip(2))
    }
}

/// `Number ::= Decimal Exp?`
pub open spec fn is_number_literal(t: Seq<char>) -> bool {
    exists|k: int| 0 <= k <= t.len() && is_decimal(#[trigger] t.take(k)) && (k == t.len() || is_exponent(t.skip(k)))
}

/// `t` spells the word whose lowercase and uppercase forms are given.
pub open spec fn spells(t: Seq<char>, lower: Seq<char>, upper: Seq<char>) -> bool {
    &&& t.len() == lower.len()
    &&& lower.len() == upper.len()
    &&& forall|i: int| 0 <= i < t.len() ==> #[trigger] t[i] == lower[i] || t[i] == upper[i]
}

pub open spec fn is_special_float(t: Seq<char>) -> bool {
    ||| spells(t, "inf"@, "INF"@)
    ||| spells(t, "infinity"@, "INFINITY"@)
    ||| spells(t, "nan"@, "NAN"@)
}

pub open spec fn is_unsigned_float(t: Seq<char>) -> bool {
    is_special_float(t) || is_number_literal(t)
}

/// `Sign? ( 'inf' | 'infinity' | 'nan' | Number )`, letters in either case:
/// the strings that `str::parse::<f64>` accepts.
pub open spec fn is_float_literal(s: Seq<char>) -> bool {
    ||| is_unsigned_float(s)
    ||| s.len() > 0 && is_sign(s[0]) && is_unsigned_float(s.skip(1))
}

fn digits_only(cs: &Vec<char>, from: usize, to: usize) -> (r: bool)
    requires
        from <= to <= cs@.len(),
    ensures
        r == all_digits(cs@.subrange(from as int, to as int)),
{
    let mut i: usize = from;
    while i < to
        invariant
            from <= i <= to <= cs@.len(),
            forall|j: int| from <= j < i ==> is_digit(#[trigger] cs@[j]),
        decreases to - i,
    {
        if !('0' <= cs[i] && cs[i] <= '9') {
            assert(cs@.subrange(from as int, to as int)[i - from] == cs@[i as int]);
            return false;
        }
        i = i + 1;
    }
    assert forall|j: int| 0 <= j < to - from implies is_digit(#[trigger] cs@.subrange(from as int, to as int)[j]) by {
        assert(cs@.subrange(from as int, to as int)[j] == cs@[from + j]);
    }
    true
}

/// The first position in `from..to` holding `a` or `b`, or `to`.
fn first_of(cs: &Vec<char>, from: usize, to: usize, a: char, b: char) -> (r: usize)
    requires
        from <= to <= cs@.len(),
    ensures
        from <= r <= to,
        forall|j: int| from <= j < r ==> #[trigger] cs@[j] != a && cs@[j] != b,
        r < to ==> cs@[r as int] == a || cs@[r as int] == b,
{
    let mut i: usize = from;
    while i < to
        invariant
            from <= i <= to <= cs@.len(),
            forall|j: int| from <= j < i ==> #[trigger] cs@[j] != a && cs@[j] != b,
        decreases to - i,
    {
        if cs[i] == a || cs[i] == b {
            return i;
        }
        i = i + 1;
    }
    to
}

fn decimal_at(cs: &Vec<char>, from: usize, to: usize) -> (r: bool)
    requires
        from <= to <= cs@.len(),
    ensures
        r == is_decimal(cs@.subrange(from as int, to as int)),
{
    let ghost m = cs@.subrange(from as int, to as int);
    let d = first_of(cs, from, to, '.', '.');
    if d == to {
        let r = to > from && digits_only(cs, from, to);
        assert forall|e: int| 0 <= e < m.len() && m[e] == '.' implies false by {
            assert(m[e] == cs@[from + e]);
        }
        return r;
    }
    let left = digits_only(cs, from, d);
    let right = digits_only(cs, d + 1, to);
    let ghost dd = d - from;
    assert(m.take(dd) =~= cs@.subrange(from as int, d as int));
    assert(m.skip(dd + 1) =~= cs@.subrange(d + 1, to as int));
    assert(m[dd] == cs@[d as int]);
    assert(!all_digits(m)) by {
        assert(!is_digit(m[dd]));
    }
    if to - from > 1 && left && right {
        assert(m.len() > 1 && 0 <= dd < m.len() && m[dd] == '.' && all_digits(m.take(dd)) && all_digits(m.skip(dd + 1)));
        return true;
    }
    assert forall|e: int| 0 <= e < m.len() && m[e] == '.' && all_digits(#[trigger] m.take(e)) implies !all_digits(m.skip(e + 1)) || m.len() <= 1 by {
        if e > dd {
            assert(m.take(e)[dd] == m[dd]);
        } else if e < dd {
            assert(m[e] == cs@[from + e]);
        }
    }
    false
}

fn exponent_at(cs: &Vec<char>, from: usize, to: usize) -> (r: bool)
    requires
        from <= to <= cs@.len(),
    ensures
        r == is_exponent(cs@.subrange(from as int, to as int)),
{
    let ghost e = cs@.subrange(from as int, to as int);
    if to - from < 2 {
        return false;
    }
    assert(e[0] == cs@[from as int]);
    assert(e[1] == cs@[from + 1]);
    if !(cs[from] == 'e' || cs[from] == 'E') {
        return false;
    }
    assert(e.skip(1) =~= cs@.subrange(from + 1, to as int));
    if digits_only(cs, from + 1, to) {
        return true;
    }
    if to - from < 3 {
        return false;
    }
    assert(e.skip(2) =~= cs@.subrange(from + 2, to as int));
    (cs[from + 1] == '+' || cs[from + 1] == '-') && digits_only(cs, from + 2, to)
}

fn number_at(cs: &Vec<char>, from: usize, to: usize) -> (r: bool)
    requires
        from <= to <= cs@.len(),
    ensures
        r == is_number_literal(cs@.subrange(from as int, to as int)),
{
    let ghost t = cs@.subrange(from as int, to as int);
    let k = first_of(cs, from, to, 'e', 'E');
    let ghost kk = k - from;
    assert(t.take(kk) =~= cs@.subrange(from as int, k as int));
    assert(t.skip(kk) =~= cs@.subrange(k as int, to as int));
    let dec = decimal_at(cs, from, k);
    let r = dec && (k == to || exponent_at(cs, k, to));
    if r {
        assert(0 <= kk <= t.len() && is_decimal(t.take(kk)) && (kk == t.len() || is_exponent(t.skip(kk))));
    } else {
        assert forall|j: int| 0 <= j <= t.len() && is_decimal(#[trigger] t.take(j)) implies !(j == t.len() || is_exponent(t.skip(j))) by {
            let p = t.take(j);
            assert forall|i: int| 0 <= i < p.len() implies !is_exp_char(#[trigger] p[i]) by {
                if all_digits(p) {
                    assert(is_digit(p[i]));
                } else {
                    let d = choose|d: int| 0 <= d < p.len() && p[d] == '.' && all_digits(#[trigger] p.take(d)) && all_digits(p.skip(d + 1));
                    if i < d {
                        assert(p.take(d)[i] == p[i]);
                    } else if i > d {
                        assert(p.skip(d + 1)[i - d - 1] == p[i]);
                    }
                }
            }
            if j < kk {
                if j < t.len() && is_exponent(t.skip(j)) {
                    assert(t.skip(j)[0] == t[j]);
                    assert(t[j] == cs@[from + j]);
                }
            } else if j > kk {
                assert(p[kk] == t[kk]);
                assert(t[kk] == cs@[k as int]);
            }
        }
    }
    r
}

fn spells_at(cs: &Vec<char>, from: usize, to: usize, lower: &str, upper: &str) -> (r: bool)
    requires
        from <= to <= cs@.len(),
    ensures
        r == spells(cs@.subrange(from as int, to as int), lower@, upper@),
{
    let lo = chars_of(lower);
    let up = chars_of(upper);
    let ghost t = cs@.subrange(from as int, to as int);
    if to - from != lo.len() || lo.len() != up.len() {
        return false;
    }
    let mut i: usize = 0;
    while i < lo.len()
        invariant
            from <= to <= cs@.len(),
            to - from == lo@.len(),
            lo@.len() == up@.len(),
            lo@ == lower@,
            up@ == upper@,
            t == cs@.subrange(from as int, to as int),
            i <= lo@.len(),
            forall|j: int| 0 <= j < i ==> #[trigger] t[j] == lo@[j] || t[j] == up@[j],
        decreases lo@.len() - i,
    {
        assert(t[i as int] == cs@[from + i]);
        if cs[from + i] != lo[i] && cs[from + i] != up[i] {
            return false;
        }
        i = i + 1;
    }
    true
}

fn unsigned_float_at(cs: &Vec<char>, from: usize, to: usize) -> (r: bool)
    requires
        from <= to <= cs@.len(),
    ensures
        r == is_unsigned_float(cs@.subrange(from as int, to as int)),
{
    spells_at(cs, from, to, "inf", "INF") || spells_at(cs, from, to, "infinity", "INFINITY")
        || spells_at(cs, from, to, "nan", "NAN") || number_at(cs, from, to)
}

/// Whether `word` is a decimal literal in the grammar of `f64`'s `FromStr`.
pub fn is_a_number(word: &str) -> (r: bool)
    ensures
        r == is_float_literal(word@),
{
    let cs = chars_of(word);
    let n = cs.len();
    assert(cs@.subrange(0, n as int) =~= word@);
    if unsigned_float_at(&cs, 0, n) {
        return true;
    }
    if n > 0 && (cs[0] == '+' || cs[0] == '-') {
        assert(cs@.subrange(1, n as int) =~= word@.skip(1));
        return unsigned_float_at(&cs, 1, n);
    }
    false
}

} // verus!

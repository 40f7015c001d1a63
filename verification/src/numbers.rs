//! The textual forms of numbers that the exposition format and the Loki API
//! use: floating-point literals (validated, kept as text) and signed 64-bit
//! integers.

use vstd::prelude::*;
use crate::text::{is_digit, digit_value};

verus! {

/// Every character of `s` is a decimal digit.
pub open spec fn all_digits(s: Seq<char>) -> bool {
    forall|i: int| 0 <= i < s.len() ==> is_digit(#[trigger] s[i])
}

/// A sign character.
pub open spec fn is_sign(c: char) -> bool {
    c == '+' || c == '-'
}

/// `s` spells `lower` in any mix of cases, where `upper` is `lower` in capitals.
pub open spec fn caseless_eq(s: Seq<char>, lower: Seq<char>, upper: Seq<char>) -> bool {
    s.len() == lower.len() && forall|i: int| 0 <= i < s.len() ==> (#[trigger] s[i] == lower[i] || s[i] == upper[i])
}

/// `Digit+ | Digit+ '.' Digit* | Digit* '.' Digit+`
pub open spec fn is_mantissa(m: Seq<char>) -> bool {
    ||| (m.len() > 0 && all_digits(m))
    ||| exists|d: int|
        0 <= d < m.len() && m.len() > 1 && #[trigger] m[d] == '.' && all_digits(m.take(d))
            && all_digits(m.skip(d + 1))
}

/// `Sign? Digit+`
pub open spec fn is_exponent(x: Seq<char>) -> bool {
    if x.len() > 0 && is_sign(x[0]) {
        x.len() > 1 && all_digits(x.skip(1))
    } else {
        x.len() > 0 && all_digits(x)
    }
}

/// `Mantissa (('e' | 'E') Exponent)?`
pub open spec fn is_number(r: Seq<char>) -> bool {
    ||| is_mantissa(r)
    ||| exists|e: int|
        0 <= e < r.len() && (#[trigger] r[e] == 'e' || r[e] == 'E') && is_mantissa(r.take(e))
            && is_exponent(r.skip(e + 1))
}

/// The grammar of text that `f64::from_str` accepts, as its documentation
/// gives it: `Sign? ('inf' | 'infinity' | 'nan' | Number)`, the words in any case.
pub open spec fn is_float_literal(s: Seq<char>) -> bool {
    let r = if s.len() > 0 && is_sign(s[0]) {
        s.skip(1)
    } else {
        s
    };
    ||| caseless_eq(r, seq!['i', 'n', 'f'], seq!['I', 'N', 'F'])
    ||| caseless_eq(
        r,
        seq!['i', 'n', 'f', 'i', 'n', 'i', 't', 'y'],
        seq!['I', 'N', 'F', 'I', 'N', 'I', 'T', 'Y'],
    )
    ||| caseless_eq(r, seq!['n', 'a', 'n'], seq!['N', 'A', 'N'])
    ||| is_number(r)
}

fn is_digit_char(c: char) -> (b: bool)
    ensures
        b == is_digit(c),
{
    '0' <= c && c <= '9'
}

fn all_digits_in(v: &Vec<char>, lo: usize, hi: usize) -> (b: bool)
    requires
        lo <= hi <= v.len(),
    ensures
        b == all_digits(v@.subrange(lo as int, hi as int)),
{
    let mut i = lo;
    while i < hi
        invariant
            lo <= i <= hi <= v.len(),
            forall|k: int| lo <= k < i ==> is_digit(#[trigger] v@[k]),
        decreases hi - i,
    {
        if !is_digit_char(v[i]) {
            assert(!is_digit(v@.subrange(lo as int, hi as int)[i - lo]));
            return false;
        }
        i += 1;
    }
    assert forall|k: int| 0 <= k < hi - lo implies is_digit(#[trigger] v@.subrange(lo as int, hi as int)[k]) by {
        assert(v@.subrange(lo as int, hi as int)[k] == v@[lo + k]);
    }
    true
}

fn caseless_in(v: &Vec<char>, lo: usize, hi: usize, lower: &str, upper: &str) -> (b: bool)
    requires
        lo <= hi <= v.len(),
        lower@.len() == upper@.len(),
    ensures
        b == caseless_eq(v@.subrange(lo as int, hi as int), lower@, upper@),
{
    let lv = crate::text::chars_of(lower);
    let uv = crate::text::chars_of(upper);
    if hi - lo != lv.len() {
        return false;
    }
    let ghost s = v@.subrange(lo as int, hi as int);
    let mut i: usize = 0;
    while i < lv.len()
        invariant
            lo <= hi <= v.len(),
            hi - lo == lv.len(),
            lv@ == lower@,
            uv@ == upper@,
            lv.len() == uv.len(),
            s == v@.subrange(lo as int, hi as int),
            0 <= i <= lv.len(),
            forall|k: int| 0 <= k < i ==> (#[trigger] s[k] == lv@[k] || s[k] == uv@[k]),
        decreases lv.len() - i,
    {
        let c = v[lo + i];
        assert(c == s[i as int]);
        if c != lv[i] && c != uv[i] {
            return false;
        }
        i += 1;
    }
    true
}

fn first_of_in(v: &Vec<char>, lo: usize, hi: usize, a: char, b: char) -> (r: usize)
    requires
        lo <= hi <= v.len(),
    ensures
        lo <= r <= hi,
        forall|k: int| lo <= k < r ==> #[trigger] v@[k] != a && v@[k] != b,
        r < hi ==> v@[r as int] == a || v@[r as int] == b,
{
    let mut i = lo;
    while i < hi && v[i] != a && v[i] != b
        invariant
            lo <= i <= hi <= v.len(),
            forall|k: int| lo <= k < i ==> #[trigger] v@[k] != a && v@[k] != b,
        decreases hi - i,
    {
        i += 1;
    }
    i
}

fn mantissa_in(v: &Vec<char>, lo: usize, hi: usize) -> (b: bool)
    requires
        lo <= hi <= v.len(),
    ensures
        b == is_mantissa(v@.subrange(lo as int, hi as int)),
{
    let ghost m = v@.subrange(lo as int, hi as int);
    let d = first_of_in(v, lo, hi, '.', '.');
    if d == hi {
        let r = hi > lo && all_digits_in(v, lo, hi);
        proof {
            if !r && is_mantissa(m) {
                let dd = choose|dd: int|
                    0 <= dd < m.len() && m.len() > 1 && #[trigger] m[dd] == '.' && all_digits(
                        m.take(dd),
                    ) && all_digits(m.skip(dd + 1));
                assert(v@[lo + dd] == m[dd]);
            }
        }
        r
    } else {
        let before = all_digits_in(v, lo, d);
        let after = all_digits_in(v, d + 1, hi);
        let r = hi - lo > 1 && before && after;
        proof {
            let dm = d - lo;
            assert(m[dm] == '.');
            assert(m.take(dm) =~= v@.subrange(lo as int, d as int));
            assert(m.skip(dm + 1) =~= v@.subrange(d + 1, hi as int));
            if r {
                assert(is_mantissa(m));
            } else if is_mantissa(m) {
                if m.len() > 0 && all_digits(m) {
                    assert(is_digit(m[dm]));
                } else {
                    let dd = choose|dd: int|
                        0 <= dd < m.len() && m.len() > 1 && #[trigger] m[dd] == '.' && all_digits(
                            m.take(dd),
                        ) && all_digits(m.skip(dd + 1));
                    if dd < dm {
                        assert(v@[lo + dd] == m[dd]);
                    } else if dd > dm {
                        assert(m.take(dd)[dm] == m[dm]);
                    }
                }
            }
        }
        r
    }
}

fn exponent_in(v: &Vec<char>, lo: usize, hi: usize) -> (b: bool)
    requires
        lo <= hi <= v.len(),
    ensures
        b == is_exponent(v@.subrange(lo as int, hi as int)),
{
    let ghost x = v@.subrange(lo as int, hi as int);
    if lo < hi && (v[lo] == '+' || v[lo] == '-') {
        assert(x.skip(1) =~= v@.subrange(lo + 1, hi as int));
        hi - lo > 1 && all_digits_in(v, lo + 1, hi)
    } else {
        hi > lo && all_digits_in(v, lo, hi)
    }
}

fn number_in(v: &Vec<char>, lo: usize, hi: usize) -> (b: bool)
    requires
        lo <= hi <= v.len(),
    ensures
        b == is_number(v@.subrange(lo as int, hi as int)),
{
    let ghost r = v@.subrange(lo as int, hi as int);
    let e = first_of_in(v, lo, hi, 'e', 'E');
    if e == hi {
        let b = mantissa_in(v, lo, hi);
        proof {
            if !b && is_number(r) {
                let ee = choose|ee: int|
                    0 <= ee < r.len() && (#[trigger] r[ee] == 'e' || r[ee] == 'E') && is_mantissa(
                        r.take(ee),
                    ) && is_exponent(r.skip(ee + 1));
                assert(v@[lo + ee] == r[ee]);
            }
        }
        b
    } else {
        let m = mantissa_in(v, lo, e);
        let x = exponent_in(v, e + 1, hi);
        let whole = mantissa_in(v, lo, hi);
        let b = whole || (m && x);
        proof {
            let em = e - lo;
            assert(r[em] == 'e' || r[em] == 'E');
            assert(r.take(em) =~= v@.subrange(lo as int, e as int));
            assert(r.skip(em + 1) =~= v@.subrange(e + 1, hi as int));
            if !b && is_number(r) {
                let ee = choose|ee: int|
                    0 <= ee < r.len() && (#[trigger] r[ee] == 'e' || r[ee] == 'E') && is_mantissa(
                        r.take(ee),
                    ) && is_exponent(r.skip(ee + 1));
                if ee < em {
                    assert(v@[lo + ee] == r[ee]);
                } else if ee > em {
                    let t = r.take(ee);
                    assert(t[em] == r[em]);
                    if t.len() > 0 && all_digits(t) {
                        assert(is_digit(t[em]));
                    } else {
                        let dd = choose|dd: int|
                            0 <= dd < t.len() && t.len() > 1 && #[trigger] t[dd] == '.' && all_digits(
                                t.take(dd),
                            ) && all_digits(t.skip(dd + 1));
                        if em < dd {
                            assert(t.take(dd)[em] == t[em]);
                        } else if em > dd {
                            assert(t.skip(dd + 1)[em - dd - 1] == t[em]);
                        }
                    }
                }
            }
        }
        b
    }
}

/// Whether `v[lo..hi]` is text that `f64::from_str` accepts.
pub fn float_literal_in(v: &Vec<char>, lo: usize, hi: usize) -> (b: bool)
    requires
        lo <= hi <= v.len(),
    ensures
        b == is_float_literal(v@.subrange(lo as int, hi as int)),
{
    let ghost s = v@.subrange(lo as int, hi as int);
    let start = if lo < hi && (v[lo] == '+' || v[lo] == '-') {
        lo + 1
    } else {
        lo
    };
    proof {
        if s.len() > 0 && is_sign(s[0]) {
            assert(s.skip(1) =~= v@.subrange(start as int, hi as int));
        } else {
            assert(s =~= v@.subrange(start as int, hi as int));
        }
    }
    proof {
        reveal_strlit("inf");
        reveal_strlit("INF");
        reveal_strlit("infinity");
        reveal_strlit("INFINITY");
        reveal_strlit("nan");
        reveal_strlit("NAN");
    }
    let inf = caseless_in(v, start, hi, "inf", "INF");
    let infinity = caseless_in(v, start, hi, "infinity", "INFINITY");
    let nan = caseless_in(v, start, hi, "nan", "NAN");
    proof {
        assert("inf"@ =~= seq!['i', 'n', 'f']);
        assert("INF"@ =~= seq!['I', 'N', 'F']);
        assert("infinity"@ =~= seq!['i', 'n', 'f', 'i', 'n', 'i', 't', 'y']);
        assert("INFINITY"@ =~= seq!['I', 'N', 'F', 'I', 'N', 'I', 'T', 'Y']);
        assert("nan"@ =~= seq!['n', 'a', 'n']);
        assert("NAN"@ =~= seq!['N', 'A', 'N']);
    }
    inf || infinity || nan || number_in(v, start, hi)
}

/// The value of a run of decimal digits.
pub open spec fn digits_value(s: Seq<char>) -> int
    decreases s.len(),
{
    if s.len() == 0 {
        0
    } else {
        digits_value(s.drop_last()) * 10 + digit_value(s.last())
    }
}

/// The integer that `s` spells as `Sign? Digit+`, if it spells one.
pub open spec fn int_text_value(s: Seq<char>) -> Option<int> {
    if s.len() > 0 && is_sign(s[0]) {
        let d = s.skip(1);
        if d.len() > 0 && all_digits(d) {
            Some(if s[0] == '-' { -digits_value(d) } else { digits_value(d) })
        } else {
            None
        }
    } else if s.len() > 0 && all_digits(s) {
        Some(digits_value(s))
    } else {
        None
    }
}

/// What `i64::from_str` gives: the value when the text is an integer that
/// fits in 64 signed bits, nothing otherwise.
pub open spec fn i64_text_value(s: Seq<char>) -> Option<i64> {
    match int_text_value(s) {
        Some(n) => if i64::MIN <= n <= i64::MAX {
            Some(n as i64)
        } else {
            None
        },
        None => None,
    }
}

proof fn lemma_digits_value_nonneg(s: Seq<char>)
    requires
        all_digits(s),
    ensures
        digits_value(s) >= 0,
    decreases s.len(),
{
    if s.len() > 0 {
        assert(all_digits(s.drop_last())) by {
            assert forall|i: int| 0 <= i < s.drop_last().len() implies is_digit(#[trigger] s.drop_last()[i]) by {
                assert(s.drop_last()[i] == s[i]);
            }
        }
        lemma_digits_value_nonneg(s.drop_last());
        assert(is_digit(s[s.len() - 1]));
    }
}

proof fn lemma_digits_value_grows(s: Seq<char>, i: int)
    requires
        all_digits(s),
        0 <= i <= s.len(),
    ensures
        digits_value(s.take(i)) <= digits_value(s),
    decreases s.len() - i,
{
    if i < s.len() {
        lemma_digits_value_grows(s, i + 1);
        let t = s.take(i + 1);
        assert(t.drop_last() =~= s.take(i));
        assert(is_digit(s[i]));
        assert(all_digits(s.take(i))) by {
            assert forall|k: int| 0 <= k < i implies is_digit(#[trigger] s.take(i)[k]) by {
                assert(s.take(i)[k] == s[k]);
            }
        }
        lemma_digits_value_nonneg(s.take(i));
    } else {
        assert(s.take(i) =~= s);
    }
}

/// Parses `v[lo..hi]` as `i64::from_str` does.
pub fn parse_i64_in(v: &Vec<char>, lo: usize, hi: usize) -> (r: Option<i64>)
    requires
        lo <= hi <= v.len(),
    ensures
        r == i64_text_value(v@.subrange(lo as int, hi as int)),
{
    let ghost s = v@.subrange(lo as int, hi as int);
    let negative = lo < hi && v[lo] == '-';
    let start = if lo < hi && (v[lo] == '+' || v[lo] == '-') {
        lo + 1
    } else {
        lo
    };
    let ghost d = v@.subrange(start as int, hi as int);
    proof {
        if s.len() > 0 && is_sign(s[0]) {
            assert(s.skip(1) =~= d);
        } else {
            assert(s =~= d);
        }
    }
    if start == hi {
        return None;
    }
    if !all_digits_in(v, start, hi) {
        return None;
    }
    assert(negative == (s.len() > 0 && s[0] == '-'));
    assert(int_text_value(s) == Some(if negative { -digits_value(d) } else { digits_value(d) }));
    let limit: i128 = 0x8000_0000_0000_0000i128;
    let mut acc: i128 = 0;
    let mut i = start;
    while i < hi
        invariant
            start <= i <= hi <= v.len(),
            d == v@.subrange(start as int, hi as int),
            all_digits(d),
            s == v@.subrange(lo as int, hi as int),
            int_text_value(s) == Some(if negative { -digits_value(d) } else { digits_value(d) }),
            limit == 0x8000_0000_0000_0000i128,
            0 <= acc <= limit,
            acc == digits_value(d.take(i - start)),
        decreases hi - i,
    {
        let k = i - start;
        assert(is_digit(d[k as int]));
        let dv = (v[i] as u32 - '0' as u32) as i128;
        assert(d.take(k + 1).drop_last() =~= d.take(k as int));
        assert(d.take(k + 1).last() == v@[i as int]);
        let next = acc * 10 + dv;
        if next > limit {
            proof {
                lemma_digits_value_grows(d, k + 1);
            }
            assert(next == digits_value(d.take(k + 1)));
            assert(digits_value(d) > limit);
            return None;
        }
        acc = next;
        i += 1;
    }
    assert(d.take(d.len() as int) =~= d);
    if negative {
        Some((-acc) as i64)
    } else if acc == limit {
        None
    } else {
        Some(acc as i64)
    }
}

} // verus!

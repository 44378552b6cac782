//! Numeric fields of a trace: the decimal floating-point literal grammar.
use vstd::prelude::*;

verus! {

pub open spec fn is_digit(c: char) -> bool {
    '0' <= c && c <= '9'
}

pub open spec fn all_digits(s: Seq<char>) -> bool {
    forall|i: int| 0 <= i < s.len() ==> is_digit(#[trigger] s[i])
}

pub open spec fn is_sign(c: char) -> bool {
    c == '+' || c == '-'
}

pub open spec fn is_exp_mark(c: char) -> bool {
    c == 'e' || c == 'E'
}

/// At least one digit, with at most one decimal point among the digits.
pub open spec fn is_mantissa(s: Seq<char>) -> bool {
    (s.len() > 0 && all_digits(s)) || (s.len() > 1 && exists|p: int|
        0 <= p < s.len() && #[trigger] s[p] == '.' && all_digits(s.take(p)) && all_digits(
            s.skip(p + 1),
        ))
}

/// An optional sign followed by at least one digit.
pub open spec fn is_exponent(s: Seq<char>) -> bool {
    if s.len() > 0 && is_sign(s[0]) {
        s.len() > 1 && all_digits(s.skip(1))
    } else {
        s.len() > 0 && all_digits(s)
    }
}

/// A mantissa, optionally followed by `e` or `E` and an exponent.
pub open spec fn is_decimal(s: Seq<char>) -> bool {
    is_mantissa(s) || exists|p: int|
        0 <= p < s.len() && is_exp_mark(#[trigger] s[p]) && is_mantissa(s.take(p)) && is_exponent(
            s.skip(p + 1),
        )
}

/// `s` spells a word letter by letter, each letter in either case.
pub open spec fn spells(s: Seq<char>, lower: Seq<char>, upper: Seq<char>) -> bool {
    s.len() == lower.len() && s.len() == upper.len() && forall|i: int|
        0 <= i < s.len() ==> #[trigger] s[i] == lower[i] || s[i] == upper[i]
}

pub open spec fn is_special(s: Seq<char>) -> bool {
    spells(s, "inf"@, "INF"@) || spells(s, "infinity"@, "INFINITY"@) || spells(s, "nan"@, "NAN"@)
}

pub open spec fn unsigned_part(s: Seq<char>) -> Seq<char> {
    if s.len() > 0 && is_sign(s[0]) {
        s.skip(1)
    } else {
        s
    }
}

/// A floating-point literal: an optional sign, then `inf`, `infinity`, `nan`
/// (in any case) or a decimal number with an optional exponent.
pub open spec fn is_float_literal(s: Seq<char>) -> bool {
    is_special(unsigned_part(s)) || is_decimal(unsigned_part(s))
}

fn chars_of(s: &str) -> (r: Vec<char>)
    ensures
        r@ == s@,
{
    let n = s.unicode_len();
    let mut r: Vec<char> = Vec::new();
    let mut i: usize = 0;
    while i < n
        invariant
            n == s@.len(),
            i <= n,
            r@ == s@.take(i as int),
        decreases n - i,
    {
        r.push(s.get_char(i));
        i += 1;
        assert(r@ =~= s@.take(i as int));
    }
    assert(r@ =~= s@);
    r
}

fn digits_in(s: &Vec<char>, lo: usize, hi: usize) -> (r: bool)
    requires
        lo <= hi <= s@.len(),
    ensures
        r == all_digits(s@.subrange(lo as int, hi as int)),
{
    let mut i: usize = lo;
    while i < hi
        invariant
            lo <= i <= hi <= s@.len(),
            all_digits(s@.subrange(lo as int, i as int)),
        decreases hi - i,
    {
        if !('0' <= s[i] && s[i] <= '9') {
            assert(s@.subrange(lo as int, hi as int)[i - lo] == s@[i as int]);
            return false;
        }
        assert forall|j: int| 0 <= j < i + 1 - lo implies is_digit(
            #[trigger] s@.subrange(lo as int, i + 1)[j],
        ) by {
            if j < i - lo {
                assert(s@.subrange(lo as int, i as int)[j] == s@.subrange(lo as int, i + 1)[j]);
            }
        }
        i += 1;
    }
    true
}

/// Index of the first of `a` or `b` in `s[lo..hi]`, or `hi` if there is none.
fn find_either(s: &Vec<char>, lo: usize, hi: usize, a: char, b: char) -> (p: usize)
    requires
        lo <= hi <= s@.len(),
    ensures
        lo <= p <= hi,
        forall|j: int| lo <= j < p ==> #[trigger] s@[j] != a && s@[j] != b,
        p < hi ==> s@[p as int] == a || s@[p as int] == b,
{
    let mut i: usize = lo;
    while i < hi
        invariant
            lo <= i <= hi <= s@.len(),
            forall|j: int| lo <= j < i ==> #[trigger] s@[j] != a && s@[j] != b,
        decreases hi - i,
    {
        if s[i] == a || s[i] == b {
            return i;
        }
        i += 1;
    }
    hi
}

proof fn lemma_mantissa_has_no_exp_mark(m: Seq<char>)
    requires
        is_mantissa(m),
    ensures
        forall|i: int| 0 <= i < m.len() ==> !is_exp_mark(#[trigger] m[i]),
{
    if !(m.len() > 0 && all_digits(m)) {
        let p = choose|p: int|
            0 <= p < m.len() && #[trigger] m[p] == '.' && all_digits(m.take(p)) && all_digits(
                m.skip(p + 1),
            );
        assert forall|i: int| 0 <= i < m.len() implies !is_exp_mark(#[trigger] m[i]) by {
            if i < p {
                assert(m.take(p)[i] == m[i]);
            } else if i > p {
                assert(m.skip(p + 1)[i - p - 1] == m[i]);
            }
        }
    }
}

fn mantissa_in(s: &Vec<char>, lo: usize, hi: usize) -> (r: bool)
    requires
        lo <= hi <= s@.len(),
    ensures
        r == is_mantissa(s@.subrange(lo as int, hi as int)),
{
    let ghost m = s@.subrange(lo as int, hi as int);
    let p = find_either(s, lo, hi, '.', '.');
    if p == hi {
        let r = hi > lo && digits_in(s, lo, hi);
        assert forall|q: int| 0 <= q < m.len() implies #[trigger] m[q] != '.' by {
            assert(m[q] == s@[lo + q]);
        }
        r
    } else {
        let r = hi - lo > 1 && digits_in(s, lo, p) && digits_in(s, p + 1, hi);
        let ghost k = p - lo;
        assert(m[k] == '.');
        assert(m.take(k) =~= s@.subrange(lo as int, p as int));
        assert(m.skip(k + 1) =~= s@.subrange(p + 1, hi as int));
        assert(!all_digits(m) || m.len() == 0) by {
            assert(!is_digit(m[k]));
        }
        proof {
            if is_mantissa(m) && !r {
                let q = choose|q: int|
                    0 <= q < m.len() && #[trigger] m[q] == '.' && all_digits(m.take(q)) && all_digits(
                        m.skip(q + 1),
                    );
                if q < k {
                    assert(s@[lo + q] == m[q]);
                } else if q > k {
                    assert(m.take(q)[k] == m[k]);
                }
            }
        }
        r
    }
}

fn exponent_in(s: &Vec<char>, lo: usize, hi: usize) -> (r: bool)
    requires
        lo <= hi <= s@.len(),
    ensures
        r == is_exponent(s@.subrange(lo as int, hi as int)),
{
    let ghost x = s@.subrange(lo as int, hi as int);
    if hi > lo && (s[lo] == '+' || s[lo] == '-') {
        assert(x.skip(1) =~= s@.subrange(lo + 1, hi as int));
        hi - lo > 1 && digits_in(s, lo + 1, hi)
    } else {
        hi > lo && digits_in(s, lo, hi)
    }
}

fn decimal_in(s: &Vec<char>, lo: usize, hi: usize) -> (r: bool)
    requires
        lo <= hi <= s@.len(),
    ensures
        r == is_decimal(s@.subrange(lo as int, hi as int)),
{
    let ghost d = s@.subrange(lo as int, hi as int);
    let p = find_either(s, lo, hi, 'e', 'E');
    if p == hi {
        let r = mantissa_in(s, lo, hi);
        assert forall|q: int| 0 <= q < d.len() implies !is_exp_mark(#[trigger] d[q]) by {
            assert(d[q] == s@[lo + q]);
        }
        r
    } else {
        let r = mantissa_in(s, lo, p) && exponent_in(s, p + 1, hi);
        let ghost k = p - lo;
        assert(is_exp_mark(d[k]));
        assert(d.take(k) =~= s@.subrange(lo as int, p as int));
        assert(d.skip(k + 1) =~= s@.subrange(p + 1, hi as int));
        proof {
            if is_mantissa(d) {
                lemma_mantissa_has_no_exp_mark(d);
            }
            if is_decimal(d) && !r {
                let q = choose|q: int|
                    0 <= q < d.len() && is_exp_mark(#[trigger] d[q]) && is_mantissa(d.take(q))
                        && is_exponent(d.skip(q + 1));
                lemma_mantissa_has_no_exp_mark(d.take(q));
                if q < k {
                    assert(s@[lo + q] == d[q]);
                } else if q > k {
                    assert(d.take(q)[k] == d[k]);
                }
            }
        }
        r
    }
}

fn spells_in(s: &Vec<char>, lo: usize, hi: usize, lower: &str, upper: &str) -> (r: bool)
    requires
        lo <= hi <= s@.len(),
    ensures
        r == spells(s@.subrange(lo as int, hi as int), lower@, upper@),
{
    let ghost w = s@.subrange(lo as int, hi as int);
    let n = lower.unicode_len();
    if hi - lo != n || upper.unicode_len() != n {
        return false;
    }
    let mut i: usize = 0;
    while i < n
        invariant
            lo <= hi <= s@.len(),
            hi - lo == n,
            n == lower@.len(),
            n == upper@.len(),
            i <= n,
            w == s@.subrange(lo as int, hi as int),
            forall|j: int| 0 <= j < i ==> #[trigger] w[j] == lower@[j] || w[j] == upper@[j],
        decreases n - i,
    {
        let c = s[lo + i];
        assert(w[i as int] == c);
        if c != lower.get_char(i) && c != upper.get_char(i) {
            return false;
        }
        i += 1;
    }
    true
}

/// Whether a trace field is a floating-point literal: an optional sign, then
/// `inf`, `infinity` or `nan` in any case, or digits with at most one decimal
/// point (at least one digit) and an optional exponent `e`/`E`, sign, digits.
pub fn is_numeric_field(s: &str) -> (r: bool)
    ensures
        r == is_float_literal(s@),
{
    let c = chars_of(s);
    let n = c.len();
    let lo: usize = if n > 0 && (c[0] == '+' || c[0] == '-') {
        1
    } else {
        0
    };
    assert(unsigned_part(s@) =~= c@.subrange(lo as int, n as int));
    spells_in(&c, lo, n, "inf", "INF") || spells_in(&c, lo, n, "infinity", "INFINITY")
        || spells_in(&c, lo, n, "nan", "NAN") || decimal_in(&c, lo, n)
}

} // verus!

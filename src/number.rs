use vstd::prelude::*;

verus! {

pub open spec fn is_digit(c: char) -> bool {
    '0' <= c && c <= '9'
}

/// Length of the run of decimal digits that starts at `i` (zero outside `s`).
pub open spec fn digit_run(s: Seq<char>, i: int) -> int
    decreases s.len() - i,
{
    if 0 <= i < s.len() && is_digit(s[i]) {
        1 + digit_run(s, i + 1)
    } else {
        0
    }
}

/// The rest of `s` from `p` is an exponent: `e` or `E`, an optional sign, digits.
pub open spec fn is_exponent_from(s: Seq<char>, p: int) -> bool {
    p + 1 < s.len() && (s[p] == 'e' || s[p] == 'E') && {
        let q = if s[p + 1] == '+' || s[p + 1] == '-' {
            p + 2
        } else {
            p + 1
        };
        q < s.len() && digit_run(s, q) == s.len() - q
    }
}

/// The rest of `s` from `p` is a decimal number: digits with an optional
/// fraction (at least one digit on either side of the point), then an optional
/// exponent.
pub open spec fn is_decimal_from(s: Seq<char>, p: int) -> bool {
    let a = digit_run(s, p);
    if p + a == s.len() {
        a > 0
    } else if s[p + a] == '.' {
        let b = digit_run(s, p + a + 1);
        (a > 0 || b > 0) && (p + a + 1 + b == s.len() || is_exponent_from(s, p + a + 1 + b))
    } else {
        a > 0 && is_exponent_from(s, p + a)
    }
}

/// `c` is the lower-case letter `w`, or its ASCII upper-case form.
pub open spec fn same_letter(c: char, w: char) -> bool {
    c == w || ('A' <= c && c <= 'Z' && (c as u32) + 32 == (w as u32))
}

/// The rest of `s` from `p` is the lower-case word `w`, in any case.
pub open spec fn is_word_from(s: Seq<char>, p: int, w: Seq<char>) -> bool {
    s.len() - p == w.len() && forall|i: int| 0 <= i < w.len() ==> same_letter(#[trigger] s[p + i], w[i])
}

pub open spec fn is_named_float_from(s: Seq<char>, p: int) -> bool {
    is_word_from(s, p, seq!['i', 'n', 'f']) || is_word_from(
        s,
        p,
        seq!['i', 'n', 'f', 'i', 'n', 'i', 't', 'y'],
    ) || is_word_from(s, p, seq!['n', 'a', 'n'])
}

/// The text that `f64`'s `FromStr` accepts: an optional sign, then a decimal
/// number or one of `inf`, `infinity`, `nan` in any case.
pub open spec fn is_float_literal(s: Seq<char>) -> bool {
    let p = if s.len() > 0 && (s[0] == '+' || s[0] == '-') {
        1int
    } else {
        0int
    };
    is_named_float_from(s, p) || is_decimal_from(s, p)
}

fn is_digit_char(c: char) -> (r: bool)
    ensures
        r == is_digit(c),
{
    '0' <= c && c <= '9'
}

fn digit_run_at(s: &str, n: usize, i: usize) -> (r: usize)
    requires
        n == s@.len(),
        i <= n,
    ensures
        r as int == digit_run(s@, i as int),
        i + r <= n,
{
    let mut j: usize = i;
    while j < n && is_digit_char(s.get_char(j))
        invariant
            n == s@.len(),
            i <= j <= n,
            digit_run(s@, i as int) == (j - i) + digit_run(s@, j as int),
        decreases n - j,
    {
        j = j + 1;
    }
    j - i
}

fn is_exponent_at(s: &str, n: usize, p: usize) -> (r: bool)
    requires
        n == s@.len(),
        p <= n,
    ensures
        r == is_exponent_from(s@, p as int),
{
    if p >= n || n - p < 2 {
        return false;
    }
    let e = s.get_char(p);
    if e != 'e' && e != 'E' {
        return false;
    }
    let sign = s.get_char(p + 1);
    let q: usize = if sign == '+' || sign == '-' {
        p + 2
    } else {
        p + 1
    };
    q < n && digit_run_at(s, n, q) == n - q
}

fn is_decimal_at(s: &str, n: usize, p: usize) -> (r: bool)
    requires
        n == s@.len(),
        p <= n,
    ensures
        r == is_decimal_from(s@, p as int),
{
    let a = digit_run_at(s, n, p);
    if p + a == n {
        a > 0
    } else if s.get_char(p + a) == '.' {
        let b = digit_run_at(s, n, p + a + 1);
        (a > 0 || b > 0) && (p + a + 1 + b == n || is_exponent_at(s, n, p + a + 1 + b))
    } else {
        a > 0 && is_exponent_at(s, n, p + a)
    }
}

fn is_word_at(s: &str, n: usize, p: usize, w: &str) -> (r: bool)
    requires
        n == s@.len(),
        p <= n,
    ensures
        r == is_word_from(s@, p as int, w@),
{
    let m = w.unicode_len();
    if n - p != m {
        return false;
    }
    let mut i: usize = 0;
    while i < m
        invariant
            n == s@.len(),
            m == w@.len(),
            n - p == m,
            i <= m,
            forall|k: int| 0 <= k < i ==> same_letter(#[trigger] s@[p + k], w@[k]),
        decreases m - i,
    {
        let c = s.get_char(p + i);
        let wc = w.get_char(i);
        if !(c == wc || ('A' <= c && c <= 'Z' && (c as u32) + 32 == (wc as u32))) {
            return false;
        }
        i = i + 1;
    }
    true
}

/// Whether `f64` would parse the text: `s.parse::<f64>().is_ok()`.
pub fn parses_as_float(s: &str) -> (r: bool)
    ensures
        r == is_float_literal(s@),
{
    let n = s.unicode_len();
    let p: usize = if n > 0 && (s.get_char(0) == '+' || s.get_char(0) == '-') {
        1
    } else {
        0
    };
    proof {
        reveal_strlit("inf");
        reveal_strlit("infinity");
        reveal_strlit("nan");
        assert("inf"@ =~= seq!['i', 'n', 'f']);
        assert("infinity"@ =~= seq!['i', 'n', 'f', 'i', 'n', 'i', 't', 'y']);
        assert("nan"@ =~= seq!['n', 'a', 'n']);
    }
    is_word_at(s, n, p, "inf") || is_word_at(s, n, p, "infinity") || is_word_at(s, n, p, "nan")
        || is_decimal_at(s, n, p)
}

} // verus!

//! Recognition of the scalar fields of an element: net indices and
//! magnitudes.
use vstd::prelude::*;

verus! {

pub open spec fn is_digit(c: char) -> bool {
    '0' <= c && c <= '9'
}

pub open spec fn all_digits(s: Seq<char>) -> bool {
    forall|i: int| 0 <= i < s.len() ==> is_digit(#[trigger] s[i])
}

/// The number that a string of decimal digits denotes.
pub open spec fn decimal_value(s: Seq<char>) -> nat
    decreases s.len(),
{
    if s.len() == 0 {
        0
    } else {
        decimal_value(s.drop_last()) * 10 + (s.last() as nat - '0' as nat) as nat
    }
}

/// `s` without one leading `+`.
pub open spec fn unsigned_digits(s: Seq<char>) -> Seq<char> {
    if s.len() > 0 && s[0] == '+' {
        s.drop_first()
    } else {
        s
    }
}

/// A net index as `u8`'s `from_str` reads it: an optional `+`, then one or
/// more decimal digits, with a value of at most 255.
pub open spec fn net_of(s: Seq<char>) -> Option<u8> {
    let d = unsigned_digits(s);
    if d.len() > 0 && all_digits(d) && decimal_value(d) <= 255 {
        Some(decimal_value(d) as u8)
    } else {
        None
    }
}

/// `s` without one leading `+` or `-`.
pub open spec fn unsigned_part(s: Seq<char>) -> Seq<char> {
    if s.len() > 0 && (s[0] == '+' || s[0] == '-') {
        s.drop_first()
    } else {
        s
    }
}

/// `c` is the lower-case letter `w`, or its upper-case form.
pub open spec fn letter_ci(c: char, w: char) -> bool {
    c == w || (c as u32) + 32 == (w as u32)
}

/// `s` spells the lower-case word `w`, ignoring ASCII case.
pub open spec fn word_ci(s: Seq<char>, w: Seq<char>) -> bool {
    s.len() == w.len() && forall|i: int| 0 <= i < s.len() ==> letter_ci(#[trigger] s[i], w[i])
}

/// The words of the non-finite values.
pub open spec fn is_special_word(t: Seq<char>) -> bool {
    word_ci(t, seq!['i', 'n', 'f']) || word_ci(t, seq!['i', 'n', 'f', 'i', 'n', 'i', 't', 'y'])
        || word_ci(t, seq!['n', 'a', 'n'])
}

/// Digits with at most one decimal point, and at least one digit.
pub open spec fn is_mantissa(m: Seq<char>) -> bool {
    &&& forall|i: int| 0 <= i < m.len() ==> is_digit(#[trigger] m[i]) || m[i] == '.'
    &&& forall|i: int, j: int|
        0 <= i < m.len() && 0 <= j < m.len() && #[trigger] m[i] == '.' && #[trigger] m[j] == '.'
            ==> i == j
    &&& exists|i: int| 0 <= i < m.len() && is_digit(#[trigger] m[i])
}

pub open spec fn is_exp_marker(c: char) -> bool {
    c == 'e' || c == 'E'
}

/// An optional sign, then one or more digits.
pub open spec fn is_exponent(x: Seq<char>) -> bool {
    unsigned_part(x).len() > 0 && all_digits(unsigned_part(x))
}

/// A mantissa, optionally followed by an exponent marker and an exponent.
pub open spec fn is_decimal_number(t: Seq<char>) -> bool {
    is_mantissa(t) || exists|k: int|
        0 <= k < t.len() && #[trigger] is_exp_marker(t[k]) && is_mantissa(t.take(k)) && is_exponent(
            t.skip(k + 1),
        )
}

/// The literals that the standard `f64` parser accepts: an optional sign,
/// then either a decimal number (`12`, `2.2e3`, `.5`, `1.`, `1E-3`) or one of
/// `inf`, `infinity`, `nan` in any ASCII case.
pub open spec fn is_float_literal(s: Seq<char>) -> bool {
    is_special_word(unsigned_part(s)) || is_decimal_number(unsigned_part(s))
}

proof fn lemma_decimal_value_push(s: Seq<char>, c: char)
    ensures
        decimal_value(s.push(c)) == decimal_value(s) * 10 + (c as nat - '0' as nat) as nat,
{
    assert(s.push(c).drop_last() == s);
}

/// Reads a net index from `s`, as `net_of` states.
pub fn parse_net(s: &Vec<char>) -> (r: Option<u8>)
    ensures
        r == net_of(s@),
{
    let n = s.len();
    let mut i: usize = 0;
    if n > 0 && s[0] == '+' {
        i = 1;
    }
    let first = i;
    let ghost d = unsigned_digits(s@);
    assert(d == s@.skip(first as int));
    if first == n {
        return None;
    }
    // `acc` is the value read so far, held at 256 once it passes 255.
    let mut acc: u32 = 0;
    while i < n
        invariant
            first <= i <= n,
            n == s@.len(),
            d == s@.skip(first as int),
            d == unsigned_digits(s@),
            all_digits(s@.subrange(first as int, i as int)),
            acc <= 256,
            acc == if decimal_value(s@.subrange(first as int, i as int)) <= 256 {
                decimal_value(s@.subrange(first as int, i as int))
            } else {
                256
            },
        decreases n - i,
    {
        let c = s[i];
        if !('0' <= c && c <= '9') {
            assert(d[i - first] == c && !is_digit(d[i - first]));
            return None;
        }
        let ghost pre = s@.subrange(first as int, i as int);
        assert(s@.subrange(first as int, i + 1) == pre.push(c));
        proof {
            lemma_decimal_value_push(pre, c);
        }
        let digit = (c as u32) - ('0' as u32);
        let next = acc * 10 + digit;
        acc = if next > 256 {
            256
        } else {
            next
        };
        i = i + 1;
    }
    assert(s@.subrange(first as int, n as int) == d);
    if acc <= 255 {
        Some(acc as u8)
    } else {
        None
    }
}

/// The characters of `v` from `lo` up to `hi`.
pub fn sub_chars(v: &Vec<char>, lo: usize, hi: usize) -> (r: Vec<char>)
    requires
        lo <= hi <= v@.len(),
    ensures
        r@ == v@.subrange(lo as int, hi as int),
{
    let mut out: Vec<char> = Vec::new();
    let mut i: usize = lo;
    while i < hi
        invariant
            lo <= i <= hi <= v@.len(),
            out@ == v@.subrange(lo as int, i as int),
        decreases hi - i,
    {
        out.push(v[i]);
        i = i + 1;
    }
    out
}

fn is_digit_char(c: char) -> (r: bool)
    ensures
        r == is_digit(c),
{
    '0' <= c && c <= '9'
}

/// Decides `is_mantissa`.
fn check_mantissa(m: &Vec<char>) -> (r: bool)
    ensures
        r == is_mantissa(m@),
{
    let n = m.len();
    let mut has_dot = false;
    let mut dot: usize = 0;
    let mut has_digit = false;
    let mut i: usize = 0;
    while i < n
        invariant
            n == m@.len(),
            i <= n,
            forall|j: int| 0 <= j < i ==> is_digit(#[trigger] m@[j]) || m@[j] == '.',
            has_dot ==> dot < i && m@[dot as int] == '.',
            has_dot ==> forall|j: int| 0 <= j < i && #[trigger] m@[j] == '.' ==> j == dot,
            !has_dot ==> forall|j: int| 0 <= j < i ==> #[trigger] m@[j] != '.',
            has_digit == exists|j: int| 0 <= j < i && is_digit(#[trigger] m@[j]),
        decreases n - i,
    {
        let c = m[i];
        if c == '.' {
            if has_dot {
                assert(m@[dot as int] == '.' && m@[i as int] == '.');
                return false;
            }
            has_dot = true;
            dot = i;
        } else if is_digit_char(c) {
            has_digit = true;
        } else {
            assert(!(is_digit(m@[i as int]) || m@[i as int] == '.'));
            return false;
        }
        i = i + 1;
    }
    has_digit
}

/// Decides `is_exponent`.
fn check_exponent(x: &Vec<char>) -> (r: bool)
    ensures
        r == is_exponent(x@),
{
    let n = x.len();
    let mut i: usize = 0;
    if n > 0 && (x[0] == '+' || x[0] == '-') {
        i = 1;
    }
    let first = i;
    let ghost u = unsigned_part(x@);
    assert(u == x@.skip(first as int));
    if first == n {
        return false;
    }
    while i < n
        invariant
            first <= i <= n,
            n == x@.len(),
            u == x@.skip(first as int),
            u == unsigned_part(x@),
            forall|j: int| first <= j < i ==> is_digit(#[trigger] x@[j]),
        decreases n - i,
    {
        if !is_digit_char(x[i]) {
            assert(u[i - first] == x@[i as int]);
            return false;
        }
        i = i + 1;
    }
    assert forall|j: int| 0 <= j < u.len() implies is_digit(#[trigger] u[j]) by {
        assert(u[j] == x@[j + first]);
    }
    true
}

/// Decides `word_ci(t, w)` for a lower-case word `w`.
fn check_word_ci(t: &Vec<char>, w: &Vec<char>) -> (r: bool)
    ensures
        r == word_ci(t@, w@),
{
    if t.len() != w.len() {
        return false;
    }
    let n = t.len();
    let mut i: usize = 0;
    while i < n
        invariant
            n == t@.len(),
            n == w@.len(),
            i <= n,
            forall|j: int| 0 <= j < i ==> letter_ci(#[trigger] t@[j], w@[j]),
        decreases n - i,
    {
        let c = t[i];
        let l = w[i];
        if !(c == l || ((l as u32) >= 32 && (c as u32) == (l as u32) - 32)) {
            return false;
        }
        i = i + 1;
    }
    true
}

/// Decides `is_decimal_number`.
fn check_decimal_number(t: &Vec<char>) -> (r: bool)
    ensures
        r == is_decimal_number(t@),
{
    let n = t.len();
    let mut k: usize = 0;
    while k < n && !(t[k] == 'e' || t[k] == 'E')
        invariant
            n == t@.len(),
            k <= n,
            forall|j: int| 0 <= j < k ==> !is_exp_marker(#[trigger] t@[j]),
        decreases n - k,
    {
        k = k + 1;
    }
    if k == n {
        return check_mantissa(t);
    }
    assert(!is_mantissa(t@)) by {
        assert(!(is_digit(t@[k as int]) || t@[k as int] == '.'));
    }
    let mantissa = sub_chars(t, 0, k);
    let exponent = sub_chars(t, k + 1, n);
    assert(t@.take(k as int) == mantissa@);
    assert(t@.skip(k + 1) == exponent@);
    let r = check_mantissa(&mantissa) && check_exponent(&exponent);
    assert forall|k2: int|
        0 <= k2 < t@.len() && #[trigger] is_exp_marker(t@[k2]) && is_mantissa(t@.take(k2))
            && is_exponent(t@.skip(k2 + 1)) implies k2 == k by {
        if k2 > k {
            assert(t@.take(k2)[k as int] == t@[k as int]);
            assert(!(is_digit(t@.take(k2)[k as int]) || t@.take(k2)[k as int] == '.'));
        }
    }
    assert(is_exp_marker(t@[k as int]));
    if r {
        assert(is_mantissa(t@.take(k as int)) && is_exponent(t@.skip(k + 1)));
    }
    r
}

/// Decides whether `s` is a literal that the standard `f64` parser accepts.
pub fn is_float(s: &Vec<char>) -> (r: bool)
    ensures
        r == is_float_literal(s@),
{
    let n = s.len();
    let first: usize = if n > 0 && (s[0] == '+' || s[0] == '-') {
        1
    } else {
        0
    };
    let t = sub_chars(s, first, n);
    assert(t@ == unsigned_part(s@));
    let inf = vec!['i', 'n', 'f'];
    let infinity = vec!['i', 'n', 'f', 'i', 'n', 'i', 't', 'y'];
    let nan = vec!['n', 'a', 'n'];
    check_word_ci(&t, &inf) || check_word_ci(&t, &infinity) || check_word_ci(&t, &nan)
        || check_decimal_number(&t)
}

} // verus!

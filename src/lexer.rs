//! Splitting netlist text into whitespace-separated tokens.
use vstd::prelude::*;

verus! {

/// The characters that `char::is_ascii_whitespace` accepts.
pub open spec fn is_ascii_ws(c: char) -> bool {
    c == ' ' || c == '\t' || c == '\n' || c == '\x0C' || c == '\r'
}

/// The maximal runs of non-whitespace characters of `s`, in order.
///
/// Read from the left: a whitespace character adds nothing, a character that
/// follows a non-whitespace one extends the last token, any other starts a
/// new token.
pub open spec fn tokens_of(s: Seq<char>) -> Seq<Seq<char>>
    decreases s.len(),
{
    if s.len() == 0 {
        Seq::empty()
    } else {
        let rest = tokens_of(s.drop_last());
        let c = s.last();
        if is_ascii_ws(c) {
            rest
        } else if s.len() >= 2 && !is_ascii_ws(s[s.len() - 2]) {
            rest.update(rest.len() - 1, rest.last().push(c))
        } else {
            rest.push(seq![c])
        }
    }
}

/// The views of a sequence of strings.
pub open spec fn views_of(v: Seq<String>) -> Seq<Seq<char>> {
    v.map_values(|s: String| s@)
}

/// The characters of `s`, in order.
pub fn chars_of(s: &str) -> (r: Vec<char>)
    ensures
        r@ == s@,
{
    let mut out: Vec<char> = Vec::new();
    for c in it: s.chars()
        invariant
            out@ == it.seq().take(it.index() as int),
            it.seq() == s@,
    {
        out.push(c);
    }
    out
}

pub fn is_ws_char(c: char) -> (r: bool)
    ensures
        r == is_ascii_ws(c),
{
    c == ' ' || c == '\t' || c == '\n' || c == '\x0C' || c == '\r'
}

/// Splits `text` on ASCII whitespace; runs of whitespace collapse and
/// leading or trailing whitespace yields no token.
pub fn tokenize(text: &str) -> (r: Vec<String>)
    ensures
        views_of(r@) == tokens_of(text@),
{
    let chars = chars_of(text);
    let n = chars.len();
    let mut out: Vec<String> = Vec::new();
    let mut start: usize = 0;
    let mut in_token = false;
    let mut i: usize = 0;
    while i < n
        invariant
            n == chars@.len(),
            chars@ == text@,
            i <= n,
            in_token == (i > 0 && !is_ascii_ws(chars@[i - 1])),
            in_token ==> start < i,
            in_token ==> tokens_of(chars@.take(i as int)) == views_of(out@).push(
                chars@.subrange(start as int, i as int),
            ),
            !in_token ==> tokens_of(chars@.take(i as int)) == views_of(out@),
        decreases n - i,
    {
        let c = chars[i];
        let ghost pre = chars@.take(i as int);
        let ghost cur = chars@.take(i + 1);
        let ghost before = views_of(out@);
        assert(cur.drop_last() == pre);
        assert(cur.last() == c);
        if is_ws_char(c) {
            if in_token {
                let tok = String::from_str(text.substring_char(start, i));
                out.push(tok);
                assert(views_of(out@) == before.push(tok@));
            }
            in_token = false;
        } else {
            if !in_token {
                start = i;
                assert(tokens_of(cur) == before.push(seq![c]));
                assert(chars@.subrange(start as int, i + 1) == seq![c]);
            } else {
                assert(pre[i - 1] == chars@[i - 1]);
                assert(chars@.subrange(start as int, i + 1) == chars@.subrange(
                    start as int,
                    i as int,
                ).push(c));
                assert(tokens_of(cur) == before.push(chars@.subrange(start as int, i + 1)));
            }
            in_token = true;
        }
        i = i + 1;
    }
    if in_token {
        let tok = String::from_str(text.substring_char(start, n));
        let ghost before = views_of(out@);
        out.push(tok);
        assert(views_of(out@) == before.push(tok@));
    }
    assert(chars@.take(n as int) == chars@);
    out
}

} // verus!

//! Moving between strings and their characters.
use vstd::prelude::*;
use crate::scan::{lemma_run_end, run_end};

verus! {

/// The characters of `s`, in order.
pub fn chars_of(s: &str) -> (r: Vec<char>)
    ensures
        r@ == s@,
{
    let mut r: Vec<char> = Vec::new();
    for c in it: s.chars()
        invariant
            r@ == it.seq().subrange(0, it.index() as int),
            it.seq() == s@,
    {
        r.push(c);
    }
    r
}

/// Relies on `String::push`: appends one character.
#[verifier::external_body]
pub fn push_char(s: &mut String, c: char)
    ensures
        final(s)@ == old(s)@.push(c),
{
    s.push(c);
}

/// Appends the characters `v[i..j]` to `out`.
pub fn append_chars(out: &mut String, v: &Vec<char>, i: usize, j: usize)
    requires
        i <= j <= v@.len(),
    ensures
        final(out)@ == old(out)@ + v@.subrange(i as int, j as int),
{
    let mut k: usize = i;
    while k < j
        invariant
            i <= k <= j <= v@.len(),
            out@ == old(out)@ + v@.subrange(i as int, k as int),
        decreases j - k,
    {
        push_char(out, v[k]);
        k = k + 1;
        assert(out@ =~= old(out)@ + v@.subrange(i as int, k as int));
    }
}

/// The characters `v[i..j]` as a string.
pub fn string_of(v: &Vec<char>, i: usize, j: usize) -> (r: String)
    requires
        i <= j <= v@.len(),
    ensures
        r@ == v@.subrange(i as int, j as int),
{
    let mut r = String::new();
    let mut k: usize = i;
    while k < j
        invariant
            i <= k <= j <= v@.len(),
            r@ == v@.subrange(i as int, k as int),
        decreases j - k,
    {
        push_char(&mut r, v[k]);
        k = k + 1;
        assert(r@ =~= v@.subrange(i as int, k as int));
    }
    r
}

/// The characters of each string of `v`.
pub open spec fn string_views(v: Seq<String>) -> Seq<Seq<char>> {
    v.map_values(|x: String| x@)
}

/// The characters of an optional string.
pub open spec fn opt_view(o: Option<String>) -> Option<Seq<char>> {
    match o {
        Some(s) => Some(s@),
        None => None,
    }
}

/// Whitespace as Unicode's White_Space property has it.
pub open spec fn is_white_space(c: char) -> bool {
    ||| '\t' <= c <= '\r'
    ||| c == ' '
    ||| c == '\u{85}'
    ||| c == '\u{A0}'
    ||| c == '\u{1680}'
    ||| '\u{2000}' <= c <= '\u{200A}'
    ||| c == '\u{2028}'
    ||| c == '\u{2029}'
    ||| c == '\u{202F}'
    ||| c == '\u{205F}'
    ||| c == '\u{3000}'
}

/// The end of the run of whitespace that ends at `j`, not going below `lo`.
pub open spec fn back_run(s: Seq<char>, j: int, lo: int) -> int
    decreases j - lo,
{
    if lo < j && j <= s.len() && is_white_space(s[j - 1]) {
        back_run(s, j - 1, lo)
    } else {
        j
    }
}

/// `t` without its leading and trailing whitespace.
pub open spec fn trimmed(t: Seq<char>) -> Seq<char> {
    let a = run_end(t, 0, |c: char| is_white_space(c));
    t.subrange(a, back_run(t, t.len() as int, a))
}

pub open spec fn non_empty(t: Seq<char>) -> Option<Seq<char>> {
    if t.len() == 0 {
        None
    } else {
        Some(t)
    }
}

pub fn white_space(c: char) -> (r: bool)
    ensures
        r == is_white_space(c),
{
    ('\t' <= c && c <= '\r') || c == ' ' || c == '\u{85}' || c == '\u{A0}' || c == '\u{1680}'
        || ('\u{2000}' <= c && c <= '\u{200A}') || c == '\u{2028}' || c == '\u{2029}'
        || c == '\u{202F}' || c == '\u{205F}' || c == '\u{3000}'
}

proof fn lemma_back_run(s: Seq<char>, j: int, b: int, lo: int)
    requires
        lo <= b <= j <= s.len(),
        forall|k: int| b <= k < j ==> is_white_space(#[trigger] s[k]),
    ensures
        back_run(s, j, lo) == back_run(s, b, lo),
    decreases j - b,
{
    if b < j {
        lemma_back_run(s, j - 1, b, lo);
    }
}

/// The bounds of `s[lo..hi]` trimmed.
pub fn trim_bounds(s: &Vec<char>, lo: usize, hi: usize) -> (r: (usize, usize))
    requires
        lo <= hi <= s.len(),
    ensures
        lo <= r.0 <= r.1 <= hi,
        s@.subrange(r.0 as int, r.1 as int) == trimmed(s@.subrange(lo as int, hi as int)),
{
    let ghost t = s@.subrange(lo as int, hi as int);
    let mut a: usize = lo;
    while a < hi && white_space(s[a])
        invariant
            lo <= a <= hi <= s.len(),
            forall|k: int| lo <= k < a ==> is_white_space(#[trigger] s@[k]),
        decreases hi - a,
    {
        a = a + 1;
    }
    proof {
        assert forall|k: int| 0 <= k < a - lo implies is_white_space(#[trigger] t[k]) by {
            assert(t[k] == s@[lo + k]);
        }
        lemma_run_end(t, 0, a - lo, |c: char| is_white_space(c));
    }
    let mut b: usize = hi;
    while b > a && white_space(s[b - 1])
        invariant
            lo <= a <= b <= hi <= s.len(),
            forall|k: int| b <= k < hi ==> is_white_space(#[trigger] s@[k]),
        decreases b - a,
    {
        b = b - 1;
    }
    proof {
        assert forall|k: int| b - lo <= k < hi - lo implies is_white_space(#[trigger] t[k]) by {
            assert(t[k] == s@[lo + k]);
        }
        lemma_back_run(t, hi - lo, b - lo, a - lo);
        assert(t.subrange(a - lo, b - lo) =~= s@.subrange(a as int, b as int));
    }
    (a, b)
}

/// `s[lo..hi]` trimmed, or nothing if that leaves it empty.
pub fn trimmed_part(s: &Vec<char>, lo: usize, hi: usize) -> (r: Option<String>)
    requires
        lo <= hi <= s.len(),
    ensures
        opt_view(r) == non_empty(trimmed(s@.subrange(lo as int, hi as int))),
{
    let (a, b) = trim_bounds(s, lo, hi);
    if a == b {
        None
    } else {
        Some(string_of(s, a, b))
    }
}

} // verus!

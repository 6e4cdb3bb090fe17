//! Character-level pieces shared by the feature-table grammars.
use vstd::prelude::*;

verus! {

/// The outcome of a production tried at a position: a value and the position
/// after it; no match, so that another alternative may be tried; or a failure
/// after a point of commitment, which ends the parse, with where it happened
/// and what was expected there.
pub enum Parsed<T> {
    Done(T, int),
    NoMatch,
    Fatal(int, Expected),
}

/// What a parse expected where it failed.
#[derive(Debug, PartialEq, Eq, Clone, Copy)]
pub enum Expected {
    Number,
    Site,
    Position,
    Location,
    ClosingParen,
    Name,
    QualifierValue,
    Qualifier,
    Header,
}

/// A failed parse: where, in characters from the start of the input, and
/// what was expected there. A committed failure came after the opening
/// keyword of an operator had matched; any other may be followed by trying an
/// alternative.
#[derive(Debug, PartialEq, Eq, Clone, Copy)]
pub struct SyntaxError {
    pub position: usize,
    pub expected: Expected,
    pub committed: bool,
}

/// A failure to match, as the public parsers report it.
pub fn no_match<T>(r: Result<(T, usize), ()>, expected: Expected) -> (q: Result<(T, usize), SyntaxError>)
    ensures
        r matches Ok((x, k)) ==> q == Ok::<(T, usize), SyntaxError>((x, k)),
        r is Err ==> q == Err::<(T, usize), SyntaxError>(at_start(expected)),
{
    match r {
        Ok(v) => Ok(v),
        Err(_) => Err(SyntaxError { position: 0, expected, committed: false }),
    }
}

/// No match at the start of the input.
pub open spec fn at_start(expected: Expected) -> SyntaxError {
    SyntaxError { position: 0, expected, committed: false }
}

/// An executable parse result `r` is the outcome `p`.
pub open spec fn agrees<T>(r: Result<(T, usize), ()>, p: Parsed<T>) -> bool {
    match p {
        Parsed::Done(v, j) => r matches Ok((x, k)) && x == v && k == j,
        _ => r is Err,
    }
}

pub open spec fn char_at(s: Seq<char>, i: int, c: char) -> bool {
    0 <= i < s.len() && s[i] == c
}

/// `t` stands in `s` at `i`.
pub open spec fn lit(s: Seq<char>, i: int, t: Seq<char>) -> bool {
    0 <= i && i + t.len() <= s.len() && s.subrange(i, i + t.len()) == t
}

/// The end of the longest run of characters from `i` on that satisfy `p`.
pub open spec fn run_end(s: Seq<char>, i: int, p: spec_fn(char) -> bool) -> int
    decreases s.len() - i,
{
    if 0 <= i < s.len() && p(s[i]) {
        run_end(s, i + 1, p)
    } else {
        i
    }
}

pub proof fn lemma_run_end(s: Seq<char>, i: int, j: int, p: spec_fn(char) -> bool)
    requires
        0 <= i <= j <= s.len(),
        forall|k: int| i <= k < j ==> p(#[trigger] s[k]),
    ensures
        run_end(s, i, p) == run_end(s, j, p),
    decreases j - i,
{
    if i < j {
        lemma_run_end(s, i + 1, j, p);
    }
}

pub proof fn lemma_run_end_after(s: Seq<char>, i: int, p: spec_fn(char) -> bool)
    ensures
        i <= run_end(s, i, p),
        0 <= i <= s.len() ==> run_end(s, i, p) <= s.len(),
        forall|k: int| i <= k < run_end(s, i, p) ==> p(#[trigger] s[k]),
    decreases s.len() - i,
{
    if 0 <= i < s.len() && p(s[i]) {
        lemma_run_end_after(s, i + 1, p);
    }
}

pub open spec fn is_digit(c: char) -> bool {
    '0' <= c <= '9'
}

pub open spec fn digit_value(c: char) -> nat {
    (c as u32 - '0' as u32) as nat
}

/// The number that the decimal digits `s[i..j]` write.
pub open spec fn decimal(s: Seq<char>, i: int, j: int) -> nat
    decreases j - i,
{
    if j <= i {
        0
    } else {
        decimal(s, i, j - 1) * 10 + digit_value(s[j - 1])
    }
}

/// An unsigned number: the longest run of digits, if it fits in a `u32`.
pub open spec fn uint_at(s: Seq<char>, i: int) -> Parsed<u32> {
    let j = run_end(s, i, |c: char| is_digit(c));
    if j == i || decimal(s, i, j) > u32::MAX {
        Parsed::NoMatch
    } else {
        Parsed::Done(decimal(s, i, j) as u32, j)
    }
}

pub fn digit(c: char) -> (r: bool)
    ensures
        r == is_digit(c),
{
    '0' <= c && c <= '9'
}

pub fn char_is(s: &Vec<char>, i: usize, c: char) -> (r: bool)
    ensures
        r == char_at(s@, i as int, c),
{
    i < s.len() && s[i] == c
}

pub fn lit_at(s: &Vec<char>, i: usize, t: &Vec<char>) -> (r: bool)
    ensures
        r == lit(s@, i as int, t@),
{
    if i > s.len() || t.len() > s.len() - i {
        return false;
    }
    let n = s.len();
    let mut k: usize = 0;
    while k < t.len()
        invariant
            n == s@.len(),
            i + t@.len() <= n,
            k <= t@.len(),
            forall|m: int| 0 <= m < k ==> s@[i + m] == t@[m],
        decreases t@.len() - k,
    {
        if s[i + k] != t[k] {
            assert(s@.subrange(i as int, i + t@.len())[k as int] != t@[k as int]);
            return false;
        }
        k = k + 1;
    }
    assert(s@.subrange(i as int, i + t@.len()) =~= t@);
    true
}

/// Reads the number at `i`.
pub fn parse_uint(s: &Vec<char>, i: usize) -> (r: Result<(u32, usize), ()>)
    requires
        i <= s.len(),
    ensures
        agrees(r, uint_at(s@, i as int)),
        r matches Ok((_, j)) ==> i < j <= s.len(),
{
    let mut j: usize = i;
    let mut val: u64 = 0;
    let mut over = false;
    while j < s.len() && digit(s[j])
        invariant
            i <= j <= s@.len(),
            forall|k: int| i <= k < j ==> is_digit(#[trigger] s@[k]),
            !over ==> val == decimal(s@, i as int, j as int) && val <= u32::MAX,
            over ==> decimal(s@, i as int, j as int) > u32::MAX,
        decreases s@.len() - j,
    {
        let d = (s[j] as u32 - '0' as u32) as u64;
        assert(d == digit_value(s@[j as int]));
        if !over {
            if val * 10 + d > u32::MAX as u64 {
                over = true;
            } else {
                val = val * 10 + d;
            }
        }
        j = j + 1;
    }
    proof {
        lemma_run_end(s@, i as int, j as int, |c: char| is_digit(c));
    }
    if j == i || over {
        Err(())
    } else {
        Ok((val as u32, j))
    }
}

} // verus!

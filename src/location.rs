//! The location mini-language of the feature table: points, sites between
//! bases, ranges with fuzzy ends, remote references, and the `complement`,
//! `join` and `order` operators.
//!
//! Parsing works on characters and tries the alternatives of each
//! production in a fixed order: a plain number is a prefix of a site, a
//! range and a span, so it is tried last.
use vstd::prelude::*;
use crate::scan::{
    Expected, Parsed, SyntaxError, agrees, at_start, char_at, char_is, lemma_run_end, lit, lit_at, no_match, parse_uint, run_end,
    uint_at,
};
use crate::text::{chars_of, string_of};

verus! {

/// A single base, counted from 1: never 0.
#[derive(Debug, PartialEq, Eq, Clone, Copy)]
pub struct Point(pub u32);

/// A site between two adjacent bases, such as `122^123`.
#[derive(Debug, PartialEq, Eq, Clone, Copy)]
pub struct Between(pub u32, pub u32);

/// A point or a site between bases.
#[derive(Debug, PartialEq, Eq, Clone, Copy)]
pub enum Position {
    Point(Point),
    Between(Between),
}

/// A location on the sequence at hand.
#[derive(Debug, PartialEq, Eq, Clone, Copy)]
pub enum Local {
    Point(Point),
    Between(Between),
    /// One base somewhere in `from..to`.
    Within { from: Point, to: Point },
    /// The bases `from..to`; a fuzzy end may lie beyond the stated one.
    Span { from: Position, to: Position, before_from: bool, after_to: bool },
}

impl Local {
    /// The plain span `from..to`.
    pub fn span(from: u32, to: u32) -> (r: Local)
        ensures
            r == (Local::Span {
                from: Position::Point(Point(from)),
                to: Position::Point(Point(to)),
                before_from: false,
                after_to: false,
            }),
    {
        Local::Span {
            from: Position::Point(Point(from)),
            to: Position::Point(Point(to)),
            before_from: false,
            after_to: false,
        }
    }
}

/// A location here, or on the entry with the accession `within`.
#[derive(Debug, PartialEq, Eq)]
pub enum Loc {
    Remote { within: String, at: Local },
    Local(Local),
}

/// A location with the operators applied to it.
#[derive(Debug, PartialEq, Eq)]
pub enum LocOp {
    Loc(Loc),
    Complement(Box<LocOp>),
    Join(Vec<LocOp>),
    Order(Vec<LocOp>),
}

/// What a `Loc` stands for.
pub enum LocV {
    Remote { within: Seq<char>, at: Local },
    Local(Local),
}

/// What a `LocOp` stands for.
pub enum LocOpV {
    Loc(LocV),
    Complement(Box<LocOpV>),
    Join(Seq<LocOpV>),
    Order(Seq<LocOpV>),
}

impl View for Loc {
    type V = LocV;

    open spec fn view(&self) -> LocV {
        match self {
            Loc::Remote { within, at } => LocV::Remote { within: within@, at: *at },
            Loc::Local(l) => LocV::Local(*l),
        }
    }
}

/// The views of the operands of a `join` or an `order`.
pub open spec fn views_of(v: Seq<LocOp>) -> Seq<LocOpV>
    decreases v,
{
    Seq::new(v.len(), |k: int| if 0 <= k < v.len() { locop_view(v[k]) } else { arbitrary() })
}

pub open spec fn locop_view(op: LocOp) -> LocOpV
    decreases op,
{
    match op {
        LocOp::Loc(l) => LocOpV::Loc(l@),
        LocOp::Complement(b) => LocOpV::Complement(Box::new(locop_view(*b))),
        LocOp::Join(v) => LocOpV::Join(views_of(v@)),
        LocOp::Order(v) => LocOpV::Order(views_of(v@)),
    }
}

impl View for LocOp {
    type V = LocOpV;

    open spec fn view(&self) -> LocOpV {
        locop_view(*self)
    }
}

/// A coordinate: a number of at least 1.
pub open spec fn coord_at(s: Seq<char>, i: int) -> Parsed<u32> {
    match uint_at(s, i) {
        Parsed::Done(a, j) => if a >= 1 {
            Parsed::Done(a, j)
        } else {
            Parsed::NoMatch
        },
        _ => Parsed::NoMatch,
    }
}

/// `n^m`
pub open spec fn between_at(s: Seq<char>, i: int) -> Parsed<Between> {
    match coord_at(s, i) {
        Parsed::Done(a, j) => if char_at(s, j, '^') {
            match coord_at(s, j + 1) {
                Parsed::Done(b, k) => Parsed::Done(Between(a, b), k),
                _ => Parsed::NoMatch,
            }
        } else {
            Parsed::NoMatch
        },
        _ => Parsed::NoMatch,
    }
}

/// A site between bases, else a point.
pub open spec fn position_at(s: Seq<char>, i: int) -> Parsed<Position> {
    match between_at(s, i) {
        Parsed::Done(b, j) => Parsed::Done(Position::Between(b), j),
        _ => match coord_at(s, i) {
            Parsed::Done(a, j) => Parsed::Done(Position::Point(Point(a)), j),
            _ => Parsed::NoMatch,
        },
    }
}

/// `n.m`
pub open spec fn within_at(s: Seq<char>, i: int) -> Parsed<Local> {
    match coord_at(s, i) {
        Parsed::Done(a, j) => if char_at(s, j, '.') {
            match coord_at(s, j + 1) {
                Parsed::Done(b, k) => Parsed::Done(Local::Within { from: Point(a), to: Point(b) }, k),
                _ => Parsed::NoMatch,
            }
        } else {
            Parsed::NoMatch
        },
        _ => Parsed::NoMatch,
    }
}

/// `<`? position `..` `>`? position
pub open spec fn span_at(s: Seq<char>, i: int) -> Parsed<Local> {
    let before_from = char_at(s, i, '<');
    let i1 = if before_from { i + 1 } else { i };
    match position_at(s, i1) {
        Parsed::Done(from, j) => if char_at(s, j, '.') && char_at(s, j + 1, '.') {
            let after_to = char_at(s, j + 2, '>');
            let j1 = if after_to { j + 3 } else { j + 2 };
            match position_at(s, j1) {
                Parsed::Done(to, k) => Parsed::Done(Local::Span { from, to, before_from, after_to }, k),
                _ => Parsed::NoMatch,
            }
        } else {
            Parsed::NoMatch
        },
        _ => Parsed::NoMatch,
    }
}

/// A site between bases, a range of one base, a span, else a point.
pub open spec fn local_at(s: Seq<char>, i: int) -> Parsed<Local> {
    match between_at(s, i) {
        Parsed::Done(b, j) => Parsed::Done(Local::Between(b), j),
        _ => match within_at(s, i) {
            Parsed::Done(l, j) => Parsed::Done(l, j),
            _ => match span_at(s, i) {
                Parsed::Done(l, j) => Parsed::Done(l, j),
                _ => match coord_at(s, i) {
                    Parsed::Done(a, j) => Parsed::Done(Local::Point(Point(a)), j),
                    _ => Parsed::NoMatch,
                },
            },
        },
    }
}

/// A character of an accession: an ASCII letter or digit, or a dot.
pub open spec fn is_accession_char(c: char) -> bool {
    ('a' <= c <= 'z') || ('A' <= c <= 'Z') || ('0' <= c <= '9') || c == '.'
}

/// `accession:local`, else a local location.
pub open spec fn loc_at(s: Seq<char>, i: int) -> Parsed<LocV> {
    let j = run_end(s, i, |c: char| is_accession_char(c));
    let remote = if j > i && char_at(s, j, ':') {
        local_at(s, j + 1)
    } else {
        Parsed::NoMatch
    };
    match remote {
        Parsed::Done(at, k) => Parsed::Done(LocV::Remote { within: s.subrange(i, j), at }, k),
        _ => match local_at(s, i) {
            Parsed::Done(l, k) => Parsed::Done(LocV::Local(l), k),
            _ => Parsed::NoMatch,
        },
    }
}

pub open spec fn complement_keyword() -> Seq<char> {
    seq!['c', 'o', 'm', 'p', 'l', 'e', 'm', 'e', 'n', 't', '(']
}

pub open spec fn join_keyword() -> Seq<char> {
    seq!['j', 'o', 'i', 'n', '(']
}

pub open spec fn order_keyword() -> Seq<char> {
    seq!['o', 'r', 'd', 'e', 'r', '(']
}

/// A location, else `complement(` op `)`, `join(` ops `)` or `order(` ops `)`.
/// Once the opening keyword of an operator has matched, whatever fails after
/// it is fatal.
pub open spec fn locop_at(s: Seq<char>, i: int) -> Parsed<LocOpV>
    decreases s.len() - i, 0int,
{
    if i < 0 || i > s.len() {
        Parsed::NoMatch
    } else {
        match loc_at(s, i) {
            Parsed::Done(l, j) => Parsed::Done(LocOpV::Loc(l), j),
            _ => if lit(s, i, complement_keyword()) {
                match locop_at(s, i + 11) {
                    Parsed::Done(v, j) => if char_at(s, j, ')') {
                        Parsed::Done(LocOpV::Complement(Box::new(v)), j + 1)
                    } else {
                        Parsed::Fatal(j, Expected::ClosingParen)
                    },
                    Parsed::NoMatch => Parsed::Fatal(i + 11, Expected::Location),
                    Parsed::Fatal(p, e) => Parsed::Fatal(p, e),
                }
            } else if lit(s, i, join_keyword()) {
                match list_at(s, i + 5) {
                    Parsed::Done(vs, j) => if char_at(s, j, ')') {
                        Parsed::Done(LocOpV::Join(vs), j + 1)
                    } else {
                        Parsed::Fatal(j, Expected::ClosingParen)
                    },
                    Parsed::NoMatch => Parsed::Fatal(i + 5, Expected::Location),
                    Parsed::Fatal(p, e) => Parsed::Fatal(p, e),
                }
            } else if lit(s, i, order_keyword()) {
                match list_at(s, i + 6) {
                    Parsed::Done(vs, j) => if char_at(s, j, ')') {
                        Parsed::Done(LocOpV::Order(vs), j + 1)
                    } else {
                        Parsed::Fatal(j, Expected::ClosingParen)
                    },
                    Parsed::NoMatch => Parsed::Fatal(i + 6, Expected::Location),
                    Parsed::Fatal(p, e) => Parsed::Fatal(p, e),
                }
            } else {
                Parsed::NoMatch
            },
        }
    }
}

/// One or more operands separated by commas.
pub open spec fn list_at(s: Seq<char>, i: int) -> Parsed<Seq<LocOpV>>
    decreases s.len() - i, 1int,
{
    if i < 0 || i > s.len() {
        Parsed::NoMatch
    } else {
        match locop_at(s, i) {
            Parsed::Done(v, j) => if i < j && char_at(s, j, ',') {
                match list_at(s, j + 1) {
                    Parsed::Done(vs, k) => Parsed::Done(seq![v] + vs, k),
                    Parsed::NoMatch => Parsed::Fatal(j + 1, Expected::Location),
                    Parsed::Fatal(p, e) => Parsed::Fatal(p, e),
                }
            } else {
                Parsed::Done(seq![v], j)
            },
            Parsed::NoMatch => Parsed::Fatal(i, Expected::Location),
            Parsed::Fatal(p, e) => Parsed::Fatal(p, e),
        }
    }
}

fn parse_coord(s: &Vec<char>, i: usize) -> (r: Result<(u32, usize), ()>)
    requires
        i <= s.len(),
    ensures
        agrees(r, coord_at(s@, i as int)),
        r matches Ok((_, j)) ==> i < j <= s.len(),
{
    match parse_uint(s, i) {
        Ok((a, j)) => if a >= 1 {
            Ok((a, j))
        } else {
            Err(())
        },
        Err(_) => Err(()),
    }
}

fn parse_between(s: &Vec<char>, i: usize) -> (r: Result<(Between, usize), ()>)
    requires
        i <= s.len(),
    ensures
        agrees(r, between_at(s@, i as int)),
        r matches Ok((_, j)) ==> i < j <= s.len(),
{
    match parse_coord(s, i) {
        Ok((a, j)) => if char_is(s, j, '^') {
            match parse_coord(s, j + 1) {
                Ok((b, k)) => Ok((Between(a, b), k)),
                Err(_) => Err(()),
            }
        } else {
            Err(())
        },
        Err(_) => Err(()),
    }
}

fn parse_position(s: &Vec<char>, i: usize) -> (r: Result<(Position, usize), ()>)
    requires
        i <= s.len(),
    ensures
        agrees(r, position_at(s@, i as int)),
        r matches Ok((_, j)) ==> i < j <= s.len(),
{
    match parse_between(s, i) {
        Ok((b, j)) => Ok((Position::Between(b), j)),
        Err(_) => match parse_coord(s, i) {
            Ok((a, j)) => Ok((Position::Point(Point(a)), j)),
            Err(_) => Err(()),
        },
    }
}

fn parse_within(s: &Vec<char>, i: usize) -> (r: Result<(Local, usize), ()>)
    requires
        i <= s.len(),
    ensures
        agrees(r, within_at(s@, i as int)),
        r matches Ok((_, j)) ==> i < j <= s.len(),
{
    match parse_coord(s, i) {
        Ok((a, j)) => if char_is(s, j, '.') {
            match parse_coord(s, j + 1) {
                Ok((b, k)) => Ok((Local::Within { from: Point(a), to: Point(b) }, k)),
                Err(_) => Err(()),
            }
        } else {
            Err(())
        },
        Err(_) => Err(()),
    }
}

fn parse_span(s: &Vec<char>, i: usize) -> (r: Result<(Local, usize), ()>)
    requires
        i <= s.len(),
    ensures
        agrees(r, span_at(s@, i as int)),
        r matches Ok((_, j)) ==> i < j <= s.len(),
{
    let before_from = char_is(s, i, '<');
    let i1 = if before_from { i + 1 } else { i };
    match parse_position(s, i1) {
        Ok((from, j)) => if char_is(s, j, '.') && char_is(s, j + 1, '.') {
            let after_to = char_is(s, j + 2, '>');
            let j1 = if after_to { j + 3 } else { j + 2 };
            match parse_position(s, j1) {
                Ok((to, k)) => Ok((Local::Span { from, to, before_from, after_to }, k)),
                Err(_) => Err(()),
            }
        } else {
            Err(())
        },
        Err(_) => Err(()),
    }
}

fn parse_local(s: &Vec<char>, i: usize) -> (r: Result<(Local, usize), ()>)
    requires
        i <= s.len(),
    ensures
        agrees(r, local_at(s@, i as int)),
        r matches Ok((_, j)) ==> i < j <= s.len(),
{
    if let Ok((b, j)) = parse_between(s, i) {
        return Ok((Local::Between(b), j));
    }
    if let Ok((l, j)) = parse_within(s, i) {
        return Ok((l, j));
    }
    if let Ok((l, j)) = parse_span(s, i) {
        return Ok((l, j));
    }
    match parse_coord(s, i) {
        Ok((a, j)) => Ok((Local::Point(Point(a)), j)),
        Err(_) => Err(()),
    }
}

fn accession_char(c: char) -> (r: bool)
    ensures
        r == is_accession_char(c),
{
    ('a' <= c && c <= 'z') || ('A' <= c && c <= 'Z') || ('0' <= c && c <= '9') || c == '.'
}

fn parse_loc(s: &Vec<char>, i: usize) -> (r: Result<(Loc, usize), ()>)
    requires
        i <= s.len(),
    ensures
        match loc_at(s@, i as int) {
            Parsed::Done(v, j) => r matches Ok((x, k)) && x@ == v && k == j,
            _ => r is Err,
        },
        r matches Ok((_, j)) ==> i < j <= s.len(),
{
    let mut j: usize = i;
    while j < s.len() && accession_char(s[j])
        invariant
            i <= j <= s@.len(),
            forall|k: int| i <= k < j ==> is_accession_char(#[trigger] s@[k]),
        decreases s@.len() - j,
    {
        j = j + 1;
    }
    proof {
        lemma_run_end(s@, i as int, j as int, |c: char| is_accession_char(c));
    }
    if j > i && char_is(s, j, ':') {
        if let Ok((at, k)) = parse_local(s, j + 1) {
            let within = string_of(s, i, j);
            return Ok((Loc::Remote { within, at }, k));
        }
    }
    match parse_local(s, i) {
        Ok((l, k)) => Ok((Loc::Local(l), k)),
        Err(_) => Err(()),
    }
}

proof fn lemma_views_of_cons(v: LocOp, rest: Seq<LocOp>)
    ensures
        views_of(seq![v] + rest) == seq![locop_view(v)] + views_of(rest),
{
    assert(views_of(seq![v] + rest) =~= seq![locop_view(v)] + views_of(rest)) by {
        assert forall|k: int| 0 <= k < rest.len() + 1 implies #[trigger] views_of(seq![v] + rest)[k]
            == (seq![locop_view(v)] + views_of(rest))[k] by {
            if k > 0 {
                assert((seq![v] + rest)[k] == rest[k - 1]);
            }
        }
    }
}

fn parse_locop(s: &Vec<char>, i: usize) -> (r: Result<(LocOp, usize), SyntaxError>)
    requires
        i <= s.len(),
    ensures
        match locop_at(s@, i as int) {
            Parsed::Done(v, j) => r matches Ok((x, k)) && x@ == v && k == j,
            Parsed::NoMatch => r == Err::<(LocOp, usize), SyntaxError>(
                SyntaxError { position: i, expected: Expected::Location, committed: false },
            ),
            Parsed::Fatal(p, e) => r matches Err(x) && x.position == p && x.expected == e && x.committed,
        },
        r matches Ok((_, j)) ==> i < j <= s.len(),
    decreases s@.len() - i, 0int,
{
    if let Ok((l, j)) = parse_loc(s, i) {
        return Ok((LocOp::Loc(l), j));
    }
    let complement = vec!['c', 'o', 'm', 'p', 'l', 'e', 'm', 'e', 'n', 't', '('];
    let join = vec!['j', 'o', 'i', 'n', '('];
    let order = vec!['o', 'r', 'd', 'e', 'r', '('];
    assert(complement@ == complement_keyword());
    assert(join@ == join_keyword());
    assert(order@ == order_keyword());
    if lit_at(s, i, &complement) {
        match parse_locop(s, i + 11) {
            Ok((v, j)) => if char_is(s, j, ')') {
                Ok((LocOp::Complement(Box::new(v)), j + 1))
            } else {
                Err(SyntaxError { position: j, expected: Expected::ClosingParen, committed: true })
            },
            Err(e) => Err(SyntaxError { position: e.position, expected: e.expected, committed: true }),
        }
    } else if lit_at(s, i, &join) {
        match parse_list(s, i + 5) {
            Ok((vs, j)) => if char_is(s, j, ')') {
                Ok((LocOp::Join(vs), j + 1))
            } else {
                Err(SyntaxError { position: j, expected: Expected::ClosingParen, committed: true })
            },
            Err(e) => Err(e),
        }
    } else if lit_at(s, i, &order) {
        match parse_list(s, i + 6) {
            Ok((vs, j)) => if char_is(s, j, ')') {
                Ok((LocOp::Order(vs), j + 1))
            } else {
                Err(SyntaxError { position: j, expected: Expected::ClosingParen, committed: true })
            },
            Err(e) => Err(e),
        }
    } else {
        Err(SyntaxError { position: i, expected: Expected::Location, committed: false })
    }
}

fn parse_list(s: &Vec<char>, i: usize) -> (r: Result<(Vec<LocOp>, usize), SyntaxError>)
    requires
        i <= s.len(),
    ensures
        match list_at(s@, i as int) {
            Parsed::Done(vs, j) => r matches Ok((x, k)) && views_of(x@) == vs && k == j,
            Parsed::NoMatch => false,
            Parsed::Fatal(p, e) => r matches Err(x) && x.position == p && x.expected == e && x.committed,
        },
        r matches Ok((_, j)) ==> i < j <= s.len(),
    decreases s@.len() - i, 1int,
{
    match parse_locop(s, i) {
        Ok((v, j)) => if char_is(s, j, ',') {
            match parse_list(s, j + 1) {
                Ok((rest, k)) => {
                    let ghost old_rest = rest@;
                    let mut all = rest;
                    all.insert(0, v);
                    proof {
                        assert(all@ =~= seq![v] + old_rest);
                        lemma_views_of_cons(v, old_rest);
                    }
                    Ok((all, k))
                },
                Err(e) => Err(e),
            }
        } else {
            let mut one: Vec<LocOp> = Vec::new();
            one.push(v);
            proof {
                assert(views_of(one@) =~= seq![locop_view(v)]);
            }
            Ok((one, j))
        },
        Err(e) => Err(SyntaxError { position: e.position, expected: e.expected, committed: true }),
    }
}

/// A number as a point.
pub open spec fn point_at(s: Seq<char>, i: int) -> Parsed<Point> {
    match coord_at(s, i) {
        Parsed::Done(a, j) => Parsed::Done(Point(a), j),
        _ => Parsed::NoMatch,
    }
}

/// A public parse result `r` is the outcome `p` at the start of the input,
/// where a failure to match expected `expected`.
pub open spec fn outcome<T>(r: Result<(T, usize), SyntaxError>, p: Parsed<T>, expected: Expected) -> bool {
    match p {
        Parsed::Done(v, j) => r matches Ok((x, k)) && x == v && k == j,
        Parsed::NoMatch => r == Err::<(T, usize), SyntaxError>(at_start(expected)),
        Parsed::Fatal(q, e) => r matches Err(x) && x.position == q && x.expected == e && x.committed,
    }
}

impl Point {
    /// Reads a point at the start of `input`; gives it with the number of
    /// characters it takes.
    pub fn parse(input: &str) -> (r: Result<(Point, usize), SyntaxError>)
        ensures
            outcome(r, point_at(input@, 0), Expected::Number),
    {
        let s = chars_of(input);
        no_match(
            match parse_coord(&s, 0) {
                Ok((a, j)) => Ok((Point(a), j)),
                Err(_) => Err(()),
            },
            Expected::Number,
        )
    }
}

impl Between {
    /// Reads a site between bases at the start of `input`.
    pub fn parse(input: &str) -> (r: Result<(Between, usize), SyntaxError>)
        ensures
            outcome(r, between_at(input@, 0), Expected::Site),
    {
        let s = chars_of(input);
        no_match(parse_between(&s, 0), Expected::Site)
    }
}

impl Position {
    /// Reads a position at the start of `input`.
    pub fn parse(input: &str) -> (r: Result<(Position, usize), SyntaxError>)
        ensures
            outcome(r, position_at(input@, 0), Expected::Position),
    {
        let s = chars_of(input);
        no_match(parse_position(&s, 0), Expected::Position)
    }
}

impl Local {
    /// Reads a local location at the start of `input`.
    pub fn parse(input: &str) -> (r: Result<(Local, usize), SyntaxError>)
        ensures
            outcome(r, local_at(input@, 0), Expected::Location),
    {
        let s = chars_of(input);
        no_match(parse_local(&s, 0), Expected::Location)
    }
}

impl Loc {
    /// Reads a location, remote or local, at the start of `input`.
    pub fn parse(input: &str) -> (r: Result<(Loc, usize), SyntaxError>)
        ensures
            match loc_at(input@, 0) {
                Parsed::Done(v, j) => r matches Ok((x, k)) && x@ == v && k == j,
                _ => r == Err::<(Loc, usize), SyntaxError>(at_start(Expected::Location)),
            },
    {
        let s = chars_of(input);
        no_match(parse_loc(&s, 0), Expected::Location)
    }
}

impl LocOp {
    /// Reads a location expression at the start of `input`; gives it with
    /// the number of characters it takes, which may leave some unread.
    pub fn parse(input: &str) -> (r: Result<(LocOp, usize), SyntaxError>)
        ensures
            match locop_at(input@, 0) {
                Parsed::Done(v, j) => r matches Ok((x, k)) && x@ == v && k == j,
                Parsed::NoMatch => r == Err::<(LocOp, usize), SyntaxError>(at_start(Expected::Location)),
                Parsed::Fatal(p, e) => r matches Err(x) && x.position == p && x.expected == e && x.committed,
            },
    {
        let s = chars_of(input);
        parse_locop(&s, 0)
    }
}

} // verus!

//! GFF3 records: nine tab-separated columns per line.
//!
//! The score column is kept as its text: reading it as a number is left to
//! the caller.
use vstd::prelude::*;
use crate::scan::{decimal, is_digit};
use crate::text::{append_chars, chars_of, string_of, string_views, trim_bounds, trimmed};

verus! {

/// A position counted from 1.
#[derive(Debug, PartialEq, Eq, Clone, Copy)]
pub struct OneBased(pub u64);

impl OneBased {
    pub fn new(at: u64) -> (r: OneBased)
        ensures
            r.0 == at,
    {
        OneBased(at)
    }

    pub fn at(&self) -> (r: u64)
        ensures
            r == self.0,
    {
        self.0
    }
}

/// Why a line could not be read.
#[derive(Debug, PartialEq, Eq, Clone)]
pub struct GffParseError(pub String);

impl GffParseError {
    pub fn new(msg: String) -> (r: GffParseError)
        ensures
            r.0 == msg,
    {
        GffParseError(msg)
    }

    /// An error about the text `msg`, for the reason given.
    pub fn because(msg: &str, reason: &str) -> (r: GffParseError)
        ensures
            r.0@ == seq!['i', 'n', ' ', 'i', 'n', 'p', 'u', 't', ' ', '`'] + msg@ + seq![
                '`',
                ' ',
                'b',
                'e',
                'c',
                'a',
                'u',
                's',
                'e',
                ' ',
            ] + reason@,
    {
        let head = vec!['i', 'n', ' ', 'i', 'n', 'p', 'u', 't', ' ', '`'];
        let mid = vec!['`', ' ', 'b', 'e', 'c', 'a', 'u', 's', 'e', ' '];
        let m = chars_of(msg);
        let r = chars_of(reason);
        let mut out = String::new();
        append_chars(&mut out, &head, 0, head.len());
        append_chars(&mut out, &m, 0, m.len());
        append_chars(&mut out, &mid, 0, mid.len());
        append_chars(&mut out, &r, 0, r.len());
        assert(head@.subrange(0, head@.len() as int) =~= head@);
        assert(m@.subrange(0, m@.len() as int) =~= m@);
        assert(mid@.subrange(0, mid@.len() as int) =~= mid@);
        assert(r@.subrange(0, r@.len() as int) =~= r@);
        GffParseError(out)
    }
}

/// The text of an unsigned number as `str::parse` reads it: an optional
/// `+`, then one or more ASCII digits.
pub open spec fn unsigned_digits(t: Seq<char>) -> Seq<char> {
    if t.len() > 0 && t[0] == '+' {
        t.drop_first()
    } else {
        t
    }
}

pub open spec fn is_unsigned_text(t: Seq<char>) -> bool {
    let d = unsigned_digits(t);
    d.len() > 0 && forall|k: int| 0 <= k < d.len() ==> is_digit(#[trigger] d[k])
}

pub open spec fn unsigned_value(t: Seq<char>) -> nat {
    let d = unsigned_digits(t);
    decimal(d, 0, d.len() as int)
}

/// Relies on `u64::from_str`: it accepts an optional `+` and ASCII digits
/// whose value fits, and gives that value; the error text is its message.
#[verifier::external_body]
fn parse_u64(s: &str) -> (r: Result<u64, String>)
    ensures
        match r {
            Ok(n) => is_unsigned_text(s@) && n == unsigned_value(s@),
            Err(_) => !(is_unsigned_text(s@) && unsigned_value(s@) <= u64::MAX),
        },
{
    match s.parse::<u64>() {
        Ok(n) => Ok(n),
        Err(e) => Err(e.to_string()),
    }
}

/// Relies on `u8::from_str`: it accepts an optional `+` and ASCII digits
/// whose value fits, and gives that value; the error text is its message.
#[verifier::external_body]
fn parse_u8(s: &str) -> (r: Result<u8, String>)
    ensures
        match r {
            Ok(n) => is_unsigned_text(s@) && n == unsigned_value(s@),
            Err(_) => !(is_unsigned_text(s@) && unsigned_value(s@) <= u8::MAX),
        },
{
    match s.parse::<u8>() {
        Ok(n) => Ok(n),
        Err(e) => Err(e.to_string()),
    }
}

impl OneBased {
    /// Reads a position.
    pub fn parse(s: &str) -> (r: Result<OneBased, GffParseError>)
        ensures
            r is Ok <==> is_unsigned_text(s@) && unsigned_value(s@) <= u64::MAX,
            r matches Ok(p) ==> p.0 == unsigned_value(s@),
    {
        match parse_u64(s) {
            Ok(n) => Ok(OneBased(n)),
            Err(e) => Err(GffParseError::because(s, e.as_str())),
        }
    }
}

/// The strand a feature lies on.
#[derive(Debug, PartialEq, Eq, Clone, Copy)]
pub enum Strand {
    Positive,
    Negative,
    NoStrand,
    Unknown,
}

/// The strand that a column names: `+`, `-`, `.` or `?`.
pub open spec fn strand_of(t: Seq<char>) -> Option<Strand> {
    if t == seq!['+'] {
        Some(Strand::Positive)
    } else if t == seq!['-'] {
        Some(Strand::Negative)
    } else if t == seq!['.'] {
        Some(Strand::NoStrand)
    } else if t == seq!['?'] {
        Some(Strand::Unknown)
    } else {
        None
    }
}

/// Whether `v` holds exactly the character `c`.
fn is_just(v: &Vec<char>, c: char) -> (r: bool)
    ensures
        r == (v@ == seq![c]),
{
    if v.len() == 1 && v[0] == c {
        assert(v@ =~= seq![c]);
        true
    } else {
        false
    }
}

impl Strand {
    /// Reads a strand.
    pub fn parse(s: &str) -> (r: Result<Strand, GffParseError>)
        ensures
            match strand_of(s@) {
                Some(st) => r == Ok::<Strand, GffParseError>(st),
                None => r is Err,
            },
    {
        let v = chars_of(s);
        if is_just(&v, '+') {
            Ok(Strand::Positive)
        } else if is_just(&v, '-') {
            Ok(Strand::Negative)
        } else if is_just(&v, '.') {
            Ok(Strand::NoStrand)
        } else if is_just(&v, '?') {
            Ok(Strand::Unknown)
        } else {
            Err(GffParseError::because(s, "it is not a strand"))
        }
    }
}

/// The phase of a coding feature, if it has one.
#[derive(Debug, PartialEq, Eq, Clone, Copy)]
pub struct Phase(pub Option<u8>);

impl Phase {
    /// Reads a phase: `.` for none, else a number.
    pub fn parse(s: &str) -> (r: Result<Phase, GffParseError>)
        ensures
            s@ == seq!['.'] ==> r == Ok::<Phase, GffParseError>(Phase(None)),
            s@ != seq!['.'] ==> (r is Ok <==> is_unsigned_text(s@) && unsigned_value(s@) <= u8::MAX),
            s@ != seq!['.'] && r is Ok ==> r == Ok::<Phase, GffParseError>(Phase(Some(unsigned_value(s@) as u8))),
    {
        let v = chars_of(s);
        if is_just(&v, '.') {
            Ok(Phase(None))
        } else {
            match parse_u8(s) {
                Ok(p) => Ok(Phase(Some(p))),
                Err(e) => Err(GffParseError::because(s, e.as_str())),
            }
        }
    }
}

/// The pieces of `s` between the separators, as `str::split` gives them.
pub open spec fn split_on(s: Seq<char>, sep: char) -> Seq<Seq<char>>
    decreases s.len(),
{
    if s.len() == 0 {
        seq![seq![]]
    } else {
        let prev = split_on(s.drop_last(), sep);
        if s.last() == sep {
            prev.push(seq![])
        } else {
            prev.update(prev.len() - 1, prev.last().push(s.last()))
        }
    }
}

pub proof fn lemma_split_on_len(s: Seq<char>, sep: char)
    ensures
        split_on(s, sep).len() >= 1,
    decreases s.len(),
{
    if s.len() > 0 {
        lemma_split_on_len(s.drop_last(), sep);
    }
}

/// The pieces of `s[lo..hi]` between the separators.
pub fn split_text(s: &Vec<char>, lo: usize, hi: usize, sep: char) -> (r: Vec<String>)
    requires
        lo <= hi <= s.len(),
    ensures
        string_views(r@) == split_on(s@.subrange(lo as int, hi as int), sep),
{
    let mut pieces: Vec<String> = Vec::new();
    let mut cur = String::new();
    let mut k: usize = lo;
    assert(s@.subrange(lo as int, lo as int) =~= Seq::<char>::empty());
    assert(string_views(pieces@).push(cur@) =~= seq![seq![]]);
    while k < hi
        invariant
            lo <= k <= hi <= s.len(),
            split_on(s@.subrange(lo as int, k as int), sep) == string_views(pieces@).push(cur@),
        decreases hi - k,
    {
        let ghost before = s@.subrange(lo as int, k as int);
        let ghost pv = string_views(pieces@);
        let ghost cv = cur@;
        let c = s[k];
        k = k + 1;
        assert(s@.subrange(lo as int, k as int).drop_last() =~= before);
        assert(s@.subrange(lo as int, k as int).last() == c);
        if c == sep {
            let done = cur;
            cur = String::new();
            pieces.push(done);
            assert(string_views(pieces@).push(cur@) =~= pv.push(cv).push(seq![]));
        } else {
            crate::text::push_char(&mut cur, c);
            assert(string_views(pieces@).push(cur@) =~= pv.push(cv).update(pv.len() as int, cv.push(c)));
        }
    }
    pieces.push(cur);
    assert(string_views(pieces@) =~= split_on(s@.subrange(lo as int, hi as int), sep));
    pieces
}

/// The key and the value of one attribute `key=value`; a piece without `=`
/// is none.
pub open spec fn attribute_pair(p: Seq<char>) -> Option<(Seq<char>, Seq<char>)> {
    let parts = split_on(p, '=');
    if parts.len() >= 2 {
        Some((parts[0], parts[1]))
    } else {
        None
    }
}

/// Where `key` stands in `acc`, searching from the end; -1 if nowhere.
pub open spec fn key_index(acc: Seq<(Seq<char>, Seq<char>)>, key: Seq<char>) -> int
    decreases acc.len(),
{
    if acc.len() == 0 {
        -1
    } else if acc.last().0 == key {
        acc.len() - 1
    } else {
        key_index(acc.drop_last(), key)
    }
}

/// The attributes of the pieces of a column, in the order their keys first
/// come; a later value for a key replaces the earlier one.
pub open spec fn attributes_of(pieces: Seq<Seq<char>>) -> Seq<(Seq<char>, Seq<char>)>
    decreases pieces.len(),
{
    if pieces.len() == 0 {
        seq![]
    } else {
        let acc = attributes_of(pieces.drop_last());
        match attribute_pair(pieces.last()) {
            Some(kv) => {
                let i = key_index(acc, kv.0);
                if i >= 0 {
                    acc.update(i, kv)
                } else {
                    acc.push(kv)
                }
            },
            None => acc,
        }
    }
}

/// The attributes of a feature, each key once.
#[derive(Debug, PartialEq, Eq, Clone)]
pub struct Attributes(pub Vec<(String, String)>);

pub open spec fn pair_views(v: Seq<(String, String)>) -> Seq<(Seq<char>, Seq<char>)> {
    v.map_values(|p: (String, String)| (p.0@, p.1@))
}

proof fn lemma_key_index_bounds(acc: Seq<(Seq<char>, Seq<char>)>, key: Seq<char>)
    ensures
        -1 <= key_index(acc, key) < acc.len(),
        key_index(acc, key) >= 0 ==> acc[key_index(acc, key)].0 == key,
    decreases acc.len(),
{
    if acc.len() > 0 && acc.last().0 != key {
        lemma_key_index_bounds(acc.drop_last(), key);
    }
}

fn find_key(acc: &Vec<(String, String)>, key: &String) -> (r: Option<usize>)
    ensures
        match r {
            Some(i) => i == key_index(pair_views(acc@), key@),
            None => key_index(pair_views(acc@), key@) == -1,
        },
{
    let mut j: usize = acc.len();
    assert(pair_views(acc@).subrange(0, j as int) =~= pair_views(acc@));
    while j > 0
        invariant
            j <= acc@.len(),
            key_index(pair_views(acc@), key@) == key_index(pair_views(acc@).subrange(0, j as int), key@),
        decreases j,
    {
        let ghost sub = pair_views(acc@).subrange(0, j as int);
        if acc[j - 1].0 == *key {
            return Some(j - 1);
        }
        assert(sub.drop_last() =~= pair_views(acc@).subrange(0, j - 1));
        j = j - 1;
    }
    None
}

impl Attributes {
    /// Reads the attribute column: `key=value` pieces separated by `;`.
    pub fn parse(s: &str) -> (r: Attributes)
        ensures
            pair_views(r.0@) == attributes_of(split_on(s@, ';')),
    {
        let v = chars_of(s);
        let pieces = split_text(&v, 0, v.len(), ';');
        assert(v@.subrange(0, v@.len() as int) =~= v@);
        let mut acc: Vec<(String, String)> = Vec::new();
        let mut k: usize = 0;
        while k < pieces.len()
            invariant
                k <= pieces@.len(),
                string_views(pieces@) == split_on(s@, ';'),
                pair_views(acc@) == attributes_of(string_views(pieces@).subrange(0, k as int)),
            decreases pieces@.len() - k,
        {
            let ghost prefix = string_views(pieces@).subrange(0, k + 1);
            assert(prefix.drop_last() =~= string_views(pieces@).subrange(0, k as int));
            let p = chars_of(pieces[k].as_str());
            let parts = split_text(&p, 0, p.len(), '=');
            assert(p@.subrange(0, p@.len() as int) =~= p@);
            if parts.len() >= 2 {
                let key = string_of(&chars_of(parts[0].as_str()), 0, chars_of(parts[0].as_str()).len());
                let val = string_of(&chars_of(parts[1].as_str()), 0, chars_of(parts[1].as_str()).len());
                assert(key@ =~= parts@[0]@);
                assert(val@ =~= parts@[1]@);
                let ghost before = pair_views(acc@);
                proof {
                    lemma_key_index_bounds(before, key@);
                }
                match find_key(&acc, &key) {
                    Some(i) => {
                        acc.set(i, (key, val));
                        assert(pair_views(acc@) =~= before.update(i as int, (parts@[0]@, parts@[1]@)));
                    },
                    None => {
                        acc.push((key, val));
                        assert(pair_views(acc@) =~= before.push((parts@[0]@, parts@[1]@)));
                    },
                }
            }
            k = k + 1;
        }
        assert(string_views(pieces@).subrange(0, k as int) =~= string_views(pieces@));
        Attributes(acc)
    }
}

/// The text of the score column, or none where it is `.`.
#[derive(Debug, PartialEq, Eq, Clone)]
pub struct Score(pub Option<String>);

/// One feature line.
#[derive(Debug, PartialEq, Eq, Clone)]
pub struct GffRecord {
    pub seq_id: String,
    pub source: String,
    pub feature_type: String,
    pub start: OneBased,
    pub end: OneBased,
    pub score: Score,
    pub strand: Strand,
    pub phase: Phase,
    pub attributes: Attributes,
}

/// The columns of a line: the line trimmed, then split at tabs.
pub open spec fn gff_columns(line: Seq<char>) -> Seq<Seq<char>> {
    split_on(trimmed(line), '\t')
}

pub open spec fn position_ok(t: Seq<char>) -> bool {
    is_unsigned_text(t) && unsigned_value(t) <= u64::MAX
}

pub open spec fn phase_ok(t: Seq<char>) -> bool {
    t == seq!['.'] || (is_unsigned_text(t) && unsigned_value(t) <= u8::MAX)
}

/// A line can be read: it has nine columns, and those with a type other
/// than text hold values of it.
pub open spec fn record_ok(cols: Seq<Seq<char>>) -> bool {
    &&& cols.len() >= 9
    &&& position_ok(cols[3])
    &&& position_ok(cols[4])
    &&& strand_of(cols[6]) is Some
    &&& phase_ok(cols[7])
}

pub open spec fn score_text(t: Seq<char>) -> Option<Seq<char>> {
    if t == seq!['.'] {
        None
    } else {
        Some(t)
    }
}

/// `g` holds the values of the columns `cols`.
pub open spec fn record_holds(g: GffRecord, cols: Seq<Seq<char>>) -> bool {
    &&& g.seq_id@ == cols[0]
    &&& g.source@ == cols[1]
    &&& g.feature_type@ == cols[2]
    &&& g.start.0 == unsigned_value(cols[3])
    &&& g.end.0 == unsigned_value(cols[4])
    &&& crate::text::opt_view(g.score.0) == score_text(cols[5])
    &&& strand_of(cols[6]) == Some(g.strand)
    &&& g.phase.0 == (if cols[7] == seq!['.'] {
        None
    } else {
        Some(unsigned_value(cols[7]) as u8)
    })
    &&& pair_views(g.attributes.0@) == attributes_of(split_on(cols[8], ';'))
}

/// "No <what> column in <line>"
fn missing(what: &str, line: &str) -> GffParseError {
    let no = vec!['N', 'o', ' '];
    let column_in = vec![' ', 'c', 'o', 'l', 'u', 'm', 'n', ' ', 'i', 'n', ' '];
    let w = chars_of(what);
    let l = chars_of(line);
    let mut out = String::new();
    append_chars(&mut out, &no, 0, no.len());
    append_chars(&mut out, &w, 0, w.len());
    append_chars(&mut out, &column_in, 0, column_in.len());
    append_chars(&mut out, &l, 0, l.len());
    GffParseError(out)
}

impl GffRecord {
    /// Reads a feature line.
    pub fn parse(s: &str) -> (r: Result<GffRecord, GffParseError>)
        ensures
            match r {
                Ok(g) => record_ok(gff_columns(s@)) && record_holds(g, gff_columns(s@)),
                Err(_) => !record_ok(gff_columns(s@)),
            },
    {
        let v = chars_of(s);
        let (a, b) = trim_bounds(&v, 0, v.len());
        assert(v@.subrange(0, v@.len() as int) =~= v@);
        let cols = split_text(&v, a, b, '\t');
        let ghost cs = gff_columns(s@);
        assert(string_views(cols@) == cs);
        let n = cols.len();
        if n < 1 {
            return Err(missing("seqid", s));
        }
        let seq_id = cols[0].clone();
        if n < 2 {
            return Err(missing("source", s));
        }
        let source = cols[1].clone();
        if n < 3 {
            return Err(missing("type", s));
        }
        let feature_type = cols[2].clone();
        if n < 4 {
            return Err(missing("start", s));
        }
        let start = OneBased::parse(cols[3].as_str())?;
        if n < 5 {
            return Err(missing("end", s));
        }
        let end = OneBased::parse(cols[4].as_str())?;
        if n < 6 {
            return Err(missing("score", s));
        }
        let sv = chars_of(cols[5].as_str());
        let score = if is_just(&sv, '.') {
            Score(None)
        } else {
            Score(Some(cols[5].clone()))
        };
        if n < 7 {
            return Err(missing("strand", s));
        }
        let strand = Strand::parse(cols[6].as_str())?;
        if n < 8 {
            return Err(missing("phase", s));
        }
        let phase = Phase::parse(cols[7].as_str())?;
        if n < 9 {
            return Err(missing("attributes", s));
        }
        let attributes = Attributes::parse(cols[8].as_str());
        assert(cols@[0]@ == cs[0] && cols@[1]@ == cs[1] && cols@[2]@ == cs[2]);
        Ok(GffRecord { seq_id, source, feature_type, start, end, score, strand, phase, attributes })
    }
}

} // verus!

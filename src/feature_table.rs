//! Feature records: a key, a location and qualifiers such as
//! `/gene="arsC"`, `/citation=[1]` or `/pseudo`.
use vstd::prelude::*;
use crate::location::LocOp;
use crate::scan::{
    Expected, Parsed, SyntaxError, at_start, char_at, char_is, lemma_run_end, lemma_run_end_after, no_match, parse_uint,
    run_end, uint_at,
};
use crate::text::{chars_of, string_of};

verus! {

/// The features of an entry, in order.
#[derive(Debug, PartialEq, Eq)]
pub struct FeatureTable {
    pub features: Vec<FeatureRecord>,
}

/// One feature: its key, where it lies, and its qualifiers.
#[derive(Debug, PartialEq, Eq)]
pub struct FeatureRecord {
    pub key: String,
    pub location: LocOp,
    pub qualifiers: Vec<Qualifier>,
}

/// A name as the feature table writes it: one to twenty letters, digits,
/// `_`, `-`, `'` or `*`, at least one of them a letter.
#[derive(Debug, PartialEq, Eq)]
pub struct FtString(pub String);

/// A qualifier: `/name` or `/name=value`.
#[derive(Debug, PartialEq, Eq)]
pub struct Qualifier {
    pub name: FtString,
    pub value: Option<QualifierValue>,
}

/// The value of a qualifier: `"text"`, a vocabulary term, or `[n]`.
#[derive(Debug, PartialEq, Eq)]
pub enum QualifierValue {
    QuotedText(String),
    VocabularyTerm(FtString),
    ReferenceNumber(u32),
}

/// What a `QualifierValue` stands for.
pub enum QualifierValueV {
    QuotedText(Seq<char>),
    VocabularyTerm(Seq<char>),
    ReferenceNumber(u32),
}

/// What a `Qualifier` stands for.
pub struct QualifierV {
    pub name: Seq<char>,
    pub value: Option<QualifierValueV>,
}

impl View for FtString {
    type V = Seq<char>;

    open spec fn view(&self) -> Seq<char> {
        self.0@
    }
}

impl View for QualifierValue {
    type V = QualifierValueV;

    open spec fn view(&self) -> QualifierValueV {
        match self {
            QualifierValue::QuotedText(t) => QualifierValueV::QuotedText(t@),
            QualifierValue::VocabularyTerm(t) => QualifierValueV::VocabularyTerm(t@),
            QualifierValue::ReferenceNumber(n) => QualifierValueV::ReferenceNumber(*n),
        }
    }
}

impl View for Qualifier {
    type V = QualifierV;

    open spec fn view(&self) -> QualifierV {
        QualifierV {
            name: self.name@,
            value: match self.value {
                Some(v) => Some(v@),
                None => None,
            },
        }
    }
}

pub open spec fn is_letter(c: char) -> bool {
    ('a' <= c <= 'z') || ('A' <= c <= 'Z')
}

pub open spec fn is_ft_char(c: char) -> bool {
    is_letter(c) || ('0' <= c <= '9') || c == '_' || c == '-' || c == '\'' || c == '*'
}

/// The end of a name from `i`: the longest run of name characters, at most twenty.
pub open spec fn ft_end(s: Seq<char>, i: int) -> int {
    let j = run_end(s, i, |c: char| is_ft_char(c));
    if j > i + 20 {
        i + 20
    } else {
        j
    }
}

pub open spec fn ft_string_at(s: Seq<char>, i: int) -> Parsed<Seq<char>> {
    let j = ft_end(s, i);
    if j > i && exists|k: int| i <= k < j && is_letter(#[trigger] s[k]) {
        Parsed::Done(s.subrange(i, j), j)
    } else {
        Parsed::NoMatch
    }
}

/// `"text"`, else a vocabulary term, else `[n]`.
pub open spec fn qualifier_value_at(s: Seq<char>, i: int) -> Parsed<QualifierValueV> {
    let j = run_end(s, i + 1, |c: char| c != '"');
    if char_at(s, i, '"') && char_at(s, j, '"') {
        Parsed::Done(QualifierValueV::QuotedText(s.subrange(i + 1, j)), j + 1)
    } else {
        match ft_string_at(s, i) {
            Parsed::Done(t, k) => Parsed::Done(QualifierValueV::VocabularyTerm(t), k),
            _ => if char_at(s, i, '[') {
                match uint_at(s, i + 1) {
                    Parsed::Done(n, k) => if char_at(s, k, ']') {
                        Parsed::Done(QualifierValueV::ReferenceNumber(n), k + 1)
                    } else {
                        Parsed::NoMatch
                    },
                    _ => Parsed::NoMatch,
                }
            } else {
                Parsed::NoMatch
            },
        }
    }
}

/// `/name`, followed by `=value` where one can be read.
pub open spec fn qualifier_at(s: Seq<char>, i: int) -> Parsed<QualifierV> {
    if char_at(s, i, '/') {
        match ft_string_at(s, i + 1) {
            Parsed::Done(name, j) => if char_at(s, j, '=') {
                match qualifier_value_at(s, j + 1) {
                    Parsed::Done(v, k) => Parsed::Done(QualifierV { name, value: Some(v) }, k),
                    _ => Parsed::Done(QualifierV { name, value: None }, j),
                }
            } else {
                Parsed::Done(QualifierV { name, value: None }, j)
            },
            _ => Parsed::NoMatch,
        }
    } else {
        Parsed::NoMatch
    }
}

fn letter(c: char) -> (r: bool)
    ensures
        r == is_letter(c),
{
    ('a' <= c && c <= 'z') || ('A' <= c && c <= 'Z')
}

fn ft_char(c: char) -> (r: bool)
    ensures
        r == is_ft_char(c),
{
    letter(c) || ('0' <= c && c <= '9') || c == '_' || c == '-' || c == '\'' || c == '*'
}

fn parse_ft_string(s: &Vec<char>, i: usize) -> (r: Result<(FtString, usize), ()>)
    requires
        i <= s.len(),
    ensures
        match ft_string_at(s@, i as int) {
            Parsed::Done(v, j) => r matches Ok((x, k)) && x@ == v && k == j,
            _ => r is Err,
        },
        r matches Ok((_, j)) ==> i < j <= s.len(),
{
    let mut j: usize = i;
    let mut seen_letter = false;
    while j < s.len() && j - i < 20 && ft_char(s[j])
        invariant
            i <= j <= s.len(),
            j - i <= 20,
            forall|k: int| i <= k < j ==> is_ft_char(#[trigger] s@[k]),
            seen_letter <==> exists|k: int| i <= k < j && is_letter(#[trigger] s@[k]),
        decreases s.len() - j,
    {
        if letter(s[j]) {
            seen_letter = true;
        }
        j = j + 1;
    }
    proof {
        lemma_run_end(s@, i as int, j as int, |c: char| is_ft_char(c));
        lemma_run_end_after(s@, j as int, |c: char| is_ft_char(c));
    }
    if j > i && seen_letter {
        Ok((FtString(string_of(s, i, j)), j))
    } else {
        Err(())
    }
}

fn parse_qualifier_value(s: &Vec<char>, i: usize) -> (r: Result<(QualifierValue, usize), ()>)
    requires
        i <= s.len(),
    ensures
        match qualifier_value_at(s@, i as int) {
            Parsed::Done(v, j) => r matches Ok((x, k)) && x@ == v && k == j,
            _ => r is Err,
        },
        r matches Ok((_, j)) ==> i < j <= s.len(),
{
    if char_is(s, i, '"') {
        let mut j: usize = i + 1;
        while j < s.len() && s[j] != '"'
            invariant
                i < j <= s.len(),
                forall|k: int| i + 1 <= k < j ==> #[trigger] s@[k] != '"',
            decreases s.len() - j,
        {
            j = j + 1;
        }
        proof {
            lemma_run_end(s@, i + 1, j as int, |c: char| c != '"');
        }
        if char_is(s, j, '"') {
            return Ok((QualifierValue::QuotedText(string_of(s, i + 1, j)), j + 1));
        }
    }
    if let Ok((t, k)) = parse_ft_string(s, i) {
        return Ok((QualifierValue::VocabularyTerm(t), k));
    }
    if char_is(s, i, '[') {
        if let Ok((n, k)) = parse_uint(s, i + 1) {
            if char_is(s, k, ']') {
                return Ok((QualifierValue::ReferenceNumber(n), k + 1));
            }
        }
    }
    Err(())
}

fn parse_qualifier(s: &Vec<char>, i: usize) -> (r: Result<(Qualifier, usize), ()>)
    requires
        i <= s.len(),
    ensures
        match qualifier_at(s@, i as int) {
            Parsed::Done(v, j) => r matches Ok((x, k)) && x@ == v && k == j,
            _ => r is Err,
        },
        r matches Ok((_, j)) ==> i < j <= s.len(),
{
    if !char_is(s, i, '/') {
        return Err(());
    }
    match parse_ft_string(s, i + 1) {
        Ok((name, j)) => {
            if char_is(s, j, '=') {
                if let Ok((v, k)) = parse_qualifier_value(s, j + 1) {
                    return Ok((Qualifier { name, value: Some(v) }, k));
                }
            }
            Ok((Qualifier { name, value: None }, j))
        },
        Err(_) => Err(()),
    }
}

impl FtString {
    /// Reads a name at the start of `input`; gives it with the number of
    /// characters it takes.
    pub fn parse(input: &str) -> (r: Result<(FtString, usize), SyntaxError>)
        ensures
            match ft_string_at(input@, 0) {
                Parsed::Done(v, j) => r matches Ok((x, k)) && x@ == v && k == j,
                _ => r == Err::<(FtString, usize), SyntaxError>(at_start(Expected::Name)),
            },
    {
        let s = chars_of(input);
        no_match(parse_ft_string(&s, 0), Expected::Name)
    }
}

impl QualifierValue {
    /// Reads a qualifier value at the start of `input`.
    pub fn parse(input: &str) -> (r: Result<(QualifierValue, usize), SyntaxError>)
        ensures
            match qualifier_value_at(input@, 0) {
                Parsed::Done(v, j) => r matches Ok((x, k)) && x@ == v && k == j,
                _ => r == Err::<(QualifierValue, usize), SyntaxError>(at_start(Expected::QualifierValue)),
            },
    {
        let s = chars_of(input);
        no_match(parse_qualifier_value(&s, 0), Expected::QualifierValue)
    }
}

impl Qualifier {
    /// Reads a qualifier at the start of `input`.
    pub fn parse(input: &str) -> (r: Result<(Qualifier, usize), SyntaxError>)
        ensures
            match qualifier_at(input@, 0) {
                Parsed::Done(v, j) => r matches Ok((x, k)) && x@ == v && k == j,
                _ => r == Err::<(Qualifier, usize), SyntaxError>(at_start(Expected::Qualifier)),
            },
    {
        let s = chars_of(input);
        no_match(parse_qualifier(&s, 0), Expected::Qualifier)
    }
}

} // verus!

//! FASTA records: reading them from text, and writing them with the
//! sequence wrapped into lines.
use vstd::prelude::*;
use crate::scan::{Expected, Parsed, SyntaxError, at_start, char_at, char_is, lemma_run_end, run_end};
use crate::text::{append_chars, chars_of, opt_view, push_char, string_of};

verus! {

/// The parts of a description line: an identifier, then after the first
/// space a free description.
#[derive(Debug, PartialEq, Eq)]
pub struct FastaDescription {
    pub identifier: Option<String>,
    pub description: Option<String>,
}

/// A description line and its sequence.
#[derive(Debug, PartialEq, Eq, Clone)]
pub struct FastaRecord {
    pub descr_line: String,
    pub seq: String,
}

/// How records are written: the length of each sequence line.
#[derive(Debug, PartialEq, Eq, Clone, Copy)]
pub struct FastaFormat {
    pub line_length: usize,
}

/// The identifier and the description of a description line.
pub open spec fn description_of(txt: Seq<char>) -> (Option<Seq<char>>, Option<Seq<char>>) {
    let p = run_end(txt, 0, |c: char| c != ' ');
    if p < txt.len() {
        (Some(txt.subrange(0, p)), Some(txt.subrange(p + 1, txt.len() as int)))
    } else {
        (Some(txt), None)
    }
}

impl FastaDescription {
    /// Splits a description line at its first space.
    pub fn read(txt: &str) -> (r: Self)
        ensures
            (opt_view(r.identifier), opt_view(r.description)) == description_of(txt@),
    {
        let v = chars_of(txt);
        let mut p: usize = 0;
        while p < v.len() && v[p] != ' '
            invariant
                p <= v@.len(),
                forall|k: int| 0 <= k < p ==> #[trigger] v@[k] != ' ',
            decreases v@.len() - p,
        {
            p = p + 1;
        }
        proof {
            lemma_run_end(v@, 0, p as int, |c: char| c != ' ');
        }
        if p < v.len() {
            FastaDescription {
                identifier: Some(string_of(&v, 0, p)),
                description: Some(string_of(&v, p + 1, v.len())),
            }
        } else {
            assert(v@.subrange(0, v@.len() as int) =~= v@);
            FastaDescription { identifier: Some(string_of(&v, 0, v.len())), description: None }
        }
    }
}

/// A description line from an identifier and a description.
pub open spec fn descr_line_of(id: Option<Seq<char>>, descr: Option<Seq<char>>) -> Seq<char> {
    let head = match id {
        Some(i) => i,
        None => seq![],
    };
    match descr {
        Some(d) => head + seq![' '] + d,
        None => head,
    }
}

/// `seq` cut into lines of `line_length` characters, each ended by a newline.
pub open spec fn wrapped(seq: Seq<char>, line_length: nat) -> Seq<char>
    decreases seq.len(),
{
    if seq.len() == 0 || line_length == 0 {
        seq![]
    } else if seq.len() <= line_length {
        seq + seq!['\n']
    } else {
        seq.subrange(0, line_length as int) + seq!['\n'] + wrapped(
            seq.subrange(line_length as int, seq.len() as int),
            line_length,
        )
    }
}

/// The text of a record: `>`, the description line, then the wrapped sequence.
pub open spec fn record_text(descr_line: Seq<char>, seq: Seq<char>, line_length: nat) -> Seq<char> {
    seq!['>'] + descr_line + seq!['\n'] + wrapped(seq, line_length)
}

impl FastaRecord {
    pub fn descr_line(id: Option<&str>, descr: Option<&str>) -> (r: String)
        ensures
            r@ == descr_line_of(
                match id {
                    Some(i) => Some(i@),
                    None => None,
                },
                match descr {
                    Some(d) => Some(d@),
                    None => None,
                },
            ),
    {
        let mut dl = String::new();
        if let Some(i) = id {
            let v = chars_of(i);
            append_chars(&mut dl, &v, 0, v.len());
            assert(v@.subrange(0, v@.len() as int) =~= v@);
        }
        if let Some(d) = descr {
            push_char(&mut dl, ' ');
            let v = chars_of(d);
            append_chars(&mut dl, &v, 0, v.len());
            assert(v@.subrange(0, v@.len() as int) =~= v@);
        }
        assert(dl@ =~= descr_line_of(
            match id {
                Some(i) => Some(i@),
                None => None,
            },
            match descr {
                Some(d) => Some(d@),
                None => None,
            },
        ));
        dl
    }

    /// Appends the text of this record to `out`.
    pub fn write(&self, format: &FastaFormat, out: &mut String)
        requires
            format.line_length > 0,
        ensures
            final(out)@ == old(out)@ + record_text(self.descr_line@, self.seq@, format.line_length as nat),
    {
        let ll = format.line_length;
        push_char(out, '>');
        let d = chars_of(self.descr_line.as_str());
        append_chars(out, &d, 0, d.len());
        push_char(out, '\n');
        assert(d@.subrange(0, d@.len() as int) =~= d@);
        let v = chars_of(self.seq.as_str());
        let l = v.len();
        let mut o: usize = 0;
        assert(v@.subrange(0, l as int) =~= v@);
        assert(out@ + wrapped(v@, ll as nat) =~= old(out)@ + record_text(self.descr_line@, self.seq@, ll as nat));
        while o < l
            invariant
                ll == format.line_length,
                ll > 0,
                l == v@.len(),
                v@ == self.seq@,
                o <= l,
                out@ + wrapped(v@.subrange(o as int, l as int), ll as nat) == old(out)@ + record_text(
                    self.descr_line@,
                    self.seq@,
                    ll as nat,
                ),
            decreases l - o,
        {
            let r = if l - o > ll { o + ll } else { l };
            let ghost rest = v@.subrange(o as int, l as int);
            let ghost before = out@;
            append_chars(out, &v, o, r);
            push_char(out, '\n');
            proof {
                assert(rest.subrange(0, r - o) =~= v@.subrange(o as int, r as int));
                assert(rest.subrange(r - o, rest.len() as int) =~= v@.subrange(r as int, l as int));
                if r < l {
                    assert(wrapped(rest, ll as nat) == rest.subrange(0, ll as int) + seq!['\n'] + wrapped(
                        rest.subrange(ll as int, rest.len() as int),
                        ll as nat,
                    ));
                } else {
                    assert(rest =~= v@.subrange(o as int, r as int));
                    assert(v@.subrange(r as int, l as int) =~= Seq::<char>::empty());
                }
                assert(out@ + wrapped(v@.subrange(r as int, l as int), ll as nat) =~= before + wrapped(rest, ll as nat));
            }
            o = r;
        }
        assert(v@.subrange(0, l as int) =~= v@);
        assert(v@.subrange(o as int, l as int) =~= Seq::<char>::empty());
        assert(out@ =~= out@ + wrapped(v@.subrange(o as int, l as int), ll as nat));
    }
}

impl FastaFormat {
    /// Sixty characters to a line.
    pub fn new() -> (r: FastaFormat)
        ensures
            r.line_length == 60,
    {
        FastaFormat { line_length: 60 }
    }

    pub fn new_with_line_length(line_length: usize) -> (r: FastaFormat)
        ensures
            r.line_length == line_length,
    {
        FastaFormat { line_length }
    }
}

pub open spec fn is_blank(c: char) -> bool {
    c == ' ' || c == '\t'
}

pub open spec fn is_line_break(c: char) -> bool {
    c == '\r' || c == '\n'
}

/// A header line at `i`: blanks, `>`, the description line, and a line end.
pub open spec fn header_at(s: Seq<char>, i: int) -> Parsed<Seq<char>> {
    let j = run_end(s, i, |c: char| is_blank(c));
    let e = run_end(s, j + 1, |c: char| !is_line_break(c));
    if !char_at(s, j, '>') {
        Parsed::NoMatch
    } else if char_at(s, e, '\n') {
        Parsed::Done(s.subrange(j + 1, e), e + 1)
    } else if char_at(s, e, '\r') && char_at(s, e + 1, '\n') {
        Parsed::Done(s.subrange(j + 1, e), e + 2)
    } else {
        Parsed::NoMatch
    }
}

/// The residues of `t`: its characters without blanks and line breaks.
pub open spec fn residues(t: Seq<char>) -> Seq<char>
    decreases t.len(),
{
    if t.len() == 0 {
        seq![]
    } else if is_blank(t.last()) || is_line_break(t.last()) {
        residues(t.drop_last())
    } else {
        residues(t.drop_last()).push(t.last())
    }
}

/// A record at `i`: a header, then the sequence lines up to the next `>`.
pub open spec fn fasta_at(s: Seq<char>, i: int) -> Parsed<(Seq<char>, Seq<char>)> {
    match header_at(s, i) {
        Parsed::Done(d, k) => {
            let e = run_end(s, k, |c: char| c != '>');
            Parsed::Done((d, residues(s.subrange(k, e))), e)
        },
        _ => Parsed::NoMatch,
    }
}

/// The records from `i` on, as many as can be read, and where they end.
pub open spec fn fastas_at(s: Seq<char>, i: int) -> (Seq<(Seq<char>, Seq<char>)>, int)
    decreases s.len() - i,
{
    if i < 0 || i >= s.len() {
        (seq![], i)
    } else {
        match fasta_at(s, i) {
            Parsed::Done(r, j) => if i < j <= s.len() {
                let (rs, e) = fastas_at(s, j);
                (seq![r] + rs, e)
            } else {
                (seq![r], j)
            },
            _ => (seq![], i),
        }
    }
}

impl View for FastaRecord {
    type V = (Seq<char>, Seq<char>);

    open spec fn view(&self) -> (Seq<char>, Seq<char>) {
        (self.descr_line@, self.seq@)
    }
}

fn parse_header(s: &Vec<char>, i: usize) -> (r: Option<(String, usize)>)
    requires
        i <= s.len(),
    ensures
        match header_at(s@, i as int) {
            Parsed::Done(v, j) => r matches Some((x, k)) && x@ == v && k == j,
            _ => r is None,
        },
        r matches Some((_, j)) ==> i < j <= s.len(),
{
    let mut j: usize = i;
    while j < s.len() && (s[j] == ' ' || s[j] == '\t')
        invariant
            i <= j <= s.len(),
            forall|k: int| i <= k < j ==> is_blank(#[trigger] s@[k]),
        decreases s.len() - j,
    {
        j = j + 1;
    }
    proof {
        lemma_run_end(s@, i as int, j as int, |c: char| is_blank(c));
    }
    if !char_is(s, j, '>') {
        return None;
    }
    let mut e: usize = j + 1;
    while e < s.len() && s[e] != '\r' && s[e] != '\n'
        invariant
            j < e <= s.len(),
            forall|k: int| j + 1 <= k < e ==> !is_line_break(#[trigger] s@[k]),
        decreases s.len() - e,
    {
        e = e + 1;
    }
    proof {
        lemma_run_end(s@, j + 1, e as int, |c: char| !is_line_break(c));
    }
    let k = if char_is(s, e, '\n') {
        e + 1
    } else if char_is(s, e, '\r') && char_is(s, e + 1, '\n') {
        e + 2
    } else {
        return None;
    };
    Some((string_of(s, j + 1, e), k))
}

fn parse_record(s: &Vec<char>, i: usize) -> (r: Option<(FastaRecord, usize)>)
    requires
        i <= s.len(),
    ensures
        match fasta_at(s@, i as int) {
            Parsed::Done(v, j) => r matches Some((x, k)) && x@ == v && k == j,
            _ => r is None,
        },
        r matches Some((_, j)) ==> i < j <= s.len(),
{
    let (descr_line, k) = match parse_header(s, i) {
        Some(h) => h,
        None => return None,
    };
    let mut seq = String::new();
    let mut m: usize = k;
    while m < s.len() && s[m] != '>'
        invariant
            k <= m <= s.len(),
            forall|q: int| k <= q < m ==> #[trigger] s@[q] != '>',
            seq@ == residues(s@.subrange(k as int, m as int)),
        decreases s.len() - m,
    {
        let c = s[m];
        if !(c == ' ' || c == '\t' || c == '\r' || c == '\n') {
            push_char(&mut seq, c);
        }
        m = m + 1;
        assert(s@.subrange(k as int, m as int).drop_last() =~= s@.subrange(k as int, m - 1));
    }
    proof {
        lemma_run_end(s@, k as int, m as int, |c: char| c != '>');
    }
    Some((FastaRecord { descr_line, seq }, m))
}

/// Reads a header line at the start of `input`; gives its description line
/// with the number of characters the header takes.
pub fn parse_fasta_header(input: &str) -> (r: Result<(String, usize), SyntaxError>)
    ensures
        match header_at(input@, 0) {
            Parsed::Done(v, j) => r matches Ok((x, k)) && x@ == v && k == j,
            _ => r == Err::<(String, usize), SyntaxError>(at_start(Expected::Header)),
        },
{
    let s = chars_of(input);
    match parse_header(&s, 0) {
        Some(v) => Ok(v),
        None => Err(SyntaxError { position: 0, expected: Expected::Header, committed: false }),
    }
}

/// Reads one record at the start of `input`; gives it with the number of
/// characters it takes.
pub fn parse_fasta(input: &str) -> (r: Result<(FastaRecord, usize), SyntaxError>)
    ensures
        match fasta_at(input@, 0) {
            Parsed::Done(v, j) => r matches Ok((x, k)) && x@ == v && k == j,
            _ => r == Err::<(FastaRecord, usize), SyntaxError>(at_start(Expected::Header)),
        },
{
    let s = chars_of(input);
    match parse_record(&s, 0) {
        Some(v) => Ok(v),
        None => Err(SyntaxError { position: 0, expected: Expected::Header, committed: false }),
    }
}

/// Reads records from the start of `input` for as long as there are any;
/// gives them with the number of characters they take.
pub fn parse_fastas(input: &str) -> (r: (Vec<FastaRecord>, usize))
    ensures
        r.0@.len() == fastas_at(input@, 0).0.len(),
        forall|k: int| 0 <= k < r.0@.len() ==> #[trigger] r.0@[k]@ == fastas_at(input@, 0).0[k],
        r.1 == fastas_at(input@, 0).1,
{
    let s = chars_of(input);
    let mut out: Vec<FastaRecord> = Vec::new();
    let mut i: usize = 0;
    loop
        invariant
            s@ == input@,
            i <= s.len(),
            fastas_at(s@, 0).1 == fastas_at(s@, i as int).1,
            fastas_at(s@, 0).0 == out@.map_values(|x: FastaRecord| x@) + fastas_at(s@, i as int).0,
        ensures
            s@ == input@,
            fastas_at(s@, 0).1 == fastas_at(s@, i as int).1,
            fastas_at(s@, 0).0 == out@.map_values(|x: FastaRecord| x@) + fastas_at(s@, i as int).0,
            fastas_at(s@, i as int) == (Seq::<(Seq<char>, Seq<char>)>::empty(), i as int),
        decreases s.len() - i,
    {
        if i >= s.len() {
            break;
        }
        match parse_record(&s, i) {
            Some((rec, j)) => {
                let ghost before = out@;
                proof {
                    assert(fastas_at(s@, i as int).0 == seq![rec@] + fastas_at(s@, j as int).0);
                }
                out.push(rec);
                assert(out@.map_values(|x: FastaRecord| x@) =~= before.map_values(|x: FastaRecord| x@).push(rec@));
                assert(out@.map_values(|x: FastaRecord| x@) + fastas_at(s@, j as int).0 =~= before.map_values(
                    |x: FastaRecord| x@,
                ) + (seq![rec@] + fastas_at(s@, j as int).0));
                i = j;
            },
            None => {
                break;
            },
        }
    }
    assert(out@.map_values(|x: FastaRecord| x@) + Seq::<(Seq<char>, Seq<char>)>::empty() =~= out@.map_values(|x: FastaRecord| x@));
    (out, i)
}

/// `s` is all `n` or `N`.
pub open spec fn all_n(s: Seq<char>) -> bool {
    forall|k: int| 0 <= k < s.len() ==> #[trigger] s[k] == 'n' || s[k] == 'N'
}

/// Whether a record is sieved out: all `n` where that is asked for, shorter
/// than the least length, or longer than the greatest.
pub open spec fn rejected(seq: Seq<char>, min_length: Option<usize>, max_length: Option<usize>, poly_n: bool) -> bool {
    ||| poly_n && all_n(seq)
    ||| (min_length matches Some(m) && seq.len() < m)
    ||| (max_length matches Some(x) && seq.len() > x)
}

pub fn rejects(rec: &FastaRecord, min_length: Option<usize>, max_length: Option<usize>, poly_n: bool) -> (r: bool)
    ensures
        r == rejected(rec.seq@, min_length, max_length, poly_n),
{
    let v = chars_of(rec.seq.as_str());
    let mut is_n = true;
    let mut k: usize = 0;
    while k < v.len()
        invariant
            k <= v@.len(),
            is_n <==> forall|m: int| 0 <= m < k ==> #[trigger] v@[m] == 'n' || v@[m] == 'N',
        decreases v@.len() - k,
    {
        if v[k] != 'n' && v[k] != 'N' {
            is_n = false;
        }
        k = k + 1;
    }
    let len = v.len();
    let short = match min_length {
        Some(m) => len < m,
        None => false,
    };
    let long = match max_length {
        Some(x) => len > x,
        None => false,
    };
    (poly_n && is_n) || short || long
}

} // verus!

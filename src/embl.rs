//! EMBL entries, and the FASTA record that an entry's stanzas give: its
//! identifier from the `ID` line, its description from the `DE` lines and
//! its residues from the lines after `SQ`.
use vstd::prelude::*;
use crate::fasta::{FastaRecord, descr_line_of};
use crate::feature_table::FeatureTable;
use crate::gff3::split_on;
use crate::stanza::{Stanza, StanzaV};
use crate::text::{append_chars, chars_of, is_white_space, push_char, white_space};

verus! {

/// An EMBL-like entry.
pub struct Embl {
    pub annotations: Vec<Annotation>,
    pub features: FeatureTable,
    pub sequence: String,
}

/// A named annotation and its values.
pub struct Annotation {
    pub name: String,
    pub values: Vec<String>,
}

pub open spec fn is_ascii_letter(c: char) -> bool {
    ('a' <= c <= 'z') || ('A' <= c <= 'Z')
}

/// Reads a line word by word: the residues so far, the word under way,
/// and whether that word is all letters.
pub open spec fn word_scan(s: Seq<char>) -> (Seq<char>, Seq<char>, bool)
    decreases s.len(),
{
    if s.len() == 0 {
        (seq![], seq![], true)
    } else {
        let (o, w, ok) = word_scan(s.drop_last());
        let c = s.last();
        if is_white_space(c) {
            (if ok { o + w } else { o }, seq![], true)
        } else {
            (o, w.push(c), ok && is_ascii_letter(c))
        }
    }
}

/// The words of a sequence line that are all letters, run together.
pub open spec fn line_residues(s: Seq<char>) -> Seq<char> {
    let (o, w, ok) = word_scan(s);
    if ok {
        o + w
    } else {
        o
    }
}

pub open spec fn id_tag() -> Seq<char> {
    seq!['I', 'D']
}

pub open spec fn de_tag() -> Seq<char> {
    seq!['D', 'E']
}

pub open spec fn sq_tag() -> Seq<char> {
    seq!['S', 'Q']
}

/// The identifier: the first `;`-separated piece of the first line of the
/// first `ID` stanza that has lines.
pub open spec fn embl_id(sts: Seq<StanzaV>) -> Option<Seq<char>>
    decreases sts.len(),
{
    if sts.len() == 0 {
        None
    } else if sts[0].tag == Some(id_tag()) && sts[0].lines.len() > 0 {
        Some(split_on(sts[0].lines[0], ';')[0])
    } else {
        embl_id(sts.drop_first())
    }
}

/// The description: the lines of the first `DE` stanza, run together.
pub open spec fn embl_descr(sts: Seq<StanzaV>) -> Option<Seq<char>>
    decreases sts.len(),
{
    if sts.len() == 0 {
        None
    } else if sts[0].tag == Some(de_tag()) {
        Some(sts[0].lines.flatten())
    } else {
        embl_descr(sts.drop_first())
    }
}

/// The residues of the lines of `lines`, run together.
pub open spec fn lines_residues(lines: Seq<Seq<char>>) -> Seq<char> {
    lines.map_values(|l: Seq<char>| line_residues(l)).flatten()
}

/// The residues: those of every `SQ` stanza, its first line left out.
pub open spec fn embl_seq(sts: Seq<StanzaV>) -> Seq<char>
    decreases sts.len(),
{
    if sts.len() == 0 {
        seq![]
    } else {
        let here = if sts[0].tag == Some(sq_tag()) && sts[0].lines.len() > 0 {
            lines_residues(sts[0].lines.drop_first())
        } else {
            seq![]
        };
        here + embl_seq(sts.drop_first())
    }
}

pub open spec fn stanza_views(sts: Seq<Stanza>) -> Seq<StanzaV> {
    sts.map_values(|s: Stanza| s@)
}

fn ascii_letter(c: char) -> (r: bool)
    ensures
        r == is_ascii_letter(c),
{
    ('a' <= c && c <= 'z') || ('A' <= c && c <= 'Z')
}

/// Appends the residues of `line` to `out`.
fn push_line_residues(out: &mut String, line: &String)
    ensures
        final(out)@ == old(out)@ + line_residues(line@),
{
    let v = chars_of(line.as_str());
    let mut word = String::new();
    let mut ok = true;
    let mut k: usize = 0;
    while k < v.len()
        invariant
            k <= v@.len(),
            v@ == line@,
            ({
                let (o, w, wok) = word_scan(v@.subrange(0, k as int));
                out@ == old(out)@ + o && word@ == w && ok == wok
            }),
        decreases v@.len() - k,
    {
        let c = v[k];
        assert(v@.subrange(0, k + 1).drop_last() =~= v@.subrange(0, k as int));
        if white_space(c) {
            if ok {
                let w = chars_of(word.as_str());
                append_chars(out, &w, 0, w.len());
                assert(w@.subrange(0, w@.len() as int) =~= w@);
            }
            word = String::new();
            ok = true;
        } else {
            push_char(&mut word, c);
            ok = ok && ascii_letter(c);
        }
        k = k + 1;
    }
    assert(v@.subrange(0, k as int) =~= v@);
    if ok {
        let w = chars_of(word.as_str());
        append_chars(out, &w, 0, w.len());
        assert(w@.subrange(0, w@.len() as int) =~= w@);
    }
}

/// Whether `t` is the tag `want`.
fn has_tag(t: &Option<String>, want: &Vec<char>) -> (r: bool)
    ensures
        r == (crate::text::opt_view(*t) == Some(want@)),
{
    match t {
        Some(s) => {
            assert(crate::text::opt_view(*t) == Some(s@));
            let v = chars_of(s.as_str());
            if v.len() != want.len() {
                return false;
            }
            let mut k: usize = 0;
            while k < v.len()
                invariant
                    k <= v@.len(),
                    v@ == s@,
                    crate::text::opt_view(*t) == Some(s@),
                    v@.len() == want@.len(),
                    forall|m: int| 0 <= m < k ==> v@[m] == want@[m],
                decreases v@.len() - k,
            {
                if v[k] != want[k] {
                    assert(v@[k as int] != want@[k as int]);
                    assert(v@ != want@);
                    return false;
                }
                k = k + 1;
            }
            assert(v@ =~= want@);
            true
        },
        None => false,
    }
}

/// The first `;`-separated piece of `line`.
fn first_piece(line: &String) -> (r: String)
    ensures
        r@ == split_on(line@, ';')[0],
{
    let v = chars_of(line.as_str());
    let pieces = crate::gff3::split_text(&v, 0, v.len(), ';');
    assert(v@.subrange(0, v@.len() as int) =~= v@);
    proof {
        crate::gff3::lemma_split_on_len(line@, ';');
    }
    pieces[0].clone()
}

/// The FASTA record of an entry's stanzas, or none where it has no residues.
pub fn embl_fasta_record(stanzas: &Vec<Stanza>) -> (r: Option<FastaRecord>)
    ensures
        match r {
            Some(rec) => embl_seq(stanza_views(stanzas@)).len() > 0 && rec@ == (
                descr_line_of(embl_id(stanza_views(stanzas@)), embl_descr(stanza_views(stanzas@))),
                embl_seq(stanza_views(stanzas@)),
            ),
            None => embl_seq(stanza_views(stanzas@)).len() == 0,
        },
{
    let id_t = vec!['I', 'D'];
    let de_t = vec!['D', 'E'];
    let sq_t = vec!['S', 'Q'];
    let ghost all = stanza_views(stanzas@);
    let mut id: Option<String> = None;
    let mut descr: Option<String> = None;
    let mut seq = String::new();
    let mut k: usize = stanzas.len();
    // read from the end, so that the first stanza of each kind has the last word
    assert(all.subrange(stanzas@.len() as int, stanzas@.len() as int) =~= Seq::<StanzaV>::empty());
    while k > 0
        invariant
            k <= stanzas@.len(),
            all == stanza_views(stanzas@),
            id_t@ == id_tag(),
            de_t@ == de_tag(),
            sq_t@ == sq_tag(),
            crate::text::opt_view(id) == embl_id(all.subrange(k as int, all.len() as int)),
            crate::text::opt_view(descr) == embl_descr(all.subrange(k as int, all.len() as int)),
            seq@ == embl_seq(all.subrange(k as int, all.len() as int)),
        decreases k,
    {
        k = k - 1;
        let st = &stanzas[k];
        let ghost rest = all.subrange(k + 1, all.len() as int);
        let ghost here = all.subrange(k as int, all.len() as int);
        assert(here.drop_first() =~= rest);
        assert(here[0] == st@);
        if has_tag(&st.tag, &id_t) && st.lines.len() > 0 {
            id = Some(first_piece(&st.lines[0]));
        }
        if has_tag(&st.tag, &de_t) {
            let mut d = String::new();
            let mut m: usize = 0;
            while m < st.lines.len()
                invariant
                    m <= st.lines@.len(),
                    d@ == st@.lines.subrange(0, m as int).flatten(),
                decreases st.lines@.len() - m,
            {
                let l = chars_of(st.lines[m].as_str());
                append_chars(&mut d, &l, 0, l.len());
                assert(l@.subrange(0, l@.len() as int) =~= l@);
                proof {
                    let pre = st@.lines.subrange(0, m + 1);
                    assert(pre.drop_last() =~= st@.lines.subrange(0, m as int));
                    pre.lemma_flatten_and_flatten_alt_are_equivalent();
                    st@.lines.subrange(0, m as int).lemma_flatten_and_flatten_alt_are_equivalent();
                }
                m = m + 1;
            }
            assert(st@.lines.subrange(0, m as int) =~= st@.lines);
            descr = Some(d);
        }
        let mut here_seq = String::new();
        if has_tag(&st.tag, &sq_t) && st.lines.len() > 0 {
            let mut m: usize = 1;
            while m < st.lines.len()
                invariant
                    1 <= m <= st.lines@.len(),
                    here_seq@ == lines_residues(st@.lines.subrange(1, m as int)),
                decreases st.lines@.len() - m,
            {
                push_line_residues(&mut here_seq, &st.lines[m]);
                proof {
                    let pre = st@.lines.subrange(1, m + 1);
                    let pm = pre.map_values(|l: Seq<char>| line_residues(l));
                    let qm = st@.lines.subrange(1, m as int).map_values(|l: Seq<char>| line_residues(l));
                    assert(pm.drop_last() =~= qm);
                    pm.lemma_flatten_and_flatten_alt_are_equivalent();
                    qm.lemma_flatten_and_flatten_alt_are_equivalent();
                }
                m = m + 1;
            }
            assert(st@.lines.subrange(1, m as int) =~= st@.lines.drop_first());
        } else {
            assert(lines_residues(seq![]) =~= Seq::<char>::empty());
        }
        let w = chars_of(seq.as_str());
        append_chars(&mut here_seq, &w, 0, w.len());
        assert(w@.subrange(0, w@.len() as int) =~= w@);
        seq = here_seq;
    }
    assert(all.subrange(0, all.len() as int) =~= all);
    if seq.as_str().is_empty() {
        None
    } else {
        let descr_line = match (&id, &descr) {
            (Some(i), Some(d)) => FastaRecord::descr_line(Some(i.as_str()), Some(d.as_str())),
            (Some(i), None) => FastaRecord::descr_line(Some(i.as_str()), None),
            (None, Some(d)) => FastaRecord::descr_line(None, Some(d.as_str())),
            (None, None) => FastaRecord::descr_line(None, None),
        };
        Some(FastaRecord { descr_line, seq })
    }
}

} // verus!

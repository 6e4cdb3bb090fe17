//! Clipping sequences at the ends of GFF features that start at their
//! first base.
use vstd::prelude::*;
use crate::fasta::{FastaRecord, descr_line_of};
use crate::gff3::GffRecord;
use crate::text::{append_chars, chars_of, push_char, string_of};

verus! {

/// The clip of the entry `id`: the greatest end among the features of `id`
/// that start at 1, if there are any.
pub open spec fn clip_of(gff: Seq<GffRecord>, id: Seq<char>) -> Option<u64>
    decreases gff.len(),
{
    if gff.len() == 0 {
        None
    } else {
        let prev = clip_of(gff.drop_last(), id);
        let g = gff.last();
        if g.seq_id@ == id && g.start.0 == 1 {
            match prev {
                Some(c) => Some(if c >= g.end.0 { c } else { g.end.0 }),
                None => Some(g.end.0),
            }
        } else {
            prev
        }
    }
}

fn same_text(a: &String, b: &str) -> (r: bool)
    ensures
        r == (a@ == b@),
{
    let x = chars_of(a.as_str());
    let y = chars_of(b);
    if x.len() != y.len() {
        return false;
    }
    let mut k: usize = 0;
    while k < x.len()
        invariant
            k <= x@.len(),
            x@.len() == y@.len(),
            x@ == a@,
            y@ == b@,
            forall|m: int| 0 <= m < k ==> x@[m] == y@[m],
        decreases x@.len() - k,
    {
        if x[k] != y[k] {
            assert(x@[k as int] != y@[k as int]);
            return false;
        }
        k = k + 1;
    }
    assert(x@ =~= y@);
    true
}

pub fn clip_point(gff: &Vec<GffRecord>, id: &str) -> (r: Option<u64>)
    ensures
        r == clip_of(gff@, id@),
{
    let mut r: Option<u64> = None;
    let mut k: usize = 0;
    while k < gff.len()
        invariant
            k <= gff@.len(),
            r == clip_of(gff@.subrange(0, k as int), id@),
        decreases gff@.len() - k,
    {
        let g = &gff[k];
        assert(gff@.subrange(0, k + 1).drop_last() =~= gff@.subrange(0, k as int));
        if same_text(&g.seq_id, id) && g.start.0 == 1 {
            r = match r {
                Some(c) => Some(if c >= g.end.0 { c } else { g.end.0 }),
                None => Some(g.end.0),
            };
        }
        k = k + 1;
    }
    assert(gff@.subrange(0, k as int) =~= gff@);
    r
}

pub open spec fn digit_of(d: int) -> char {
    seq!['0', '1', '2', '3', '4', '5', '6', '7', '8', '9'][d]
}

/// The decimal digits of `n`.
pub open spec fn decimal_text(n: nat) -> Seq<char>
    decreases n,
{
    if n < 10 {
        seq![digit_of(n as int)]
    } else {
        decimal_text(n / 10).push(digit_of((n % 10) as int))
    }
}

fn push_decimal(out: &mut String, n: u64)
    ensures
        final(out)@ == old(out)@ + decimal_text(n as nat),
    decreases n,
{
    let digits = vec!['0', '1', '2', '3', '4', '5', '6', '7', '8', '9'];
    assert(digits@ == seq!['0', '1', '2', '3', '4', '5', '6', '7', '8', '9']);
    if n >= 10 {
        push_decimal(out, n / 10);
    }
    push_char(out, digits[(n % 10) as usize]);
    assert(final(out)@ =~= old(out)@ + decimal_text(n as nat)) by {
        if n >= 10 {
            assert(decimal_text(n as nat) == decimal_text((n / 10) as nat).push(digit_of((n % 10) as int)));
        }
    }
}

/// The identifier of a clipped entry: `<id>_clipped_<clip>`.
pub open spec fn clipped_name(id: Seq<char>, clip: u64) -> Seq<char> {
    id + seq!['_', 'c', 'l', 'i', 'p', 'p', 'e', 'd', '_'] + decimal_text(clip as nat)
}

/// `seq` with its first `clip` characters cut off; nothing is left of a
/// sequence no longer than the clip.
pub open spec fn clipped_seq(seq: Seq<char>, clip: u64) -> Seq<char> {
    if clip <= seq.len() {
        seq.subrange(clip as int, seq.len() as int)
    } else {
        seq![]
    }
}

/// The record of the entry `id` clipped at `clip`.
pub fn clipped_record(id: &str, description: Option<&str>, seq: &str, clip: u64) -> (r: FastaRecord)
    ensures
        r@ == (
            descr_line_of(
                Some(clipped_name(id@, clip)),
                match description {
                    Some(d) => Some(d@),
                    None => None,
                },
            ),
            clipped_seq(seq@, clip),
        ),
{
    let mut name = String::new();
    let v = chars_of(id);
    append_chars(&mut name, &v, 0, v.len());
    let mid = vec!['_', 'c', 'l', 'i', 'p', 'p', 'e', 'd', '_'];
    append_chars(&mut name, &mid, 0, mid.len());
    push_decimal(&mut name, clip);
    assert(v@.subrange(0, v@.len() as int) =~= v@);
    assert(mid@.subrange(0, mid@.len() as int) =~= mid@);
    assert(name@ =~= clipped_name(id@, clip));
    let descr_line = FastaRecord::descr_line(Some(name.as_str()), description);
    let s = chars_of(seq);
    let rest = if clip <= s.len() as u64 {
        string_of(&s, clip as usize, s.len())
    } else {
        String::new()
    };
    FastaRecord { descr_line, seq: rest }
}

} // verus!

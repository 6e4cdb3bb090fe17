//! Six-frame translation: the three reading frames of a DNA sequence and
//! three of its reverse complement, each as a protein record.
use vstd::prelude::*;
use crate::dna::{frame, frame_of, reverse_complement, reverse_complement_of, translate, translation_of};
use crate::fasta::{FastaFormat, FastaRecord, record_text};
use crate::text::{append_chars, chars_of, push_char};

verus! {

/// What `str::to_lowercase` gives for `s`.
pub uninterp spec fn lower_of(s: Seq<char>) -> Seq<char>;

/// Relies on `str::to_lowercase`: the lower-case form of `s`, which depends
/// on its characters alone.
#[verifier::external_body]
fn lowercase(s: &str) -> (r: String)
    ensures
        r@ == lower_of(s@),
{
    s.to_lowercase()
}

/// The description line of phase `k` of the entry `id`.
pub open spec fn phase_name(id: Seq<char>, k: int) -> Seq<char> {
    id + seq!['_', 'p', 'h', 'a', 's', 'e', '_'] + seq![digit_char(k)]
}

pub open spec fn digit_char(k: int) -> char {
    if k == 0 {
        '0'
    } else if k == 1 {
        '1'
    } else if k == 2 {
        '2'
    } else if k == 3 {
        '3'
    } else if k == 4 {
        '4'
    } else {
        '5'
    }
}

/// The six records of a lower-case DNA sequence: phases 0 to 2 read the
/// sequence from offsets 0 to 2; phases 3 to 5 read its reverse complement
/// from offsets 3 to 5.
pub open spec fn six_records_of(id: Seq<char>, dna: Seq<char>) -> Seq<(Seq<char>, Seq<char>)> {
    Seq::new(
        6,
        |k: int|
            (
                phase_name(id, k),
                translation_of(
                    frame_of(if k < 3 { dna } else { reverse_complement_of(dna) }, k),
                ),
            ),
    )
}

/// The text of `recs` written one after the other.
pub open spec fn records_text(recs: Seq<(Seq<char>, Seq<char>)>, line_length: nat) -> Seq<char>
    decreases recs.len(),
{
    if recs.len() == 0 {
        seq![]
    } else {
        records_text(recs.drop_last(), line_length) + record_text(
            recs.last().0,
            recs.last().1,
            line_length,
        )
    }
}

fn phase_record(id: &str, dna: &str, k: usize) -> (r: FastaRecord)
    requires
        k < 6,
    ensures
        r@ == six_records_of(id@, dna@)[k as int],
{
    let mut name = String::new();
    let v = chars_of(id);
    append_chars(&mut name, &v, 0, v.len());
    push_char(&mut name, '_');
    push_char(&mut name, 'p');
    push_char(&mut name, 'h');
    push_char(&mut name, 'a');
    push_char(&mut name, 's');
    push_char(&mut name, 'e');
    push_char(&mut name, '_');
    let d = if k == 0 {
        '0'
    } else if k == 1 {
        '1'
    } else if k == 2 {
        '2'
    } else if k == 3 {
        '3'
    } else if k == 4 {
        '4'
    } else {
        '5'
    };
    push_char(&mut name, d);
    assert(v@.subrange(0, v@.len() as int) =~= v@);
    assert(name@ =~= phase_name(id@, k as int));
    let codons = if k < 3 {
        frame(dna, k)
    } else {
        let rc = reverse_complement(dna);
        frame(rc.as_str(), k)
    };
    let seq = translate(&codons);
    proof {
        let src = if k < 3 { dna@ } else { reverse_complement_of(dna@) };
        assert(codons@.map_values(|c: String| c@) =~= frame_of(src, k as int));
    }
    FastaRecord { descr_line: name, seq }
}

/// The six records of the lower-case DNA sequence `dna` of the entry `id`.
pub fn six_phase_records(id: &str, dna: &str) -> (r: Vec<FastaRecord>)
    ensures
        r@.len() == 6,
        forall|k: int| 0 <= k < 6 ==> #[trigger] r@[k]@ == six_records_of(id@, dna@)[k],
{
    let mut r: Vec<FastaRecord> = Vec::new();
    let mut k: usize = 0;
    while k < 6
        invariant
            k <= 6,
            r@.len() == k,
            forall|m: int| 0 <= m < k ==> #[trigger] r@[m]@ == six_records_of(id@, dna@)[m],
        decreases 6 - k,
    {
        r.push(phase_record(id, dna, k));
        k = k + 1;
    }
    r
}

/// Appends the text of `recs` to `out`.
pub fn write_records(recs: &Vec<FastaRecord>, format: &FastaFormat, out: &mut String)
    requires
        format.line_length > 0,
    ensures
        final(out)@ == old(out)@ + records_text(
            recs@.map_values(|x: FastaRecord| x@),
            format.line_length as nat,
        ),
{
    let mut k: usize = 0;
    while k < recs.len()
        invariant
            k <= recs@.len(),
            format.line_length > 0,
            out@ == old(out)@ + records_text(
                recs@.map_values(|x: FastaRecord| x@).subrange(0, k as int),
                format.line_length as nat,
            ),
        decreases recs@.len() - k,
    {
        recs[k].write(format, out);
        k = k + 1;
        assert(recs@.map_values(|x: FastaRecord| x@).subrange(0, k as int).drop_last() =~= recs@.map_values(
            |x: FastaRecord| x@,
        ).subrange(0, k - 1));
    }
    assert(recs@.map_values(|x: FastaRecord| x@).subrange(0, k as int) =~= recs@.map_values(
        |x: FastaRecord| x@,
    ));
}

/// Appends the six translated phases of `dna_str`, lower-cased, to `out`.
pub fn write_6_phases(fasta: &FastaFormat, id: &str, dna_str: &str, out: &mut String)
    requires
        fasta.line_length > 0,
    ensures
        final(out)@ == old(out)@ + records_text(
            six_records_of(id@, lower_of(dna_str@)),
            fasta.line_length as nat,
        ),
{
    let lc_dna = lowercase(dna_str);
    let recs = six_phase_records(id, lc_dna.as_str());
    write_records(&recs, fasta, out);
    assert(recs@.map_values(|x: FastaRecord| x@) =~= six_records_of(id@, lower_of(dna_str@)));
}

} // verus!

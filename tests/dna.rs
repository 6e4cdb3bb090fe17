use bio_streams::dna::{complement, frame, reverse_complement, translate};
use bio_streams::fasta::FastaFormat;
use bio_streams::six_frame::{six_phase_records, write_6_phases};

#[test]
fn complements_of_each_base() {
    assert_eq!(complement('a'), 't');
    assert_eq!(complement('c'), 'g');
    assert_eq!(complement('g'), 'c');
    assert_eq!(complement('t'), 'a');
    assert_eq!(complement('n'), 'n');
    assert_eq!(complement('A'), 'T');
    assert_eq!(complement('T'), 'A');
    assert_eq!(complement('x'), 'N');
}

#[test]
fn reverse_complement_reverses() {
    assert_eq!(reverse_complement("aacg"), "cgtt");
    assert_eq!(reverse_complement(""), "");
    assert_eq!(reverse_complement("AcX"), "NgT");
}

#[test]
fn frames_hold_whole_codons() {
    assert_eq!(frame("atgcatg", 0), vec!["atg", "cat"]);
    assert_eq!(frame("atgcatg", 1), vec!["tgc", "atg"]);
    assert_eq!(frame("atgcatg", 2), vec!["gca"]);
    assert_eq!(frame("at", 0), Vec::<String>::new());
    assert_eq!(frame("at", 5), Vec::<String>::new());
}

#[test]
fn translation_by_the_standard_code() {
    let codons: Vec<String> = ["atg", "ttt", "taa", "ggg", "tgg", "nnn", "ATG", "at"].iter().map(|c| c.to_string()).collect();
    assert_eq!(translate(&codons), "MF*GW***");
}

#[test]
fn six_phases_of_a_sequence() {
    let recs = six_phase_records("s", "atgaaatag");
    let names: Vec<&str> = recs.iter().map(|r| r.descr_line.as_str()).collect();
    assert_eq!(names, vec!["s_phase_0", "s_phase_1", "s_phase_2", "s_phase_3", "s_phase_4", "s_phase_5"]);
    assert_eq!(recs[0].seq, "MK*");
    assert_eq!(recs[1].seq, "*N");
    assert_eq!(recs[2].seq, "EI");
    // reverse complement: ctatttcat
    assert_eq!(recs[3].seq, "FH");
    assert_eq!(recs[4].seq, "F");
    assert_eq!(recs[5].seq, "S");
}

#[test]
fn six_phases_are_written_lower_cased() {
    let mut out = String::new();
    write_6_phases(&FastaFormat::new(), "id", "ATGAAATAG", &mut out);
    assert!(out.starts_with(">id_phase_0\nMK*\n>id_phase_1\n*N\n"));
    assert!(out.ends_with(">id_phase_5\nS\n"));
}

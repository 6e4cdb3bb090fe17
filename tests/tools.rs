use bio_streams::clip::{clip_point, clipped_record};
use bio_streams::embl::embl_fasta_record;
use bio_streams::fasta::{rejects, FastaRecord};
use bio_streams::gff3::GffRecord;
use bio_streams::stanza::LeadingColumns;

fn rec(seq: &str) -> FastaRecord {
    FastaRecord { descr_line: "r".to_string(), seq: seq.to_string() }
}

#[test]
fn sieve_rejects_short_long_and_all_n() {
    assert!(!rejects(&rec("acgt"), None, None, true));
    assert!(rejects(&rec("nNn"), None, None, true));
    assert!(!rejects(&rec("nNn"), None, None, false));
    assert!(rejects(&rec("acg"), Some(4), None, false));
    assert!(!rejects(&rec("acgt"), Some(4), Some(4), false));
    assert!(rejects(&rec("acgta"), None, Some(4), false));
    assert!(rejects(&rec(""), None, None, true));
}

#[test]
fn clip_is_the_greatest_end_of_features_from_the_first_base() {
    let gff: Vec<GffRecord> = [
        "a\ts\tt\t1\t10\t.\t+\t.\tk=v",
        "a\ts\tt\t1\t25\t.\t+\t.\tk=v",
        "a\ts\tt\t2\t99\t.\t+\t.\tk=v",
        "b\ts\tt\t1\t5\t.\t+\t.\tk=v",
    ]
    .iter()
    .map(|l| GffRecord::parse(l).unwrap())
    .collect();
    assert_eq!(clip_point(&gff, "a"), Some(25));
    assert_eq!(clip_point(&gff, "b"), Some(5));
    assert_eq!(clip_point(&gff, "c"), None);
}

#[test]
fn clipped_records_are_renamed_and_cut() {
    let r = clipped_record("seq", Some("more text"), "acgtacgt", 3);
    assert_eq!(r, FastaRecord { descr_line: "seq_clipped_3 more text".to_string(), seq: "tacgt".to_string() });
    let r = clipped_record("s", None, "ac", 120);
    assert_eq!(r, FastaRecord { descr_line: "s_clipped_120".to_string(), seq: String::new() });
}

#[test]
fn embl_entry_gives_a_fasta_record() {
    let entry = "ID   X56734; SV 1; linear; mRNA; STD; PLN; 1859 BP.\nXX\nDE   Trifolium repens mRNA\nDE   for non-cyanogenic beta-glucosidase\nXX\nSQ   Sequence 1859 BP; 609 A; 314 C; 355 G; 581 T; 0 other;\n     aaacaaacca aatatggatt ttattgtagc        60\n     catatttgct          70\n//\n";
    let lines: Vec<&str> = entry.lines().collect();
    let stanzas = LeadingColumns { tag_columns: 5, merge_tags: true }.stanzas(&lines);
    let r = embl_fasta_record(&stanzas).unwrap();
    assert_eq!(r.descr_line, "X56734 Trifolium repens mRNAfor non-cyanogenic beta-glucosidase");
    assert_eq!(r.seq, "aaacaaaccaaatatggattttattgtagccatatttgct");
}

#[test]
fn embl_entry_without_residues_gives_none() {
    let lines = vec!["ID   x;", "SQ   Sequence 0 BP;", "//"];
    let stanzas = LeadingColumns { tag_columns: 5, merge_tags: true }.stanzas(&lines);
    assert_eq!(embl_fasta_record(&stanzas), None);
}

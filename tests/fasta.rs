use bio_streams::fasta::{
    parse_fasta, parse_fasta_header, parse_fastas, FastaDescription, FastaFormat, FastaRecord,
};
use bio_streams::scan::{Expected, SyntaxError};

#[test]
fn test_parse_fasta_header() {
    let input = ">id descr\n";
    let output = "id descr".to_string();
    let (descr, used) = parse_fasta_header(input).unwrap();
    assert_eq!(descr, output);
    assert_eq!(&input[used..], "");
}

#[test]
fn test_parse_fasta_record() {
    let input = ">id descr\natgcatgcgtcgtatcgta\ngcgtcgatctgca\n>";
    let output = FastaRecord {
        descr_line: "id descr".to_string(),
        seq: "atgcatgcgtcgtatcgtagcgtcgatctgca".to_string(),
    };
    let rem = ">";
    let (rec, used) = parse_fasta(input).unwrap();
    assert_eq!(rec, output);
    assert_eq!(&input[used..], rem);
}

#[test]
fn test_parse_fasta_record_1() {
    let input = ">id descr\natgcatgcgtcgtatcgta\ngcgtcgatctgca\n";
    let output = FastaRecord {
        descr_line: "id descr".to_string(),
        seq: "atgcatgcgtcgtatcgtagcgtcgatctgca".to_string(),
    };
    let (recs, used) = parse_fastas(input);
    assert_eq!(&input[used..], "");
    assert_eq!(recs, vec![output]);
}

#[test]
fn several_records_and_crlf_line_ends() {
    let input = ">a one\r\nac gt\r\nTT\n>b\n\n>c\nx";
    let (recs, used) = parse_fastas(input);
    assert_eq!(used, input.chars().count());
    assert_eq!(
        recs,
        vec![
            FastaRecord { descr_line: "a one".to_string(), seq: "acgtTT".to_string() },
            FastaRecord { descr_line: "b".to_string(), seq: String::new() },
            FastaRecord { descr_line: "c".to_string(), seq: "x".to_string() },
        ]
    );
}

#[test]
fn text_before_the_first_header_reads_nothing() {
    let (recs, used) = parse_fastas("acgt\n>a\nc\n");
    assert!(recs.is_empty());
    assert_eq!(used, 0);
    assert_eq!(parse_fasta("acgt"), Err(SyntaxError { position: 0, expected: Expected::Header, committed: false }));
    assert_eq!(parse_fasta(">no line end"), Err(SyntaxError { position: 0, expected: Expected::Header, committed: false }));
}

#[test]
fn description_splits_at_the_first_space() {
    let d = FastaDescription::read("id some more words");
    assert_eq!(d.identifier, Some("id".to_string()));
    assert_eq!(d.description, Some("some more words".to_string()));
    let lone = FastaDescription::read("id");
    assert_eq!(lone, FastaDescription { identifier: Some("id".to_string()), description: None });
    let empty = FastaDescription::read("");
    assert_eq!(empty, FastaDescription { identifier: Some(String::new()), description: None });
}

#[test]
fn descr_line_joins_its_parts() {
    assert_eq!(FastaRecord::descr_line(Some("id"), Some("text")), "id text");
    assert_eq!(FastaRecord::descr_line(Some("id"), None), "id");
    assert_eq!(FastaRecord::descr_line(None, Some("text")), " text");
    assert_eq!(FastaRecord::descr_line(None, None), "");
}

#[test]
fn records_are_written_in_wrapped_lines() {
    let rec = FastaRecord { descr_line: "x y".to_string(), seq: "abcdefg".to_string() };
    let mut out = String::new();
    rec.write(&FastaFormat::new_with_line_length(3), &mut out);
    assert_eq!(out, ">x y\nabc\ndef\ng\n");
    let mut whole = String::from("start\n");
    rec.write(&FastaFormat::new(), &mut whole);
    assert_eq!(whole, "start\n>x y\nabcdefg\n");
    let empty = FastaRecord { descr_line: "e".to_string(), seq: String::new() };
    let mut out = String::new();
    empty.write(&FastaFormat::new(), &mut out);
    assert_eq!(out, ">e\n");
    assert_eq!(FastaFormat::new().line_length, 60);
}

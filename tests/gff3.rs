use bio_streams::gff3::{Attributes, GffParseError, GffRecord, OneBased, Phase, Score, Strand};

#[test]
fn one_based_positions() {
    let p = OneBased::new(7);
    assert_eq!(p.at(), 7);
    assert_eq!(OneBased::parse("42"), Ok(OneBased(42)));
    assert_eq!(OneBased::parse("+42"), Ok(OneBased(42)));
    assert!(OneBased::parse("-1").is_err());
    assert!(OneBased::parse("").is_err());
    assert!(OneBased::parse("18446744073709551616").is_err());
    assert_eq!(OneBased::parse("18446744073709551615"), Ok(OneBased(u64::MAX)));
}

#[test]
fn strands_and_phases() {
    assert_eq!(Strand::parse("+"), Ok(Strand::Positive));
    assert_eq!(Strand::parse("-"), Ok(Strand::Negative));
    assert_eq!(Strand::parse("."), Ok(Strand::NoStrand));
    assert_eq!(Strand::parse("?"), Ok(Strand::Unknown));
    assert!(Strand::parse("++").is_err());
    assert_eq!(Phase::parse("."), Ok(Phase(None)));
    assert_eq!(Phase::parse("2"), Ok(Phase(Some(2))));
    assert!(Phase::parse("256").is_err());
    assert!(Phase::parse("x").is_err());
}

#[test]
fn errors_name_the_input() {
    assert_eq!(GffParseError::new("m".to_string()), GffParseError("m".to_string()));
    assert_eq!(GffParseError::because("x", "it is bad"), GffParseError("in input `x` because it is bad".to_string()));
}

#[test]
fn attributes_keep_the_last_value_of_a_key() {
    let a = Attributes::parse("ID=g1;Name=abc;bare;ID=g2;x=1=2");
    assert_eq!(
        a,
        Attributes(vec![
            ("ID".to_string(), "g2".to_string()),
            ("Name".to_string(), "abc".to_string()),
            ("x".to_string(), "1".to_string()),
        ])
    );
    assert_eq!(Attributes::parse(""), Attributes(vec![]));
}

#[test]
fn records_read_all_nine_columns() {
    let line = "ctg1\tsrc\tgene\t1\t300\t.\t+\t0\tID=g1;Name=x\n";
    let g = GffRecord::parse(line).unwrap();
    assert_eq!(g.seq_id, "ctg1");
    assert_eq!(g.source, "src");
    assert_eq!(g.feature_type, "gene");
    assert_eq!(g.start, OneBased(1));
    assert_eq!(g.end, OneBased(300));
    assert_eq!(g.score, Score(None));
    assert_eq!(g.strand, Strand::Positive);
    assert_eq!(g.phase, Phase(Some(0)));
    assert_eq!(
        g.attributes,
        Attributes(vec![("ID".to_string(), "g1".to_string()), ("Name".to_string(), "x".to_string())])
    );
    let scored = GffRecord::parse("c\ts\tt\t2\t3\t0.5\t-\t.\tk=v").unwrap();
    assert_eq!(scored.score, Score(Some("0.5".to_string())));
}

#[test]
fn records_with_missing_or_bad_columns_fail() {
    assert_eq!(
        GffRecord::parse("c\ts\tt\t1\t2\t.\t+\t."),
        Err(GffParseError("No attributes column in c\ts\tt\t1\t2\t.\t+\t.".to_string()))
    );
    assert!(GffRecord::parse("c\ts\tt\tx\t2\t.\t+\t.\ta=b").is_err());
    assert!(GffRecord::parse("c\ts\tt\t1\t2\t.\t*\t.\ta=b").is_err());
    assert!(GffRecord::parse("").is_err());
}

use bio_streams::feature_table::{FtString, Qualifier, QualifierValue};
use bio_streams::location::{Between, Loc, LocOp, Local, Point, Position};
use bio_streams::scan::{Expected, SyntaxError};

fn err(position: usize, expected: Expected, committed: bool) -> SyntaxError {
    SyntaxError { position, expected, committed }
}

fn expect_qualifier(input: &str, expected: Qualifier) {
    match Qualifier::parse(input) {
        Ok((res, used)) => {
            assert_eq!(used, input.chars().count(), "Non-empty remaining input, parsed out {:?}", res);
            assert_eq!(res, expected, "Got result {:?} but expected {:?}", res, expected);
        }
        Err(e) => panic!("Problem: {:?}", e),
    }
}

fn expect_location(input: &str, expected: LocOp) {
    match LocOp::parse(input) {
        Ok((res, used)) => {
            assert_eq!(used, input.chars().count(), "Non-empty remaining input, parsed out {:?}", res);
            assert_eq!(res, expected, "Got result {:?} but expected {:?}", res, expected);
        }
        Err(e) => panic!("Problem: {:?}", e),
    }
}

#[test]
fn test_parse_qualifiers_from_spec() {
    expect_qualifier("/pseudo", Qualifier { name: FtString("pseudo".to_string()), value: None });

    expect_qualifier(
        "/citation=[1]",
        Qualifier {
            name: FtString("citation".to_string()),
            value: Some(QualifierValue::ReferenceNumber(1)),
        },
    );

    expect_qualifier(
        "/gene=\"arsC\"",
        Qualifier {
            name: FtString("gene".to_string()),
            value: Some(QualifierValue::QuotedText("arsC".to_string())),
        },
    );

    expect_qualifier(
        "/rpt_type=DISPERSED",
        Qualifier {
            name: FtString("rpt_type".to_string()),
            value: Some(QualifierValue::VocabularyTerm(FtString("DISPERSED".to_string()))),
        },
    );
}

#[test]
fn test_parse_locations_from_spec() {
    expect_location("467", LocOp::Loc(Loc::Local(Local::Point(Point(467)))));

    expect_location(
        "340..565",
        LocOp::Loc(Loc::Local(Local::Span {
            from: Position::Point(Point(340)),
            to: Position::Point(Point(565)),
            before_from: false,
            after_to: false,
        })),
    );

    expect_location(
        "<345..500",
        LocOp::Loc(Loc::Local(Local::Span {
            from: Position::Point(Point(345)),
            to: Position::Point(Point(500)),
            before_from: true,
            after_to: false,
        })),
    );

    expect_location(
        "<1..888",
        LocOp::Loc(Loc::Local(Local::Span {
            from: Position::Point(Point(1)),
            to: Position::Point(Point(888)),
            before_from: true,
            after_to: false,
        })),
    );

    expect_location(
        "1..>888",
        LocOp::Loc(Loc::Local(Local::Span {
            from: Position::Point(Point(1)),
            to: Position::Point(Point(888)),
            before_from: false,
            after_to: true,
        })),
    );

    expect_location(
        "102.110",
        LocOp::Loc(Loc::Local(Local::Within { from: Point(102), to: Point(110) })),
    );

    expect_location("123^124", LocOp::Loc(Loc::Local(Local::Between(Between(123, 124)))));

    expect_location("join(12..78)", LocOp::Join(vec![LocOp::Loc(Loc::Local(Local::span(12, 78)))]));

    expect_location(
        "join(12..78,134..202)",
        LocOp::Join(vec![
            LocOp::Loc(Loc::Local(Local::span(12, 78))),
            LocOp::Loc(Loc::Local(Local::span(134, 202))),
        ]),
    );

    expect_location(
        "complement(34..126)",
        LocOp::Complement(Box::new(LocOp::Loc(Loc::Local(Local::span(34, 126))))),
    );

    expect_location(
        "complement(join(2691..4571,4918..5163))",
        LocOp::Complement(Box::new(LocOp::Join(vec![
            LocOp::Loc(Loc::Local(Local::span(2691, 4571))),
            LocOp::Loc(Loc::Local(Local::span(4918, 5163))),
        ]))),
    );

    expect_location(
        "join(complement(4918..5163),complement(2691..4571))",
        LocOp::Join(vec![
            LocOp::Complement(Box::new(LocOp::Loc(Loc::Local(Local::span(4918, 5163))))),
            LocOp::Complement(Box::new(LocOp::Loc(Loc::Local(Local::span(2691, 4571))))),
        ]),
    );

    expect_location(
        "J00194.1:100..202",
        LocOp::Loc(Loc::Remote { within: String::from("J00194.1"), at: Local::span(100, 202) }),
    );

    expect_location(
        "join(1..100,J00194.1:100..202)",
        LocOp::Join(vec![
            LocOp::Loc(Loc::Local(Local::span(1, 100))),
            LocOp::Loc(Loc::Remote { within: String::from("J00194.1"), at: Local::span(100, 202) }),
        ]),
    );
}

#[test]
fn site_between_bases_is_not_read_as_a_point() {
    assert_eq!(Local::parse("123^124"), Ok((Local::Between(Between(123, 124)), 7)));
    assert_eq!(Local::parse("102.110"), Ok((Local::Within { from: Point(102), to: Point(110) }, 7)));
    assert_eq!(Local::parse("467"), Ok((Local::Point(Point(467)), 3)));
    assert_eq!(Position::parse("5^6"), Ok((Position::Between(Between(5, 6)), 3)));
    assert_eq!(Position::parse("5..6"), Ok((Position::Point(Point(5)), 1)));
    assert_eq!(Between::parse("5^"), Err(err(0, Expected::Site, false)));
    assert_eq!(Point::parse("42x"), Ok((Point(42), 2)));
    assert_eq!(Position::parse("^1"), Err(err(0, Expected::Position, false)));
    assert_eq!(Loc::parse("J1:x"), Err(err(0, Expected::Location, false)));
}

#[test]
fn fuzzy_ends_mark_only_the_span() {
    let both = Local::parse("<1..>9").unwrap().0;
    assert_eq!(
        both,
        Local::Span {
            from: Position::Point(Point(1)),
            to: Position::Point(Point(9)),
            before_from: true,
            after_to: true,
        }
    );
    // a site between bases is tried before a span, and wins
    assert_eq!(Local::parse("1^2..3^4"), Ok((Local::Between(Between(1, 2)), 3)));
    let from_site = Local::parse("<1..3^4").unwrap().0;
    assert_eq!(
        from_site,
        Local::Span {
            from: Position::Point(Point(1)),
            to: Position::Between(Between(3, 4)),
            before_from: true,
            after_to: false,
        }
    );
}

#[test]
fn nested_operators_stay_distinct() {
    let a = LocOp::parse("complement(join(2691..4571,4918..5163))").unwrap().0;
    let b = LocOp::parse("join(complement(4918..5163),complement(2691..4571))").unwrap().0;
    assert_ne!(a, b);
    let o = LocOp::parse("order(1..2,3..4)").unwrap().0;
    assert_eq!(
        o,
        LocOp::Order(vec![LocOp::Loc(Loc::Local(Local::span(1, 2))), LocOp::Loc(Loc::Local(Local::span(3, 4)))])
    );
}

#[test]
fn remote_reference_names_its_accession() {
    let (loc, used) = Loc::parse("J00194.1:100..202").unwrap();
    assert_eq!(used, 17);
    assert_eq!(loc, Loc::Remote { within: "J00194.1".to_string(), at: Local::span(100, 202) });
    let (plain, _) = Loc::parse("100..202").unwrap();
    assert_eq!(plain, Loc::Local(Local::span(100, 202)));
}

#[test]
fn failures_after_an_operator_keyword_are_committed() {
    assert_eq!(LocOp::parse("complement(x)"), Err(err(11, Expected::Location, true)));
    assert_eq!(LocOp::parse("join(1..2"), Err(err(9, Expected::ClosingParen, true)));
    assert_eq!(LocOp::parse("join()"), Err(err(5, Expected::Location, true)));
    assert_eq!(LocOp::parse("order(1..2,)"), Err(err(11, Expected::Location, true)));
    assert_eq!(LocOp::parse("join(1..2,complement(3..4x"), Err(err(25, Expected::ClosingParen, true)));
    assert_eq!(LocOp::parse("x"), Err(err(0, Expected::Location, false)));
    assert_eq!(LocOp::parse(""), Err(err(0, Expected::Location, false)));
}

#[test]
fn trailing_text_is_left_unread() {
    assert_eq!(LocOp::parse("12..34 rest").unwrap().1, 6);
    assert_eq!(LocOp::parse("join(1..2),x").unwrap().1, 10);
}

#[test]
fn coordinates_start_at_one() {
    assert_eq!(Point::parse("0"), Err(err(0, Expected::Number, false)));
    assert_eq!(LocOp::parse("0..5"), Err(err(0, Expected::Location, false)));
    assert_eq!(Local::parse("1..0"), Ok((Local::Point(Point(1)), 1)));
    assert_eq!(QualifierValue::parse("[0]"), Ok((QualifierValue::ReferenceNumber(0), 3)));
}

#[test]
fn numbers_beyond_u32_are_rejected() {
    assert_eq!(Point::parse("4294967295"), Ok((Point(4294967295), 10)));
    assert_eq!(Point::parse("4294967296"), Err(err(0, Expected::Number, false)));
}

#[test]
fn feature_names_follow_their_rules() {
    assert_eq!(FtString::parse("a_b-c'd*e"), Ok((FtString("a_b-c'd*e".to_string()), 9)));
    assert_eq!(FtString::parse("12345"), Err(err(0, Expected::Name, false)));
    assert_eq!(FtString::parse("abcdefghijklmnopqrstuvwxyz"), Ok((FtString("abcdefghijklmnopqrst".to_string()), 20)));
    assert_eq!(FtString::parse(""), Err(err(0, Expected::Name, false)));
}

#[test]
fn qualifier_values_of_each_kind() {
    assert_eq!(QualifierValue::parse("\"a b\""), Ok((QualifierValue::QuotedText("a b".to_string()), 5)));
    assert_eq!(QualifierValue::parse("[42]"), Ok((QualifierValue::ReferenceNumber(42), 4)));
    assert_eq!(
        QualifierValue::parse("term"),
        Ok((QualifierValue::VocabularyTerm(FtString("term".to_string())), 4))
    );
    assert_eq!(QualifierValue::parse("\"open"), Err(err(0, Expected::QualifierValue, false)));
    assert_eq!(
        Qualifier::parse("/note=\"unclosed"),
        Ok((Qualifier { name: FtString("note".to_string()), value: None }, 5))
    );
    assert_eq!(Qualifier::parse("pseudo"), Err(err(0, Expected::Qualifier, false)));
}

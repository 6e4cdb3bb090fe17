use bio_streams::stanza::{LeadingColumns, Stanza};

fn stanza(tag: Option<&str>, lines: &[&str]) -> Stanza {
    Stanza { tag: tag.map(|t| t.to_string()), lines: lines.iter().map(|l| l.to_string()).collect() }
}

#[test]
fn test_stanzas_non_merging() {
    let non_merging = LeadingColumns { tag_columns: 5, merge_tags: false };

    let input: Vec<&str> = r#"
s1   this
     is
     data
s2   and
     more
s3   here
"#
    .trim()
    .lines()
    .collect();

    let stanzas: Vec<Stanza> = non_merging.stanzas(&input);

    println!("Stanzas: {:?}", stanzas);
    assert_eq!(
        stanzas,
        vec![
            stanza(Some("s1"), &["this", "is", "data"]),
            stanza(Some("s2"), &["and", "more"]),
            stanza(Some("s3"), &["here"]),
        ]
    );
}

#[test]
fn four_line_scenario() {
    let cols = LeadingColumns { tag_columns: 5, merge_tags: false };
    let lines = vec!["s1   this", "     is", "     data", "s2   and"];
    assert_eq!(
        cols.stanzas(&lines),
        vec![stanza(Some("s1"), &["this", "is", "data"]), stanza(Some("s2"), &["and"])]
    );
}

#[test]
fn repeated_tags_merge_only_when_asked() {
    let lines = vec!["DE   one", "DE   two", "XX", "DE   three"];
    let merging = LeadingColumns { tag_columns: 5, merge_tags: true };
    assert_eq!(
        merging.stanzas(&lines),
        vec![stanza(Some("DE"), &["one", "two"]), stanza(Some("XX"), &[]), stanza(Some("DE"), &["three"])]
    );
    let separate = LeadingColumns { tag_columns: 5, merge_tags: false };
    assert_eq!(
        separate.stanzas(&lines),
        vec![
            stanza(Some("DE"), &["one"]),
            stanza(Some("DE"), &["two"]),
            stanza(Some("XX"), &[]),
            stanza(Some("DE"), &["three"]),
        ]
    );
}

#[test]
fn lines_before_any_tag_form_an_untagged_stanza() {
    let cols = LeadingColumns { tag_columns: 5, merge_tags: true };
    let lines = vec!["     loose", "", "ID   x"];
    assert_eq!(cols.stanzas(&lines), vec![stanza(None, &["loose"]), stanza(Some("ID"), &["x"])]);
}

#[test]
fn no_lines_give_no_stanzas() {
    let cols = LeadingColumns { tag_columns: 5, merge_tags: true };
    assert!(cols.stanzas(&Vec::new()).is_empty());
}

#[test]
fn tag_and_value_are_trimmed() {
    let cols = LeadingColumns { tag_columns: 5, merge_tags: false };
    assert_eq!(cols.tag_value("ID   abc  "), (Some("ID".to_string()), Some("abc".to_string())));
    assert_eq!(cols.tag_value("  ab"), (Some("ab".to_string()), None));
    assert_eq!(cols.tag_value("     \t "), (None, None));
    assert_eq!(cols.tag_value("SQ   "), (Some("SQ".to_string()), None));
}

#[test]
fn grouper_hands_out_a_stanza_when_the_next_one_opens() {
    let cols = LeadingColumns { tag_columns: 3, merge_tags: false };
    let mut g = cols.grouper();
    assert_eq!(g.push_line("a  1"), None);
    assert_eq!(g.push_line("   2"), None);
    assert_eq!(g.push_line("b  3"), Some(stanza(Some("a"), &["1", "2"])));
    assert_eq!(g.finish(), Some(stanza(Some("b"), &["3"])));
}

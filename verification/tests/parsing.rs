use kholles::date::{parse_date_str, Date};
use kholles::error::ParseError;
use kholles::types::{parse_proof, parse_week};

#[test]
fn parses_full_proof_document() {
    let text = "---\npid: 12\ntitle: Cauchy-Schwarz inequality\nnote: classic\nauthors: [alice, bob]\ndate: 03/10/2024\ntags: [algebra, inequality]\n---\nLet $u$ and $v$ be vectors.\n";
    let p = parse_proof(text).unwrap();
    assert_eq!(p.pid, 12);
    assert_eq!(p.title, "Cauchy-Schwarz inequality");
    assert_eq!(p.note, Some(String::from("classic")));
    assert_eq!(p.authors, vec![String::from("alice"), String::from("bob")]);
    assert_eq!(p.date, Date { year: 2024, month: 10, day: 3 });
    assert_eq!(p.tags, vec![String::from("algebra"), String::from("inequality")]);
    assert_eq!(p.content, "Let $u$ and $v$ be vectors.\n");
}

#[test]
fn proof_content_is_verbatim_without_trailing_newline() {
    let text = "---\npid: 1\ntitle: t\nauthors: []\ndate: 01/01/2024\ntags: []\n---\nbody";
    let p = parse_proof(text).unwrap();
    assert_eq!(p.content, "body");
    assert_eq!(p.authors, Vec::<String>::new());
    assert_eq!(p.note, None);
}

#[test]
fn proof_without_front_matter_is_rejected() {
    assert_eq!(parse_proof("just a body\n"), Err(ParseError::SchemaViolation));
    assert_eq!(parse_proof("---\npid: 1\ntitle: t\n"), Err(ParseError::SchemaViolation));
    assert_eq!(parse_proof(""), Err(ParseError::SchemaViolation));
}

#[test]
fn proof_missing_required_field_is_rejected() {
    let no_title = "---\npid: 1\nauthors: []\ndate: 01/01/2024\ntags: []\n---\nbody\n";
    assert_eq!(parse_proof(no_title), Err(ParseError::SchemaViolation));
    let no_pid = "---\ntitle: t\nauthors: []\ndate: 01/01/2024\ntags: []\n---\nbody\n";
    assert_eq!(parse_proof(no_pid), Err(ParseError::SchemaViolation));
}

#[test]
fn proof_with_duplicate_field_is_rejected() {
    let text = "---\npid: 1\npid: 2\ntitle: t\nauthors: []\ndate: 01/01/2024\ntags: []\n---\nbody\n";
    assert_eq!(parse_proof(text), Err(ParseError::SchemaViolation));
}

#[test]
fn proof_with_empty_title_is_rejected() {
    let text = "---\npid: 1\ntitle:\nauthors: []\ndate: 01/01/2024\ntags: []\n---\nbody\n";
    assert_eq!(parse_proof(text), Err(ParseError::SchemaViolation));
}

#[test]
fn proof_with_non_numeric_pid_is_rejected() {
    let text = "---\npid: seven\ntitle: t\nauthors: []\ndate: 01/01/2024\ntags: []\n---\nbody\n";
    assert_eq!(parse_proof(text), Err(ParseError::SchemaViolation));
}

#[test]
fn proof_with_overflowing_pid_is_rejected() {
    let text = "---\npid: 18446744073709551616\ntitle: t\nauthors: []\ndate: 01/01/2024\ntags: []\n---\nbody\n";
    assert_eq!(parse_proof(text), Err(ParseError::SchemaViolation));
    let max = "---\npid: 18446744073709551615\ntitle: t\nauthors: []\ndate: 01/01/2024\ntags: []\n---\nbody\n";
    assert_eq!(parse_proof(max).unwrap().pid, u64::MAX);
}

#[test]
fn proof_with_malformed_date_is_rejected() {
    let dashed = "---\npid: 1\ntitle: t\nauthors: []\ndate: 31-02/2024\ntags: []\n---\nbody\n";
    assert_eq!(parse_proof(dashed), Err(ParseError::DateFormatMismatch));
    let impossible = "---\npid: 1\ntitle: t\nauthors: []\ndate: 31/02/2024\ntags: []\n---\nbody\n";
    assert_eq!(parse_proof(impossible), Err(ParseError::DateFormatMismatch));
}

#[test]
fn date_format_is_fixed() {
    assert_eq!(parse_date_str("29/02/2024"), Some(Date { year: 2024, month: 2, day: 29 }));
    assert_eq!(parse_date_str("29/02/2023"), None);
    assert_eq!(parse_date_str("29/02/1900"), None);
    assert_eq!(parse_date_str("29/02/2000"), Some(Date { year: 2000, month: 2, day: 29 }));
    assert_eq!(parse_date_str("31/04/2024"), None);
    assert_eq!(parse_date_str("2024-10-03"), None);
    assert_eq!(parse_date_str("3/10/2024"), None);
    assert_eq!(parse_date_str("00/10/2024"), None);
    assert_eq!(parse_date_str("01/00/2024"), None);
}

#[test]
fn week_number_comes_from_stem_not_body() {
    let body = "number: 99\ndate: 14/10/2024\ndescription: week seven\nproofs: [1, 2, 3]\n";
    let w = parse_week(body, "07").unwrap();
    assert_eq!(w.number, 7);
    assert_eq!(w.date, Date { year: 2024, month: 10, day: 14 });
    assert_eq!(w.description, "week seven");
    assert_eq!(w.proofs, vec![1, 2, 3]);
}

#[test]
fn week_with_non_numeric_stem_is_rejected() {
    let body = "date: 14/10/2024\ndescription: d\nproofs: []\n";
    assert_eq!(parse_week(body, "abc"), Err(ParseError::InvalidIdentifier));
    assert_eq!(parse_week(body, ""), Err(ParseError::InvalidIdentifier));
    assert_eq!(parse_week(body, "0"), Err(ParseError::InvalidIdentifier));
    assert_eq!(parse_week(body, "256"), Err(ParseError::InvalidIdentifier));
}

#[test]
fn week_schema_violations_are_rejected() {
    assert_eq!(
        parse_week("date: 14/10/2024\nproofs: []\n", "1"),
        Err(ParseError::SchemaViolation)
    );
    assert_eq!(
        parse_week("date: 14/10/2024\ndescription: d\nproofs: 1, 2\n", "1"),
        Err(ParseError::SchemaViolation)
    );
    assert_eq!(
        parse_week("date: 14/10/2024\ndescription: d\nproofs: [one]\n", "1"),
        Err(ParseError::SchemaViolation)
    );
    assert_eq!(
        parse_week("date: 14-10-2024\ndescription: d\nproofs: []\n", "1"),
        Err(ParseError::DateFormatMismatch)
    );
}

#[test]
fn unknown_keys_are_ignored() {
    let text = "---\npid: 1\ntitle: t\nauthors: []\ndate: 01/01/2024\ntags: []\nextra: anything\n---\nbody\n";
    assert!(parse_proof(text).is_ok());
    let week = "date: 14/10/2024\ndescription: d\nproofs: []\nextra: anything\n";
    assert!(parse_week(week, "1").is_ok());
}

#[test]
fn blank_lines_in_a_block_are_skipped() {
    let text = "---\npid: 1\ntitle: t\n\nauthors: []\ndate: 01/01/2024\ntags: []\n---\nbody\n";
    let p = parse_proof(text).unwrap();
    assert_eq!(p.pid, 1);
}

#[test]
fn week_list_spacing_is_tolerated() {
    let body = "date: 14/10/2024\ndescription: d\nproofs: [ 4,5 , 6 ]\n";
    let w = parse_week(body, "3").unwrap();
    assert_eq!(w.proofs, vec![4, 5, 6]);
}

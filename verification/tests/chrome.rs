use gpm2op::chrome::{parse_export, rows_from_table, CsvRow};
use gpm2op::error::Error;

#[test]
fn parses_standard_export() {
    let rows = parse_export(
        "name,url,username,password,note\n\
         Example,https://example.com/login,jane@example.com,hunter2,my note\n\
         Empty,,,,\n\
         GitHub,https://github.com,jane,pw\n"
            .as_bytes(),
    )
    .unwrap();
    // The all-empty row is dropped.
    assert_eq!(rows.len(), 2);
    assert_eq!(rows[0].name, "Example");
    assert_eq!(rows[0].username, "jane@example.com");
    assert_eq!(rows[0].note, "my note");
    // Missing note column on the last row is fine.
    assert_eq!(rows[1].note, "");
}

#[test]
fn tolerates_missing_note_column() {
    let rows = parse_export("name,url,username,password\nX,https://x.com,u,p\n".as_bytes()).unwrap();
    assert_eq!(rows.len(), 1);
    assert_eq!(rows[0].password, "p");
}

#[test]
fn headers_are_matched_by_trimmed_lowercase_name_in_any_order() {
    let rows = parse_export(" Password ,NOTES,URL,Username\npw,n,https://a.com,bob\n".as_bytes()).unwrap();
    assert_eq!(rows.len(), 1);
    assert_eq!(rows[0].password, "pw");
    assert_eq!(rows[0].note, "n");
    assert_eq!(rows[0].url, "https://a.com");
    assert_eq!(rows[0].username, "bob");
    assert_eq!(rows[0].name, "");
}

#[test]
fn rows_without_url_or_username_are_dropped() {
    let headers = vec!["name".to_string(), "url".to_string(), "username".to_string()];
    let records = vec![
        vec!["a".to_string(), "  ".to_string(), " ".to_string()],
        vec!["b".to_string(), "".to_string(), "u".to_string()],
        vec!["c".to_string()],
    ];
    let rows = rows_from_table(&headers, &records);
    assert_eq!(rows.len(), 1);
    assert_eq!(rows[0].name, "b");
}

#[test]
fn the_last_of_duplicate_headers_wins_and_note_falls_back_to_notes() {
    let headers = vec![
        "url".to_string(),
        "URL".to_string(),
        "note".to_string(),
        "notes".to_string(),
    ];
    // The row is too short for the `note` column, so `notes` is not reached either.
    let short = vec![vec!["first".to_string(), "second".to_string()]];
    let rows = rows_from_table(&headers, &short);
    assert_eq!(rows[0].url, "second");
    assert_eq!(rows[0].note, "");
    let headers2 = vec!["url".to_string(), "notes".to_string()];
    let rows2 = rows_from_table(&headers2, &vec![vec!["x".to_string(), "from notes".to_string()]]);
    assert_eq!(rows2[0].note, "from notes");
}

#[test]
fn a_broken_record_reports_its_row_number() {
    match parse_export(b"name,url\nok,https://a.com\n\xff\xfe,x\n") {
        Err(Error::Csv(m)) => assert!(m.starts_with("row 2: "), "{m}"),
        other => panic!("unexpected: {other:?}"),
    }
}

#[test]
fn meaningful_rows_have_a_url_or_username() {
    let mut r = CsvRow::default();
    assert!(!r.is_meaningful());
    r.username = "\t".into();
    assert!(!r.is_meaningful());
    r.url = "x".into();
    assert!(r.is_meaningful());
}

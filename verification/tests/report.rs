use gpm2op::report::{intro_line, json_report, report_items, results_table, summary_line, table_rows};
use gpm2op::sync::{Outcome, OutcomeKind, Summary};
use serde_json::Value;

fn outcome(title: &str, host: &str, user: &str, result: OutcomeKind) -> Outcome {
    Outcome { title: title.into(), host: host.into(), username: user.into(), result }
}

#[test]
fn summary_lines_match_the_documented_output() {
    let mut s = Summary::default();
    s.planned = 12;
    assert_eq!(
        summary_line(&s, true),
        "Planned: 12 change(s) across the export (nothing was written)."
    );
    let mut s = Summary::default();
    s.created = 12;
    s.skipped_existing = 202;
    assert_eq!(
        summary_line(&s, false),
        "Done: 12 created, 0 updated, 0 unchanged, 202 left as-is, 0 failed."
    );
}

#[test]
fn intro_line_names_the_source_and_vault() {
    assert_eq!(
        intro_line(214, "GooglePasswords.csv", "Private", true),
        "Read 214 credential(s) from GooglePasswords.csv. Target vault: \"Private\" (dry run)."
    );
    assert_eq!(
        intro_line(0, "x.csv", "V", false),
        "Read 0 credential(s) from x.csv. Target vault: \"V\"."
    );
}

#[test]
fn table_rows_show_label_title_host_and_username() {
    assert!(table_rows(&vec![]).is_none());
    assert!(results_table(&vec![]).is_none());
    let os = vec![
        outcome("GitHub", "github.com", "jane", OutcomeKind::Planned("create")),
        outcome("X", "", "u", OutcomeKind::Failed("boom".into())),
    ];
    let rows = table_rows(&os).unwrap();
    assert_eq!(rows[0], vec!["would create", "GitHub", "github.com", "jane"]);
    assert_eq!(rows[1], vec!["failed: boom", "X", "", "u"]);
    let items = report_items(&os);
    assert_eq!(items[1], ("failed: boom".to_string(), "X".to_string(), "".to_string(), "u".to_string()));
    let table = results_table(&os).unwrap();
    assert!(table.contains("would create"));
    assert!(table.contains("Username"));
}

#[test]
fn json_report_has_items_and_summary() {
    let mut s = Summary::default();
    s.created = 1;
    s.skipped_existing = 2;
    let os = vec![outcome("A \"q\"", "a.com", "me", OutcomeKind::Created)];
    let expected = "{\n  \"items\": [\n    {\n      \"host\": \"a.com\",\n      \"result\": \"created\",\n      \"title\": \"A \\\"q\\\"\",\n      \"username\": \"me\"\n    }\n  ],\n  \"summary\": {\n    \"created\": 1,\n    \"failed\": 0,\n    \"planned\": 0,\n    \"skipped_existing\": 2,\n    \"unchanged\": 0,\n    \"updated\": 0\n  }\n}";
    assert_eq!(json_report(&os, &s), expected);
    assert_eq!(
        json_report(&vec![], &Summary::default()),
        "{\n  \"items\": [],\n  \"summary\": {\n    \"created\": 0,\n    \"failed\": 0,\n    \"planned\": 0,\n    \"skipped_existing\": 0,\n    \"unchanged\": 0,\n    \"updated\": 0\n  }\n}"
    );
}

fn pretty(os: &[Outcome], s: &Summary) -> String {
    let items: Vec<Value> = os
        .iter()
        .map(|o| {
            let mut m = serde_json::Map::new();
            m.insert("result".into(), Value::String(gpm2op::report::label(&o.result)));
            m.insert("title".into(), Value::String(o.title.clone()));
            m.insert("host".into(), Value::String(o.host.clone()));
            m.insert("username".into(), Value::String(o.username.clone()));
            Value::Object(m)
        })
        .collect();
    let mut sm = serde_json::Map::new();
    sm.insert("created".into(), Value::from(s.created));
    sm.insert("updated".into(), Value::from(s.updated));
    sm.insert("unchanged".into(), Value::from(s.unchanged));
    sm.insert("skipped_existing".into(), Value::from(s.skipped_existing));
    sm.insert("failed".into(), Value::from(s.failed));
    sm.insert("planned".into(), Value::from(s.planned));
    let mut doc = serde_json::Map::new();
    doc.insert("summary".into(), Value::Object(sm));
    doc.insert("items".into(), Value::Array(items));
    serde_json::to_string_pretty(&Value::Object(doc)).unwrap()
}

#[test]
fn json_report_reads_as_serde_json_writes_it() {
    let mut s = Summary::default();
    s.updated = 3;
    s.failed = 12;
    let os = vec![
        outcome("T\u{1}\n", "h", "", OutcomeKind::Unchanged),
        outcome("ü", "x.org", "Bob", OutcomeKind::Planned("skip")),
    ];
    assert_eq!(json_report(&os, &s), pretty(&os, &s));
    assert_eq!(json_report(&vec![], &s), pretty(&[], &s));
}

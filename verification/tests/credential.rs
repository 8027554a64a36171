use gpm2op::chrome::CsvRow;
use gpm2op::credential::{
    credentials_from_rows, host_from_parse, host_of, strip_www_prefix, Credential,
};

#[test]
fn normalizes_hosts() {
    assert_eq!(
        host_of("https://www.Example.com/login").as_deref(),
        Some("example.com")
    );
    assert_eq!(host_of("http://github.com").as_deref(), Some("github.com"));
    assert_eq!(host_of("example.org").as_deref(), Some("example.org"));
    assert_eq!(host_of("").as_deref(), None);
}

#[test]
fn template_includes_url_and_omits_empty_note() {
    let c = Credential {
        title: "Example".into(),
        url: "https://example.com".into(),
        username: "jane".into(),
        password: "pw".into(),
        note: "".into(),
    };
    let t = c.create_template();
    assert!(t.contains("\"category\":\"LOGIN\""));
    assert!(t.contains("example.com"));
    assert!(!t.contains("notesPlain"));
}

#[test]
fn identity_is_host_and_lower_username() {
    let c = Credential {
        title: "X".into(),
        url: "https://WWW.Site.com".into(),
        username: "Jane@Example.com".into(),
        password: "p".into(),
        note: "".into(),
    };
    assert_eq!(
        c.identity(),
        ("site.com".to_string(), "jane@example.com".to_string())
    );
}

#[test]
fn host_of_trims_and_handles_blank_and_hostless_values() {
    assert_eq!(host_of("   ").as_deref(), None);
    assert_eq!(host_of("  https://Mail.Google.com/x  ").as_deref(), Some("mail.google.com"));
    assert_eq!(host_of("mailto:jane@example.com").as_deref(), None);
    assert_eq!(host_of("WWW.Bank.example").as_deref(), Some("bank.example"));
    // Only one leading `www.` is stripped.
    assert_eq!(host_of("https://www.www.example.com").as_deref(), Some("www.example.com"));
}

#[test]
fn host_from_parse_normalizes_the_parsed_host() {
    assert_eq!(host_from_parse(None), None);
    assert_eq!(host_from_parse(Some(None)), None);
    assert_eq!(
        host_from_parse(Some(Some("WWW.Example.COM".to_string()))).as_deref(),
        Some("example.com")
    );
    assert_eq!(strip_www_prefix("www."), "");
    assert_eq!(strip_www_prefix("ww.x"), "ww.x");
}

#[test]
fn identity_of_hostless_credential_has_empty_host() {
    let c = Credential {
        title: "X".into(),
        url: "".into(),
        username: "ÅSA".into(),
        password: "p".into(),
        note: "".into(),
    };
    assert_eq!(c.host(), None);
    assert_eq!(c.identity(), (String::new(), "åsa".to_string()));
}

#[test]
fn credential_from_row_trims_and_picks_a_title() {
    let row = CsvRow {
        name: "  ".into(),
        url: " https://www.github.com/login ".into(),
        username: " jane ".into(),
        password: " secret ".into(),
        note: " hello ".into(),
    };
    let c = Credential::from(row);
    assert_eq!(c.title, "github.com");
    assert_eq!(c.url, "https://www.github.com/login");
    assert_eq!(c.username, "jane");
    assert_eq!(c.password, " secret ");
    assert_eq!(c.note, "hello");

    let named = Credential::from(CsvRow {
        name: " My Bank ".into(),
        url: "https://bank.example".into(),
        username: "u".into(),
        password: "p".into(),
        note: "".into(),
    });
    assert_eq!(named.title, "My Bank");

    let untitled = Credential::from(CsvRow {
        name: "".into(),
        url: "".into(),
        username: "u".into(),
        password: "p".into(),
        note: "".into(),
    });
    assert_eq!(untitled.title, "Untitled Login");
}

#[test]
fn template_has_exact_shape_and_escapes_strings() {
    let c = Credential {
        title: "A \"quoted\" title".into(),
        url: "https://example.com".into(),
        username: "jane\\doe".into(),
        password: "p\nw\u{1}".into(),
        note: "line".into(),
    };
    assert_eq!(
        c.create_template(),
        "{\"category\":\"LOGIN\",\"fields\":[\
         {\"id\":\"username\",\"label\":\"username\",\"purpose\":\"USERNAME\",\"type\":\"STRING\",\"value\":\"jane\\\\doe\"},\
         {\"id\":\"password\",\"label\":\"password\",\"purpose\":\"PASSWORD\",\"type\":\"CONCEALED\",\"value\":\"p\\nw\\u0001\"},\
         {\"id\":\"notesPlain\",\"label\":\"notesPlain\",\"purpose\":\"NOTES\",\"type\":\"STRING\",\"value\":\"line\"}],\
         \"title\":\"A \\\"quoted\\\" title\",\
         \"urls\":[{\"href\":\"https://example.com\",\"label\":\"website\",\"primary\":true}]}"
    );
}

#[test]
fn template_without_url_has_no_urls() {
    let c = Credential {
        title: "T".into(),
        url: "".into(),
        username: "u".into(),
        password: "p".into(),
        note: "n".into(),
    };
    let t = c.create_template();
    assert!(!t.contains("urls"));
    assert!(t.contains("notesPlain"));
    assert!(t.ends_with("\"title\":\"T\"}"));
}

#[test]
fn credentials_from_rows_is_none_only_for_an_empty_export() {
    assert!(credentials_from_rows(&vec![]).is_none());
    let rows = vec![
        CsvRow {
            name: " ".into(),
            url: "https://www.a.com".into(),
            username: " u ".into(),
            password: " p ".into(),
            note: "".into(),
        },
        CsvRow {
            name: "".into(),
            url: "".into(),
            username: "v".into(),
            password: "q".into(),
            note: " n ".into(),
        },
    ];
    let creds = credentials_from_rows(&rows).unwrap();
    assert_eq!(creds.len(), 2);
    assert_eq!(creds[0].title, "a.com");
    assert_eq!(creds[0].username, "u");
    assert_eq!(creds[0].password, " p ");
    assert_eq!(creds[1].title, "Untitled Login");
    assert_eq!(creds[1].note, "n");
}

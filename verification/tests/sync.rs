use gpm2op::credential::Credential;
use gpm2op::error::Error;
use gpm2op::op::{OpField, OpItem, OpUrl};
use gpm2op::report::label;
use gpm2op::sync::{
    dedupe, execute, plan, run, short, sync_epilogue, update_password, update_step, Action, Index,
    OnConflict, OutcomeKind, PasswordUpdate, Summary, UpdateStep, WorkResult,
};

fn login(id: &str, host: &str, user: &str) -> OpItem {
    OpItem {
        id: id.into(),
        additional_information: Some(user.into()),
        urls: vec![OpUrl {
            href: format!("https://{host}"),
        }],
        fields: vec![],
    }
}

fn cred(host: &str, user: &str, pw: &str) -> Credential {
    Credential {
        title: host.into(),
        url: format!("https://{host}"),
        username: user.into(),
        password: pw.into(),
        note: "".into(),
    }
}

#[test]
fn creates_when_absent_skips_when_present() {
    let existing = vec![login("id1", "github.com", "jane")];
    let index = Index::build(&existing);
    let creds = vec![
        cred("github.com", "jane", "pw"), // exists
        cred("gitlab.com", "jane", "pw"), // new
    ];
    let planned = plan(&creds, &index, OnConflict::Skip);
    assert!(matches!(planned[0].1, Action::SkipExisting { .. }));
    assert_eq!(planned[1].1, Action::Create);
}

#[test]
fn same_host_different_user_creates() {
    let existing = vec![login("id1", "github.com", "jane")];
    let index = Index::build(&existing);
    let creds = vec![cred("github.com", "bob", "pw")];
    let planned = plan(&creds, &index, OnConflict::Skip);
    assert_eq!(planned[0].1, Action::Create);
}

#[test]
fn update_mode_targets_existing() {
    let existing = vec![login("id1", "github.com", "jane")];
    let index = Index::build(&existing);
    let creds = vec![cred("github.com", "jane", "newpw")];
    let planned = plan(&creds, &index, OnConflict::Update);
    assert_eq!(planned[0].1, Action::UpdatePassword { id: "id1".into() });
}

#[test]
fn dedupe_keeps_last() {
    let creds = vec![
        cred("x.com", "u", "old"),
        cred("x.com", "u", "new"),
        cred("y.com", "u", "z"),
    ];
    let out = dedupe(creds);
    assert_eq!(out.len(), 2);
    let x = out
        .iter()
        .find(|c| c.host().as_deref() == Some("x.com"))
        .unwrap();
    assert_eq!(x.password, "new");
}

#[test]
fn dedupe_keeps_first_position_and_is_idempotent() {
    let creds = vec![
        cred("a.com", "U", "1"),
        cred("b.com", "u", "2"),
        cred("www.A.com", "u", "3"),
    ];
    let once = dedupe(creds);
    let passwords: Vec<&str> = once.iter().map(|c| c.password.as_str()).collect();
    assert_eq!(passwords, vec!["3", "2"]);
    let twice = dedupe(once.clone());
    let again: Vec<&str> = twice.iter().map(|c| c.password.as_str()).collect();
    assert_eq!(again, passwords);
}

#[test]
fn matching_ignores_case_and_www_and_uses_a_lone_login_for_an_empty_username() {
    let existing = vec![login("id1", "WWW.GitHub.com", "Jane"), login("id2", "solo.com", "someone")];
    let index = Index::build(&existing);
    let creds = vec![
        cred("github.com", "JANE", "pw"),
        cred("solo.com", "", "pw"),
        cred("github.com", "", "pw"),
    ];
    let planned = plan(&creds, &index, OnConflict::Skip);
    assert_eq!(planned[0].1, Action::SkipExisting { id: "id1".into() });
    assert_eq!(planned[1].1, Action::SkipExisting { id: "id2".into() });
    // One login on the host, but the username is empty: it matches that one.
    assert_eq!(planned[2].1, Action::SkipExisting { id: "id1".into() });
}

#[test]
fn username_field_is_preferred_and_empty_usernames_count_as_none() {
    let item = OpItem {
        id: "i".into(),
        additional_information: Some("listed".into()),
        urls: vec![],
        fields: vec![
            OpField { purpose: Some("PASSWORD".into()), value: Some("x".into()) },
            OpField { purpose: Some("USERNAME".into()), value: Some("field-user".into()) },
            OpField { purpose: Some("USERNAME".into()), value: Some("second".into()) },
        ],
    };
    assert_eq!(item.username(), Some("field-user"));
    let no_value = OpItem {
        id: "i".into(),
        additional_information: Some("listed".into()),
        urls: vec![],
        fields: vec![OpField { purpose: Some("USERNAME".into()), value: None }],
    };
    assert_eq!(no_value.username(), Some("listed"));
    let empty = OpItem { id: "i".into(), additional_information: Some("".into()), urls: vec![], fields: vec![] };
    assert_eq!(empty.username(), None);
}

#[test]
fn second_run_creates_nothing() {
    let existing = vec![login("id1", "github.com", "jane")];
    let creds = vec![cred("github.com", "jane", "pw"), cred("gitlab.com", "Bob", "pw")];
    let planned = plan(&dedupe(creds.clone()), &Index::build(&existing), OnConflict::Skip);
    assert_eq!(planned[1].1, Action::Create);
    let mut after = existing.clone();
    after.push(OpItem {
        id: "new".into(),
        additional_information: Some("Bob".into()),
        urls: vec![OpUrl { href: "https://gitlab.com".into() }],
        fields: vec![],
    });
    let again = plan(&dedupe(creds), &Index::build(&after), OnConflict::Skip);
    assert!(again.iter().all(|(_, a)| *a != Action::Create));
}

#[test]
fn dry_run_reports_every_plan_and_counts_it() {
    let existing = vec![login("id1", "github.com", "jane")];
    let creds = vec![cred("github.com", "jane", "pw"), cred("gitlab.com", "jane", "pw")];
    let state = run(&existing, creds, OnConflict::Update, true);
    assert!(state.pending().is_none());
    let (outcomes, summary) = state.finish();
    assert_eq!(outcomes.len(), 2);
    assert_eq!(label(&outcomes[0].result), "would update");
    assert_eq!(label(&outcomes[1].result), "would create");
    assert_eq!(outcomes[1].host, "gitlab.com");
    assert_eq!(summary.planned, 2);
    assert_eq!(summary.created, 0);
}

#[test]
fn live_run_records_each_result() {
    let existing = vec![login("id1", "github.com", "jane"), login("id2", "x.com", "u")];
    let creds = vec![
        cred("github.com", "jane", "pw"),
        cred("gitlab.com", "jane", "pw"),
        cred("x.com", "u", "pw"),
        cred("new.com", "u", "pw"),
    ];
    let mut state = run(&existing, creds, OnConflict::Update, false);
    let mut seen = Vec::new();
    let works = vec![
        WorkResult::Done(false),
        WorkResult::Done(true),
        WorkResult::Done(true),
        WorkResult::Failed(Error::Op("boom\nmore".into())),
    ];
    for w in works {
        let (_, action) = state.pending().expect("pending action");
        seen.push(action.clone());
        state.record(w);
    }
    assert!(state.pending().is_none());
    let (outcomes, summary) = state.finish();
    assert_eq!(seen[0], Action::UpdatePassword { id: "id1".into() });
    assert_eq!(outcomes[0].result, OutcomeKind::Unchanged);
    assert_eq!(outcomes[1].result, OutcomeKind::Created);
    assert_eq!(outcomes[2].result, OutcomeKind::Updated);
    assert_eq!(outcomes[3].result, OutcomeKind::Failed("`op` reported an error:".into()));
    assert_eq!(summary.unchanged, 1);
    assert_eq!(summary.created, 1);
    assert_eq!(summary.updated, 1);
    assert_eq!(summary.failed, 1);
    assert_eq!(summary.planned, 0);
}

#[test]
fn execute_counts_skips_and_failures() {
    let mut summary = Summary::default();
    let k = execute(&Action::SkipExisting { id: "i".into() }, WorkResult::Done(true), &mut summary);
    assert_eq!(k, OutcomeKind::SkippedExisting);
    let k = execute(&Action::Create, WorkResult::Failed(Error::OpMissing), &mut summary);
    assert_eq!(
        k,
        OutcomeKind::Failed("the 1Password CLI (`op`) is not installed or not on PATH.".into())
    );
    assert_eq!(summary.skipped_existing, 1);
    assert_eq!(summary.failed, 1);
}

#[test]
fn short_takes_the_first_line() {
    assert_eq!(short(&Error::Parse("a\r\nb".into())), "could not parse `op` output: a");
    assert_eq!(short(&Error::Io("x\r".into())), "i/o error: x\r");
    assert_eq!(short(&Error::Spawn("".into())), "could not run `op`: ");
    assert_eq!(short(&Error::Update("u".into())), "self-update failed: u");
    assert_eq!(short(&Error::Csv("\nrest".into())), "could not read the CSV export: ");
    assert_eq!(
        short(&Error::OpNotSignedIn),
        "1Password CLI isn't signed in for this shell."
    );
}

#[test]
fn labels() {
    assert_eq!(label(&OutcomeKind::Created), "created");
    assert_eq!(label(&OutcomeKind::Updated), "updated");
    assert_eq!(label(&OutcomeKind::Unchanged), "unchanged");
    assert_eq!(label(&OutcomeKind::SkippedExisting), "exists");
    assert_eq!(label(&OutcomeKind::Failed("x".into())), "failed: x");
    assert_eq!(label(&OutcomeKind::Planned("skip")), "would skip");
}

#[test]
fn update_password_rewrites_only_when_needed() {
    let c = cred("a.com", "u", "new");
    assert!(matches!(update_password(None, &c), Err(Error::Parse(m)) if m == "item has no fields array"));
    let fields = vec![
        OpField { purpose: Some("USERNAME".into()), value: Some("u".into()) },
        OpField { purpose: Some("PASSWORD".into()), value: Some("old".into()) },
        OpField { purpose: None, value: None },
        OpField { purpose: Some("PASSWORD".into()), value: None },
    ];
    assert_eq!(update_password(Some(&fields), &c).unwrap(), PasswordUpdate::Rewrite(vec![1, 3]));
    let same = vec![
        OpField { purpose: Some("PASSWORD".into()), value: Some("old".into()) },
        OpField { purpose: Some("PASSWORD".into()), value: Some("new".into()) },
    ];
    assert_eq!(update_password(Some(&same), &c).unwrap(), PasswordUpdate::Unchanged);
    let none: Vec<OpField> = vec![OpField { purpose: Some("NOTES".into()), value: Some("new".into()) }];
    assert_eq!(update_password(Some(&none), &c).unwrap(), PasswordUpdate::Unchanged);
}

fn created(id: &str, c: &Credential) -> OpItem {
    OpItem {
        id: id.into(),
        additional_information: Some(c.username.clone()),
        urls: if c.url.is_empty() { vec![] } else { vec![OpUrl { href: c.url.clone() }] },
        fields: vec![],
    }
}

#[test]
fn dry_run_counts_only_changes() {
    let existing = vec![login("id1", "github.com", "jane")];
    let creds = vec![cred("github.com", "jane", "pw"), cred("gitlab.com", "jane", "pw")];
    let state = run(&existing, creds, OnConflict::Skip, true);
    let (outcomes, summary) = state.finish();
    assert_eq!(label(&outcomes[0].result), "would skip");
    assert_eq!(label(&outcomes[1].result), "would create");
    assert_eq!(summary.planned, 1);
    assert_eq!(summary.skipped_existing, 0);
}

#[test]
fn credentials_without_a_host_are_never_matched() {
    let no_url = Credential {
        title: "Router".into(),
        url: "".into(),
        username: "admin".into(),
        password: "pw".into(),
        note: "".into(),
    };
    let no_host = Credential {
        title: "Mail".into(),
        url: " mailto:me ".into(),
        username: "me".into(),
        password: "pw".into(),
        note: "".into(),
    };
    assert_eq!(no_url.host(), None);
    assert_eq!(no_host.host(), None);
    let existing = vec![created("r", &no_url), created("m", &no_host)];
    let planned = plan(&[no_url, no_host], &Index::build(&existing), OnConflict::Skip);
    assert_eq!(planned[0].1, Action::Create);
    assert_eq!(planned[1].1, Action::Create);
}

#[test]
fn lone_login_match_holds_on_the_second_run_until_a_second_login_appears() {
    let existing = vec![login("id1", "solo.com", "someone")];
    let creds = vec![cred("solo.com", "", "pw")];
    let first = plan(&dedupe(creds.clone()), &Index::build(&existing), OnConflict::Skip);
    assert_eq!(first[0].1, Action::SkipExisting { id: "id1".into() });
    let again = plan(&dedupe(creds.clone()), &Index::build(&existing), OnConflict::Skip);
    assert_eq!(again[0].1, Action::SkipExisting { id: "id1".into() });
    let mut two = existing.clone();
    two.push(login("id2", "solo.com", "other"));
    let third = plan(&dedupe(creds), &Index::build(&two), OnConflict::Skip);
    assert_eq!(third[0].1, Action::Create);
}

#[test]
fn update_step_finishes_or_writes() {
    let c = cred("a.com", "u", "new");
    assert!(matches!(
        update_step(None, &c),
        UpdateStep::Finished(WorkResult::Failed(Error::Parse(m))) if m == "item has no fields array"
    ));
    let old = vec![OpField { purpose: Some("PASSWORD".into()), value: Some("old".into()) }];
    assert!(matches!(update_step(Some(&old), &c), UpdateStep::Write(ix) if ix == vec![0]));
    let same = vec![OpField { purpose: Some("PASSWORD".into()), value: Some("new".into()) }];
    assert!(matches!(update_step(Some(&same), &c), UpdateStep::Finished(WorkResult::Done(false))));
}

#[test]
fn second_update_run_changes_nothing() {
    let existing = vec![login("id1", "github.com", "jane"), login("id2", "x.com", "u")];
    let creds = vec![cred("github.com", "jane", "pw1"), cred("x.com", "u", "pw2")];
    let mut state = run(&existing, creds, OnConflict::Update, false);
    while let Some((c, action)) = state.pending() {
        assert!(matches!(action, Action::UpdatePassword { .. }));
        let fields = vec![OpField { purpose: Some("PASSWORD".into()), value: Some(c.password.clone()) }];
        let work = match update_step(Some(&fields), c) {
            UpdateStep::Finished(w) => w,
            UpdateStep::Write(_) => panic!("nothing should be written"),
        };
        state.record(work);
    }
    let (outcomes, summary) = state.finish();
    assert!(outcomes.iter().all(|o| o.result == OutcomeKind::Unchanged));
    assert_eq!(summary.unchanged, 2);
    assert_eq!(summary.updated + summary.created + summary.failed, 0);
}

#[test]
fn epilogue_reminds_after_any_create_and_fails_on_failures() {
    let mut s = Summary::default();
    let e = sync_epilogue(false, false, false, &s);
    assert!(!e.table && !e.reminder && !e.failure);
    s.created = 1;
    let e = sync_epilogue(false, true, true, &s);
    assert!(!e.table && e.reminder && !e.failure);
    s.failed = 2;
    let e = sync_epilogue(false, false, true, &s);
    assert!(e.table && e.reminder && e.failure);
    let e = sync_epilogue(true, false, false, &Summary::default());
    assert!(e.table && !e.reminder && !e.failure);
}

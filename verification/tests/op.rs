use gpm2op::error::Error;
use gpm2op::op::{op_failure, Op};

#[test]
fn command_lines_put_the_account_first_and_no_secret_anywhere() {
    let op = Op::new(Some("me@example.com".into()));
    assert_eq!(op.base_args(), vec!["--account", "me@example.com"]);
    assert_eq!(
        op.create_login_command("Private"),
        vec!["--account", "me@example.com", "item", "create", "--vault", "Private", "--format", "json", "-"]
    );
    let plain = Op::new(None);
    assert!(plain.base_args().is_empty());
    assert_eq!(plain.preflight_command(), vec!["whoami", "--format", "json"]);
    assert_eq!(
        plain.list_logins_command("V"),
        vec!["item", "list", "--categories", "Login", "--vault", "V", "--format", "json"]
    );
    assert_eq!(
        plain.get_item_command("abc"),
        vec!["item", "get", "abc", "--reveal", "--format", "json"]
    );
    assert_eq!(
        plain.edit_item_command("abc", "/tmp/t.json"),
        vec!["item", "edit", "abc", "--template", "/tmp/t.json"]
    );
}

#[test]
fn failures_are_read_from_stderr() {
    assert!(matches!(op_failure("  [ERROR] You are NOT currently signed in \n"), Error::OpNotSignedIn));
    assert!(matches!(op_failure("No Account found"), Error::OpNotSignedIn));
    match op_failure("  vault not found \n") {
        Error::Op(m) => assert_eq!(m, "vault not found"),
        other => panic!("unexpected: {other:?}"),
    }
}

#[test]
fn classify_failure_reads_the_lowercased_text() {
    assert!(matches!(
        gpm2op::op::classify_failure("You are not signed in".into(), "you are not signed in"),
        Error::OpNotSignedIn
    ));
    match gpm2op::op::classify_failure("Item Not Found".into(), "item not found") {
        Error::Op(m) => assert_eq!(m, "Item Not Found"),
        other => panic!("unexpected: {other:?}"),
    }
}

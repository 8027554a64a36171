//! The items of the 1Password `op` CLI, and the command lines and failure
//! readings around it.
//!
//! Every item write goes through a JSON template on stdin (create) or in a
//! `0600` temp file (edit), never through assignment arguments: the command
//! lines built here hold the account, the vault, an item id and a file path,
//! and nothing taken from a credential.

use vstd::prelude::*;
use crate::error::Error;
use crate::text::{has_substring, lowercase, contains, string_of, to_lowercase, trim, trim_seq};

verus! {

/// An item as returned by `op item list`/`op item get` (the subset we use).
#[derive(Debug, Clone)]
pub struct OpItem {
    pub id: String,
    /// For logins this is typically the username (from `op item list`).
    pub additional_information: Option<String>,
    pub urls: Vec<OpUrl>,
    /// Populated by `op item get` (not by `item list`).
    pub fields: Vec<OpField>,
}

#[derive(Debug, Clone)]
pub struct OpUrl {
    pub href: String,
}

#[derive(Debug, Clone)]
pub struct OpField {
    pub purpose: Option<String>,
    pub value: Option<String>,
}

/// The field holds the login's username.
pub open spec fn is_username_field(f: OpField) -> bool {
    f.purpose.deep_view() == Some("USERNAME"@)
}

/// The position of the first username field, if any.
pub open spec fn username_field(fields: Seq<OpField>) -> Option<int>
    decreases fields.len(),
{
    if fields.len() == 0 {
        None
    } else {
        match username_field(fields.drop_last()) {
            Some(k) => Some(k),
            None => if is_username_field(fields.last()) {
                Some(fields.len() - 1)
            } else {
                None
            },
        }
    }
}

/// The username of a login: the value of its first username field, else its
/// `additional_information`; an empty one counts as none.
pub open spec fn item_username(it: OpItem) -> Option<Seq<char>> {
    let from_field = match username_field(it.fields@) {
        Some(k) => it.fields@[k].value.deep_view(),
        None => None,
    };
    let chosen = match from_field {
        Some(u) => Some(u),
        None => it.additional_information.deep_view(),
    };
    match chosen {
        Some(u) => if u.len() == 0 {
            None
        } else {
            Some(u)
        },
        None => None,
    }
}

fn str_eq(a: &str, b: &str) -> (r: bool)
    ensures
        r == (a@ == b@),
{
    string_of(a) == string_of(b)
}

impl OpItem {
    /// The username for a login, preferring an explicit USERNAME field, then
    /// the list-view `additional_information`.
    pub fn username(&self) -> (r: Option<&str>)
        ensures
            r.deep_view() == item_username(*self),
    {
        let mut found: Option<usize> = None;
        let mut k: usize = 0;
        while k < self.fields.len()
            invariant
                k <= self.fields.len(),
                match found {
                    Some(j) => j < k && username_field(self.fields@.take(k as int)) == Some(j as int),
                    None => username_field(self.fields@.take(k as int)) is None,
                },
            decreases self.fields.len() - k,
        {
            assert(self.fields@.take(k + 1).drop_last() =~= self.fields@.take(k as int));
            if found.is_none() {
                let is_user = match &self.fields[k].purpose {
                    Some(p) => str_eq(p.as_str(), "USERNAME"),
                    None => false,
                };
                if is_user {
                    found = Some(k);
                }
            }
            k = k + 1;
        }
        assert(self.fields@.take(k as int) =~= self.fields@);
        let from_field: Option<&str> = match found {
            Some(j) => match &self.fields[j].value {
                Some(v) => Some(v.as_str()),
                None => None,
            },
            None => None,
        };
        let chosen: Option<&str> = match from_field {
            Some(u) => Some(u),
            None => match &self.additional_information {
                Some(a) => Some(a.as_str()),
                None => None,
            },
        };
        match chosen {
            Some(u) => if u.is_empty() {
                None
            } else {
                Some(u)
            },
            None => None,
        }
    }
}

// ---------------------------------------------------------------------------
// Command lines
// ---------------------------------------------------------------------------

/// Handle to the `op` CLI bound to an optional account.
pub struct Op {
    pub account: Option<String>,
}

/// The arguments that select the account, when one is given.
pub open spec fn account_args(account: Option<String>) -> Seq<Seq<char>> {
    match account {
        Some(a) => seq!["--account"@, a@],
        None => Seq::empty(),
    }
}

fn push_arg(args: &mut Vec<String>, a: &str)
    ensures
        final(args).deep_view() == old(args).deep_view().push(a@),
{
    let ghost before = args.deep_view();
    args.push(string_of(a));
    assert(args.deep_view() =~= before.push(a@)) by {
        assert forall|i: int| 0 <= i < before.len() implies args.deep_view()[i] == before[i] by {
            assert(args@[i] == old(args)@[i]);
        }
    }
}

impl Op {
    pub fn new(account: Option<String>) -> (r: Self)
        ensures
            r.account == account,
    {
        Op { account }
    }

    /// The arguments that come first on every `op` command line.
    pub fn base_args(&self) -> (r: Vec<String>)
        ensures
            r.deep_view() == account_args(self.account),
    {
        let mut a: Vec<String> = Vec::new();
        assert(a.deep_view() =~= Seq::<Seq<char>>::empty());
        if let Some(acct) = &self.account {
            push_arg(&mut a, "--account");
            push_arg(&mut a, acct.as_str());
            assert(a.deep_view() =~= seq!["--account"@, acct@]);
        }
        a
    }

    /// `op whoami --format json`: succeeds only when signed in.
    pub fn preflight_command(&self) -> (r: Vec<String>)
        ensures
            r.deep_view() == account_args(self.account) + seq!["whoami"@, "--format"@, "json"@],
    {
        let mut a = self.base_args();
        push_arg(&mut a, "whoami");
        push_arg(&mut a, "--format");
        push_arg(&mut a, "json");
        assert(a.deep_view() =~= account_args(self.account) + seq![
            "whoami"@,
            "--format"@,
            "json"@,
        ]);
        a
    }

    /// `op item list` of the login items in `vault`, as JSON.
    pub fn list_logins_command(&self, vault: &str) -> (r: Vec<String>)
        ensures
            r.deep_view() == account_args(self.account) + seq![
                "item"@,
                "list"@,
                "--categories"@,
                "Login"@,
                "--vault"@,
                vault@,
                "--format"@,
                "json"@,
            ],
    {
        let mut a = self.base_args();
        push_arg(&mut a, "item");
        push_arg(&mut a, "list");
        push_arg(&mut a, "--categories");
        push_arg(&mut a, "Login");
        push_arg(&mut a, "--vault");
        push_arg(&mut a, vault);
        push_arg(&mut a, "--format");
        push_arg(&mut a, "json");
        assert(a.deep_view() =~= account_args(self.account) + seq![
            "item"@,
            "list"@,
            "--categories"@,
            "Login"@,
            "--vault"@,
            vault@,
            "--format"@,
            "json"@,
        ]);
        a
    }

    /// `op item get` of one item with concealed fields revealed, as JSON.
    pub fn get_item_command(&self, id: &str) -> (r: Vec<String>)
        ensures
            r.deep_view() == account_args(self.account) + seq![
                "item"@,
                "get"@,
                id@,
                "--reveal"@,
                "--format"@,
                "json"@,
            ],
    {
        let mut a = self.base_args();
        push_arg(&mut a, "item");
        push_arg(&mut a, "get");
        push_arg(&mut a, id);
        push_arg(&mut a, "--reveal");
        push_arg(&mut a, "--format");
        push_arg(&mut a, "json");
        assert(a.deep_view() =~= account_args(self.account) + seq![
            "item"@,
            "get"@,
            id@,
            "--reveal"@,
            "--format"@,
            "json"@,
        ]);
        a
    }

    /// `op item create` in `vault`, reading the item template from stdin.
    pub fn create_login_command(&self, vault: &str) -> (r: Vec<String>)
        ensures
            r.deep_view() == account_args(self.account) + seq![
                "item"@,
                "create"@,
                "--vault"@,
                vault@,
                "--format"@,
                "json"@,
                "-"@,
            ],
    {
        let mut a = self.base_args();
        push_arg(&mut a, "item");
        push_arg(&mut a, "create");
        push_arg(&mut a, "--vault");
        push_arg(&mut a, vault);
        push_arg(&mut a, "--format");
        push_arg(&mut a, "json");
        push_arg(&mut a, "-");
        assert(a.deep_view() =~= account_args(self.account) + seq![
            "item"@,
            "create"@,
            "--vault"@,
            vault@,
            "--format"@,
            "json"@,
            "-"@,
        ]);
        a
    }

    /// `op item edit` of item `id` from the template file at `path`.
    pub fn edit_item_command(&self, id: &str, path: &str) -> (r: Vec<String>)
        ensures
            r.deep_view() == account_args(self.account) + seq![
                "item"@,
                "edit"@,
                id@,
                "--template"@,
                path@,
            ],
    {
        let mut a = self.base_args();
        push_arg(&mut a, "item");
        push_arg(&mut a, "edit");
        push_arg(&mut a, id);
        push_arg(&mut a, "--template");
        push_arg(&mut a, path);
        assert(a.deep_view() =~= account_args(self.account) + seq![
            "item"@,
            "edit"@,
            id@,
            "--template"@,
            path@,
        ]);
        a
    }
}

// ---------------------------------------------------------------------------
// Reading a failed command
// ---------------------------------------------------------------------------

/// The error text of `op` says that no session is available.
pub open spec fn says_not_signed_in(lower: Seq<char>) -> bool {
    ||| has_substring(lower, "not signed in"@)
    ||| has_substring(lower, "no account"@)
    ||| has_substring(lower, "you are not currently signed in"@)
}

/// The error for an `op` command that exited unsuccessfully with `stderr`:
/// `OpNotSignedIn` when its trimmed, lowercased text says so, else `Op` with
/// the trimmed text.
pub open spec fn op_failure_is(stderr: Seq<char>, e: Error) -> bool {
    let t = trim_seq(stderr);
    if says_not_signed_in(lowercase(t)) {
        e is OpNotSignedIn
    } else {
        e matches Error::Op(m) && m@ == t
    }
}

/// The error for the trimmed error text `text` of a failed `op` command,
/// given that text lowercased: `OpNotSignedIn` when the lowercased text says
/// that no session is available, else `Op` with the text.
pub fn classify_failure(text: String, lowered: &str) -> (e: Error)
    ensures
        if says_not_signed_in(lowered@) {
            e is OpNotSignedIn
        } else {
            e matches Error::Op(m) && m@ == text@
        },
{
    if contains(lowered, "not signed in") || contains(lowered, "no account") || contains(
        lowered,
        "you are not currently signed in",
    ) {
        Error::OpNotSignedIn
    } else {
        Error::Op(text)
    }
}

/// Reads the standard error of an `op` command that failed.
pub fn op_failure(stderr: &str) -> (e: Error)
    ensures
        op_failure_is(stderr@, e),
{
    let t = trim(stderr);
    let lc = to_lowercase(t.as_str());
    classify_failure(t, lc.as_str())
}

} // verus!

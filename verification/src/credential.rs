//! A normalized credential, its host and identity, and the JSON template used
//! to create it in 1Password.

use vstd::prelude::*;
use crate::chrome::CsvRow;
use crate::text::{
    chars_of, has_substring, is_blank, lemma_substring_between, lemma_trim_idempotent, lowercase, push_str, string_from_chars, string_of, to_lowercase, trim,
    trim_seq,
};

verus! {

// ---------------------------------------------------------------------------
// Hosts
// ---------------------------------------------------------------------------

/// What `url::Url::parse` makes of `input`, seen through `Url::host_str`:
/// `None` when the text does not parse as an absolute URL, `Some(None)` when it
/// parses but has no host, `Some(Some(h))` with the host text otherwise.
pub uninterp spec fn url_parse_host(input: Seq<char>) -> Option<Option<Seq<char>>>;

/// Calls `url::Url::parse` and then `Url::host_str` on the parsed URL. The
/// result is named by `url_parse_host`, as a function of `input` alone; nothing
/// more is claimed of the URL parser.
#[verifier::external_body]
fn parse_url_host(input: &str) -> (r: Option<Option<String>>)
    ensures
        r.deep_view() == url_parse_host(input@),
{
    match url::Url::parse(input) {
        Ok(u) => match u.host_str() {
            Some(h) => Some(Some(h.to_string())),
            None => Some(None),
        },
        Err(_) => None,
    }
}

/// `h` without one leading `www.`.
pub open spec fn strip_www(h: Seq<char>) -> Seq<char> {
    if h.len() >= 4 && h.take(4) == seq!['w', 'w', 'w', '.'] {
        h.skip(4)
    } else {
        h
    }
}

/// The normalized host for the outcome of a URL parse: lowercased, with a
/// leading `www.` stripped; `None` when the parse failed or found no host.
pub open spec fn normalized_parse(parsed: Option<Option<Seq<char>>>) -> Option<Seq<char>> {
    match parsed {
        Some(Some(h)) => Some(strip_www(lowercase(h))),
        _ => None,
    }
}

/// The normalized host of a URL string. The text is trimmed; a blank one has
/// no host. It is parsed as a URL, and, when that fails, once more with
/// `https://` in front (Chrome exports bare hosts too).
pub open spec fn spec_host_of(raw: Seq<char>) -> Option<Seq<char>> {
    let t = trim_seq(raw);
    if t.len() == 0 {
        None
    } else {
        let parsed = match url_parse_host(t) {
            Some(h) => Some(h),
            None => url_parse_host("https://"@ + t),
        };
        normalized_parse(parsed)
    }
}

/// Whitespace around a URL does not change its host.
pub proof fn lemma_host_of_trimmed(raw: Seq<char>)
    ensures
        spec_host_of(trim_seq(raw)) == spec_host_of(raw),
{
    lemma_trim_idempotent(raw);
}

/// `h` without one leading `www.`.
pub fn strip_www_prefix(h: &str) -> (r: String)
    ensures
        r@ == strip_www(h@),
{
    let v = chars_of(h);
    if v.len() >= 4 && v[0] == 'w' && v[1] == 'w' && v[2] == 'w' && v[3] == '.' {
        assert(v@.take(4) =~= seq!['w', 'w', 'w', '.']);
        let r = string_from_chars(&v, 4, v.len());
        assert(r@ =~= h@.skip(4));
        r
    } else {
        assert(!(h@.len() >= 4 && h@.take(4) == seq!['w', 'w', 'w', '.'])) by {
            if h@.len() >= 4 && h@.take(4) == seq!['w', 'w', 'w', '.'] {
                assert(h@.take(4)[0] == v@[0]);
                assert(h@.take(4)[1] == v@[1]);
                assert(h@.take(4)[2] == v@[2]);
                assert(h@.take(4)[3] == v@[3]);
            }
        }
        string_of(h)
    }
}

/// Normalizes the outcome of a URL parse (see `url_parse_host`): the host,
/// lowercased and without a leading `www.`, or `None` when there is no host.
pub fn host_from_parse(parsed: Option<Option<String>>) -> (r: Option<String>)
    ensures
        r.deep_view() == normalized_parse(parsed.deep_view()),
{
    match parsed {
        Some(Some(h)) => {
            let lower = to_lowercase(h.as_str());
            Some(strip_www_prefix(lower.as_str()))
        },
        _ => None,
    }
}

/// Extract a normalized host from a URL string: lowercase, `www.` stripped.
/// Falls back to `None` for values without a recognizable host.
pub fn host_of(raw: &str) -> (r: Option<String>)
    ensures
        r.deep_view() == spec_host_of(raw@),
        trim_seq(raw@).len() == 0 ==> r is None,
{
    let t = trim(raw);
    if is_blank(raw) {
        return None;
    }
    let parsed = match parse_url_host(t.as_str()) {
        Some(h) => Some(h),
        None => {
            let mut with_scheme = string_of("https://");
            push_str(&mut with_scheme, t.as_str());
            parse_url_host(with_scheme.as_str())
        },
    };
    host_from_parse(parsed)
}

// ---------------------------------------------------------------------------
// Credentials
// ---------------------------------------------------------------------------

/// A credential ready to be matched against 1Password and, if missing, created.
#[derive(Debug)]
pub struct Credential {
    pub title: String,
    pub url: String,
    pub username: String,
    pub password: String,
    pub note: String,
}

/// The title given to a login that has neither a name nor a host.
pub open spec fn untitled() -> Seq<char> {
    "Untitled Login"@
}

/// The credential made from a CSV row: fields trimmed (the password is kept
/// as it is), the title taken from the name, else from the URL's host, else
/// `Untitled Login`.
pub open spec fn credential_from_row(r: CsvRow, c: Credential) -> bool {
    let url = trim_seq(r.url@);
    let name = trim_seq(r.name@);
    &&& c.url@ == url
    &&& c.title@ == if name.len() != 0 {
        name
    } else {
        match spec_host_of(url) {
            Some(h) => h,
            None => untitled(),
        }
    }
    &&& c.username@ == trim_seq(r.username@)
    &&& c.password@ == r.password@
    &&& c.note@ == trim_seq(r.note@)
}

/// The host of a credential's URL.
pub open spec fn cred_host(c: Credential) -> Option<Seq<char>> {
    spec_host_of(c.url@)
}

/// The identity by which CSV rows are de-duplicated: the normalized host
/// (empty when there is none) and the lowercased username.
pub open spec fn identity_of(c: Credential) -> (Seq<char>, Seq<char>) {
    (
        match cred_host(c) {
            Some(h) => h,
            None => Seq::empty(),
        },
        lowercase(c.username@),
    )
}

// ---------------------------------------------------------------------------
// The op item template
// ---------------------------------------------------------------------------

/// The hexadecimal digit for `d < 16`, in lowercase.
pub open spec fn hex_digit(d: int) -> char {
    if d < 10 {
        (('0' as int) + d) as char
    } else {
        (('a' as int) + d - 10) as char
    }
}

/// How a JSON string literal writes the character `c`: `"` and `\` and the
/// control characters below U+0020 are escaped (`\b \t \n \f \r` in short
/// form, the others as `\u00XX` in lowercase hex); every other character
/// stands for itself.
pub open spec fn json_escape_char(c: char) -> Seq<char> {
    let u = c as u32;
    if c == '"' {
        seq!['\\', '"']
    } else if c == '\\' {
        seq!['\\', '\\']
    } else if u == 0x08 {
        seq!['\\', 'b']
    } else if u == 0x09 {
        seq!['\\', 't']
    } else if u == 0x0a {
        seq!['\\', 'n']
    } else if u == 0x0c {
        seq!['\\', 'f']
    } else if u == 0x0d {
        seq!['\\', 'r']
    } else if u < 0x20 {
        seq!['\\', 'u', '0', '0', hex_digit(u as int / 16), hex_digit(u as int % 16)]
    } else {
        seq![c]
    }
}

/// The escaped body of a JSON string literal for `s`.
pub open spec fn json_escape(s: Seq<char>) -> Seq<char>
    decreases s.len(),
{
    if s.len() == 0 {
        Seq::empty()
    } else {
        json_escape(s.drop_last()) + json_escape_char(s.last())
    }
}

/// The JSON string literal for `s`, quotes included.
pub open spec fn json_quoted(s: Seq<char>) -> Seq<char> {
    seq!['"'] + json_escape(s) + seq!['"']
}

/// Writes `s` as a JSON string literal: the `Display` of
/// `serde_json::Value::String`, whose escaping (serde_json's `ESCAPE` table
/// and `write_char_escape`) is `json_quoted`.
#[verifier::external_body]
pub(crate) fn json_string(s: &str) -> (r: String)
    ensures
        r@ == json_quoted(s@),
{
    serde_json::Value::String(s.to_string()).to_string()
}

/// One entry of the template's `fields` array, keys in sorted order.
pub open spec fn template_field(id: Seq<char>, purpose: Seq<char>, kind: Seq<char>, value: Seq<char>) -> Seq<char> {
    "{\"id\":"@ + json_quoted(id) + ",\"label\":"@ + json_quoted(id) + ",\"purpose\":"@
        + json_quoted(purpose) + ",\"type\":"@ + json_quoted(kind) + ",\"value\":"@
        + json_quoted(value) + "}"@
}

/// The `fields` array: username, password, and the note when there is one.
pub open spec fn template_fields(c: Credential) -> Seq<char> {
    let user = template_field("username"@, "USERNAME"@, "STRING"@, c.username@);
    let pass = template_field("password"@, "PASSWORD"@, "CONCEALED"@, c.password@);
    let note = template_field("notesPlain"@, "NOTES"@, "STRING"@, c.note@);
    if c.note@.len() != 0 {
        "["@ + user + ","@ + pass + ","@ + note + "]"@
    } else {
        "["@ + user + ","@ + pass + "]"@
    }
}

/// The compact JSON text of the login item to create for `c`, with its keys
/// in sorted order: category `LOGIN`, the fields, the title, and, when the
/// URL is not empty, the primary `website` URL.
pub open spec fn template_of(c: Credential) -> Seq<char> {
    let head = "{\"category\":\"LOGIN\",\"fields\":"@ + template_fields(c) + ",\"title\":"@
        + json_quoted(c.title@);
    if c.url@.len() != 0 {
        head + ",\"urls\":[{\"href\":"@ + json_quoted(c.url@)
            + ",\"label\":\"website\",\"primary\":true}]"@ + "}"@
    } else {
        head + "}"@
    }
}

proof fn lemma_regroup_fields(f: Seq<char>, a: Seq<char>, b: Seq<char>, c: Seq<char>)
    ensures
        f + a + b + c == f + (a + b) + c,
        f + c == f + (Seq::<char>::empty() + Seq::<char>::empty()) + c,
{
    assert(f + a + b + c =~= f + (a + b) + c);
    assert(f + c =~= f + (Seq::<char>::empty() + Seq::<char>::empty()) + c);
}

proof fn lemma_regroup_template(
    h: Seq<char>,
    f: Seq<char>,
    a: Seq<char>,
    b: Seq<char>,
    c: Seq<char>,
    d: Seq<char>,
    g: Seq<char>,
    e: Seq<char>,
)
    ensures
        h + f + a + b + c + d + g + e == h + f + (a + b) + (c + d + g) + e,
        h + f + a + b + e == h + f + (a + b) + (Seq::<char>::empty() + Seq::<char>::empty()
            + Seq::<char>::empty()) + e,
{
    assert(h + f + a + b + c + d + g + e =~= h + f + (a + b) + (c + d + g) + e);
    assert(h + f + a + b + e =~= h + f + (a + b) + (Seq::<char>::empty() + Seq::<char>::empty()
        + Seq::<char>::empty()) + e);
}

proof fn lemma_regroup_front(h: Seq<char>, a: Seq<char>, b: Seq<char>, c: Seq<char>, d: Seq<char>)
    ensures
        h + (a + b + c + d) == h + a + b + c + d,
{
    assert(h + (a + b + c + d) =~= h + a + b + c + d);
}

proof fn lemma_regroup(h: Seq<char>, f: Seq<char>, notes: Seq<char>, close: Seq<char>, t: Seq<char>, u: Seq<char>, e: Seq<char>)
    ensures
        h + (f + notes + close) + t + u + e == (h + f) + (notes + close + t + u + e),
        h + (f + notes + close) + t + u + e == (h + f + notes + close) + t + (u + e),
        h + (f + notes + close) + t + u + e == (h + f + notes + close + t) + u + e,
        h + (f + notes + close) + t + u + e == (h + f) + notes + (close + t + u + e),
{
    assert(h + (f + notes + close) + t + u + e =~= (h + f) + (notes + close + t + u + e));
    assert(h + (f + notes + close) + t + u + e =~= (h + f + notes + close) + t + (u + e));
    assert(h + (f + notes + close) + t + u + e =~= (h + f + notes + close + t) + u + e);
    assert(h + (f + notes + close) + t + u + e =~= (h + f) + notes + (close + t + u + e));
}

/// What the template of a login holds, whatever the credential: its
/// `fields` array starts with the username field and then the concealed
/// password field, each holding the credential's value, note or no note; a
/// non-empty note follows in a field of its own; the title is there, and the
/// website URL whenever the URL is not empty.
pub proof fn lemma_template_holds_credential(c: Credential)
    ensures
        exists|rest: Seq<char>|
            template_of(c) == "{\"category\":\"LOGIN\",\"fields\":"@ + "["@ + ("{\"id\":"@ + json_quoted("username"@) + ",\"label\":"@ + json_quoted("username"@)
            + ",\"purpose\":"@ + json_quoted("USERNAME"@) + ",\"type\":"@ + json_quoted("STRING"@)
            + ",\"value\":"@ + json_quoted(c.username@) + "}"@) + ","@ + ("{\"id\":"@ + json_quoted("password"@) + ",\"label\":"@ + json_quoted("password"@)
            + ",\"purpose\":"@ + json_quoted("PASSWORD"@) + ",\"type\":"@ + json_quoted("CONCEALED"@)
            + ",\"value\":"@ + json_quoted(c.password@) + "}"@) + rest,
        c.note@.len() != 0 ==> has_substring(template_of(c), ","@ + ("{\"id\":"@ + json_quoted("notesPlain"@) + ",\"label\":"@ + json_quoted("notesPlain"@)
            + ",\"purpose\":"@ + json_quoted("NOTES"@) + ",\"type\":"@ + json_quoted("STRING"@)
            + ",\"value\":"@ + json_quoted(c.note@) + "}"@)),
        has_substring(template_of(c), ",\"title\":"@ + json_quoted(c.title@)),
        c.url@.len() != 0 ==> has_substring(
            template_of(c),
            ",\"urls\":[{\"href\":"@ + json_quoted(c.url@) + ",\"label\":\"website\",\"primary\":true}]"@,
        ),
{
    let user = template_field("username"@, "USERNAME"@, "STRING"@, c.username@);
    let pass = template_field("password"@, "PASSWORD"@, "CONCEALED"@, c.password@);
    let note = template_field("notesPlain"@, "NOTES"@, "STRING"@, c.note@);
    let h = "{\"category\":\"LOGIN\",\"fields\":"@;
    let f = "["@ + user + ","@ + pass;
    let notes = if c.note@.len() != 0 {
        ","@ + note
    } else {
        Seq::empty()
    };
    let close = "]"@;
    let t = ",\"title\":"@ + json_quoted(c.title@);
    let u = if c.url@.len() != 0 {
        ",\"urls\":[{\"href\":"@ + json_quoted(c.url@) + ",\"label\":\"website\",\"primary\":true}]"@
    } else {
        Seq::empty()
    };
    let e = "}"@;
    if c.note@.len() != 0 {
        lemma_regroup_fields(f, ","@, note, close);
    } else {
        lemma_regroup_fields(f, Seq::empty(), Seq::empty(), close);
    }
    if c.url@.len() != 0 {
        lemma_regroup_template(
            h,
            f + notes + close,
            ",\"title\":"@,
            json_quoted(c.title@),
            ",\"urls\":[{\"href\":"@,
            json_quoted(c.url@),
            ",\"label\":\"website\",\"primary\":true}]"@,
            e,
        );
    } else {
        lemma_regroup_template(
            h,
            f + notes + close,
            ",\"title\":"@,
            json_quoted(c.title@),
            Seq::empty(),
            Seq::empty(),
            Seq::empty(),
            e,
        );
    }
    lemma_regroup(h, f, notes, close, t, u, e);
    lemma_regroup_front(h, "["@, user, ","@, pass);
    assert(template_of(c) == h + "["@ + user + ","@ + pass + (notes + close + t + u + e));
    if c.note@.len() != 0 {
        lemma_substring_between(h + f, notes, close + t + u + e);
    }
    lemma_substring_between(h + f + notes + close, t, u + e);
    if c.url@.len() != 0 {
        lemma_substring_between(h + f + notes + close + t, u, e);
    }
}

proof fn lemma_assoc6(a: Seq<char>, b: Seq<char>, c: Seq<char>, d: Seq<char>, e: Seq<char>, f: Seq<char>)
    ensures
        a + b + c + d + e + f == a + (b + c + d + e + f),
{
    assert(a + b + c + d + e + f =~= a + (b + c + d + e + f));
}

proof fn lemma_assoc8(
    a: Seq<char>,
    b: Seq<char>,
    c: Seq<char>,
    d: Seq<char>,
    e: Seq<char>,
    f: Seq<char>,
    g: Seq<char>,
    h: Seq<char>,
)
    ensures
        a + b + c + d + e + f + g + h == a + (b + c + d + e + f + g + h),
{
    assert(a + b + c + d + e + f + g + h =~= a + (b + c + d + e + f + g + h));
}

/// Appends one entry of the `fields` array to `out`.
fn push_field(out: &mut String, id: &str, purpose: &str, kind: &str, value: &str)
    ensures
        final(out)@ == old(out)@ + template_field(id@, purpose@, kind@, value@),
{
    let ghost start = out@;
    push_str(out, "{\"id\":");
    push_str(out, json_string(id).as_str());
    push_str(out, ",\"label\":");
    push_str(out, json_string(id).as_str());
    push_str(out, ",\"purpose\":");
    push_str(out, json_string(purpose).as_str());
    push_str(out, ",\"type\":");
    push_str(out, json_string(kind).as_str());
    push_str(out, ",\"value\":");
    push_str(out, json_string(value).as_str());
    push_str(out, "}");
    assert(out@ =~= start + template_field(id@, purpose@, kind@, value@));
}

impl Clone for Credential {
    fn clone(&self) -> (r: Self)
        ensures
            r == *self,
    {
        Credential {
            title: self.title.clone(),
            url: self.url.clone(),
            username: self.username.clone(),
            password: self.password.clone(),
            note: self.note.clone(),
        }
    }
}

impl Credential {
    /// The credential for one CSV row.
    pub fn from(r: CsvRow) -> (c: Credential)
        ensures
            credential_from_row(r, c),
    {
        let url = trim(r.url.as_str());
        let title = if !is_blank(r.name.as_str()) {
            trim(r.name.as_str())
        } else {
            match host_of(url.as_str()) {
                Some(h) => h,
                None => string_of("Untitled Login"),
            }
        };
        Credential {
            title,
            url,
            username: trim(r.username.as_str()),
            password: r.password,
            note: trim(r.note.as_str()),
        }
    }

    /// The normalized host used for matching (lowercased, `www.` stripped).
    pub fn host(&self) -> (r: Option<String>)
        ensures
            r.deep_view() == cred_host(*self),
    {
        host_of(self.url.as_str())
    }

    /// Stable identity for de-duplicating CSV rows: (host, lowercased username).
    pub fn identity(&self) -> (r: (String, String))
        ensures
            (r.0@, r.1@) == identity_of(*self),
    {
        let host = match self.host() {
            Some(h) => h,
            None => String::new(),
        };
        (host, to_lowercase(self.username.as_str()))
    }
    /// Appends the `fields` array of this login's template to `out`.
    fn push_fields(&self, out: &mut String)
        ensures
            final(out)@ == old(out)@ + template_fields(*self),
    {
        let ghost start = out@;
        push_str(out, "[");
        push_field(out, "username", "USERNAME", "STRING", self.username.as_str());
        push_str(out, ",");
        push_field(out, "password", "PASSWORD", "CONCEALED", self.password.as_str());
        let ghost user = template_field("username"@, "USERNAME"@, "STRING"@, self.username@);
        let ghost pass = template_field("password"@, "PASSWORD"@, "CONCEALED"@, self.password@);
        let ghost note = template_field("notesPlain"@, "NOTES"@, "STRING"@, self.note@);
        if !self.note.as_str().is_empty() {
            push_str(out, ",");
            push_field(out, "notesPlain", "NOTES", "STRING", self.note.as_str());
            push_str(out, "]");
            proof {
                lemma_assoc8(start, "["@, user, ","@, pass, ","@, note, "]"@);
            }
        } else {
            push_str(out, "]");
            proof {
                lemma_assoc6(start, "["@, user, ","@, pass, "]"@);
            }
        }
    }

    /// The op JSON template to create this login (piped to `op item create -`).
    pub fn create_template(&self) -> (r: String)
        ensures
            r@ == template_of(*self),
            exists|rest: Seq<char>|
                r@ == "{\"category\":\"LOGIN\",\"fields\":"@ + "["@ + ("{\"id\":"@ + json_quoted("username"@) + ",\"label\":"@ + json_quoted("username"@)
                + ",\"purpose\":"@ + json_quoted("USERNAME"@) + ",\"type\":"@ + json_quoted("STRING"@)
                + ",\"value\":"@ + json_quoted(self.username@) + "}"@) + ","@ + ("{\"id\":"@ + json_quoted("password"@) + ",\"label\":"@ + json_quoted("password"@)
                + ",\"purpose\":"@ + json_quoted("PASSWORD"@) + ",\"type\":"@ + json_quoted("CONCEALED"@)
                + ",\"value\":"@ + json_quoted(self.password@) + "}"@) + rest,
            self.note@.len() != 0 ==> has_substring(r@, ","@ + ("{\"id\":"@ + json_quoted("notesPlain"@) + ",\"label\":"@ + json_quoted("notesPlain"@)
                + ",\"purpose\":"@ + json_quoted("NOTES"@) + ",\"type\":"@ + json_quoted("STRING"@)
                + ",\"value\":"@ + json_quoted(self.note@) + "}"@)),
            has_substring(r@, ",\"title\":"@ + json_quoted(self.title@)),
            self.url@.len() != 0 ==> has_substring(
                r@,
                ",\"urls\":[{\"href\":"@ + json_quoted(self.url@) + ",\"label\":\"website\",\"primary\":true}]"@,
            ),
    {
        let mut out = string_of("{\"category\":\"LOGIN\",\"fields\":");
        self.push_fields(&mut out);
        push_str(&mut out, ",\"title\":");
        let title = json_string(self.title.as_str());
        push_str(&mut out, title.as_str());
        let ghost head = out@;
        assert(head =~= "{\"category\":\"LOGIN\",\"fields\":"@ + template_fields(*self)
            + ",\"title\":"@ + json_quoted(self.title@));
        if !self.url.as_str().is_empty() {
            push_str(&mut out, ",\"urls\":[{\"href\":");
            let href = json_string(self.url.as_str());
            push_str(&mut out, href.as_str());
            push_str(&mut out, ",\"label\":\"website\",\"primary\":true}]");
            assert(out@ =~= head + ",\"urls\":[{\"href\":"@ + json_quoted(self.url@)
                + ",\"label\":\"website\",\"primary\":true}]"@);
        }
        push_str(&mut out, "}");
        proof {
            lemma_template_holds_credential(*self);
        }
        out
    }
}

/// The credentials of an export's rows, one per row and in order; `None`
/// when the export has no rows, and a sync has nothing to do.
pub fn credentials_from_rows(rows: &Vec<CsvRow>) -> (r: Option<Vec<Credential>>)
    ensures
        r is None <==> rows@.len() == 0,
        r matches Some(cs) ==> cs@.len() == rows@.len() && forall|i: int|
            0 <= i < rows@.len() ==> credential_from_row(rows@[i], #[trigger] cs@[i]),
{
    if rows.len() == 0 {
        return None;
    }
    let mut out: Vec<Credential> = Vec::new();
    let mut i: usize = 0;
    while i < rows.len()
        invariant
            i <= rows@.len(),
            out@.len() == i,
            forall|k: int| 0 <= k < i ==> credential_from_row(rows@[k], #[trigger] out@[k]),
        decreases rows.len() - i,
    {
        let c = Credential::from(rows[i].clone());
        out.push(c);
        i = i + 1;
    }
    Some(out)
}

} // verus!

//! Rows of a Google/Chrome Password Manager CSV export.
//!
//! The export has the header `name,url,username,password,note` (the `note`
//! column is sometimes absent). Columns are found by header name, and short
//! rows and blank rows are tolerated.

use vstd::prelude::*;
use crate::error::Error;
use crate::text::{is_blank, lowercase, push_decimal, push_str, string_of, to_lowercase, trim, trim_seq};

verus! {

/// One row of the Chrome/Google export.
#[derive(Debug)]
pub struct CsvRow {
    pub name: String,
    pub url: String,
    pub username: String,
    pub password: String,
    pub note: String,
}

/// A row is worth importing when its URL or its username holds something
/// other than whitespace.
pub open spec fn row_is_meaningful(r: CsvRow) -> bool {
    trim_seq(r.url@).len() != 0 || trim_seq(r.username@).len() != 0
}

impl CsvRow {
    /// A row is worth importing if it has at least a URL or a username.
    pub fn is_meaningful(&self) -> (r: bool)
        ensures
            r == row_is_meaningful(*self),
    {
        !is_blank(self.url.as_str()) || !is_blank(self.username.as_str())
    }
}

impl Clone for CsvRow {
    fn clone(&self) -> (r: Self)
        ensures
            r == *self,
    {
        CsvRow {
            name: self.name.clone(),
            url: self.url.clone(),
            username: self.username.clone(),
            password: self.password.clone(),
            note: self.note.clone(),
        }
    }
}

impl Default for CsvRow {
    fn default() -> (r: Self)
        ensures
            r.name@.len() == 0,
            r.url@.len() == 0,
            r.username@.len() == 0,
            r.password@.len() == 0,
            r.note@.len() == 0,
    {
        CsvRow {
            name: String::new(),
            url: String::new(),
            username: String::new(),
            password: String::new(),
            note: String::new(),
        }
    }
}

// ---------------------------------------------------------------------------
// Reading the export
// ---------------------------------------------------------------------------

/// The text of a row, field by field.
pub struct RowText {
    pub name: Seq<char>,
    pub url: Seq<char>,
    pub username: Seq<char>,
    pub password: Seq<char>,
    pub note: Seq<char>,
}

impl View for CsvRow {
    type V = RowText;

    open spec fn view(&self) -> RowText {
        RowText {
            name: self.name@,
            url: self.url@,
            username: self.username@,
            password: self.password@,
            note: self.note@,
        }
    }
}

/// What the `csv` reader (with a header row, and rows of any length) makes of
/// `data`: the header fields and the records' fields, or, when reading fails,
/// the error's text, with the position of the failed record (counting from 0)
/// or `None` when the header row failed.
pub uninterp spec fn csv_read(data: Seq<u8>) -> core::result::Result<
    (Seq<Seq<char>>, Seq<Seq<Seq<char>>>),
    (Option<int>, Seq<char>),
>;

/// A CSV file: its header fields and its records' fields.
pub struct CsvTable {
    pub headers: Vec<String>,
    pub records: Vec<Vec<String>>,
}

/// Why a CSV file could not be read: the header row failed, or the record at
/// the given position (counting from 0); each with the reader's error text.
pub enum CsvFailure {
    Header(String),
    Row(usize, String),
}

/// A table or a failure, as the plain values that `csv_read` names.
pub open spec fn table_read_view(r: core::result::Result<CsvTable, CsvFailure>) -> core::result::Result<
    (Seq<Seq<char>>, Seq<Seq<Seq<char>>>),
    (Option<int>, Seq<char>),
> {
    match r {
        Ok(t) => Ok((t.headers.deep_view(), t.records.deep_view())),
        Err(CsvFailure::Header(m)) => Err((None, m@)),
        Err(CsvFailure::Row(i, m)) => Err((Some(i as int), m@)),
    }
}

/// Reads `data` with `csv::ReaderBuilder` (flexible, with headers): the
/// header record, then every record, each field as a string. The outcome is
/// named by `csv_read`, a function of `data` alone.
#[verifier::external_body]
fn read_table(data: &[u8]) -> (r: core::result::Result<CsvTable, CsvFailure>)
    ensures
        table_read_view(r) == csv_read(data@),
{
    let mut reader = csv::ReaderBuilder::new().flexible(true).has_headers(true).from_reader(data);
    let headers = match reader.headers() {
        Ok(h) => h.iter().map(String::from).collect(),
        Err(e) => return Err(CsvFailure::Header(e.to_string())),
    };
    let mut records = Vec::new();
    for (i, rec) in reader.records().enumerate() {
        match rec {
            Ok(r) => records.push(r.iter().map(String::from).collect()),
            Err(e) => return Err(CsvFailure::Row(i, e.to_string())),
        }
    }
    Ok(CsvTable { headers, records })
}

/// The name a header is looked up by: trimmed and lowercased.
pub open spec fn header_key(h: Seq<char>) -> Seq<char> {
    lowercase(trim_seq(h))
}

/// The column whose header is `key`; when several are, the last of them.
pub open spec fn column_of(headers: Seq<Seq<char>>, key: Seq<char>) -> Option<int>
    decreases headers.len(),
{
    if headers.len() == 0 {
        None
    } else if header_key(headers.last()) == key {
        Some(headers.len() - 1)
    } else {
        column_of(headers.drop_last(), key)
    }
}

/// The field of `rec` in column `col`, when the record is long enough.
pub open spec fn cell_at(rec: Seq<Seq<char>>, col: Option<int>) -> Option<Seq<char>> {
    match col {
        Some(i) => if 0 <= i < rec.len() {
            Some(rec[i])
        } else {
            None
        },
        None => None,
    }
}

/// The field of `rec` under the header `key`, or the empty string.
pub open spec fn field_of(headers: Seq<Seq<char>>, rec: Seq<Seq<char>>, key: Seq<char>) -> Seq<char> {
    match cell_at(rec, column_of(headers, key)) {
        Some(v) => v,
        None => Seq::empty(),
    }
}

/// The row read from one record: fields found by header name; the note under
/// `note`, or else under `notes`.
pub open spec fn row_of(headers: Seq<Seq<char>>, rec: Seq<Seq<char>>) -> RowText {
    RowText {
        name: field_of(headers, rec, "name"@),
        url: field_of(headers, rec, "url"@),
        username: field_of(headers, rec, "username"@),
        password: field_of(headers, rec, "password"@),
        note: match cell_at(rec, column_of(headers, "note"@)) {
            Some(v) => v,
            None => field_of(headers, rec, "notes"@),
        },
    }
}

/// A row is worth importing (see `CsvRow::is_meaningful`).
pub open spec fn text_is_meaningful(r: RowText) -> bool {
    trim_seq(r.url).len() != 0 || trim_seq(r.username).len() != 0
}

/// The rows read from `records`, in order, keeping the meaningful ones.
pub open spec fn rows_of(headers: Seq<Seq<char>>, records: Seq<Seq<Seq<char>>>) -> Seq<RowText>
    decreases records.len(),
{
    if records.len() == 0 {
        Seq::empty()
    } else {
        let earlier = rows_of(headers, records.drop_last());
        let row = row_of(headers, records.last());
        if text_is_meaningful(row) {
            earlier.push(row)
        } else {
            earlier
        }
    }
}

/// The rows of the export `data`, or the error that stops reading it.
pub open spec fn export_rows(data: Seq<u8>) -> core::result::Result<Seq<RowText>, Seq<char>> {
    match csv_read(data) {
        Ok((headers, records)) => Ok(rows_of(headers, records)),
        Err((None, m)) => Err("reading header: "@ + m),
        Err((Some(i), m)) => Err("row "@ + crate::text::decimal((i + 1) as nat) + ": "@ + m),
    }
}

/// The column whose (normalized) header is `key`; the last such one.
fn column(keys: &Vec<String>, key: &str, Ghost(headers): Ghost<Seq<Seq<char>>>) -> (r: Option<usize>)
    requires
        keys@.len() == headers.len(),
        forall|i: int| 0 <= i < keys@.len() ==> #[trigger] keys@[i]@ == header_key(headers[i]),
    ensures
        match r {
            Some(i) => column_of(headers, key@) == Some(i as int),
            None => column_of(headers, key@) is None,
        },
{
    let wanted = string_of(key);
    let mut found: Option<usize> = None;
    let mut i: usize = 0;
    while i < keys.len()
        invariant
            i <= keys@.len(),
            keys@.len() == headers.len(),
            wanted@ == key@,
            forall|j: int| 0 <= j < keys@.len() ==> #[trigger] keys@[j]@ == header_key(headers[j]),
            match found {
                Some(j) => j < i && column_of(headers.take(i as int), key@) == Some(j as int),
                None => column_of(headers.take(i as int), key@) is None,
            },
        decreases keys.len() - i,
    {
        assert(headers.take(i + 1).drop_last() =~= headers.take(i as int));
        if keys[i] == wanted {
            found = Some(i);
        }
        i = i + 1;
    }
    assert(headers.take(i as int) =~= headers);
    found
}

fn cell(rec: &Vec<String>, col: Option<usize>) -> (r: Option<String>)
    ensures
        r.deep_view() == cell_at(rec.deep_view(), match col {
            Some(i) => Some(i as int),
            None => None,
        }),
{
    match col {
        Some(i) => if i < rec.len() {
            Some(rec[i].clone())
        } else {
            None
        },
        None => None,
    }
}

fn cell_or_empty(rec: &Vec<String>, col: Option<usize>) -> (r: String)
    ensures
        r@ == match cell_at(rec.deep_view(), match col {
            Some(i) => Some(i as int),
            None => None,
        }) {
            Some(v) => v,
            None => Seq::empty(),
        },
{
    match cell(rec, col) {
        Some(v) => v,
        None => String::new(),
    }
}

/// The rows of a CSV table: columns located by header name (trimmed,
/// case-insensitive), so column order and short rows are both tolerated;
/// rows that are not meaningful are dropped.
pub fn rows_from_table(headers: &Vec<String>, records: &Vec<Vec<String>>) -> (r: Vec<CsvRow>)
    ensures
        r@.map_values(|x: CsvRow| x@) == rows_of(headers.deep_view(), records.deep_view()),
{
    let ghost hs = headers.deep_view();
    let mut keys: Vec<String> = Vec::new();
    let mut k: usize = 0;
    while k < headers.len()
        invariant
            k <= headers.len(),
            hs == headers.deep_view(),
            keys@.len() == k,
            forall|i: int| 0 <= i < k ==> #[trigger] keys@[i]@ == header_key(hs[i]),
        decreases headers.len() - k,
    {
        let t = trim(headers[k].as_str());
        keys.push(to_lowercase(t.as_str()));
        k = k + 1;
    }
    let name_col = column(&keys, "name", Ghost(hs));
    let url_col = column(&keys, "url", Ghost(hs));
    let username_col = column(&keys, "username", Ghost(hs));
    let password_col = column(&keys, "password", Ghost(hs));
    let note_col = column(&keys, "note", Ghost(hs));
    let notes_col = column(&keys, "notes", Ghost(hs));
    let ghost rs = records.deep_view();
    let mut rows: Vec<CsvRow> = Vec::new();
    let mut i: usize = 0;
    while i < records.len()
        invariant
            i <= records.len(),
            rs == records.deep_view(),
            hs == headers.deep_view(),
            rows@.map_values(|x: CsvRow| x@) == rows_of(hs, rs.take(i as int)),
            match name_col { Some(c) => column_of(hs, "name"@) == Some(c as int), None => column_of(hs, "name"@) is None },
            match url_col { Some(c) => column_of(hs, "url"@) == Some(c as int), None => column_of(hs, "url"@) is None },
            match username_col { Some(c) => column_of(hs, "username"@) == Some(c as int), None => column_of(hs, "username"@) is None },
            match password_col { Some(c) => column_of(hs, "password"@) == Some(c as int), None => column_of(hs, "password"@) is None },
            match note_col { Some(c) => column_of(hs, "note"@) == Some(c as int), None => column_of(hs, "note"@) is None },
            match notes_col { Some(c) => column_of(hs, "notes"@) == Some(c as int), None => column_of(hs, "notes"@) is None },
        decreases records.len() - i,
    {
        let rec = &records[i];
        assert(rec.deep_view() == rs[i as int]);
        let note = match cell(rec, note_col) {
            Some(v) => v,
            None => cell_or_empty(rec, notes_col),
        };
        let row = CsvRow {
            name: cell_or_empty(rec, name_col),
            url: cell_or_empty(rec, url_col),
            username: cell_or_empty(rec, username_col),
            password: cell_or_empty(rec, password_col),
            note,
        };
        assert(row@ == row_of(hs, rs[i as int]));
        assert(rs.take(i + 1).drop_last() =~= rs.take(i as int));
        let ghost before = rows@;
        if row.is_meaningful() {
            rows.push(row);
            assert(rows@.map_values(|x: CsvRow| x@) =~= before.map_values(|x: CsvRow| x@).push(
                row_of(hs, rs[i as int]),
            ));
        }
        i = i + 1;
    }
    assert(rs.take(i as int) =~= rs);
    rows
}

/// Read a Chrome/Google CSV export.
///
/// Columns are located by header name (case-insensitive), so column order and
/// short rows are both tolerated. The expected headers are
/// `name,url,username,password,note`.
pub fn parse_export(data: &[u8]) -> (r: Result<Vec<CsvRow>, Error>)
    ensures
        match (r, export_rows(data@)) {
            (Ok(rows), Ok(want)) => rows@.map_values(|x: CsvRow| x@) == want,
            (Err(Error::Csv(m)), Err(want)) => m@ == want,
            _ => false,
        },
{
    match read_table(data) {
        Ok(table) => Ok(rows_from_table(&table.headers, &table.records)),
        Err(CsvFailure::Header(m)) => {
            let mut msg = string_of("reading header: ");
            push_str(&mut msg, m.as_str());
            Err(Error::Csv(msg))
        },
        Err(CsvFailure::Row(i, m)) => {
            let mut msg = string_of("row ");
            push_decimal(&mut msg, (i as u128) + 1);
            push_str(&mut msg, ": ");
            push_str(&mut msg, m.as_str());
            Err(Error::Csv(msg))
        },
    }
}

} // verus!

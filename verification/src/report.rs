//! How sync results are labelled in reports.

use vstd::prelude::*;
use crate::credential::{json_quoted, json_string};
use crate::sync::{Outcome, OutcomeKind, Summary};
use crate::text::{
    decimal, has_substring, lemma_substring_between, line_breaks, lemma_substring_within, push_decimal, push_str,
    string_of,
};

verus! {

/// The label of an outcome in the results table and in JSON.
pub open spec fn label_text(kind: OutcomeKind) -> Seq<char> {
    match kind {
        OutcomeKind::Created => "created"@,
        OutcomeKind::Updated => "updated"@,
        OutcomeKind::Unchanged => "unchanged"@,
        OutcomeKind::SkippedExisting => "exists"@,
        OutcomeKind::Failed(e) => "failed: "@ + e@,
        OutcomeKind::Planned(p) => "would "@ + p@,
    }
}

/// The label of an outcome.
pub fn label(kind: &OutcomeKind) -> (r: String)
    ensures
        r@ == label_text(*kind),
{
    match kind {
        OutcomeKind::Created => string_of("created"),
        OutcomeKind::Updated => string_of("updated"),
        OutcomeKind::Unchanged => string_of("unchanged"),
        OutcomeKind::SkippedExisting => string_of("exists"),
        OutcomeKind::Failed(e) => {
            let mut r = string_of("failed: ");
            push_str(&mut r, e.as_str());
            r
        },
        OutcomeKind::Planned(p) => {
            let mut r = string_of("would ");
            push_str(&mut r, p);
            r
        },
    }
}

/// The closing line of a run: the number of planned changes after a dry
/// run, else the count of each kind of outcome.
pub open spec fn summary_text(s: Summary, dry_run: bool) -> Seq<char> {
    if dry_run {
        "Planned: "@ + decimal(s.planned as nat) + " change(s) across the export (nothing was written)."@
    } else {
        "Done: "@ + decimal(s.created as nat) + " created, "@ + decimal(s.updated as nat)
            + " updated, "@ + decimal(s.unchanged as nat) + " unchanged, "@ + decimal(
            s.skipped_existing as nat,
        ) + " left as-is, "@ + decimal(s.failed as nat) + " failed."@
    }
}

proof fn lemma_windows(
    p0: Seq<char>,
    p1: Seq<char>,
    p2: Seq<char>,
    p3: Seq<char>,
    p4: Seq<char>,
    p5: Seq<char>,
    p6: Seq<char>,
    p7: Seq<char>,
    p8: Seq<char>,
    p9: Seq<char>,
    p10: Seq<char>,
)
    ensures
        ({
            let t = p0 + p1 + p2 + p3 + p4 + p5 + p6 + p7 + p8 + p9 + p10;
            &&& t == p0 + p1 + p2 + (p3 + p4 + p5 + p6 + p7 + p8 + p9 + p10)
            &&& has_substring(t, p2 + p3 + p4)
            &&& has_substring(t, p4 + p5 + p6)
            &&& has_substring(t, p6 + p7 + p8)
            &&& t == (p0 + p1 + p2 + p3 + p4 + p5 + p6 + p7) + p8 + p9 + p10
        }),
{
    let t = p0 + p1 + p2 + p3 + p4 + p5 + p6 + p7 + p8 + p9 + p10;
    assert(t =~= p0 + p1 + p2 + (p3 + p4 + p5 + p6 + p7 + p8 + p9 + p10));
    assert(t =~= (p0 + p1) + (p2 + p3 + p4) + (p5 + p6 + p7 + p8 + p9 + p10));
    lemma_substring_between(p0 + p1, p2 + p3 + p4, p5 + p6 + p7 + p8 + p9 + p10);
    assert(t =~= (p0 + p1 + p2 + p3) + (p4 + p5 + p6) + (p7 + p8 + p9 + p10));
    lemma_substring_between(p0 + p1 + p2 + p3, p4 + p5 + p6, p7 + p8 + p9 + p10);
    assert(t =~= (p0 + p1 + p2 + p3 + p4 + p5) + (p6 + p7 + p8) + (p9 + p10));
    lemma_substring_between(p0 + p1 + p2 + p3 + p4 + p5, p6 + p7 + p8, p9 + p10);
    assert(t =~= (p0 + p1 + p2 + p3 + p4 + p5 + p6 + p7) + p8 + p9 + p10);
}

/// In the closing line of a live run each count stands between the label
/// before it and its own label: the created count right after `Done: `, the
/// updated count before ` updated, `, the unchanged count before
/// ` unchanged, `, the count of logins left as they are before
/// ` left as-is, `, and the failed count before ` failed.`, at the end.
pub proof fn lemma_summary_line_counts(s: Summary)
    ensures
        exists|rest: Seq<char>| summary_text(s, false) == "Done: "@ + decimal(s.created as nat) + " created, "@ + rest,
        has_substring(summary_text(s, false), " created, "@ + decimal(s.updated as nat) + " updated, "@),
        has_substring(summary_text(s, false), " updated, "@ + decimal(s.unchanged as nat) + " unchanged, "@),
        has_substring(summary_text(s, false), " unchanged, "@ + decimal(s.skipped_existing as nat) + " left as-is, "@),
        exists|front: Seq<char>| summary_text(s, false) == front + " left as-is, "@ + decimal(s.failed as nat) + " failed."@,
{
    lemma_windows(
        "Done: "@,
        decimal(s.created as nat),
        " created, "@,
        decimal(s.updated as nat),
        " updated, "@,
        decimal(s.unchanged as nat),
        " unchanged, "@,
        decimal(s.skipped_existing as nat),
        " left as-is, "@,
        decimal(s.failed as nat),
        " failed."@,
    );
}

/// The closing line of a run (see `summary_text`).
pub fn summary_line(s: &Summary, dry_run: bool) -> (r: String)
    ensures
        r@ == summary_text(*s, dry_run),
        dry_run ==> r@ == "Planned: "@ + decimal(s.planned as nat)
            + " change(s) across the export (nothing was written)."@,
        !dry_run ==> {
            &&& (exists|rest: Seq<char>| r@ == "Done: "@ + decimal(s.created as nat) + " created, "@ + rest)
            &&& has_substring(r@, " created, "@ + decimal(s.updated as nat) + " updated, "@)
            &&& has_substring(r@, " updated, "@ + decimal(s.unchanged as nat) + " unchanged, "@)
            &&& has_substring(r@, " unchanged, "@ + decimal(s.skipped_existing as nat) + " left as-is, "@)
            &&& (exists|front: Seq<char>| r@ == front + " left as-is, "@ + decimal(s.failed as nat) + " failed."@)
        },
{
    proof {
        lemma_summary_line_counts(*s);
    }
    if dry_run {
        let mut r = string_of("Planned: ");
        push_decimal(&mut r, s.planned as u128);
        push_str(&mut r, " change(s) across the export (nothing was written).");
        r
    } else {
        let mut r = string_of("Done: ");
        push_decimal(&mut r, s.created as u128);
        push_str(&mut r, " created, ");
        push_decimal(&mut r, s.updated as u128);
        push_str(&mut r, " updated, ");
        push_decimal(&mut r, s.unchanged as u128);
        push_str(&mut r, " unchanged, ");
        push_decimal(&mut r, s.skipped_existing as u128);
        push_str(&mut r, " left as-is, ");
        push_decimal(&mut r, s.failed as u128);
        push_str(&mut r, " failed.");
        r
    }
}

/// The opening line of a run over `count` credentials read from `source`
/// into `vault`.
pub open spec fn intro_text(count: usize, source: Seq<char>, vault: Seq<char>, dry_run: bool) -> Seq<char> {
    "Read "@ + decimal(count as nat) + " credential(s) from "@ + source + ". Target vault: \""@
        + vault + "\""@ + if dry_run {
        " (dry run)."@
    } else {
        "."@
    }
}

/// The opening line of a run (see `intro_text`).
pub fn intro_line(count: usize, source: &str, vault: &str, dry_run: bool) -> (r: String)
    ensures
        r@ == intro_text(count, source@, vault@, dry_run),
{
    let mut r = string_of("Read ");
    push_decimal(&mut r, count as u128);
    push_str(&mut r, " credential(s) from ");
    push_str(&mut r, source);
    push_str(&mut r, ". Target vault: \"");
    push_str(&mut r, vault);
    push_str(&mut r, "\"");
    if dry_run {
        push_str(&mut r, " (dry run).");
    } else {
        push_str(&mut r, ".");
    }
    r
}

// ---------------------------------------------------------------------------
// The results table
// ---------------------------------------------------------------------------

/// What a report shows of an outcome: its label, title, host and username.
/// Nothing else of the credential, its password least of all, is shown.
pub open spec fn item_text(o: Outcome) -> (Seq<char>, Seq<char>, Seq<char>, Seq<char>) {
    (label_text(o.result), o.title@, o.host@, o.username@)
}

/// What a report shows of each outcome, in order (see `item_text`).
pub fn report_items(outcomes: &Vec<Outcome>) -> (r: Vec<(String, String, String, String)>)
    ensures
        r@.len() == outcomes@.len(),
        forall|i: int|
            0 <= i < r@.len() ==> ((#[trigger] r@[i]).0@, r@[i].1@, r@[i].2@, r@[i].3@) == item_text(
                outcomes@[i],
            ),
{
    let mut out: Vec<(String, String, String, String)> = Vec::new();
    let mut i: usize = 0;
    while i < outcomes.len()
        invariant
            i <= outcomes@.len(),
            out@.len() == i,
            forall|k: int|
                0 <= k < i ==> ((#[trigger] out@[k]).0@, out@[k].1@, out@[k].2@, out@[k].3@) == item_text(
                    outcomes@[k],
                ),
        decreases outcomes.len() - i,
    {
        let o = &outcomes[i];
        out.push((label(&o.result), o.title.clone(), o.host.clone(), o.username.clone()));
        i = i + 1;
    }
    out
}

/// The row of the results table for an outcome.
pub open spec fn table_row(o: Outcome) -> Seq<Seq<char>> {
    seq![label_text(o.result), o.title@, o.host@, o.username@]
}

/// The rows of the results table, one per outcome in order; `None` when
/// there is nothing to show.
pub fn table_rows(outcomes: &Vec<Outcome>) -> (r: Option<Vec<Vec<String>>>)
    ensures
        r is None <==> outcomes@.len() == 0,
        r matches Some(rows) ==> rows@.len() == outcomes@.len() && forall|i: int|
            0 <= i < rows@.len() ==> (#[trigger] rows@[i]).deep_view() == table_row(outcomes@[i]),
{
    if outcomes.len() == 0 {
        return None;
    }
    let items = report_items(outcomes);
    let mut rows: Vec<Vec<String>> = Vec::new();
    let mut i: usize = 0;
    while i < items.len()
        invariant
            i <= items@.len(),
            items@.len() == outcomes@.len(),
            forall|k: int|
                0 <= k < items@.len() ==> ((#[trigger] items@[k]).0@, items@[k].1@, items@[k].2@, items@[k].3@)
                    == item_text(outcomes@[k]),
            rows@.len() == i,
            forall|k: int| 0 <= k < i ==> (#[trigger] rows@[k]).deep_view() == table_row(outcomes@[k]),
        decreases items.len() - i,
    {
        let it = &items[i];
        let row = vec![it.0.clone(), it.1.clone(), it.2.clone(), it.3.clone()];
        assert(items@[i as int] == *it);
        assert(row.deep_view() =~= table_row(outcomes@[i as int]));
        rows.push(row);
        i = i + 1;
    }
    Some(rows)
}

/// Renders `header` and `rows` with comfy_table: a `Table` with the
/// `UTF8_FULL` preset and dynamic content arrangement, turned into text by
/// its `Display`, which joins the table's lines with line breaks. The layout
/// follows the width of the terminal, if there is one, so only this is
/// claimed of the text: with a header of at least one column, the header and
/// each row take at least one line each (every cell, even an empty one, has
/// a line), so there are at least as many line breaks as rows.
#[verifier::external_body]
fn render_table(header: Vec<String>, rows: Vec<Vec<String>>) -> (r: String)
    requires
        header@.len() > 0,
    ensures
        line_breaks(r@) >= rows@.len(),
{
    let mut table = comfy_table::Table::new();
    table
        .load_preset(comfy_table::presets::UTF8_FULL)
        .set_content_arrangement(comfy_table::ContentArrangement::Dynamic);
    table.set_header(header);
    for row in rows {
        table.add_row(row);
    }
    table.to_string()
}

/// The results table as text; `None` when there is nothing to show.
pub fn results_table(outcomes: &Vec<Outcome>) -> (r: Option<String>)
    ensures
        r is None <==> outcomes@.len() == 0,
        r matches Some(t) ==> line_breaks(t@) >= outcomes@.len(),
{
    match table_rows(outcomes) {
        None => None,
        Some(rows) => {
            let header = vec![
                string_of("Result"),
                string_of("Title"),
                string_of("Host"),
                string_of("Username"),
            ];
            Some(render_table(header, rows))
        },
    }
}

// ---------------------------------------------------------------------------
// The JSON report
// ---------------------------------------------------------------------------

/// One outcome in the JSON report: an object with the keys `host`, `result`,
/// `title` and `username`, in that order, indented as an element of the
/// `items` array.
pub open spec fn item_json(o: Outcome) -> Seq<char> {
    "    {\n      \"host\": "@ + json_quoted(o.host@) + ",\n      \"result\": "@ + json_quoted(
        label_text(o.result),
    ) + ",\n      \"title\": "@ + json_quoted(o.title@) + ",\n      \"username\": "@
        + json_quoted(o.username@) + "\n    }"@
}

/// The elements of the `items` array, separated by `,` and a line break.
pub open spec fn items_body(os: Seq<Outcome>) -> Seq<char>
    decreases os.len(),
{
    if os.len() == 0 {
        Seq::empty()
    } else if os.len() == 1 {
        item_json(os[0])
    } else {
        items_body(os.drop_last()) + ",\n"@ + item_json(os.last())
    }
}

/// The `items` array: `[]` when it is empty.
pub open spec fn items_json(os: Seq<Outcome>) -> Seq<char> {
    if os.len() == 0 {
        "[]"@
    } else {
        "[\n"@ + items_body(os) + "\n  ]"@
    }
}

/// The `summary` object: each count under its name, names in sorted order.
pub open spec fn summary_json(s: Summary) -> Seq<char> {
    "{\n    \"created\": "@ + decimal(s.created as nat) + ",\n    \"failed\": "@ + decimal(
        s.failed as nat,
    ) + ",\n    \"planned\": "@ + decimal(s.planned as nat) + ",\n    \"skipped_existing\": "@
        + decimal(s.skipped_existing as nat) + ",\n    \"unchanged\": "@ + decimal(
        s.unchanged as nat,
    ) + ",\n    \"updated\": "@ + decimal(s.updated as nat) + "\n  }"@
}

/// The machine-readable report of a run: a JSON object with the outcomes
/// under `items` and the counts under `summary`, keys in sorted order,
/// indented by two spaces per level.
pub open spec fn json_report_text(os: Seq<Outcome>, s: Summary) -> Seq<char> {
    "{\n  \"items\": "@ + items_json(os) + ",\n  \"summary\": "@ + summary_json(s) + "\n}"@
}

fn push_quoted(out: &mut String, s: &str)
    ensures
        final(out)@ == old(out)@ + json_quoted(s@),
{
    let q = json_string(s);
    push_str(out, q.as_str());
}

fn push_item_json(out: &mut String, o: &Outcome)
    ensures
        final(out)@ == old(out)@ + item_json(*o),
{
    let ghost start = out@;
    push_str(out, "    {\n      \"host\": ");
    push_quoted(out, o.host.as_str());
    push_str(out, ",\n      \"result\": ");
    let l = label(&o.result);
    push_quoted(out, l.as_str());
    push_str(out, ",\n      \"title\": ");
    push_quoted(out, o.title.as_str());
    push_str(out, ",\n      \"username\": ");
    push_quoted(out, o.username.as_str());
    push_str(out, "\n    }");
    assert(out@ =~= start + item_json(*o));
}

fn push_count(out: &mut String, key: &str, n: usize)
    ensures
        final(out)@ == old(out)@ + key@ + decimal(n as nat),
{
    push_str(out, key);
    push_decimal(out, n as u128);
}

proof fn lemma_assoc5(a: Seq<char>, b: Seq<char>, c: Seq<char>, d: Seq<char>, e: Seq<char>)
    ensures
        a + b + c + d + e == a + (b + c + d + e),
        a + b + c + d + e == a + b + (c + d + e),
{
    assert(a + b + c + d + e =~= a + (b + c + d + e));
    assert(a + b + c + d + e =~= a + b + (c + d + e));
}

proof fn lemma_items_body_holds(os: Seq<Outcome>, i: int)
    requires
        0 <= i < os.len(),
    ensures
        has_substring(items_body(os), item_json(os[i])),
    decreases os.len(),
{
    if os.len() == 1 {
        lemma_substring_between(Seq::empty(), item_json(os[0]), Seq::empty());
        assert(Seq::<char>::empty() + item_json(os[0]) + Seq::<char>::empty() =~= items_body(os));
    } else if i == os.len() - 1 {
        lemma_substring_between(items_body(os.drop_last()) + ",\n"@, item_json(os.last()), Seq::empty());
        assert(items_body(os.drop_last()) + ",\n"@ + item_json(os.last()) + Seq::<char>::empty()
            =~= items_body(os));
    } else {
        assert(os.drop_last()[i] == os[i]);
        lemma_items_body_holds(os.drop_last(), i);
        lemma_substring_within(Seq::empty(), items_body(os.drop_last()), ",\n"@ + item_json(os.last()), item_json(os[i]));
        assert(Seq::<char>::empty() + items_body(os.drop_last()) + (",\n"@ + item_json(os.last()))
            =~= items_body(os));
    }
}

/// What the JSON report holds, whatever the outcomes and counts: it opens
/// with the `items` array, `[]` when there are no outcomes; each outcome
/// stands in it as an object with its host, its label, its title and its
/// username; and it ends with the `summary` object, in which each count
/// stands under its own key.
pub proof fn lemma_json_report_holds(os: Seq<Outcome>, s: Summary)
    ensures
        exists|rest: Seq<char>| json_report_text(os, s) == "{\n  \"items\": "@ + rest,
        os.len() == 0 ==> (exists|rest: Seq<char>| json_report_text(os, s) == "{\n  \"items\": "@ + "[]"@ + rest),
        exists|front: Seq<char>|
            json_report_text(os, s) == front + ",\n  \"summary\": "@ + ("{\n    \"created\": "@ + decimal(
                s.created as nat,
            ) + ",\n    \"failed\": "@ + decimal(s.failed as nat) + ",\n    \"planned\": "@
                + decimal(s.planned as nat) + ",\n    \"skipped_existing\": "@ + decimal(
                s.skipped_existing as nat,
            ) + ",\n    \"unchanged\": "@ + decimal(s.unchanged as nat)
                + ",\n    \"updated\": "@ + decimal(s.updated as nat) + "\n  }"@) + "\n}"@,
        forall|i: int|
            0 <= i < os.len() ==> has_substring(
                json_report_text(os, s),
                "    {\n      \"host\": "@ + json_quoted(os[i].host@) + ",\n      \"result\": "@ + json_quoted(
                label_text(os[i].result),
            ) + ",\n      \"title\": "@ + json_quoted(os[i].title@) + ",\n      \"username\": "@
                + json_quoted(os[i].username@) + "\n    }"@,
            ),
{
    let t = json_report_text(os, s);
    let head = "{\n  \"items\": "@;
    let mid = ",\n  \"summary\": "@;
    let tail = "\n}"@;
    lemma_assoc5(head, items_json(os), mid, summary_json(s), tail);
    assert forall|i: int| 0 <= i < os.len() implies has_substring(t, item_json(os[i])) by {
        lemma_items_body_holds(os, i);
        lemma_substring_within("[\n"@, items_body(os), "\n  ]"@, item_json(os[i]));
        lemma_substring_within(head, items_json(os), mid + summary_json(s) + tail, item_json(os[i]));
    }
}

/// The machine-readable report of a run (see `json_report_text`).
pub fn json_report(outcomes: &Vec<Outcome>, summary: &Summary) -> (r: String)
    ensures
        r@ == json_report_text(outcomes@, *summary),
            exists|rest: Seq<char>| r@ == "{\n  \"items\": "@ + rest,
        outcomes@.len() == 0 ==> (exists|rest: Seq<char>| r@ == "{\n  \"items\": "@ + "[]"@ + rest),
        exists|front: Seq<char>|
            r@ == front + ",\n  \"summary\": "@ + ("{\n    \"created\": "@ + decimal(
            summary.created as nat,
            ) + ",\n    \"failed\": "@ + decimal(summary.failed as nat) + ",\n    \"planned\": "@
            + decimal(summary.planned as nat) + ",\n    \"skipped_existing\": "@ + decimal(
            summary.skipped_existing as nat,
            ) + ",\n    \"unchanged\": "@ + decimal(summary.unchanged as nat)
            + ",\n    \"updated\": "@ + decimal(summary.updated as nat) + "\n  }"@) + "\n}"@,
        forall|i: int|
            0 <= i < outcomes@.len() ==> has_substring(
            r@,
            "    {\n      \"host\": "@ + json_quoted(outcomes@[i].host@) + ",\n      \"result\": "@ + json_quoted(
            label_text(outcomes@[i].result),
            ) + ",\n      \"title\": "@ + json_quoted(outcomes@[i].title@) + ",\n      \"username\": "@
            + json_quoted(outcomes@[i].username@) + "\n    }"@,
            ),
{
    let mut out = string_of("{\n  \"items\": ");
    let ghost head = out@;
    if outcomes.len() == 0 {
        push_str(&mut out, "[]");
        assert(out@ =~= head + items_json(outcomes@));
    } else {
        push_str(&mut out, "[\n");
        let ghost open = out@;
        let mut i: usize = 0;
        while i < outcomes.len()
            invariant
                i <= outcomes@.len(),
                outcomes@.len() > 0,
                out@ == open + items_body(outcomes@.take(i as int)),
            decreases outcomes.len() - i,
        {
            let ghost before = out@;
            if i > 0 {
                push_str(&mut out, ",\n");
            }
            push_item_json(&mut out, &outcomes[i]);
            proof {
                let t = outcomes@.take(i + 1);
                assert(t.drop_last() =~= outcomes@.take(i as int));
                assert(t.last() == outcomes@[i as int]);
                if i == 0 {
                    assert(items_body(outcomes@.take(0)) =~= Seq::<char>::empty());
                    assert(t[0] == outcomes@[0]);
                    assert(out@ =~= open + items_body(t));
                } else {
                    assert(out@ =~= open + items_body(t));
                }
            }
            i = i + 1;
        }
        assert(outcomes@.take(i as int) =~= outcomes@);
        push_str(&mut out, "\n  ]");
        assert(out@ =~= head + items_json(outcomes@));
    }
    let ghost mid = out@;
    push_str(&mut out, ",\n  \"summary\": ");
    push_count(&mut out, "{\n    \"created\": ", summary.created);
    push_count(&mut out, ",\n    \"failed\": ", summary.failed);
    push_count(&mut out, ",\n    \"planned\": ", summary.planned);
    push_count(&mut out, ",\n    \"skipped_existing\": ", summary.skipped_existing);
    push_count(&mut out, ",\n    \"unchanged\": ", summary.unchanged);
    push_count(&mut out, ",\n    \"updated\": ", summary.updated);
    push_str(&mut out, "\n  }");
    assert(out@ =~= mid + ",\n  \"summary\": "@ + summary_json(*summary));
    push_str(&mut out, "\n}");
    assert(out@ =~= json_report_text(outcomes@, *summary));
    proof {
        lemma_json_report_holds(outcomes@, *summary);
    }
    out
}

} // verus!

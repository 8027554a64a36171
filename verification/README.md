# gpm2op

Catch a 1Password vault up to a Google/Chrome Password Manager export.

`gpm2op` reads a Chrome/Google passwords CSV export and idempotently upserts
each login into 1Password through the official `op` CLI: by default it creates
only the logins that are missing and leaves everything else alone; with
`--update` it also updates passwords that changed.

## Layout

- `src/` — the library, verified with Verus:
  - `text.rs` — string helpers (Unicode trimming, searching, first line,
    decimal numbers) with their models over `Seq<char>`;
  - `chrome.rs` — CSV rows: columns found by header name, short and blank
    rows tolerated;
  - `credential.rs` — normalized credentials, host normalization, identity,
    and the JSON template of a new login;
  - `dedupe.rs` — de-duplication by (host, username), keeping the last
    occurrence, with its laws;
  - `index.rs` — the index of existing logins and how a credential is matched
    against it: by normalized host and case-insensitive username;
  - `op.rs` — `op` items, command lines (no secret is ever an argument) and
    the reading of failures;
  - `sync.rs` — planning, the state of a sync run, outcomes and counts, the
    password-update decision, what follows a run, and the laws that a second
    run creates nothing and, with `--update`, changes nothing;
  - `report.rs`, `error.rs` — outcome labels, the opening and closing lines
    of a run, the results table, the JSON report, and error messages.
- `app/` — the program: command line, files, the `op` subprocess, and
  printing.
- `tests/` — tests of the library.

Calls into `url`, `csv`, `serde_json`, `comfy-table` and `str::to_lowercase` stand behind
small trusted wrappers whose contracts name or state their results.

//! De-duplication of credentials by identity, keeping the last occurrence.

use vstd::prelude::*;
use crate::credential::{identity_of, Credential};

verus! {

// ---------------------------------------------------------------------------
// De-duplication
// ---------------------------------------------------------------------------

/// The position of the first credential of `out` whose identity is `key`.
pub open spec fn identity_pos(out: Seq<Credential>, key: (Seq<char>, Seq<char>)) -> Option<int>
    decreases out.len(),
{
    if out.len() == 0 {
        None
    } else {
        match identity_pos(out.drop_last(), key) {
            Some(k) => Some(k),
            None => if identity_of(out.last()) == key {
                Some(out.len() - 1)
            } else {
                None
            },
        }
    }
}

/// `s` de-duplicated by identity: each credential replaces an earlier one
/// with its identity, in that one's place, or else goes to the end.
pub open spec fn dedupe_spec(s: Seq<Credential>) -> Seq<Credential>
    decreases s.len(),
{
    if s.len() == 0 {
        Seq::empty()
    } else {
        let d = dedupe_spec(s.drop_last());
        let c = s.last();
        match identity_pos(d, identity_of(c)) {
            Some(k) => d.update(k, c),
            None => d.push(c),
        }
    }
}

/// The credential at `j` is the last one of `s` with its identity.
pub open spec fn last_of_identity(s: Seq<Credential>, j: int) -> bool {
    forall|j2: int| j < j2 < s.len() ==> identity_of(#[trigger] s[j2]) != identity_of(s[j])
}

/// The identities of `r` are pairwise distinct.
#[verifier::opaque]
pub open spec fn distinct_identities(r: Seq<Credential>) -> bool {
    forall|a: int, b: int|
        0 <= a < b < r.len() ==> identity_of(#[trigger] r[a]) != identity_of(#[trigger] r[b])
}

/// Every identity of `s` is the identity of a credential of `r`.
#[verifier::opaque]
pub open spec fn covers_identities(r: Seq<Credential>, s: Seq<Credential>) -> bool {
    forall|j: int|
        0 <= j < s.len() ==> exists|k: int|
            0 <= k < r.len() && identity_of(#[trigger] r[k]) == identity_of(#[trigger] s[j])
}

/// Every credential of `r` is the last one in `s` with its identity.
#[verifier::opaque]
pub open spec fn all_last_of_identity(r: Seq<Credential>, s: Seq<Credential>) -> bool {
    forall|k: int|
        0 <= k < r.len() ==> exists|j: int|
            0 <= j < s.len() && #[trigger] r[k] == #[trigger] s[j] && last_of_identity(s, j)
}

/// The credentials of `r` come in the order in which their identities first
/// appear in `s`: before any occurrence of the identity of `r[b]` in `s`,
/// the identity of each earlier `r[a]` has occurred.
#[verifier::opaque]
pub open spec fn in_first_appearance_order(r: Seq<Credential>, s: Seq<Credential>) -> bool {
    forall|a: int, b: int, jb: int|
        #![trigger r[a], r[b], s[jb]]
        0 <= a < b < r.len() && 0 <= jb < s.len() && identity_of(s[jb]) == identity_of(r[b])
            ==> identity_seen_before(s, jb, r[a])
}

/// The identity of `c` occurs in `s` before position `jb`.
pub open spec fn identity_seen_before(s: Seq<Credential>, jb: int, c: Credential) -> bool {
    exists|ja: int| 0 <= ja < jb && identity_of(#[trigger] s[ja]) == identity_of(c)
}

/// `r` is `s` de-duplicated by identity, keeping the last occurrence: its
/// identities are distinct and are exactly those of `s`; each of its
/// credentials is the last one in `s` with its identity; and they come in the
/// order in which their identities first appear in `s`.
pub open spec fn keeps_last(r: Seq<Credential>, s: Seq<Credential>) -> bool {
    &&& distinct_identities(r)
    &&& covers_identities(r, s)
    &&& all_last_of_identity(r, s)
    &&& in_first_appearance_order(r, s)
}

proof fn lemma_identity_pos(out: Seq<Credential>, key: (Seq<char>, Seq<char>))
    ensures
        match identity_pos(out, key) {
            Some(k) => 0 <= k < out.len() && identity_of(out[k]) == key && forall|k2: int|
                0 <= k2 < k ==> identity_of(#[trigger] out[k2]) != key,
            None => forall|k: int| 0 <= k < out.len() ==> identity_of(#[trigger] out[k]) != key,
        },
    decreases out.len(),
{
    if out.len() > 0 {
        lemma_identity_pos(out.drop_last(), key);
        let p = out.drop_last();
        assert(forall|k: int| 0 <= k < p.len() ==> p[k] == out[k]);
    }
}

// One step of de-duplication: `r` is `d` with `c` (the last of `s`) put in
// place `p` of a credential with the same identity, or appended.

proof fn lemma_step_distinct(d: Seq<Credential>, c: Credential, r: Seq<Credential>, p: Option<int>)
    requires
        distinct_identities(d),
        match p {
            Some(k) => 0 <= k < d.len() && identity_of(d[k]) == identity_of(c) && r == d.update(k, c),
            None => r == d.push(c) && forall|k: int| 0 <= k < d.len() ==> identity_of(#[trigger] d[k]) != identity_of(c),
        },
    ensures
        distinct_identities(r),
{
    reveal(distinct_identities);
    assert forall|a: int, b: int| 0 <= a < b < r.len() implies identity_of(#[trigger] r[a])
        != identity_of(#[trigger] r[b]) by {
        if b < d.len() {
            assert(identity_of(r[a]) == identity_of(d[a]));
            assert(identity_of(r[b]) == identity_of(d[b]));
        } else {
            assert(r[b] == c);
            assert(r[a] == d[a]);
        }
    }
}

proof fn lemma_step_covers(s: Seq<Credential>, d: Seq<Credential>, r: Seq<Credential>, p: Option<int>)
    requires
        s.len() > 0,
        covers_identities(d, s.drop_last()),
        match p {
            Some(k) => 0 <= k < d.len() && identity_of(d[k]) == identity_of(s.last()) && r == d.update(k, s.last()),
            None => r == d.push(s.last()),
        },
    ensures
        covers_identities(r, s),
{
    reveal(covers_identities);
    let sp = s.drop_last();
    let n = s.len() - 1;
    assert forall|j: int| 0 <= j < s.len() implies exists|k: int|
        0 <= k < r.len() && identity_of(#[trigger] r[k]) == identity_of(#[trigger] s[j]) by {
        if j < n {
            assert(sp[j] == s[j]);
            let k = choose|k: int|
                0 <= k < d.len() && identity_of(#[trigger] d[k]) == identity_of(#[trigger] sp[j]);
            assert(identity_of(r[k]) == identity_of(d[k]));
        } else {
            match p {
                Some(k) => assert(identity_of(r[k]) == identity_of(s[j])),
                None => assert(r[d.len() as int] == s[j]),
            }
        }
    }
}

proof fn lemma_step_all_last(s: Seq<Credential>, d: Seq<Credential>, r: Seq<Credential>, p: Option<int>)
    requires
        s.len() > 0,
        all_last_of_identity(d, s.drop_last()),
        match p {
            Some(k) => 0 <= k < d.len() && identity_of(d[k]) == identity_of(s.last()) && r == d.update(k, s.last())
                && distinct_identities(d),
            None => r == d.push(s.last()) && forall|k: int| 0 <= k < d.len() ==> identity_of(#[trigger] d[k]) != identity_of(s.last()),
        },
    ensures
        all_last_of_identity(r, s),
{
    reveal(all_last_of_identity);
    let sp = s.drop_last();
    let n = s.len() - 1;
    assert forall|k: int| 0 <= k < r.len() implies exists|j: int|
        0 <= j < s.len() && #[trigger] r[k] == #[trigger] s[j] && last_of_identity(s, j) by {
        if p == Some(k) || k == d.len() {
            assert(r[k] == s[n]);
            assert(last_of_identity(s, n));
        } else {
            let j = choose|j: int|
                0 <= j < sp.len() && #[trigger] d[k] == #[trigger] sp[j] && last_of_identity(sp, j);
            assert(r[k] == d[k]);
            assert(sp[j] == s[j]);
            match p {
                Some(q) => assert(identity_of(d[k]) != identity_of(d[q])) by {
                    reveal(distinct_identities);
                },
                None => {},
            }
            assert forall|j2: int| j < j2 < s.len() implies identity_of(#[trigger] s[j2])
                != identity_of(s[j]) by {
                if j2 < n {
                    assert(s[j2] == sp[j2]);
                }
            }
        }
    }
}

#[verifier::rlimit(60)]
#[verifier::spinoff_prover]
proof fn lemma_step_order_one(
    s: Seq<Credential>,
    d: Seq<Credential>,
    r: Seq<Credential>,
    p: Option<int>,
    a: int,
    b: int,
    jb: int,
) -> (ja: int)
    requires
        s.len() > 0,
        in_first_appearance_order(d, s.drop_last()),
        all_last_of_identity(d, s.drop_last()),
        covers_identities(d, s.drop_last()),
        match p {
            Some(k) => 0 <= k < d.len() && identity_of(d[k]) == identity_of(s.last()) && r == d.update(k, s.last()),
            None => r == d.push(s.last()) && forall|k: int| 0 <= k < d.len() ==> identity_of(#[trigger] d[k]) != identity_of(s.last()),
        },
        0 <= a < b < r.len(),
        0 <= jb < s.len(),
        identity_of(s[jb]) == identity_of(r[b]),
    ensures
        0 <= ja < jb,
        identity_of(s[ja]) == identity_of(r[a]),
{
    let sp = s.drop_last();
    let n = s.len() - 1;
    assert(identity_of(r[a]) == identity_of(d[a]));
    if jb < n && b < d.len() {
        assert(sp[jb] == s[jb]);
        assert(identity_of(r[b]) == identity_of(d[b]));
        assert(identity_of(sp[jb]) == identity_of(d[b]));
        assert(exists|ja: int| 0 <= ja < jb && identity_of(#[trigger] sp[ja]) == identity_of(d[a]))
            by {
            reveal(in_first_appearance_order);
        }
        let ja = choose|ja: int| 0 <= ja < jb && identity_of(#[trigger] sp[ja]) == identity_of(d[a]);
        assert(sp[ja] == s[ja]);
        ja
    } else if jb < n {
        // `r[b]` is the appended credential, whose identity is new
        assert(sp[jb] == s[jb]);
        assert(r[b] == s[n]);
        assert(exists|k: int|
            0 <= k < d.len() && identity_of(#[trigger] d[k]) == identity_of(sp[jb])) by {
            reveal(covers_identities);
        }
        let k = choose|k: int| 0 <= k < d.len() && identity_of(#[trigger] d[k]) == identity_of(sp[jb]);
        assert(identity_of(d[k]) == identity_of(s.last()));
        0
    } else {
        assert(exists|j: int| 0 <= j < sp.len() && d[a] == #[trigger] sp[j] && last_of_identity(sp, j))
            by {
            reveal(all_last_of_identity);
        }
        let ja = choose|j: int| 0 <= j < sp.len() && d[a] == #[trigger] sp[j] && last_of_identity(sp, j);
        assert(sp[ja] == s[ja]);
        ja
    }
}

proof fn lemma_step_order(s: Seq<Credential>, d: Seq<Credential>, r: Seq<Credential>, p: Option<int>)
    requires
        s.len() > 0,
        in_first_appearance_order(d, s.drop_last()),
        all_last_of_identity(d, s.drop_last()),
        covers_identities(d, s.drop_last()),
        match p {
            Some(k) => 0 <= k < d.len() && identity_of(d[k]) == identity_of(s.last()) && r == d.update(k, s.last()),
            None => r == d.push(s.last()) && forall|k: int| 0 <= k < d.len() ==> identity_of(#[trigger] d[k]) != identity_of(s.last()),
        },
    ensures
        in_first_appearance_order(r, s),
{
    reveal(in_first_appearance_order);
    assert forall|a: int, b: int, jb: int|
        #![trigger r[a], r[b], s[jb]]
        0 <= a < b < r.len() && 0 <= jb < s.len() && identity_of(s[jb]) == identity_of(r[b])
        implies identity_seen_before(s, jb, r[a]) by {
        let ja = lemma_step_order_one(s, d, r, p, a, b, jb);
        assert(identity_of(s[ja]) == identity_of(r[a]));
    }
}

/// De-duplicating keeps, for each identity, the last credential that has it,
/// in the place where that identity first appeared.
pub proof fn lemma_dedupe_keeps_last(s: Seq<Credential>)
    ensures
        keeps_last(dedupe_spec(s), s),
    decreases s.len(),
{
    if s.len() > 0 {
        let d = dedupe_spec(s.drop_last());
        let c = s.last();
        let r = dedupe_spec(s);
        lemma_dedupe_keeps_last(s.drop_last());
        lemma_identity_pos(d, identity_of(c));
        let p = identity_pos(d, identity_of(c));
        lemma_step_distinct(d, c, r, p);
        lemma_step_covers(s, d, r, p);
        lemma_step_all_last(s, d, r, p);
        lemma_step_order(s, d, r, p);
    } else {
        assert(dedupe_spec(s) =~= Seq::<Credential>::empty());
        reveal(distinct_identities);
        reveal(covers_identities);
        reveal(all_last_of_identity);
        reveal(in_first_appearance_order);
    }
}

/// Credentials whose identities are already distinct come back from
/// de-duplication unchanged, in the same order.
pub proof fn lemma_dedupe_of_distinct(s: Seq<Credential>)
    requires
        distinct_identities(s),
    ensures
        dedupe_spec(s) == s,
    decreases s.len(),
{
    reveal(distinct_identities);
    if s.len() > 0 {
        let sp = s.drop_last();
        assert forall|a: int, b: int| 0 <= a < b < sp.len() implies identity_of(#[trigger] sp[a])
            != identity_of(#[trigger] sp[b]) by {
            assert(sp[a] == s[a] && sp[b] == s[b]);
        }
        lemma_dedupe_of_distinct(sp);
        lemma_identity_pos(sp, identity_of(s.last()));
        match identity_pos(sp, identity_of(s.last())) {
            Some(k) => {
                assert(identity_of(s[k]) == identity_of(s[s.len() - 1]));
            },
            None => {
                assert(sp.push(s.last()) =~= s);
            },
        }
    }
}

/// De-duplicating twice gives what de-duplicating once gives.
pub proof fn lemma_dedupe_idempotent(s: Seq<Credential>)
    ensures
        dedupe_spec(dedupe_spec(s)) == dedupe_spec(s),
{
    lemma_dedupe_keeps_last(s);
    lemma_dedupe_of_distinct(dedupe_spec(s));
}

/// De-duplicate credentials by (host, username), keeping the last occurrence.
pub fn dedupe(creds: Vec<Credential>) -> (r: Vec<Credential>)
    ensures
        r@ == dedupe_spec(creds@),
        keeps_last(r@, creds@),
{
    let mut keys: Vec<(String, String)> = Vec::new();
    let mut out: Vec<Credential> = Vec::new();
    let mut i: usize = 0;
    while i < creds.len()
        invariant
            i <= creds@.len(),
            out@ == dedupe_spec(creds@.take(i as int)),
            keys@.len() == out@.len(),
            forall|k: int| 0 <= k < keys@.len() ==> (#[trigger] keys@[k].0@, keys@[k].1@) == identity_of(out@[k]),
        decreases creds.len() - i,
    {
        let c = creds[i].clone();
        let key = c.identity();
        let ghost d = out@;
        proof {
            lemma_identity_pos(d, identity_of(c));
            assert(creds@.take(i + 1).drop_last() =~= creds@.take(i as int));
        }
        let mut pos: Option<usize> = None;
        let mut j: usize = 0;
        while j < keys.len()
            invariant
                j <= keys@.len(),
                keys@.len() == d.len(),
                forall|k: int| 0 <= k < keys@.len() ==> (#[trigger] keys@[k].0@, keys@[k].1@) == identity_of(d[k]),
                (key.0@, key.1@) == identity_of(c),
                match pos {
                    Some(p) => p < j && identity_pos(d.take(j as int), identity_of(c)) == Some(p as int),
                    None => identity_pos(d.take(j as int), identity_of(c)) is None,
                },
            decreases keys.len() - j,
        {
            assert(d.take(j + 1).drop_last() =~= d.take(j as int));
            if pos.is_none() && keys[j].0 == key.0 && keys[j].1 == key.1 {
                pos = Some(j);
            }
            j = j + 1;
        }
        assert(d.take(j as int) =~= d);
        match pos {
            Some(p) => {
                out.set(p, c);
            },
            None => {
                keys.push(key);
                out.push(c);
            },
        }
        i = i + 1;
    }
    assert(creds@.take(i as int) =~= creds@);
    proof {
        lemma_dedupe_keeps_last(creds@);
    }
    out
}

} // verus!

//! The index of the logins already in a vault, and how a credential is
//! matched against it: by normalized host and case-insensitive username.

use vstd::prelude::*;
use crate::credential::{cred_host, host_of, spec_host_of, Credential};
use crate::op::{item_username, username_field, OpItem, OpUrl};
use crate::text::{lowercase, to_lowercase};

verus! {

// ---------------------------------------------------------------------------
// The index of existing logins
// ---------------------------------------------------------------------------

/// One indexed login: (normalized host, lowercased username, item id).
pub type EntryText = (Seq<char>, Seq<char>, Seq<char>);

/// The username an item is indexed under: lowercased, empty when it has none.
pub open spec fn indexed_username(it: OpItem) -> Seq<char> {
    lowercase(
        match item_username(it) {
            Some(u) => u,
            None => Seq::empty(),
        },
    )
}

/// The entries of one item: one per URL that has a host, in order.
pub open spec fn url_entries(urls: Seq<OpUrl>, user: Seq<char>, id: Seq<char>) -> Seq<EntryText>
    decreases urls.len(),
{
    if urls.len() == 0 {
        Seq::empty()
    } else {
        let earlier = url_entries(urls.drop_last(), user, id);
        match spec_host_of(urls.last().href@) {
            Some(h) => earlier.push((h, user, id)),
            None => earlier,
        }
    }
}

/// The entries for a list of items, item by item.
pub open spec fn index_entries(items: Seq<OpItem>) -> Seq<EntryText>
    decreases items.len(),
{
    if items.len() == 0 {
        Seq::empty()
    } else {
        let it = items.last();
        index_entries(items.drop_last()) + url_entries(it.urls@, indexed_username(it), it.id@)
    }
}

/// The entries whose host is `h`, in order.
pub open spec fn host_entries(entries: Seq<EntryText>, h: Seq<char>) -> Seq<EntryText>
    decreases entries.len(),
{
    if entries.len() == 0 {
        Seq::empty()
    } else {
        let earlier = host_entries(entries.drop_last(), h);
        if entries.last().0 == h {
            earlier.push(entries.last())
        } else {
            earlier
        }
    }
}

/// The id of the first entry whose username is `want`.
pub open spec fn first_user_match(entries: Seq<EntryText>, want: Seq<char>) -> Option<Seq<char>>
    decreases entries.len(),
{
    if entries.len() == 0 {
        None
    } else {
        match first_user_match(entries.drop_last(), want) {
            Some(id) => Some(id),
            None => if entries.last().1 == want {
                Some(entries.last().2)
            } else {
                None
            },
        }
    }
}

/// The id of the existing login that matches `c`: one on the same host with
/// the same (case-insensitive) username, the first such; or, when `c` has no
/// username and exactly one login exists for its host, that one.
pub open spec fn find_in(entries: Seq<EntryText>, c: Credential) -> Option<Seq<char>> {
    match cred_host(c) {
        None => None,
        Some(h) => {
            let cands = host_entries(entries, h);
            let want = lowercase(c.username@);
            match first_user_match(cands, want) {
                Some(id) => Some(id),
                None => if want.len() == 0 && cands.len() == 1 {
                    Some(cands[0].2)
                } else {
                    None
                },
            }
        },
    }
}

/// Index of existing login items by normalized host, username and id.
pub struct Index {
    entries: Vec<(String, String, String)>,
}

impl Index {
    /// The indexed logins, in the order of the items and of their URLs.
    pub closed spec fn entries(&self) -> Seq<EntryText> {
        self.entries.deep_view()
    }

    /// Index the logins of `items`.
    pub fn build(items: &[OpItem]) -> (r: Index)
        ensures
            r.entries() == index_entries(items@),
    {
        let mut entries: Vec<(String, String, String)> = Vec::new();
        let mut i: usize = 0;
        while i < items.len()
            invariant
                i <= items@.len(),
                entries.deep_view() == index_entries(items@.take(i as int)),
            decreases items.len() - i,
        {
            let it = &items[i];
            let username = match it.username() {
                Some(u) => to_lowercase(u),
                None => to_lowercase(""),
            };
            proof {
                assert(""@ =~= Seq::<char>::empty()) by {
                    reveal_strlit("");
                }
            }
            let ghost before = entries.deep_view();
            let mut j: usize = 0;
            while j < it.urls.len()
                invariant
                    j <= it.urls@.len(),
                    it == &items@[i as int],
                    username@ == indexed_username(*it),
                    entries.deep_view() == before + url_entries(
                        it.urls@.take(j as int),
                        indexed_username(*it),
                        it.id@,
                    ),
                decreases it.urls.len() - j,
            {
                assert(it.urls@.take(j + 1).drop_last() =~= it.urls@.take(j as int));
                let ghost mid = entries.deep_view();
                if let Some(h) = host_of(it.urls[j].href.as_str()) {
                    entries.push((h, username.clone(), it.id.clone()));
                    assert(entries.deep_view() =~= mid.push((h@, username@, it.id@)));
                }
                j = j + 1;
            }
            assert(it.urls@.take(j as int) =~= it.urls@);
            assert(items@.take(i + 1).drop_last() =~= items@.take(i as int));
            i = i + 1;
        }
        assert(items@.take(i as int) =~= items@);
        Index { entries }
    }

    /// Find an existing item id matching this credential's host+username.
    pub fn find(&self, cred: &Credential) -> (r: Option<String>)
        ensures
            r.deep_view() == find_in(self.entries(), *cred),
    {
        let host = match cred.host() {
            Some(h) => h,
            None => return None,
        };
        let want = to_lowercase(cred.username.as_str());
        let ghost es = self.entries.deep_view();
        let mut count: usize = 0;
        let mut first: Option<String> = None;
        let mut matched: Option<String> = None;
        let mut i: usize = 0;
        while i < self.entries.len()
            invariant
                i <= self.entries@.len(),
                es == self.entries.deep_view(),
                count as int == host_entries(es.take(i as int), host@).len(),
                count <= i,
                first.deep_view() == if count > 0 {
                    Some(host_entries(es.take(i as int), host@)[0].2)
                } else {
                    None
                },
                matched.deep_view() == first_user_match(host_entries(es.take(i as int), host@), want@),
            decreases self.entries.len() - i,
        {
            let e = &self.entries[i];
            assert(es[i as int] == (e.0@, e.1@, e.2@));
            assert(es.take(i + 1).drop_last() =~= es.take(i as int));
            if e.0 == host {
                proof {
                    let hp = host_entries(es.take(i as int), host@);
                    let hn = host_entries(es.take(i + 1), host@);
                    assert(hn == hp.push(es[i as int]));
                    assert(hn.drop_last() =~= hp);
                }
                if count == 0 {
                    first = Some(e.2.clone());
                }
                if matched.is_none() && e.1 == want {
                    matched = Some(e.2.clone());
                }
                count = count + 1;
            }
            i = i + 1;
        }
        assert(es.take(i as int) =~= es);
        match matched {
            // Prefer an exact username match on the same host.
            Some(id) => Some(id),
            None => {
                // If the CSV row has no username and exactly one login exists for the
                // host, treat that as the match (avoids a duplicate).
                if want.as_str().is_empty() && count == 1 {
                    first
                } else {
                    None
                }
            },
        }
    }
}

// ---------------------------------------------------------------------------
// Finding existing logins
// ---------------------------------------------------------------------------

/// Some item of `items` is a login for `c`: `c` has a host, one of the
/// item's URLs has that host, and the item is indexed under `c`'s username
/// (case-insensitively).
pub open spec fn has_login(items: Seq<OpItem>, c: Credential) -> bool {
    exists|k: int, u: int|
        0 <= k < items.len() && 0 <= u < items[k].urls@.len() && cred_host(c) is Some
            && spec_host_of((#[trigger] items[k].urls@[u]).href@) == cred_host(c) && indexed_username(
            items[k],
        ) == lowercase(c.username@)
}

/// The login that creating `c` leaves in the vault, as `op item list` shows
/// it: one of its URLs is `c`'s, and it lists `c`'s username (compared
/// case-insensitively).
pub open spec fn is_created_login(it: OpItem, c: Credential) -> bool {
    &&& exists|u: int| 0 <= u < it.urls@.len() && (#[trigger] it.urls@[u]).href@ == c.url@
    &&& indexed_username(it) == lowercase(c.username@)
}

proof fn lemma_url_entries_contain(urls: Seq<OpUrl>, user: Seq<char>, id: Seq<char>, u: int)
    requires
        0 <= u < urls.len(),
        spec_host_of(urls[u].href@) is Some,
    ensures
        url_entries(urls, user, id).contains((spec_host_of(urls[u].href@)->0, user, id)),
    decreases urls.len(),
{
    let e = url_entries(urls, user, id);
    let earlier = url_entries(urls.drop_last(), user, id);
    if u == urls.len() - 1 {
        assert(e == earlier.push((spec_host_of(urls[u].href@)->0, user, id)));
        assert(e[e.len() - 1] == (spec_host_of(urls[u].href@)->0, user, id));
    } else {
        assert(urls.drop_last()[u] == urls[u]);
        lemma_url_entries_contain(urls.drop_last(), user, id, u);
        let j = choose|j: int| 0 <= j < earlier.len() && earlier[j] == (spec_host_of(urls[u].href@)->0, user, id);
        match spec_host_of(urls.last().href@) {
            Some(h) => assert(e[j] == earlier[j]),
            None => assert(e[j] == earlier[j]),
        }
    }
}

proof fn lemma_index_contains(items: Seq<OpItem>, k: int, entry: EntryText)
    requires
        0 <= k < items.len(),
        url_entries(items[k].urls@, indexed_username(items[k]), items[k].id@).contains(entry),
    ensures
        index_entries(items).contains(entry),
    decreases items.len(),
{
    let it = items.last();
    let earlier = index_entries(items.drop_last());
    let mine = url_entries(it.urls@, indexed_username(it), it.id@);
    assert(index_entries(items) == earlier + mine);
    if k == items.len() - 1 {
        let j = choose|j: int| 0 <= j < mine.len() && mine[j] == entry;
        assert((earlier + mine)[earlier.len() + j] == entry);
    } else {
        assert(items.drop_last()[k] == items[k]);
        lemma_index_contains(items.drop_last(), k, entry);
        let j = choose|j: int| 0 <= j < earlier.len() && earlier[j] == entry;
        assert((earlier + mine)[j] == entry);
    }
}

proof fn lemma_host_entries_contain(entries: Seq<EntryText>, h: Seq<char>, entry: EntryText)
    requires
        entries.contains(entry),
        entry.0 == h,
    ensures
        host_entries(entries, h).contains(entry),
    decreases entries.len(),
{
    let earlier = host_entries(entries.drop_last(), h);
    if entries.last() == entry {
        assert(host_entries(entries, h) == earlier.push(entry));
        assert(host_entries(entries, h)[earlier.len() as int] == entry);
    } else {
        let j = choose|j: int| 0 <= j < entries.len() && entries[j] == entry;
        assert(j < entries.len() - 1);
        assert(entries.drop_last()[j] == entry);
        lemma_host_entries_contain(entries.drop_last(), h, entry);
        let i = choose|i: int| 0 <= i < earlier.len() && earlier[i] == entry;
        if entries.last().0 == h {
            assert(host_entries(entries, h)[i] == entry);
        } else {
            assert(host_entries(entries, h)[i] == entry);
        }
    }
}

proof fn lemma_first_user_match_found(entries: Seq<EntryText>, want: Seq<char>, entry: EntryText)
    requires
        entries.contains(entry),
        entry.1 == want,
    ensures
        first_user_match(entries, want) is Some,
    decreases entries.len(),
{
    if entries.last() != entry {
        let j = choose|j: int| 0 <= j < entries.len() && entries[j] == entry;
        assert(j < entries.len() - 1);
        assert(entries.drop_last()[j] == entry);
        lemma_first_user_match_found(entries.drop_last(), want, entry);
    }
}

/// A credential with a host is matched whenever a login for it exists: some
/// item has a URL on the credential's host and the credential's username
/// (compared case-insensitively).
pub proof fn lemma_login_found(items: Seq<OpItem>, c: Credential)
    requires
        cred_host(c) is Some,
        has_login(items, c),
    ensures
        find_in(index_entries(items), c) is Some,
{
    let (k, u) = choose|k: int, u: int|
        0 <= k < items.len() && 0 <= u < items[k].urls@.len() && cred_host(c) is Some
            && spec_host_of((#[trigger] items[k].urls@[u]).href@) == cred_host(c) && indexed_username(
            items[k],
        ) == lowercase(c.username@);
    let it = items[k];
    let h = cred_host(c)->0;
    let entry = (h, indexed_username(it), it.id@);
    lemma_url_entries_contain(it.urls@, indexed_username(it), it.id@, u);
    lemma_index_contains(items, k, entry);
    lemma_host_entries_contain(index_entries(items), h, entry);
    lemma_first_user_match_found(host_entries(index_entries(items), h), lowercase(c.username@), entry);
}

/// The login created for a credential with a host is a login for it.
pub proof fn lemma_created_login_matches(it: OpItem, c: Credential)
    requires
        cred_host(c) is Some,
        is_created_login(it, c),
    ensures
        has_login(seq![it], c),
{
    let u = choose|u: int| 0 <= u < it.urls@.len() && (#[trigger] it.urls@[u]).href@ == c.url@;
    assert(seq![it][0] == it);
    assert(spec_host_of(seq![it][0].urls@[u].href@) == cred_host(c));
}

proof fn lemma_host_entries_from(entries: Seq<EntryText>, h: Seq<char>, i: int)
    requires
        0 <= i < host_entries(entries, h).len(),
    ensures
        host_entries(entries, h)[i].0 == h,
        entries.contains(host_entries(entries, h)[i]),
    decreases entries.len(),
{
    let earlier = host_entries(entries.drop_last(), h);
    if entries.last().0 == h && i == earlier.len() {
        assert(host_entries(entries, h)[i] == entries[entries.len() - 1]);
    } else {
        assert(host_entries(entries, h)[i] == earlier[i]);
        lemma_host_entries_from(entries.drop_last(), h, i);
        let j = choose|j: int| 0 <= j < entries.drop_last().len() && entries.drop_last()[j] == earlier[i];
        assert(entries[j] == earlier[i]);
    }
}

proof fn lemma_first_user_match_from(entries: Seq<EntryText>, want: Seq<char>)
    requires
        first_user_match(entries, want) is Some,
    ensures
        exists|i: int|
            0 <= i < entries.len() && (#[trigger] entries[i]).1 == want && entries[i].2
                == first_user_match(entries, want)->0,
    decreases entries.len(),
{
    match first_user_match(entries.drop_last(), want) {
        Some(id) => {
            lemma_first_user_match_from(entries.drop_last(), want);
            let i = choose|i: int|
                0 <= i < entries.drop_last().len() && (#[trigger] entries.drop_last()[i]).1 == want
                    && entries.drop_last()[i].2 == id;
            assert(entries[i] == entries.drop_last()[i]);
        },
        None => {
            assert(entries[entries.len() - 1].1 == want);
        },
    }
}

/// Different usernames on the same site are separate logins: a credential
/// with a username is only ever matched to a login on its host indexed under
/// that same username (case-insensitively).
pub proof fn lemma_match_has_same_username(entries: Seq<EntryText>, c: Credential)
    requires
        lowercase(c.username@).len() > 0,
        find_in(entries, c) is Some,
    ensures
        entries.contains((cred_host(c)->0, lowercase(c.username@), find_in(entries, c)->0)),
{
    let h = cred_host(c)->0;
    let want = lowercase(c.username@);
    let cands = host_entries(entries, h);
    lemma_first_user_match_from(cands, want);
    let i = choose|i: int|
        0 <= i < cands.len() && (#[trigger] cands[i]).1 == want && cands[i].2 == first_user_match(
            cands,
            want,
        )->0;
    lemma_host_entries_from(entries, h, i);
    assert(cands[i] == (h, want, find_in(entries, c)->0));
}

proof fn lemma_url_entries_from(urls: Seq<OpUrl>, user: Seq<char>, id: Seq<char>, j: int)
    requires
        0 <= j < url_entries(urls, user, id).len(),
    ensures
        url_entries(urls, user, id)[j].1 == user,
        url_entries(urls, user, id)[j].2 == id,
        exists|u: int|
            0 <= u < urls.len() && spec_host_of((#[trigger] urls[u]).href@) == Some(
                url_entries(urls, user, id)[j].0,
            ),
    decreases urls.len(),
{
    let e = url_entries(urls, user, id);
    let earlier = url_entries(urls.drop_last(), user, id);
    if j < earlier.len() {
        assert(e[j] == earlier[j]);
        lemma_url_entries_from(urls.drop_last(), user, id, j);
        let u = choose|u: int|
            0 <= u < urls.drop_last().len() && spec_host_of((#[trigger] urls.drop_last()[u]).href@)
                == Some(earlier[j].0);
        assert(urls[u] == urls.drop_last()[u]);
    } else {
        assert(urls[urls.len() - 1] == urls.last());
    }
}

proof fn lemma_index_from(items: Seq<OpItem>, entry: EntryText)
    requires
        index_entries(items).contains(entry),
    ensures
        exists|k: int, u: int|
            0 <= k < items.len() && 0 <= u < items[k].urls@.len() && spec_host_of(
                (#[trigger] items[k].urls@[u]).href@,
            ) == Some(entry.0) && indexed_username(items[k]) == entry.1,
    decreases items.len(),
{
    let it = items.last();
    let earlier = index_entries(items.drop_last());
    let mine = url_entries(it.urls@, indexed_username(it), it.id@);
    assert(index_entries(items) == earlier + mine);
    let j = choose|j: int| 0 <= j < earlier.len() + mine.len() && (earlier + mine)[j] == entry;
    if j < earlier.len() {
        assert(earlier[j] == entry);
        lemma_index_from(items.drop_last(), entry);
        let (k, u) = choose|k: int, u: int|
            0 <= k < items.drop_last().len() && 0 <= u < items.drop_last()[k].urls@.len()
                && spec_host_of((#[trigger] items.drop_last()[k].urls@[u]).href@) == Some(entry.0)
                && indexed_username(items.drop_last()[k]) == entry.1;
        assert(items[k] == items.drop_last()[k]);
        assert(spec_host_of(items[k].urls@[u].href@) == Some(entry.0));
    } else {
        assert(mine[j - earlier.len()] == entry);
        lemma_url_entries_from(it.urls@, indexed_username(it), it.id@, j - earlier.len());
        let u = choose|u: int| 0 <= u < it.urls@.len() && spec_host_of((#[trigger] it.urls@[u]).href@) == Some(entry.0);
        assert(items[items.len() - 1] == it);
        assert(spec_host_of(items[items.len() - 1].urls@[u].href@) == Some(entry.0));
    }
}

/// A credential is matched only when it has a host, and then only to a login
/// for it, or, when it has no username, to the one login on its host.
pub proof fn lemma_found_is_login(items: Seq<OpItem>, c: Credential)
    requires
        find_in(index_entries(items), c) is Some,
    ensures
        cred_host(c) is Some,
        has_login(items, c) || (lowercase(c.username@).len() == 0 && host_entries(
            index_entries(items),
            cred_host(c)->0,
        ).len() == 1),
{
    let entries = index_entries(items);
    let h = cred_host(c)->0;
    let want = lowercase(c.username@);
    let cands = host_entries(entries, h);
    if first_user_match(cands, want) is Some {
        lemma_first_user_match_from(cands, want);
        let i = choose|i: int|
            0 <= i < cands.len() && (#[trigger] cands[i]).1 == want && cands[i].2 == first_user_match(
                cands,
                want,
            )->0;
        lemma_host_entries_from(entries, h, i);
        lemma_index_from(items, cands[i]);
        let (k, u) = choose|k: int, u: int|
            0 <= k < items.len() && 0 <= u < items[k].urls@.len() && spec_host_of(
                (#[trigger] items[k].urls@[u]).href@,
            ) == Some(cands[i].0) && indexed_username(items[k]) == cands[i].1;
        assert(spec_host_of(items[k].urls@[u].href@) == cred_host(c));
    }
}

} // verus!

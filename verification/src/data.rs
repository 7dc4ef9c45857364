//! The anime data file: what to do with the remote copy, and how a local
//! copy and the remote one are merged, one entry per anime, language and
//! season, the local entries first.
use vstd::prelude::*;
use crate::text::{lowercase, opt_view, to_lowercase};

verus! {

/// The fields of one media entry of the data file that say which anime,
/// language and season it is (each absent when the entry lacks it or it
/// has another JSON type).
pub struct EntryFields {
    pub name: Option<String>,
    pub lang: Option<String>,
    pub season: Option<i64>,
}

/// The mathematical value of `EntryFields`.
pub struct EntryFieldsView {
    pub name: Option<Seq<char>>,
    pub lang: Option<Seq<char>>,
    pub season: Option<i64>,
}

impl View for EntryFields {
    type V = EntryFieldsView;

    open spec fn view(&self) -> EntryFieldsView {
        EntryFieldsView {
            name: opt_view(self.name),
            lang: opt_view(self.lang),
            season: self.season,
        }
    }
}

/// The views of a sequence of entries.
pub open spec fn fields_views(v: Seq<EntryFields>) -> Seq<EntryFieldsView> {
    v.map_values(|e: EntryFields| e@)
}

/// What a data file holds, as far as merging is concerned.
pub enum MediaDoc {
    /// The bytes are not JSON.
    NotJson,
    /// JSON without a `media` array.
    NoMedia,
    /// The entries of the `media` array.
    Media(Vec<EntryFields>),
}

/// The mathematical value of a `MediaDoc`.
pub enum MediaDocView {
    NotJson,
    NoMedia,
    Media(Seq<EntryFieldsView>),
}

impl View for MediaDoc {
    type V = MediaDocView;

    open spec fn view(&self) -> MediaDocView {
        match self {
            MediaDoc::NotJson => MediaDocView::NotJson,
            MediaDoc::NoMedia => MediaDocView::NoMedia,
            MediaDoc::Media(v) => MediaDocView::Media(fields_views(v@)),
        }
    }
}

/// What `serde_json` reads from the bytes of a data file: whether they are
/// JSON, and the name, language and season of each entry of its `media`
/// array.
pub uninterp spec fn media_doc_of(bytes: Seq<u8>) -> MediaDocView;

/// Parses the bytes of a data file with `serde_json::from_slice` and reads,
/// from each entry of the `media` array, the string `name`, the string
/// `lang` and the integer `season`. The result is named `media_doc_of`.
#[verifier::external_body]
pub fn read_media_doc(bytes: &[u8]) -> (r: MediaDoc)
    ensures
        r@ == media_doc_of(bytes@),
{
    let text = |e: &serde_json::Value, k: &str| e.get(k).and_then(|v| v.as_str()).map(|v| v.to_string());
    match serde_json::from_slice::<serde_json::Value>(bytes) {
        Err(_) => MediaDoc::NotJson,
        Ok(v) => match v.get("media").and_then(|m| m.as_array()) {
            None => MediaDoc::NoMedia,
            Some(a) => MediaDoc::Media(a.iter().map(|e| EntryFields {
                name: text(e, "name"),
                lang: text(e, "lang"),
                season: e.get("season").and_then(|s| s.as_i64()),
            }).collect()),
        },
    }
}

/// The key that identifies an entry: its name in lower case, its language
/// and its season (an absent name or language counts as empty, an absent
/// season as 1).
pub open spec fn entry_key(f: EntryFieldsView) -> (Seq<char>, Seq<char>, i64) {
    (
        lowercase(
            match f.name {
                Some(n) => n,
                None => Seq::empty(),
            },
        ),
        match f.lang {
            Some(l) => l,
            None => Seq::empty(),
        },
        match f.season {
            Some(s) => s,
            None => 1,
        },
    )
}

/// The keys of a sequence of entries.
pub open spec fn entry_keys(es: Seq<EntryFieldsView>) -> Seq<(Seq<char>, Seq<char>, i64)> {
    es.map_values(|e: EntryFieldsView| entry_key(e))
}

/// Some entry before position `i` has the key of position `i`.
pub open spec fn seen_before(keys: Seq<(Seq<char>, Seq<char>, i64)>, i: int) -> bool {
    exists|j: int| 0 <= j < i && #[trigger] keys[j] == keys[i]
}

/// The positions among the first `n` whose key no earlier position has, in
/// order.
pub open spec fn firsts(keys: Seq<(Seq<char>, Seq<char>, i64)>, n: nat) -> Seq<int>
    decreases n,
{
    if n == 0 {
        Seq::empty()
    } else {
        let p = firsts(keys, (n - 1) as nat);
        if seen_before(keys, n - 1) {
            p
        } else {
            p.push(n - 1)
        }
    }
}

/// Where a merged entry comes from.
pub enum EntrySource {
    /// The entry at this position of the local file.
    Local(usize),
    /// The entry at this position of the remote file.
    Remote(usize),
}

/// The source of the entry at position `i` of the local entries followed
/// by the remote ones.
pub open spec fn source_of(n_local: nat, i: int) -> EntrySource {
    if i < n_local {
        EntrySource::Local(i as usize)
    } else {
        EntrySource::Remote((i - n_local) as usize)
    }
}

/// The merge: of the local entries followed by the remote ones, each that
/// no earlier entry has the key of, in order.
pub open spec fn merged_sources(local: Seq<EntryFieldsView>, remote: Seq<EntryFieldsView>) -> Seq<
    EntrySource,
> {
    let keys = entry_keys(local + remote);
    firsts(keys, keys.len()).map_values(|i: int| source_of(local.len(), i))
}

/// The key of an entry.
fn key_of(f: &EntryFields) -> (r: (String, String, i64))
    ensures
        (r.0@, r.1@, r.2) == entry_key(f@),
{
    let name = match &f.name {
        Some(n) => to_lowercase(n.as_str()),
        None => to_lowercase(""),
    };
    let lang = match &f.lang {
        Some(l) => l.clone(),
        None => String::new(),
    };
    let season = match f.season {
        Some(s) => s,
        None => 1,
    };
    proof {
        reveal_strlit("");
        assert(""@ =~= Seq::<char>::empty());
    }
    (name, lang, season)
}

/// Some position of `ps`, at or before `j`, has the key of position `j`.
pub open spec fn covered(keys: Seq<(Seq<char>, Seq<char>, i64)>, ps: Seq<int>, j: int) -> bool {
    exists|m: int| 0 <= m < ps.len() && #[trigger] keys[ps[m]] == keys[j] && ps[m] <= j
}

proof fn lemma_firsts(keys: Seq<(Seq<char>, Seq<char>, i64)>, n: nat)
    requires
        n <= keys.len(),
    ensures
        forall|m: int| 0 <= m < firsts(keys, n).len() ==> 0 <= #[trigger] firsts(keys, n)[m] < n,
        forall|m1: int, m2: int|
            0 <= m1 < m2 < firsts(keys, n).len() ==> firsts(keys, n)[m1] < firsts(keys, n)[m2],
        forall|m: int|
            0 <= m < firsts(keys, n).len() ==> !seen_before(keys, #[trigger] firsts(keys, n)[m]),
        forall|j: int| 0 <= j < n ==> #[trigger] covered(keys, firsts(keys, n), j),
    decreases n,
{
    if n > 0 {
        lemma_firsts(keys, (n - 1) as nat);
        let p = firsts(keys, (n - 1) as nat);
        let q = firsts(keys, n);
        let last = n - 1;
        if seen_before(keys, last) {
            assert forall|j: int| 0 <= j < n implies #[trigger] covered(keys, q, j) by {
                if j == last {
                    let w = choose|w: int| 0 <= w < last && #[trigger] keys[w] == keys[last];
                    assert(covered(keys, p, w));
                    let m = choose|m: int| 0 <= m < p.len() && #[trigger] keys[p[m]] == keys[w] && p[m] <= w;
                    assert(keys[q[m]] == keys[j]);
                } else {
                    assert(covered(keys, p, j));
                }
            }
        } else {
            assert(q == p.push(last));
            assert forall|j: int| 0 <= j < n implies #[trigger] covered(keys, q, j) by {
                if j == last {
                    assert(q[p.len() as int] == last);
                    assert(keys[q[p.len() as int]] == keys[j]);
                } else {
                    assert(covered(keys, p, j));
                    let m = choose|m: int| 0 <= m < p.len() && #[trigger] keys[p[m]] == keys[j] && p[m] <= j;
                    assert(q[m] == p[m]);
                    assert(keys[q[m]] == keys[j]);
                }
            }
        }
    }
}

/// Plans the merge of a local data file and a remote one, given as their
/// entries: the sources of the merged entries, in order.
pub fn merge_plan(local: &Vec<EntryFields>, remote: &Vec<EntryFields>) -> (r: Vec<EntrySource>)
    ensures
        r@ == merged_sources(fields_views(local@), fields_views(remote@)),
{
    let ghost all = fields_views(local@) + fields_views(remote@);
    let ghost keys = entry_keys(all);
    let mut ks: Vec<(String, String, i64)> = Vec::new();
    let mut i: usize = 0;
    while i < local.len()
        invariant
            i <= local.len(),
            all == fields_views(local@) + fields_views(remote@),
            keys == entry_keys(all),
            ks@.len() == i,
            forall|m: int| 0 <= m < i ==> (#[trigger] ks@[m].0@, ks@[m].1@, ks@[m].2) == keys[m],
        decreases local.len() - i,
    {
        let k = key_of(&local[i]);
        assert(all[i as int] == local@[i as int]@);
        ks.push(k);
        i = i + 1;
    }
    let mut t: usize = 0;
    while t < remote.len()
        invariant
            t <= remote.len(),
            all == fields_views(local@) + fields_views(remote@),
            keys == entry_keys(all),
            ks@.len() == local.len() + t,
            forall|m: int|
                0 <= m < local.len() + t ==> (#[trigger] ks@[m].0@, ks@[m].1@, ks@[m].2) == keys[m],
        decreases remote.len() - t,
    {
        let k = key_of(&remote[t]);
        assert(all[local.len() + t] == remote@[t as int]@);
        ks.push(k);
        t = t + 1;
    }
    let n = ks.len();
    let mut kept: Vec<usize> = Vec::new();
    let mut out: Vec<EntrySource> = Vec::new();
    let mut i: usize = 0;
    while i < n
        invariant
            i <= n,
            n == ks@.len(),
            n == keys.len(),
            n == local.len() + remote.len(),
            keys == entry_keys(all),
            all == fields_views(local@) + fields_views(remote@),
            forall|m: int| 0 <= m < n ==> (#[trigger] ks@[m].0@, ks@[m].1@, ks@[m].2) == keys[m],
            kept@.len() == firsts(keys, i as nat).len(),
            forall|m: int| 0 <= m < kept@.len() ==> kept@[m] == #[trigger] firsts(keys, i as nat)[m],
            out@ == firsts(keys, i as nat).map_values(|x: int| source_of(local.len() as nat, x)),
        decreases n - i,
    {
        proof {
            lemma_firsts(keys, i as nat);
            assert forall|x: int| 0 <= x < kept@.len() implies 0 <= #[trigger] kept@[x] < i by {
                assert(kept@[x] == firsts(keys, i as nat)[x]);
            }
        }
        let mut m: usize = 0;
        let mut found = false;
        while m < kept.len() && !found
            invariant
                m <= kept.len(),
                i < n,
                n == ks@.len(),
                forall|x: int| 0 <= x < n ==> (#[trigger] ks@[x].0@, ks@[x].1@, ks@[x].2) == keys[x],
                kept@.len() == firsts(keys, i as nat).len(),
                forall|x: int| 0 <= x < kept@.len() ==> kept@[x] == #[trigger] firsts(keys, i as nat)[x],
                forall|x: int| 0 <= x < kept@.len() ==> 0 <= #[trigger] kept@[x] < i,
                found ==> exists|x: int| 0 <= x < kept@.len() && #[trigger] keys[kept@[x] as int] == keys[i as int],
                !found ==> forall|x: int| 0 <= x < m ==> #[trigger] keys[kept@[x] as int] != keys[i as int],
            decreases kept.len() - m + (if found { 0int } else { 1int }),
        {
            let k = kept[m];
            if ks[k].0 == ks[i].0 && ks[k].1 == ks[i].1 && ks[k].2 == ks[i].2 {
                assert(keys[kept@[m as int] as int] == keys[i as int]);
                found = true;
            } else {
                m = m + 1;
            }
        }
        proof {
            if found {
                let x = choose|x: int| 0 <= x < kept@.len() && #[trigger] keys[kept@[x] as int] == keys[i as int];
                assert(keys[kept@[x] as int] == keys[i as int]);
                assert(seen_before(keys, i as int));
            } else {
                assert forall|j: int| 0 <= j < i implies #[trigger] keys[j] != keys[i as int] by {
                    assert(covered(keys, firsts(keys, i as nat), j));
                    let x = choose|x: int|
                        0 <= x < firsts(keys, i as nat).len() && #[trigger] keys[firsts(keys, i as nat)[x]] == keys[j]
                            && firsts(keys, i as nat)[x] <= j;
                    assert(kept@[x] == firsts(keys, i as nat)[x]);
                    assert(keys[kept@[x] as int] != keys[i as int]);
                }
                assert(!seen_before(keys, i as int));
            }
        }
        let ghost before = out@;
        if !found {
            kept.push(i);
            if i < local.len() {
                out.push(EntrySource::Local(i));
            } else {
                out.push(EntrySource::Remote(i - local.len()));
            }
            assert(firsts(keys, (i + 1) as nat) == firsts(keys, i as nat).push(i as int));
            assert(out@ =~= firsts(keys, (i + 1) as nat).map_values(
                |x: int| source_of(local.len() as nat, x),
            ));
        } else {
            assert(firsts(keys, (i + 1) as nat) == firsts(keys, i as nat));
        }
        i = i + 1;
    }
    assert(keys.len() == n);
    out
}

/// The position of a source among the local entries followed by the
/// remote ones.
pub open spec fn source_pos(n_local: nat, s: EntrySource) -> int {
    match s {
        EntrySource::Local(i) => i as int,
        EntrySource::Remote(j) => n_local + j,
    }
}

/// Some merged entry has the key `k`.
pub open spec fn key_kept(
    local: Seq<EntryFieldsView>,
    remote: Seq<EntryFieldsView>,
    k: (Seq<char>, Seq<char>, i64),
) -> bool {
    let ms = merged_sources(local, remote);
    exists|m: int|
        0 <= m < ms.len() && #[trigger] entry_keys(local + remote)[source_pos(local.len(), ms[m])]
            == k
}

/// The merge keeps one entry per key, loses no key of either file, keeps
/// the entries in their order (the local ones first), and when both files
/// have an entry with the same key, keeps the local one.
pub proof fn lemma_merge_laws(local: Seq<EntryFieldsView>, remote: Seq<EntryFieldsView>)
    requires
        local.len() + remote.len() <= usize::MAX,
    ensures
        ({
            let ms = merged_sources(local, remote);
            let keys = entry_keys(local + remote);
            &&& forall|m: int|
                0 <= m < ms.len() ==> 0 <= #[trigger] source_pos(local.len(), ms[m]) < keys.len()
            &&& forall|m1: int, m2: int|
                0 <= m1 < m2 < ms.len() ==> source_pos(local.len(), ms[m1]) < source_pos(
                    local.len(),
                    ms[m2],
                ) && keys[source_pos(local.len(), ms[m1])] != keys[source_pos(local.len(), ms[m2])]
            &&& forall|m: int, i: int|
                0 <= m < ms.len() && ms[m] is Remote && 0 <= i < local.len() ==> keys[source_pos(
                    local.len(),
                    #[trigger] ms[m],
                )] != #[trigger] entry_key(local[i])
        }),
        forall|i: int| 0 <= i < local.len() ==> key_kept(local, remote, #[trigger] entry_key(local[i])),
        forall|j: int|
            0 <= j < remote.len() ==> key_kept(local, remote, #[trigger] entry_key(remote[j])),
{
    let all = local + remote;
    let keys = entry_keys(all);
    let n = keys.len();
    let f = firsts(keys, n);
    let ms = merged_sources(local, remote);
    lemma_firsts(keys, n);
    assert forall|m: int| 0 <= m < ms.len() implies #[trigger] source_pos(local.len(), ms[m]) == f[m] by {
        assert(0 <= f[m] < n);
        assert(ms[m] == source_of(local.len(), f[m]));
    }
    assert forall|m: int, i: int|
        0 <= m < ms.len() && ms[m] is Remote && 0 <= i < local.len() implies keys[source_pos(
        local.len(),
        #[trigger] ms[m],
    )] != #[trigger] entry_key(local[i]) by {
        assert(source_pos(local.len(), ms[m]) == f[m]);
        assert(f[m] >= local.len());
        assert(keys[i] == entry_key(local[i]));
        assert(!seen_before(keys, f[m]));
    }
    assert forall|m1: int, m2: int| 0 <= m1 < m2 < ms.len() implies source_pos(local.len(), ms[m1])
        < source_pos(local.len(), ms[m2]) && keys[source_pos(local.len(), ms[m1])] != keys[source_pos(
        local.len(),
        ms[m2],
    )] by {
        assert(source_pos(local.len(), ms[m1]) == f[m1]);
        assert(source_pos(local.len(), ms[m2]) == f[m2]);
        assert(!seen_before(keys, f[m2]));
    }
    assert forall|i: int| 0 <= i < local.len() implies key_kept(local, remote, #[trigger] entry_key(local[i])) by {
        assert(covered(keys, f, i));
        let m = choose|m: int| 0 <= m < f.len() && #[trigger] keys[f[m]] == keys[i] && f[m] <= i;
        assert(source_pos(local.len(), ms[m]) == f[m]);
        assert(keys[i] == entry_key(local[i]));
        assert(keys[source_pos(local.len(), ms[m])] == entry_key(local[i]));
    }
    assert forall|j: int| 0 <= j < remote.len() implies key_kept(local, remote, #[trigger] entry_key(remote[j])) by {
        let p = local.len() + j;
        assert(covered(keys, f, p));
        let m = choose|m: int| 0 <= m < f.len() && #[trigger] keys[f[m]] == keys[p] && f[m] <= p;
        assert(source_pos(local.len(), ms[m]) == f[m]);
        assert(all[p] == remote[j]);
        assert(keys[source_pos(local.len(), ms[m])] == entry_key(remote[j]));
    }
}

/// The season of an entry, 1 when it has none.
pub open spec fn season_or_one(e: EntryFieldsView) -> i64 {
    match e.season {
        Some(s) => s,
        None => 1,
    }
}

/// The language of an entry, empty when it has none.
pub open spec fn lang_or_empty(e: EntryFieldsView) -> Seq<char> {
    match e.lang {
        Some(l) => l,
        None => Seq::empty(),
    }
}

/// Two entries that differ in season (an absent season counting as 1) or
/// in language (an absent one counting as empty) are different entries.
pub open spec fn distinct_entries(a: EntryFieldsView, b: EntryFieldsView) -> bool {
    season_or_one(a) != season_or_one(b) || lang_or_empty(a) != lang_or_empty(b)
}

/// The `i`-th local entry differs from every local entry before it.
pub open spec fn new_local(local: Seq<EntryFieldsView>, i: int) -> bool {
    forall|k: int| 0 <= k < i ==> distinct_entries(local[k], local[i])
}

/// The `j`-th remote entry differs from every local entry and every remote
/// entry before it.
pub open spec fn new_remote(local: Seq<EntryFieldsView>, remote: Seq<EntryFieldsView>, j: int) -> bool {
    &&& forall|i: int| 0 <= i < local.len() ==> distinct_entries(local[i], remote[j])
    &&& forall|k: int| 0 <= k < j ==> distinct_entries(remote[k], remote[j])
}

/// An entry whose season or language sets it apart from every entry before
/// it (the local entries, then the remote ones) is kept by the merge: a
/// new season or a new language of an anime in the remote file is added,
/// and so is one in the local file.
pub proof fn lemma_new_entries_kept(local: Seq<EntryFieldsView>, remote: Seq<EntryFieldsView>)
    requires
        local.len() + remote.len() <= usize::MAX,
    ensures
        forall|a: EntryFieldsView, b: EntryFieldsView|
            #![trigger entry_key(a), entry_key(b)]
            distinct_entries(a, b) ==> entry_key(a) != entry_key(b),
        forall|i: int|
            0 <= i < local.len() && #[trigger] new_local(local, i) ==> merged_sources(
                local,
                remote,
            ).contains(EntrySource::Local(i as usize)),
        forall|j: int|
            0 <= j < remote.len() && #[trigger] new_remote(local, remote, j) ==> merged_sources(
                local,
                remote,
            ).contains(EntrySource::Remote(j as usize)),
{
    let all = local + remote;
    let keys = entry_keys(all);
    let n = keys.len();
    let f = firsts(keys, n);
    let ms = merged_sources(local, remote);
    lemma_firsts(keys, n);
    assert forall|p: int|
        #![trigger all[p]]
        0 <= p < n && (forall|q: int| 0 <= q < p ==> distinct_entries(all[q], all[p])) implies ms.contains(
        source_of(local.len(), p),
    ) by {
        assert(keys[p] == entry_key(all[p]));
        assert(!seen_before(keys, p)) by {
            if seen_before(keys, p) {
                let q = choose|q: int| 0 <= q < p && #[trigger] keys[q] == keys[p];
                assert(keys[q] == entry_key(all[q]));
                assert(distinct_entries(all[q], all[p]));
            }
        }
        assert(covered(keys, f, p));
        let m = choose|m: int| 0 <= m < f.len() && #[trigger] keys[f[m]] == keys[p] && f[m] <= p;
        if f[m] < p {
            assert(seen_before(keys, p));
        }
        assert(ms[m] == source_of(local.len(), f[m]));
    }
    assert forall|i: int|
        0 <= i < local.len() && #[trigger] new_local(local, i) implies ms.contains(
        EntrySource::Local(i as usize),
    ) by {
        assert forall|q: int| 0 <= q < i implies distinct_entries(all[q], all[i]) by {
            assert(all[q] == local[q] && all[i] == local[i]);
        }
        assert(all[i] == local[i]);
        assert(ms.contains(source_of(local.len(), i)));
        assert(source_of(local.len(), i) == EntrySource::Local(i as usize));
    }
    assert forall|j: int|
        0 <= j < remote.len() && #[trigger] new_remote(local, remote, j) implies ms.contains(
        EntrySource::Remote(j as usize),
    ) by {
        let p = local.len() + j;
        assert(all[p] == remote[j]);
        assert forall|q: int| 0 <= q < p implies distinct_entries(all[q], all[p]) by {
            if q < local.len() {
                assert(all[q] == local[q]);
            } else {
                assert(all[q] == remote[q - local.len()]);
            }
        }
        assert(ms.contains(source_of(local.len(), p)));
        assert(source_of(local.len(), p) == EntrySource::Remote(j as usize));
    }
}

/// The entries that a merge keeps, in order.
pub open spec fn merged_entries(local: Seq<EntryFieldsView>, remote: Seq<EntryFieldsView>) -> Seq<
    EntryFieldsView,
> {
    merged_sources(local, remote).map_values(
        |s: EntrySource| (local + remote)[source_pos(local.len(), s)],
    )
}

proof fn lemma_firsts_prefix(keys: Seq<(Seq<char>, Seq<char>, i64)>, n: nat, k: nat)
    requires
        k <= keys.len(),
        n <= keys.len(),
        forall|i: int| 0 <= i < n ==> !seen_before(keys, i),
        forall|j: int| n <= j < keys.len() ==> seen_before(keys, j),
    ensures
        firsts(keys, k) == Seq::new(if k < n { k } else { n }, |i: int| i),
    decreases k,
{
    if k > 0 {
        lemma_firsts_prefix(keys, n, (k - 1) as nat);
        let p = firsts(keys, (k - 1) as nat);
        if k - 1 < n {
            assert(!seen_before(keys, k - 1));
            assert(p.push(k - 1) =~= Seq::new(k, |i: int| i));
        } else {
            assert(seen_before(keys, k - 1));
        }
    } else {
        assert(firsts(keys, 0) =~= Seq::new(0, |i: int| i));
    }
}

/// Merging is idempotent: merging the same remote file again into what a
/// merge left keeps exactly those entries, in their order, all from the
/// local file.
pub proof fn lemma_merge_idempotent(local: Seq<EntryFieldsView>, remote: Seq<EntryFieldsView>)
    requires
        local.len() + remote.len() <= usize::MAX,
    ensures
        merged_sources(merged_entries(local, remote), remote) == Seq::new(
            merged_entries(local, remote).len(),
            |i: int| EntrySource::Local(i as usize),
        ),
{
    let ms = merged_sources(local, remote);
    let keys1 = entry_keys(local + remote);
    let m = merged_entries(local, remote);
    let keys2 = entry_keys(m + remote);
    lemma_merge_laws(local, remote);
    assert forall|i: int| 0 <= i < m.len() implies keys2[i] == keys1[source_pos(local.len(), ms[i])] by {
        assert((m + remote)[i] == m[i]);
    }
    assert forall|i: int| 0 <= i < m.len() implies !seen_before(keys2, i) by {
        if seen_before(keys2, i) {
            let j = choose|j: int| 0 <= j < i && #[trigger] keys2[j] == keys2[i];
            assert(keys2[j] == keys1[source_pos(local.len(), ms[j])]);
        }
    }
    assert forall|j: int| m.len() <= j < keys2.len() implies seen_before(keys2, j) by {
        let r = j - m.len();
        assert((m + remote)[j] == remote[r]);
        assert(keys2[j] == entry_key(remote[r]));
        assert(key_kept(local, remote, entry_key(remote[r])));
        let mm = choose|mm: int|
            0 <= mm < ms.len() && #[trigger] entry_keys(local + remote)[source_pos(local.len(), ms[mm])]
                == entry_key(remote[r]);
        assert(keys2[mm] == keys1[source_pos(local.len(), ms[mm])]);
        assert(keys2[mm] == keys2[j]);
    }
    lemma_firsts_prefix(keys2, m.len(), keys2.len());
    let f = firsts(keys2, keys2.len());
    assert(f == Seq::new(m.len(), |i: int| i));
    assert(merged_sources(m, remote) =~= Seq::new(m.len(), |i: int| EntrySource::Local(i as usize)));
}

/// What becomes of the data file when the program starts.
pub enum DataRefresh {
    /// Download the remote file and write it in place of the local one.
    Replace,
    /// Download the remote file and merge it into the local one.
    Merge,
}

/// The local file is replaced when it does not exist or a fresh copy is
/// asked for; otherwise the remote file is merged into it.
pub fn refresh_plan(local_exists: bool, overwrite: bool) -> (r: DataRefresh)
    ensures
        (r is Replace) == (!local_exists || overwrite),
        (r is Merge) == (local_exists && !overwrite),
{
    if !local_exists || overwrite {
        DataRefresh::Replace
    } else {
        DataRefresh::Merge
    }
}

/// The entries of a merge: the remote file must be JSON, else nothing is
/// merged (`None`); a local file that is missing, not JSON or without a
/// `media` array counts as one without entries, and so does a remote file
/// without a `media` array.
pub open spec fn merge_inputs(local: Option<Seq<u8>>, remote: Seq<u8>) -> Option<
    (Seq<EntryFieldsView>, Seq<EntryFieldsView>),
> {
    let entries = |d: MediaDocView|
        match d {
            MediaDocView::Media(es) => es,
            _ => Seq::<EntryFieldsView>::empty(),
        };
    if media_doc_of(remote) is NotJson {
        None
    } else {
        Some(
            (
                match local {
                    Some(b) => entries(media_doc_of(b)),
                    None => Seq::empty(),
                },
                entries(media_doc_of(remote)),
            ),
        )
    }
}

/// The entries of a document, none when it has no `media` array.
fn doc_entries(d: MediaDoc) -> (r: Vec<EntryFields>)
    ensures
        fields_views(r@) == (match d@ {
            MediaDocView::Media(es) => es,
            _ => Seq::<EntryFieldsView>::empty(),
        }),
{
    match d {
        MediaDoc::Media(v) => v,
        _ => {
            let v: Vec<EntryFields> = Vec::new();
            assert(fields_views(v@) =~= Seq::<EntryFieldsView>::empty());
            v
        },
    }
}

/// Plans the merge of the bytes of the local data file (`None` when there
/// is none) and those of the remote one: `None` when the remote bytes are
/// not JSON, in which case the local file stays as it is; otherwise the
/// sources of the merged entries.
pub fn plan_data_merge(local: Option<&[u8]>, remote: &[u8]) -> (r: Option<Vec<EntrySource>>)
    ensures
        match merge_inputs(
            match local {
                Some(b) => Some(b@),
                None => None,
            },
            remote@,
        ) {
            None => r is None,
            Some((l, rm)) => (r matches Some(v) && v@ == merged_sources(l, rm)),
        },
{
    let remote_doc = read_media_doc(remote);
    if let MediaDoc::NotJson = remote_doc {
        return None;
    }
    let local_entries = match local {
        Some(b) => doc_entries(read_media_doc(b)),
        None => Vec::new(),
    };
    let remote_entries = doc_entries(remote_doc);
    Some(merge_plan(&local_entries, &remote_entries))
}

} // verus!

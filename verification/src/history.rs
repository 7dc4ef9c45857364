//! The watch history: one entry per anime, newest first, at most ten.
use vstd::prelude::*;
use crate::sorting::{
    covers_range, is_permutation_of_range, lemma_sort_order, occurs, permute, sort_order,
    stable_order
};

verus! {

/// The most entries the history keeps.
pub const MAX_HISTORY: usize = 10;

/// The last episode watched of one anime. The playback position, a number
/// of seconds, is held as the bit pattern of its `f64`.
pub struct HistoryEntry {
    pub name: String,
    pub lang: String,
    pub season: i8,
    pub episode: usize,
    pub timestamp_bits: u64,
    pub updated_at: i64,
}

/// The mathematical value of a `HistoryEntry`.
pub struct HistoryEntryView {
    pub name: Seq<char>,
    pub lang: Seq<char>,
    pub season: i8,
    pub episode: usize,
    pub timestamp_bits: u64,
    pub updated_at: i64,
}

impl View for HistoryEntry {
    type V = HistoryEntryView;

    open spec fn view(&self) -> HistoryEntryView {
        HistoryEntryView {
            name: self.name@,
            lang: self.lang@,
            season: self.season,
            episode: self.episode,
            timestamp_bits: self.timestamp_bits,
            updated_at: self.updated_at,
        }
    }
}

impl HistoryEntry {
    /// A copy of this entry.
    pub fn duplicate(&self) -> (r: Self)
        ensures
            r@ == self@,
    {
        HistoryEntry {
            name: self.name.clone(),
            lang: self.lang.clone(),
            season: self.season,
            episode: self.episode,
            timestamp_bits: self.timestamp_bits,
            updated_at: self.updated_at,
        }
    }
}

/// The watch history.
pub struct WatchHistory {
    pub entries: Vec<HistoryEntry>,
}

/// The views of a sequence of entries.
pub open spec fn entry_views(v: Seq<HistoryEntry>) -> Seq<HistoryEntryView> {
    v.map_values(|e: HistoryEntry| e@)
}

impl View for WatchHistory {
    type V = Seq<HistoryEntryView>;

    open spec fn view(&self) -> Seq<HistoryEntryView> {
        entry_views(self.entries@)
    }
}

/// The index of the first entry for `name`, if any.
pub open spec fn first_named(es: Seq<HistoryEntryView>, name: Seq<char>) -> Option<int>
    decreases es.len(),
{
    if es.len() == 0 {
        None
    } else if es[0].name == name {
        Some(0)
    } else {
        match first_named(es.drop_first(), name) {
            Some(k) => Some(k + 1),
            None => None,
        }
    }
}

proof fn lemma_first_named(es: Seq<HistoryEntryView>, name: Seq<char>)
    ensures
        first_named(es, name) matches Some(k) ==> 0 <= k < es.len() && es[k].name == name
            && forall|j: int| 0 <= j < k ==> es[j].name != name,
        first_named(es, name) is None ==> forall|j: int| 0 <= j < es.len() ==> es[j].name != name,
    decreases es.len(),
{
    if es.len() > 0 {
        lemma_first_named(es.drop_first(), name);
        if es[0].name != name {
            assert forall|j: int| 1 <= j < es.len() implies es[j] == es.drop_first()[j - 1] by {}
        }
    }
}

/// `es` with `e` in place of the first entry of the same anime, or with `e`
/// added at the end when there is none.
pub open spec fn upsert(es: Seq<HistoryEntryView>, e: HistoryEntryView) -> Seq<HistoryEntryView> {
    match first_named(es, e.name) {
        Some(k) => es.update(k, e),
        None => es.push(e),
    }
}

/// The sort keys that put newer entries first.
pub open spec fn recency_keys(es: Seq<HistoryEntryView>) -> Seq<i128> {
    es.map_values(|e: HistoryEntryView| (-(e.updated_at as int)) as i128)
}

/// `es` newest first; entries of the same time keep their order.
pub open spec fn newest_first(es: Seq<HistoryEntryView>) -> Seq<HistoryEntryView> {
    permute(es, sort_order(recency_keys(es)))
}

/// The history after recording `e`: upserted, newest first, cut to the
/// ten newest.
pub open spec fn recorded(es: Seq<HistoryEntryView>, e: HistoryEntryView) -> Seq<
    HistoryEntryView,
> {
    let s = newest_first(upsert(es, e));
    if s.len() > 10 {
        s.take(10)
    } else {
        s
    }
}

/// The entry that records a watch.
pub open spec fn watch_entry(
    name: Seq<char>,
    lang: Seq<char>,
    season: i8,
    episode: usize,
    timestamp_bits: u64,
    now: i64,
) -> HistoryEntryView {
    HistoryEntryView { name, lang, season, episode, timestamp_bits, updated_at: now }
}

impl WatchHistory {
    /// An empty history.
    pub fn new() -> (r: Self)
        ensures
            r@ == Seq::<HistoryEntryView>::empty(),
    {
        WatchHistory { entries: Vec::new() }
    }

    /// Records that `episode` of `name` was watched up to the given position
    /// at time `now`: the anime's entry is replaced (or added), the entries
    /// are put newest first, and only the ten newest are kept.
    pub fn record_watch(
        &mut self,
        name: &str,
        lang: &str,
        season: i8,
        episode: usize,
        timestamp_bits: u64,
        now: i64,
    )
        ensures
            final(self)@ == recorded(
                old(self)@,
                watch_entry(name@, lang@, season, episode, timestamp_bits, now),
            ),
    {
        let ghost e = watch_entry(name@, lang@, season, episode, timestamp_bits, now);
        let ghost es = self@;
        let entry = HistoryEntry {
            name: name.to_owned(),
            lang: lang.to_owned(),
            season,
            episode,
            timestamp_bits,
            updated_at: now,
        };
        let mut k: usize = 0;
        while k < self.entries.len() && !(self.entries[k].name == entry.name)
            invariant
                k <= self.entries.len(),
                es == self@,
                entry@ == e,
                forall|j: int| 0 <= j < k ==> es[j].name != e.name,
            decreases self.entries.len() - k,
        {
            k = k + 1;
        }
        proof {
            lemma_first_named(es, e.name);
            if k < self.entries.len() {
                assert(es[k as int].name == e.name);
                assert(first_named(es, e.name) == Some(k as int));
            } else {
                assert(first_named(es, e.name) is None);
            }
        }
        let mut entries: Vec<HistoryEntry> = Vec::new();
        let mut i: usize = 0;
        while i < self.entries.len()
            invariant
                i <= self.entries.len(),
                es == self@,
                entry_views(entries@) == es.take(i as int),
            decreases self.entries.len() - i,
        {
            let ghost before = entry_views(entries@);
            entries.push(self.entries[i].duplicate());
            assert(entry_views(entries@) =~= before.push(es[i as int]));
            assert(es.take(i + 1) =~= es.take(i as int).push(es[i as int]));
            i = i + 1;
        }
        assert(es.take(es.len() as int) =~= es);
        if k < entries.len() {
            entries.set(k, entry);
            assert(entry_views(entries@) =~= es.update(k as int, e));
        } else {
            entries.push(entry);
            assert(entry_views(entries@) =~= es.push(e));
        }
        let ghost u = upsert(es, e);
        assert(entry_views(entries@) == u);
        let mut keys: Vec<i128> = Vec::new();
        let mut j: usize = 0;
        while j < entries.len()
            invariant
                j <= entries.len(),
                entry_views(entries@) == u,
                keys@ == recency_keys(u).take(j as int),
            decreases entries.len() - j,
        {
            let kk: i128 = -(entries[j].updated_at as i128);
            keys.push(kk);
            assert(recency_keys(u).take(j + 1) =~= recency_keys(u).take(j as int).push(kk));
            j = j + 1;
        }
        assert(recency_keys(u).take(entries.len() as int) =~= recency_keys(u));
        let order = stable_order(&keys);
        let n = if order.len() > MAX_HISTORY {
            MAX_HISTORY
        } else {
            order.len()
        };
        let mut out: Vec<HistoryEntry> = Vec::new();
        let mut t: usize = 0;
        while t < n
            invariant
                t <= n <= order.len(),
                entry_views(entries@) == u,
                keys@ == recency_keys(u),
                order@ == sort_order(keys@),
                is_permutation_of_range(order@, keys@.len()),
                entry_views(out@) == permute(u, order@).take(t as int),
            decreases n - t,
        {
            let ghost before = entry_views(out@);
            let x = order[t];
            out.push(entries[x].duplicate());
            assert(entry_views(out@) =~= before.push(u[x as int]));
            assert(permute(u, order@).take(t + 1) =~= permute(u, order@).take(t as int).push(
                u[x as int],
            ));
            t = t + 1;
        }
        assert(permute(u, order@).len() == order@.len());
        if order.len() <= MAX_HISTORY {
            assert(permute(u, order@).take(n as int) =~= permute(u, order@));
        }
        self.entries = out;
    }
}

/// No two entries are for the same anime.
pub open spec fn one_entry_per_anime(es: Seq<HistoryEntryView>) -> bool {
    forall|i: int, j: int| 0 <= i < j < es.len() ==> es[i].name != es[j].name
}

proof fn lemma_upsert_distinct(es: Seq<HistoryEntryView>, e: HistoryEntryView)
    requires
        one_entry_per_anime(es),
    ensures
        one_entry_per_anime(upsert(es, e)),
        upsert(es, e).len() >= 1,
        exists|p: int| 0 <= p < upsert(es, e).len() && upsert(es, e)[p] == e && forall|q: int|
            0 <= q < upsert(es, e).len() && q != p ==> upsert(es, e)[q] == es[if q < es.len() {
                q
            } else {
                0
            }] && q < es.len(),
{
    lemma_first_named(es, e.name);
    let u = upsert(es, e);
    match first_named(es, e.name) {
        Some(k) => {
            assert forall|i: int, j: int| 0 <= i < j < u.len() implies u[i].name != u[j].name by {
                if i != k && j != k {
                    assert(es[i].name != es[j].name);
                } else if i == k {
                    assert(es[j].name != es[k].name);
                } else {
                    assert(es[i].name != es[k].name);
                }
            }
            assert(u[k] == e);
        },
        None => {
            assert forall|i: int, j: int| 0 <= i < j < u.len() implies u[i].name != u[j].name by {
                if j < es.len() {
                    assert(es[i].name != es[j].name);
                }
            }
            assert(u[es.len() as int] == e);
        },
    }
}

/// Recording a watch keeps the history within ten entries, newest first,
/// with one entry per anime when there was one entry per anime before; and
/// when the watch is newer than every entry, its entry comes first.
pub proof fn lemma_record_watch(es: Seq<HistoryEntryView>, e: HistoryEntryView)
    requires
        es.len() < usize::MAX,
    ensures
        recorded(es, e).len() <= 10,
        forall|i: int, j: int|
            0 <= i < j < recorded(es, e).len() ==> recorded(es, e)[i].updated_at >= recorded(
                es,
                e,
            )[j].updated_at,
        one_entry_per_anime(es) ==> one_entry_per_anime(recorded(es, e)),
        (forall|i: int| 0 <= i < es.len() ==> #[trigger] es[i].updated_at < e.updated_at) ==> (
        recorded(es, e).len() >= 1 && recorded(es, e)[0] == e),
{
    let u = upsert(es, e);
    let keys = recency_keys(u);
    let o = sort_order(keys);
    lemma_first_named(es, e.name);
    assert(u.len() <= es.len() + 1);
    lemma_sort_order(keys);
    let s = permute(u, o);
    assert(s.len() == u.len());
    assert forall|i: int, j: int| 0 <= i < j < s.len() implies s[i].updated_at >= s[j].updated_at by {
        assert(keys[o[i] as int] <= keys[o[j] as int]);
    }
    if one_entry_per_anime(es) {
        lemma_upsert_distinct(es, e);
        assert forall|i: int, j: int| 0 <= i < j < s.len() implies s[i].name != s[j].name by {
            assert(o[i] != o[j]);
            if o[i] < o[j] {
                assert(u[o[i] as int].name != u[o[j] as int].name);
            } else {
                assert(u[o[j] as int].name != u[o[i] as int].name);
            }
        }
    }
    if forall|i: int| 0 <= i < es.len() ==> #[trigger] es[i].updated_at < e.updated_at {
        let p: int = match first_named(es, e.name) {
            Some(k) => k,
            None => es.len() as int,
        };
        assert(u[p] == e);
        assert forall|x: int| 0 <= x < u.len() && x != p implies u[x].updated_at
            < e.updated_at by {
            assert(u[x] == es[x]);
        }
        assert(covers_range(o, u.len()));
        assert(occurs(o, p));
        let q = choose|q: int| 0 <= q < o.len() && o[q] == p;
        if o[0] != p {
            assert(keys[o[0] as int] <= keys[o[q] as int]);
            assert(u[o[0] as int].updated_at < e.updated_at);
        }
        assert(s[0] == e);
    }
}

} // verus!

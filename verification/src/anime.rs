//! The anime catalogue: one `Media` per season, film or OAV of an anime in
//! one language, and the lookups the menus make on it.
use vstd::prelude::*;
use crate::sorting::{is_permutation_of_range, permute, is_sorted_by, is_stable_by, lemma_sort_order, sort_order, stable_order};
use crate::text::{
    alphanumeric, chars_of, is_alphanumeric, join, join_words, lowercase, push_signed_decimal,
    signed_decimal, split_whitespace, string_views, to_lowercase, words,
};

verus! {

/// One season (or film, or OAV) of an anime, in one language, with the
/// links of its episodes.
pub struct Media {
    pub name: String,
    pub lang: String,
    pub season: i8,
    pub media_type: String,
    pub episodes: Vec<String>,
}

/// The mathematical value of a `Media`.
pub struct MediaView {
    pub name: Seq<char>,
    pub lang: Seq<char>,
    pub season: i8,
    pub media_type: Seq<char>,
    pub episodes: Seq<Seq<char>>,
}

impl View for Media {
    type V = MediaView;

    open spec fn view(&self) -> MediaView {
        MediaView {
            name: self.name@,
            lang: self.lang@,
            season: self.season,
            media_type: self.media_type@,
            episodes: string_views(self.episodes@),
        }
    }
}

/// The views of a sequence of media.
pub open spec fn media_views(v: Seq<Media>) -> Seq<MediaView> {
    v.map_values(|m: Media| m@)
}

/// The whole catalogue.
pub struct Medias {
    pub media: Vec<Media>,
}

impl View for Medias {
    type V = Seq<MediaView>;

    open spec fn view(&self) -> Seq<MediaView> {
        media_views(self.media@)
    }
}

/// `s` without the elements equal to the element just before them.
pub open spec fn dedup(s: Seq<Seq<char>>) -> Seq<Seq<char>>
    decreases s.len(),
{
    if s.len() == 0 {
        seq![]
    } else {
        let d = dedup(s.drop_last());
        if d.len() > 0 && d.last() == s.last() {
            d
        } else {
            d.push(s.last())
        }
    }
}

/// A copy of a vector of strings.
pub fn clone_strings(v: &Vec<String>) -> (r: Vec<String>)
    ensures
        string_views(r@) == string_views(v@),
{
    let mut out: Vec<String> = Vec::new();
    let mut i: usize = 0;
    while i < v.len()
        invariant
            i <= v.len(),
            string_views(out@) == string_views(v@).take(i as int),
        decreases v.len() - i,
    {
        let ghost before = string_views(out@);
        out.push(v[i].clone());
        assert(string_views(out@) =~= before.push(v@[i as int]@));
        assert(string_views(v@).take(i + 1) =~= string_views(v@).take(i as int).push(
            v@[i as int]@,
        ));
        i = i + 1;
    }
    assert(string_views(v@).take(v.len() as int) =~= string_views(v@));
    out
}

/// Removes the episodes that repeat the episode just before them.
pub fn dedup_consecutive(episodes: Vec<String>) -> (r: Vec<String>)
    ensures
        string_views(r@) == dedup(string_views(episodes@)),
{
    let mut deduped: Vec<String> = Vec::new();
    let mut i: usize = 0;
    while i < episodes.len()
        invariant
            i <= episodes.len(),
            string_views(deduped@) == dedup(string_views(episodes@).take(i as int)),
        decreases episodes.len() - i,
    {
        let ghost pre = string_views(episodes@).take(i as int);
        let ghost now = string_views(episodes@).take(i + 1);
        assert(now.drop_last() == pre);
        assert(now.last() == episodes@[i as int]@);
        let n = deduped.len();
        if n == 0 || deduped[n - 1] != episodes[i] {
            let ghost before = string_views(deduped@);
            deduped.push(episodes[i].clone());
            assert(string_views(deduped@) =~= before.push(episodes@[i as int]@));
        }
        i = i + 1;
    }
    assert(string_views(episodes@).take(episodes.len() as int) =~= string_views(episodes@));
    deduped
}

/// After deduplication, no episode equals the one just before it.
pub proof fn lemma_dedup_no_repeat(s: Seq<Seq<char>>)
    ensures
        forall|i: int| 0 < i < dedup(s).len() ==> #[trigger] dedup(s)[i] != dedup(s)[i - 1],
    decreases s.len(),
{
    if s.len() > 0 {
        let d = dedup(s.drop_last());
        lemma_dedup_no_repeat(s.drop_last());
        if !(d.len() > 0 && d.last() == s.last()) {
            let r = d.push(s.last());
            assert forall|i: int| 0 < i < r.len() implies #[trigger] r[i] != r[i - 1] by {
                if i < d.len() {
                    assert(r[i] == d[i] && r[i - 1] == d[i - 1]);
                }
            }
        }
    }
}

/// Deduplicating twice gives what deduplicating once gives.
pub proof fn lemma_dedup_idempotent(s: Seq<Seq<char>>)
    ensures
        dedup(dedup(s)) == dedup(s),
{
    lemma_dedup_no_repeat(s);
    lemma_dedup_fixed(dedup(s));
}

proof fn lemma_dedup_fixed(s: Seq<Seq<char>>)
    requires
        forall|i: int| 0 < i < s.len() ==> #[trigger] s[i] != s[i - 1],
    ensures
        dedup(s) == s,
    decreases s.len(),
{
    if s.len() > 0 {
        let t = s.drop_last();
        assert forall|i: int| 0 < i < t.len() implies #[trigger] t[i] != t[i - 1] by {
            assert(t[i] == s[i] && t[i - 1] == s[i - 1]);
        }
        lemma_dedup_fixed(t);
        if s.len() > 1 {
            assert(s[s.len() - 1] != s[s.len() - 2]);
        }
        assert(t.push(s.last()) =~= s);
    }
}

impl Media {
    /// A new media; consecutive duplicate episode links are dropped.
    pub fn new(name: &str, lang: &str, season: i8, media_type: &str, episodes: Vec<String>) -> (r:
        Self)
        ensures
            r@ == (MediaView {
                name: name@,
                lang: lang@,
                season,
                media_type: media_type@,
                episodes: dedup(string_views(episodes@)),
            }),
    {
        Media {
            name: name.to_owned(),
            lang: lang.to_owned(),
            season,
            media_type: media_type.to_owned(),
            episodes: dedup_consecutive(episodes),
        }
    }

    /// A copy of this media.
    pub fn duplicate(&self) -> (r: Self)
        ensures
            r@ == self@,
    {
        Media {
            name: self.name.clone(),
            lang: self.lang.clone(),
            season: self.season,
            media_type: self.media_type.clone(),
            episodes: clone_strings(&self.episodes),
        }
    }

    /// What the season menu shows for this media, as a plain part and a
    /// highlighted part: `film` for a film, `OAV` for an OAV, and otherwise
    /// `saison ` followed by the season number.
    pub fn display_parts(&self) -> (r: (String, String))
        ensures
            r.0@ == display_prefix(self@),
            r.1@ == display_highlight(self@),
    {
        if text_eq(self.media_type.as_str(), "film") {
            (String::new(), "film".to_owned())
        } else if text_eq(self.media_type.as_str(), "oav") {
            (String::new(), "OAV".to_owned())
        } else {
            let mut n = String::new();
            push_signed_decimal(&mut n, self.season as i64);
            ("saison ".to_owned(), n)
        }
    }
}

/// The plain part of a media's menu label.
pub open spec fn display_prefix(m: MediaView) -> Seq<char> {
    if m.media_type == "film"@ || m.media_type == "oav"@ {
        seq![]
    } else {
        "saison "@
    }
}

/// The highlighted part of a media's menu label.
pub open spec fn display_highlight(m: MediaView) -> Seq<char> {
    if m.media_type == "film"@ {
        "film"@
    } else if m.media_type == "oav"@ {
        "OAV"@
    } else {
        signed_decimal(m.season as int)
    }
}

/// Whether two character vectors hold the same characters.
pub fn same_chars(a: &Vec<char>, b: &Vec<char>) -> (r: bool)
    ensures
        r == (a@ == b@),
{
    if a.len() != b.len() {
        return false;
    }
    let mut i: usize = 0;
    while i < a.len()
        invariant
            i <= a.len(),
            a.len() == b.len(),
            forall|j: int| 0 <= j < i ==> a@[j] == b@[j],
        decreases a.len() - i,
    {
        if a[i] != b[i] {
            return false;
        }
        i = i + 1;
    }
    assert(a@ =~= b@);
    true
}

/// Whether two strings hold the same characters.
pub fn text_eq(a: &str, b: &str) -> (r: bool)
    ensures
        r == (a@ == b@),
{
    let x = chars_of(a);
    let y = chars_of(b);
    same_chars(&x, &y)
}

/// The characters of `s` that are alphanumeric or a space, in order.
pub open spec fn keep_name_chars(s: Seq<char>) -> Seq<char>
    decreases s.len(),
{
    if s.len() == 0 {
        seq![]
    } else {
        let r = keep_name_chars(s.drop_last());
        if alphanumeric(s.last()) || s.last() == ' ' {
            r.push(s.last())
        } else {
            r
        }
    }
}

/// The form under which two anime names are compared: lower case, only
/// letters, digits and spaces, and the words separated by one space.
pub open spec fn normalized(name: Seq<char>) -> Seq<char> {
    join(words(keep_name_chars(lowercase(name))), seq![' '])
}

/// Normalizes an anime name for comparison.
pub fn normalize_name(name: &str) -> (r: String)
    ensures
        r@ == normalized(name@),
{
    let lower = to_lowercase(name);
    let cs = chars_of(lower.as_str());
    let mut kept: Vec<char> = Vec::new();
    let mut i: usize = 0;
    while i < cs.len()
        invariant
            i <= cs.len(),
            kept@ == keep_name_chars(cs@.take(i as int)),
        decreases cs.len() - i,
    {
        let c = cs[i];
        let ghost now = cs@.take(i + 1);
        assert(now.drop_last() == cs@.take(i as int));
        assert(now.last() == c);
        if is_alphanumeric(c) || c == ' ' {
            kept.push(c);
        }
        i = i + 1;
    }
    assert(cs@.take(cs.len() as int) == cs@);
    let ws = split_whitespace(&kept);
    join_words(&ws, ' ')
}

/// Whether the name of the `k`-th media normalizes like the name of an
/// earlier one.
pub open spec fn name_seen_before(ms: Seq<MediaView>, k: int) -> bool {
    exists|j: int| 0 <= j < k && normalized(ms[j].name) == normalized(ms[k].name)
}

/// The names of the media whose normalized name has not occurred earlier,
/// in catalogue order.
pub open spec fn distinct_names(ms: Seq<MediaView>) -> Seq<Seq<char>>
    decreases ms.len(),
{
    if ms.len() == 0 {
        seq![]
    } else {
        let r = distinct_names(ms.drop_last());
        if name_seen_before(ms, ms.len() - 1) {
            r
        } else {
            r.push(ms.last().name)
        }
    }
}

/// The media whose normalized name is `q`, in catalogue order.
pub open spec fn matching_seasons(ms: Seq<MediaView>, q: Seq<char>) -> Seq<MediaView>
    decreases ms.len(),
{
    if ms.len() == 0 {
        seq![]
    } else {
        let r = matching_seasons(ms.drop_last(), q);
        if normalized(ms.last().name) == q {
            r.push(ms.last())
        } else {
            r
        }
    }
}

/// Whether `v` holds a string equal to `s`.
pub fn contains_string(v: &Vec<String>, s: &String) -> (r: bool)
    ensures
        r == holds_view(v@, s@),
{
    let mut i: usize = 0;
    while i < v.len()
        invariant
            i <= v.len(),
            forall|t: int| 0 <= t < i ==> v@[t]@ != s@,
        decreases v.len() - i,
    {
        if v[i] == *s {
            return true;
        }
        i = i + 1;
    }
    false
}

/// Whether `v` holds a string whose characters are `x`.
pub open spec fn holds_view(v: Seq<String>, x: Seq<char>) -> bool {
    exists|t: int| 0 <= t < v.len() && #[trigger] v[t]@ == x
}

/// Whether one of the first `i` media has a name that normalizes to `x`.
pub open spec fn normalized_among(ms: Seq<MediaView>, i: int, x: Seq<char>) -> bool {
    exists|j: int| 0 <= j < i && #[trigger] normalized(ms[j].name) == x
}

impl Medias {
    /// The anime names of the catalogue, each normalized name once, under
    /// the spelling of its first media.
    pub fn get_name(&self) -> (r: Vec<String>)
        ensures
            string_views(r@) == distinct_names(self@),
    {
        let mut seen: Vec<String> = Vec::new();
        let mut names: Vec<String> = Vec::new();
        let mut i: usize = 0;
        while i < self.media.len()
            invariant
                i <= self.media.len(),
                string_views(names@) == distinct_names(self@.take(i as int)),
                forall|x: Seq<char>|
                    #![trigger holds_view(seen@, x)]
                    #![trigger normalized_among(self@, i as int, x)]
                    holds_view(seen@, x) == normalized_among(self@, i as int, x),
            decreases self.media.len() - i,
        {
            let ghost ms = self@;
            let ghost now = ms.take(i + 1);
            assert(now.drop_last() == ms.take(i as int));
            assert(now.last() == self.media@[i as int]@);
            let norm = normalize_name(self.media[i].name.as_str());
            let seen_before = contains_string(&seen, &norm);
            proof {
                assert(holds_view(seen@, norm@) == normalized_among(ms, i as int, norm@));
                if name_seen_before(now, i as int) {
                    let j = choose|j: int|
                        0 <= j < i && normalized(now[j].name) == normalized(now[i as int].name);
                    assert(now[j] == ms[j]);
                    assert(normalized(ms[j].name) == norm@);
                    assert(normalized_among(ms, i as int, norm@));
                }
                if normalized_among(ms, i as int, norm@) {
                    let j = choose|j: int| 0 <= j < i && #[trigger] normalized(ms[j].name) == norm@;
                    assert(now[j] == ms[j]);
                    assert(name_seen_before(now, i as int));
                }
            }
            let ghost before_seen = seen@;
            if !seen_before {
                let ghost before_names = string_views(names@);
                names.push(self.media[i].name.clone());
                seen.push(norm);
                assert(string_views(names@) =~= before_names.push(ms[i as int].name));
            }
            assert forall|x: Seq<char>|
                #![trigger holds_view(seen@, x)]
                #![trigger normalized_among(self@, i + 1, x)]
                holds_view(seen@, x) == normalized_among(self@, i + 1, x) by {
                assert(holds_view(before_seen, x) == normalized_among(ms, i as int, x));
                if holds_view(seen@, x) {
                    let t = choose|t: int| 0 <= t < seen@.len() && #[trigger] seen@[t]@ == x;
                    if t < before_seen.len() {
                        assert(before_seen[t] == seen@[t]);
                        assert(holds_view(before_seen, x));
                        let j = choose|j: int| 0 <= j < i && #[trigger] normalized(ms[j].name) == x;
                        assert(normalized_among(ms, i + 1, x));
                    } else {
                        assert(normalized(ms[i as int].name) == x);
                        assert(normalized_among(ms, i + 1, x));
                    }
                }
                if normalized_among(ms, i + 1, x) {
                    let j = choose|j: int| 0 <= j < i + 1 && #[trigger] normalized(ms[j].name) == x;
                    if j < i {
                        assert(normalized_among(ms, i as int, x));
                        let t = choose|t: int|
                            0 <= t < before_seen.len() && #[trigger] before_seen[t]@ == x;
                        assert(seen@[t] == before_seen[t]);
                        assert(holds_view(seen@, x));
                    } else if !seen_before {
                        assert(seen@[before_seen.len() as int]@ == x);
                        assert(holds_view(seen@, x));
                    } else {
                        assert(holds_view(before_seen, norm@));
                        assert(holds_view(seen@, x));
                    }
                }
            }
            i = i + 1;
        }
        assert(self@.take(self.media.len() as int) == self@);
        names
    }

    /// The media whose name normalizes like `name`, in catalogue order.
    pub fn get_seasons_from_str(&self, name: &str) -> (r: Vec<Media>)
        ensures
            media_views(r@) == matching_seasons(self@, normalized(name@)),
    {
        let norm = normalize_name(name);
        let mut out: Vec<Media> = Vec::new();
        let mut i: usize = 0;
        while i < self.media.len()
            invariant
                i <= self.media.len(),
                norm@ == normalized(name@),
                media_views(out@) == matching_seasons(self@.take(i as int), norm@),
            decreases self.media.len() - i,
        {
            let ghost now = self@.take(i + 1);
            assert(now.drop_last() == self@.take(i as int));
            assert(now.last() == self.media@[i as int]@);
            let other = normalize_name(self.media[i].name.as_str());
            if other == norm {
                let ghost before = media_views(out@);
                out.push(self.media[i].duplicate());
                assert(media_views(out@) =~= before.push(self.media@[i as int]@));
            }
            i = i + 1;
        }
        assert(self@.take(self.media.len() as int) == self@);
        out
    }
}

/// Some media of the catalogue has the name `x`.
pub open spec fn names_media(ms: Seq<MediaView>, x: Seq<char>) -> bool {
    exists|k: int| 0 <= k < ms.len() && #[trigger] ms[k].name == x
}

/// Some listed name normalizes to `x`.
pub open spec fn listed(dn: Seq<Seq<char>>, x: Seq<char>) -> bool {
    exists|i: int| 0 <= i < dn.len() && #[trigger] normalized(dn[i]) == x
}

/// The names of the anime menu are each under a different normalized form,
/// each is the name of some media of the catalogue, and every media of the
/// catalogue is listed under its normalized name.
pub proof fn lemma_distinct_names(ms: Seq<MediaView>)
    ensures
        forall|i: int, j: int|
            0 <= i < j < distinct_names(ms).len() ==> normalized(distinct_names(ms)[i]) != normalized(
                distinct_names(ms)[j],
            ),
        forall|i: int|
            0 <= i < distinct_names(ms).len() ==> names_media(ms, #[trigger] distinct_names(ms)[i]),
        forall|k: int| 0 <= k < ms.len() ==> listed(distinct_names(ms), #[trigger] normalized(ms[k].name)),
    decreases ms.len(),
{
    if ms.len() > 0 {
        let p = ms.drop_last();
        let r = distinct_names(p);
        let n = ms.len();
        lemma_distinct_names(p);
        assert forall|j: int| 0 <= j < n - 1 implies #[trigger] p[j] == ms[j] by {}
        let d = distinct_names(ms);
        assert forall|i: int| 0 <= i < d.len() implies names_media(ms, #[trigger] d[i]) by {
            if i < r.len() {
                assert(names_media(p, r[i]));
                let k = choose|k: int| 0 <= k < p.len() && #[trigger] p[k].name == r[i];
                assert(ms[k].name == d[i]);
            } else {
                assert(ms[n - 1].name == d[i]);
            }
        }
        if name_seen_before(ms, n - 1) {
            let j = choose|j: int| 0 <= j < n - 1 && #[trigger] normalized(ms[j].name) == normalized(ms[n - 1].name);
            assert(p[j] == ms[j]);
            assert(listed(r, normalized(p[j].name)));
            assert forall|k: int| 0 <= k < ms.len() implies listed(d, #[trigger] normalized(ms[k].name)) by {
                if k < n - 1 {
                    assert(p[k] == ms[k]);
                    assert(listed(r, normalized(p[k].name)));
                }
            }
        } else {
            assert(d == r.push(ms[n - 1].name));
            assert forall|i: int, j: int| 0 <= i < j < d.len() implies normalized(d[i]) != normalized(d[j]) by {
                if j == d.len() - 1 {
                    assert(names_media(p, r[i]));
                    let k = choose|k: int| 0 <= k < p.len() && #[trigger] p[k].name == r[i];
                    assert(p[k] == ms[k]);
                    assert(normalized(ms[k].name) != normalized(ms[n - 1].name));
                } else {
                    assert(d[i] == r[i] && d[j] == r[j]);
                }
            }
            assert forall|k: int| 0 <= k < ms.len() implies listed(d, #[trigger] normalized(ms[k].name)) by {
                if k < n - 1 {
                    assert(p[k] == ms[k]);
                    assert(listed(r, normalized(p[k].name)));
                    let i = choose|i: int| 0 <= i < r.len() && #[trigger] normalized(r[i]) == normalized(p[k].name);
                    assert(d[i] == r[i]);
                } else {
                    assert(normalized(d[r.len() as int]) == normalized(ms[k].name));
                }
            }
        }
    }
}

proof fn lemma_matching_nonempty(ms: Seq<MediaView>, q: Seq<char>, k: int)
    requires
        0 <= k < ms.len(),
        normalized(ms[k].name) == q,
    ensures
        matching_seasons(ms, q).len() > 0,
    decreases ms.len(),
{
    if k < ms.len() - 1 {
        let p = ms.drop_last();
        assert(p[k] == ms[k]);
        lemma_matching_nonempty(p, q, k);
    }
}

/// Every name that the anime menu lists finds at least one season when it
/// is looked up again.
pub proof fn lemma_listed_names_have_seasons(ms: Seq<MediaView>)
    ensures
        forall|i: int|
            0 <= i < distinct_names(ms).len() ==> #[trigger] matching_seasons(
                ms,
                normalized(distinct_names(ms)[i]),
            ).len() > 0,
{
    lemma_distinct_names(ms);
    assert forall|i: int| 0 <= i < distinct_names(ms).len() implies #[trigger] matching_seasons(
        ms,
        normalized(distinct_names(ms)[i]),
    ).len() > 0 by {
        assert(names_media(ms, distinct_names(ms)[i]));
        let k = choose|k: int| 0 <= k < ms.len() && #[trigger] ms[k].name == distinct_names(ms)[i];
        lemma_matching_nonempty(ms, normalized(distinct_names(ms)[i]), k);
    }
}

/// A media's name normalizes to `q`.
pub open spec fn named(q: Seq<char>) -> spec_fn(MediaView) -> bool {
    |m: MediaView| normalized(m.name) == q
}

/// Looking an anime up gives exactly the media of the catalogue whose name
/// normalizes like the name asked for, in catalogue order: each result
/// normalizes to it, and no such media is left out.
pub proof fn lemma_seasons_of_name(ms: Seq<MediaView>, q: Seq<char>)
    ensures
        matching_seasons(ms, q) == ms.filter(named(q)),
        forall|i: int|
            0 <= i < matching_seasons(ms, q).len() ==> normalized(
                #[trigger] matching_seasons(ms, q)[i].name,
            ) == q,
        forall|k: int|
            0 <= k < ms.len() && normalized(ms[k].name) == q ==> matching_seasons(ms, q).contains(
                #[trigger] ms[k],
            ),
    decreases ms.len(),
{
    if ms.len() > 0 {
        let p = ms.drop_last();
        lemma_seasons_of_name(p, q);
        p.lemma_filter_push(ms.last(), named(q));
        assert(p.push(ms.last()) =~= ms);
    } else {
        assert(ms.filter(named(q)) =~= ms) by {
            reveal(Seq::filter);
        }
    }
    let f = ms.filter(named(q));
    assert forall|i: int| 0 <= i < f.len() implies normalized(#[trigger] f[i].name) == q by {
        ms.lemma_filter_pred(named(q), i);
    }
    assert forall|k: int| 0 <= k < ms.len() && normalized(ms[k].name) == q implies f.contains(
        #[trigger] ms[k],
    ) by {
        ms.lemma_filter_contains(named(q), k);
    }
}

/// The order of the season menu: seasons before films, each group by
/// season number.
pub open spec fn season_key(m: MediaView) -> i128 {
    if m.media_type == "film"@ {
        (1000 + m.season) as i128
    } else {
        m.season as i128
    }
}

/// The keys of the season menu order.
pub open spec fn season_keys(ms: Seq<MediaView>) -> Seq<i128> {
    ms.map_values(|m: MediaView| season_key(m))
}

/// Orders the seasons of one anime for its menu: seasons first, then films,
/// each group by season number, media of equal rank in their given order.
pub fn sort_seasons(seasons: &Vec<Media>) -> (r: Vec<Media>)
    ensures
        media_views(r@) == permute(media_views(seasons@), sort_order(season_keys(media_views(seasons@)))),
{
    let mut keys: Vec<i128> = Vec::new();
    let mut i: usize = 0;
    while i < seasons.len()
        invariant
            i <= seasons.len(),
            keys@ == season_keys(media_views(seasons@)).take(i as int),
        decreases seasons.len() - i,
    {
        let film = text_eq(seasons[i].media_type.as_str(), "film");
        let k: i128 = if film {
            1000i128 + seasons[i].season as i128
        } else {
            seasons[i].season as i128
        };
        keys.push(k);
        assert(season_keys(media_views(seasons@)).take(i + 1) =~= season_keys(
            media_views(seasons@),
        ).take(i as int).push(k));
        i = i + 1;
    }
    assert(season_keys(media_views(seasons@)).take(seasons.len() as int) =~= season_keys(
        media_views(seasons@),
    ));
    let order = stable_order(&keys);
    let mut out: Vec<Media> = Vec::new();
    let mut j: usize = 0;
    while j < order.len()
        invariant
            j <= order.len(),
            keys@ == season_keys(media_views(seasons@)),
            order@ == sort_order(keys@),
            is_permutation_of_range(order@, keys@.len()),
            media_views(out@) == permute(media_views(seasons@), order@.take(j as int)),
        decreases order.len() - j,
    {
        let ghost before = media_views(out@);
        let k = order[j];
        out.push(seasons[k].duplicate());
        assert(media_views(out@) =~= before.push(seasons@[k as int]@));
        assert(permute(media_views(seasons@), order@.take(j + 1)) =~= permute(
            media_views(seasons@),
            order@.take(j as int),
        ).push(seasons@[k as int]@));
        j = j + 1;
    }
    assert(order@.take(order.len() as int) =~= order@);
    out
}

/// The season menu lists every given media once, seasons before films,
/// each group by ascending season number, and media of equal rank in the
/// order they were given.
pub proof fn lemma_season_order(ms: Seq<MediaView>)
    requires
        ms.len() <= usize::MAX,
    ensures
        is_permutation_of_range(sort_order(season_keys(ms)), ms.len()),
        is_sorted_by(sort_order(season_keys(ms)), season_keys(ms)),
        is_stable_by(sort_order(season_keys(ms)), season_keys(ms)),
{
    lemma_sort_order(season_keys(ms));
}

} // verus!

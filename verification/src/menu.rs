//! The choices of the main menu: its labels, the episode lists, where a
//! resumed anime starts, and which seasons a language offers.
use vstd::prelude::*;
use crate::anime::{media_views, text_eq, Media, MediaView};
use crate::text::{
    chars_of, decimal, lemma_text_lt, lowercase, push_decimal, string_views, text_less, text_lt,
    to_lowercase,
};

verus! {

/// The label of the MyAnimeList entry of the main menu.
pub open spec fn mal_label_of(logged_in: bool) -> Seq<char> {
    if logged_in {
        ">>> MAL connecté <<<"@
    } else {
        ">>> Connexion MAL <<<"@
    }
}

/// The label of the MyAnimeList entry, by whether the user is logged in.
pub fn mal_menu_label(logged_in: bool) -> (r: String)
    ensures
        r@ == mal_label_of(logged_in),
{
    if logged_in {
        String::from_str(">>> MAL connecté <<<")
    } else {
        String::from_str(">>> Connexion MAL <<<")
    }
}

/// The title of the recent-history part of the main menu.
pub fn history_heading() -> (r: &'static str)
    ensures
        r@ == "─── Récemment regardés ───"@,
{
    "─── Récemment regardés ───"
}

/// The line that closes the recent-history part of the main menu.
pub fn history_separator() -> (r: &'static str)
    ensures
        r@ == "───────────────────────"@,
{
    "───────────────────────"
}

/// How many history entries the main menu shows.
pub const RECENT_SHOWN: usize = 3;

/// The label of a history entry: the anime, the episode, and the position
/// reached (already written as a time).
pub open spec fn history_label_of(name: Seq<char>, episode: nat, time: Seq<char>) -> Seq<char> {
    "↪ "@ + name + " - Ép."@ + decimal(episode) + " ("@ + time + ")"@
}

/// Builds the label of a history entry.
pub fn history_label(name: &str, episode: usize, time: &str) -> (r: String)
    ensures
        r@ == history_label_of(name@, episode as nat, time@),
{
    let mut out = String::from_str("↪ ");
    out.append(name);
    out.append(" - Ép.");
    push_decimal(&mut out, episode as u64);
    out.append(" (");
    out.append(time);
    out.append(")");
    out
}

/// The label of episode `i` (counted from 1) in the episode menus.
pub open spec fn episode_label_of(i: nat) -> Seq<char> {
    "Épisode "@ + decimal(i)
}

/// The labels of the episode menus: `Épisode 1` to `Épisode n`.
pub fn episode_labels(n: usize) -> (r: Vec<String>)
    ensures
        r@.len() == n,
        forall|k: int| 0 <= k < n ==> (#[trigger] r@[k])@ == episode_label_of((k + 1) as nat),
{
    let mut v: Vec<String> = Vec::new();
    let mut i: usize = 0;
    while i < n
        invariant
            i <= n,
            v@.len() == i,
            forall|k: int| 0 <= k < i ==> (#[trigger] v@[k])@ == episode_label_of((k + 1) as nat),
        decreases n - i,
    {
        let mut label = String::from_str("Épisode ");
        push_decimal(&mut label, (i + 1) as u64);
        v.push(label);
        i = i + 1;
    }
    v
}

/// The episode that the episode menu starts on, as an index: the one after
/// the history's (counted from 1), at most the last; the first without
/// history.
pub open spec fn resume_index_of(history_episode: Option<usize>, n: usize) -> int {
    match history_episode {
        Some(e) => if e - 1 <= n - 1 {
            e - 1
        } else {
            n - 1
        },
        None => 0,
    }
}

/// Where the episode menu of a resumed anime starts. An episode of the
/// history is counted from 1, and there is at least one episode.
pub fn resume_index(history_episode: Option<usize>, n: usize) -> (r: usize)
    requires
        history_episode matches Some(e) ==> e >= 1 && n >= 1,
    ensures
        r == resume_index_of(history_episode, n),
{
    match history_episode {
        Some(e) => {
            if e - 1 <= n - 1 {
                e - 1
            } else {
                n - 1
            }
        },
        None => 0,
    }
}

/// Whether some media is in the language `lang`.
pub open spec fn has_lang_of(ms: Seq<MediaView>, lang: Seq<char>) -> bool {
    exists|i: int| 0 <= i < ms.len() && (#[trigger] ms[i]).lang == lang
}

/// Whether some media of a list is in the given language.
pub fn has_lang(seasons: &Vec<Media>, lang: &str) -> (r: bool)
    ensures
        r == has_lang_of(media_views(seasons@), lang@),
{
    let mut i: usize = 0;
    while i < seasons.len()
        invariant
            i <= seasons.len(),
            forall|k: int| 0 <= k < i ==> (#[trigger] seasons@[k])@.lang != lang@,
        decreases seasons.len() - i,
    {
        if text_eq(seasons[i].lang.as_str(), lang) {
            assert(media_views(seasons@)[i as int].lang == lang@);
            return true;
        }
        i = i + 1;
    }
    assert forall|k: int| 0 <= k < seasons@.len() implies (#[trigger] media_views(seasons@)[k]).lang
        != lang@ by {
        assert(media_views(seasons@)[k] == seasons@[k]@);
    }
    false
}

/// A media is in the language `lang`, compared in lower case.
pub open spec fn lang_is(lang: Seq<char>) -> spec_fn(MediaView) -> bool {
    |m: MediaView| m.lang == lowercase(lang)
}

/// The media of a list whose language is `lang` in lower case, in order.
pub open spec fn in_lang(ms: Seq<MediaView>, lang: Seq<char>) -> Seq<MediaView> {
    ms.filter(lang_is(lang))
}

/// The seasons offered in the chosen language (compared in lower case).
pub fn seasons_in_lang(seasons: &Vec<Media>, lang: &str) -> (r: Vec<Media>)
    ensures
        media_views(r@) == in_lang(media_views(seasons@), lang@),
{
    let want = to_lowercase(lang);
    let mut out: Vec<Media> = Vec::new();
    let mut i: usize = 0;
    while i < seasons.len()
        invariant
            i <= seasons.len(),
            want@ == lowercase(lang@),
            media_views(out@) == in_lang(media_views(seasons@).take(i as int), lang@),
        decreases seasons.len() - i,
    {
        let ghost pre = media_views(seasons@).take(i as int);
        assert(media_views(seasons@).take(i + 1) =~= pre.push(seasons@[i as int]@));
        proof {
            pre.lemma_filter_push(seasons@[i as int]@, lang_is(lang@));
        }
        if seasons[i].lang == want {
            let ghost before = media_views(out@);
            out.push(seasons[i].duplicate());
            assert(media_views(out@) =~= before.push(seasons@[i as int]@));
        }
        i = i + 1;
    }
    assert(media_views(seasons@).take(seasons.len() as int) =~= media_views(seasons@));
    out
}

/// The first position at or after `i` of a media of season `t`.
pub open spec fn first_season_from(ms: Seq<MediaView>, t: i8, i: int) -> Option<int>
    decreases ms.len() - i,
{
    if i < 0 || i >= ms.len() {
        None
    } else if ms[i].season == t {
        Some(i)
    } else {
        first_season_from(ms, t, i + 1)
    }
}

/// The season that a resumed anime starts on: the first with the season of
/// the history (season 1 when the history gives none), else the first.
pub open spec fn history_season_index_of(ms: Seq<MediaView>, target: Option<i8>) -> int {
    let t = match target {
        Some(s) => s,
        None => 1,
    };
    match first_season_from(ms, t, 0) {
        Some(k) => k,
        None => 0,
    }
}

/// Picks the season a resumed anime starts on.
pub fn history_season_index(seasons: &Vec<Media>, target: Option<i8>) -> (r: usize)
    ensures
        r == history_season_index_of(media_views(seasons@), target),
{
    let t: i8 = match target {
        Some(s) => s,
        None => 1,
    };
    let ghost ms = media_views(seasons@);
    let mut i: usize = 0;
    while i < seasons.len()
        invariant
            i <= seasons.len(),
            ms == media_views(seasons@),
            first_season_from(ms, t, 0) == first_season_from(ms, t, i as int),
            t == (match target {
                Some(s) => s,
                None => 1i8,
            }),
        decreases seasons.len() - i,
    {
        assert(ms[i as int] == seasons@[i as int]@);
        if seasons[i].season == t {
            return i;
        }
        i = i + 1;
    }
    0
}

/// Whether a season is the last of the season menu: its number is that of
/// the last entry.
pub fn is_last_season(seasons: &Vec<Media>, season: i8) -> (r: bool)
    requires
        seasons.len() > 0,
    ensures
        r == (season == seasons@.last().season),
{
    season == seasons[seasons.len() - 1].season
}

/// Texts in ascending order (equal texts side by side).
pub open spec fn texts_sorted(s: Seq<Seq<char>>) -> bool {
    forall|i: int, j: int| 0 <= i < j < s.len() ==> !text_lt(#[trigger] s[j], #[trigger] s[i])
}

/// Puts names in ascending order, as the anime menu lists them.
pub fn sort_texts(v: Vec<String>) -> (r: Vec<String>)
    ensures
        texts_sorted(string_views(r@)),
        string_views(r@).to_multiset() == string_views(v@).to_multiset(),
{
    let mut out: Vec<String> = Vec::new();
    let mut i: usize = 0;
    assert(string_views(v@).take(0).to_multiset() =~= string_views(out@).to_multiset()) by {
        assert(string_views(v@).take(0) =~= string_views(out@));
    }
    while i < v.len()
        invariant
            i <= v.len(),
            texts_sorted(string_views(out@)),
            string_views(out@).to_multiset() == string_views(v@).take(i as int).to_multiset(),
        decreases v.len() - i,
    {
        let x = v[i].clone();
        let xc = chars_of(x.as_str());
        let mut k: usize = 0;
        while k < out.len() && !text_less(&xc, &chars_of(out[k].as_str()))
            invariant
                k <= out.len(),
                xc@ == x@,
                forall|m: int| 0 <= m < k ==> !text_lt(x@, #[trigger] string_views(out@)[m]),
            decreases out.len() - k,
        {
            k = k + 1;
        }
        let ghost before = string_views(out@);
        proof {
            assert forall|p: int, q: int|
                0 <= p < q < before.insert(k as int, x@).len() implies !text_lt(
                #[trigger] before.insert(k as int, x@)[q],
                #[trigger] before.insert(k as int, x@)[p],
            ) by {
                let n = before.insert(k as int, x@);
                if p == k {
                    let y = before[q - 1];
                    assert(n[q] == y);
                    assert(text_lt(x@, before[k as int]));
                    lemma_text_lt(y, x@, before[k as int]);
                    if q - 1 > k {
                        assert(!text_lt(before[q - 1], before[k as int]));
                    }
                } else if q == k {
                    assert(n[p] == before[p]);
                } else if q < k {
                    assert(n[p] == before[p] && n[q] == before[q]);
                } else if p < k {
                    assert(n[p] == before[p] && n[q] == before[q - 1]);
                } else {
                    assert(n[p] == before[p - 1] && n[q] == before[q - 1]);
                }
            }
            vstd::seq_lib::to_multiset_insert(before, k as int, x@);
            vstd::seq_lib::to_multiset_build(string_views(v@).take(i as int), x@);
            assert(string_views(v@).take(i + 1) =~= string_views(v@).take(i as int).push(x@));
        }
        out.insert(k, x);
        assert(string_views(out@) =~= before.insert(k as int, v@[i as int]@));
        i = i + 1;
    }
    assert(string_views(v@).take(v.len() as int) =~= string_views(v@));
    out
}

/// The menus of a session, from the outermost.
pub enum Screen {
    /// The list of anime.
    Main,
    /// The choice between VF and VOSTFR.
    Language,
    /// The choice of a season or film.
    Season,
    /// The choice between downloading and watching.
    Action,
    /// The choice of episodes.
    Episodes,
}

/// How deep a menu is.
pub open spec fn depth(s: Screen) -> nat {
    match s {
        Screen::Main => 0,
        Screen::Language => 1,
        Screen::Season => 2,
        Screen::Action => 3,
        Screen::Episodes => 4,
    }
}

/// Where Escape leads from a menu (`None`: the program ends). `vf` tells
/// whether the anime has a VF, `can_change_lang` whether the language menu
/// is offered (a VF, and not resumed from the history), `single_season`
/// whether the season menu was skipped for want of choice. Menus that offer
/// no choice are skipped on the way back.
pub open spec fn back_of(s: Screen, vf: bool, can_change_lang: bool, single_season: bool) -> Option<
    Screen,
> {
    match s {
        Screen::Main => None,
        Screen::Language => Some(Screen::Main),
        Screen::Season => if can_change_lang {
            Some(Screen::Language)
        } else {
            Some(Screen::Main)
        },
        Screen::Action => if single_season {
            if can_change_lang {
                Some(Screen::Language)
            } else {
                Some(Screen::Main)
            }
        } else if vf {
            Some(Screen::Season)
        } else {
            Some(Screen::Main)
        },
        Screen::Episodes => Some(Screen::Action),
    }
}

/// Where Escape leads from a menu.
pub fn back_from(s: Screen, vf: bool, can_change_lang: bool, single_season: bool) -> (r: Option<
    Screen,
>)
    ensures
        r == back_of(s, vf, can_change_lang, single_season),
{
    match s {
        Screen::Main => None,
        Screen::Language => Some(Screen::Main),
        Screen::Season => {
            if can_change_lang {
                Some(Screen::Language)
            } else {
                Some(Screen::Main)
            }
        },
        Screen::Action => {
            if single_season {
                if can_change_lang {
                    Some(Screen::Language)
                } else {
                    Some(Screen::Main)
                }
            } else if vf {
                Some(Screen::Season)
            } else {
                Some(Screen::Main)
            }
        },
        Screen::Episodes => Some(Screen::Action),
    }
}

/// Escape always leads to an outer menu, so that at most four presses reach
/// the list of anime, and a fifth ends the program.
pub proof fn lemma_back_goes_out(s: Screen, vf: bool, can_change_lang: bool, single_season: bool)
    ensures
        s is Main <==> back_of(s, vf, can_change_lang, single_season) is None,
        back_of(s, vf, can_change_lang, single_season) matches Some(t) ==> depth(t) < depth(s),
{
}

} // verus!

//! Downloads and playback: the folder and file names of downloads, what a
//! line of the downloader's progress output says, the chapters that the
//! player reports, and the key under which their skip times are cached.
use vstd::prelude::*;
use crate::text::{
    char_to_uppercase, occurs_at, char_views, chars_of, contains_seq, find_char, find_seq, index_of_seq,
    join, join_words, last_index_of_char, lemma_find_char, lemma_find_seq, lowercase, push_pad2,
    push_signed_decimal, rfind_char, signed_decimal, split_lines, split_whitespace, string_of,
    to_lowercase, trim, trim_chars, uppercase_char, words, pad2, lines, slice_chars,
    contains_text, index_of_char_from
};

verus! {

/// A word with its first character in upper case (which may give several
/// characters) and the rest as it was.
pub open spec fn capitalized(w: Seq<char>) -> Seq<char> {
    if w.len() == 0 {
        w
    } else {
        uppercase_char(w[0]) + w.drop_first()
    }
}

/// The words of `s`, each capitalized, with one space between neighbours.
pub open spec fn title_case(s: Seq<char>) -> Seq<char> {
    join(words(s).map_values(|w: Seq<char>| capitalized(w)), seq![' '])
}

/// Capitalizes each word of a name and joins the words with single spaces.
pub fn to_title_case(s: &str) -> (r: String)
    ensures
        r@ == title_case(s@),
{
    let cs = chars_of(s);
    let ws = split_whitespace(&cs);
    let mut caps: Vec<Vec<char>> = Vec::new();
    let mut i: usize = 0;
    while i < ws.len()
        invariant
            i <= ws.len(),
            char_views(caps@) == char_views(ws@).take(i as int).map_values(
                |w: Seq<char>| capitalized(w),
            ),
        decreases ws.len() - i,
    {
        let w = &ws[i];
        let mut c: Vec<char> = Vec::new();
        if w.len() > 0 {
            c = char_to_uppercase(w[0]);
            let mut k: usize = 1;
            while k < w.len()
                invariant
                    1 <= k <= w.len(),
                    c@ == uppercase_char(w@[0]) + w@.subrange(1, k as int),
                decreases w.len() - k,
            {
                c.push(w[k]);
                assert(w@.subrange(1, k + 1) == w@.subrange(1, k as int).push(w@[k as int]));
                k = k + 1;
            }
            assert(w@.subrange(1, w.len() as int) == w@.drop_first());
        } else {
            assert(c@ =~= w@);
        }
        let ghost before = char_views(caps@);
        caps.push(c);
        assert(char_views(caps@) =~= before.push(capitalized(ws@[i as int]@)));
        assert(char_views(ws@).take(i + 1) =~= char_views(ws@).take(i as int).push(ws@[i as int]@));
        assert(char_views(ws@).take(i + 1).map_values(|w: Seq<char>| capitalized(w))
            =~= char_views(ws@).take(i as int).map_values(|w: Seq<char>| capitalized(w)).push(
            capitalized(ws@[i as int]@),
        ));
        i = i + 1;
    }
    assert(char_views(ws@).take(ws.len() as int) == char_views(ws@));
    join_words(&caps, ' ')
}

/// The folder of a season, inside the anime's folder: `S` and the season.
pub open spec fn season_folder_of(season: i8) -> Seq<char> {
    seq!['S'] + signed_decimal(season as int)
}

/// The name of a season's folder.
pub fn season_folder(season: i8) -> (r: String)
    ensures
        r@ == season_folder_of(season),
{
    let mut out = String::new();
    crate::text::push_char(&mut out, 'S');
    push_signed_decimal(&mut out, season as i64);
    out
}

/// The output template handed to the downloader for one episode: the
/// season's folder, then the anime's name, the season and the episode on
/// two digits, and the extension that the downloader fills in.
pub open spec fn output_template_of(dir: Seq<char>, name: Seq<char>, season: i8, episode: nat) -> Seq<
    char,
> {
    dir + seq!['/'] + name + " S"@ + signed_decimal(season as int) + seq!['E'] + pad2(episode)
        + ".%(ext)s"@
}

/// Builds the downloader's output template for one episode.
pub fn output_template(dir: &str, name: &str, season: i8, episode: u64) -> (r: String)
    ensures
        r@ == output_template_of(dir@, name@, season, episode as nat),
{
    let mut out = String::new();
    out.append(dir);
    crate::text::push_char(&mut out, '/');
    out.append(name);
    out.append(" S");
    push_signed_decimal(&mut out, season as i64);
    crate::text::push_char(&mut out, 'E');
    push_pad2(&mut out, episode);
    out.append(".%(ext)s");
    proof {
        reveal_strlit(" S");
        reveal_strlit(".%(ext)s");
    }
    out
}

/// The text of the percentage in a progress line: what stands between the
/// last space before the first `%` and that `%`, trimmed. `None` when the
/// line has no `%` or no space before it.
pub open spec fn percent_text(line: Seq<char>) -> Option<Seq<char>> {
    match find_char(line, '%') {
        None => None,
        Some(p) => match rfind_char(line.take(p), ' ') {
            None => None,
            Some(st) => Some(trim(line.subrange(st, p))),
        },
    }
}

/// Reads the text of the percentage from a progress line of the
/// downloader (the number itself is read by the caller).
pub fn extract_percent(line: &str) -> (r: Option<String>)
    ensures
        match percent_text(line@) {
            Some(t) => r matches Some(v) && v@ == t,
            None => r is None,
        },
{
    let cs = chars_of(line);
    let p = index_of_char_from(&cs, '%', 0);
    proof {
        lemma_find_char(cs@, '%');
        if p < cs.len() {
            assert(find_char(cs@, '%') == Some(p as int));
        } else {
            assert(find_char(cs@, '%') is None);
        }
    }
    if p == cs.len() {
        return None;
    }
    match last_index_of_char(&cs, ' ', p) {
        None => None,
        Some(st) => {
            proof {
                crate::text::lemma_rfind_char(cs@.take(p as int), ' ');
            }
            let piece = slice_chars(&cs, st, p);
            let t = trim_chars(&piece);
            Some(string_of(&t))
        },
    }
}

/// A progress line can be read for a speed without the slice running
/// backwards: when both ` at ` and ` ETA ` occur, the first ` ETA ` does
/// not start before the end of the first ` at `.
pub open spec fn speed_span_ok(line: Seq<char>) -> bool {
    match (find_seq(line, " at "@), find_seq(line, " ETA "@)) {
        (Some(a), Some(e)) => a + 4 <= e,
        _ => true,
    }
}

/// The download speed in a progress line: the text between the first
/// ` at ` and the first ` ETA `, trimmed; `None` when either is missing.
pub open spec fn speed_text(line: Seq<char>) -> Option<Seq<char>> {
    match (find_seq(line, " at "@), find_seq(line, " ETA "@)) {
        (Some(a), Some(e)) => Some(trim(line.subrange(a + 4, e))),
        _ => None,
    }
}

/// Reads the download speed from a progress line of the downloader.
pub fn extract_speed(line: &str) -> (r: Option<String>)
    requires
        speed_span_ok(line@),
    ensures
        match speed_text(line@) {
            Some(t) => r matches Some(v) && v@ == t,
            None => r is None,
        },
{
    let cs = chars_of(line);
    let at_pat = chars_of(" at ");
    let eta_pat = chars_of(" ETA ");
    proof {
        reveal_strlit(" at ");
        reveal_strlit(" ETA ");
    }
    let a = match index_of_seq(&cs, &at_pat) {
        Some(a) => a,
        None => return None,
    };
    let e = match index_of_seq(&cs, &eta_pat) {
        Some(e) => e,
        None => return None,
    };
    proof {
        lemma_find_seq(cs@, at_pat@);
        lemma_find_seq(cs@, eta_pat@);
    }
    let piece = slice_chars(&cs, a + 4, e);
    let t = trim_chars(&piece);
    Some(string_of(&t))
}

/// What one line of the downloader's output says: lines without
/// `[download]` say nothing; the others may give a percentage and a speed.
pub struct LineProgress {
    pub percent: Option<String>,
    pub speed: Option<String>,
}

/// Reads one line of the downloader's output.
pub fn progress_of_line(line: &str) -> (r: Option<LineProgress>)
    requires
        contains_seq(line@, "[download]"@) ==> speed_span_ok(line@),
    ensures
        !contains_seq(line@, "[download]"@) ==> r is None,
        contains_seq(line@, "[download]"@) ==> (r matches Some(p) && (match percent_text(line@) {
            Some(t) => p.percent matches Some(v) && v@ == t,
            None => p.percent is None,
        }) && (match speed_text(line@) {
            Some(t) => p.speed matches Some(v) && v@ == t,
            None => p.speed is None,
        })),
{
    if !contains_text(line, "[download]") {
        return None;
    }
    Some(LineProgress { percent: extract_percent(line), speed: extract_speed(line) })
}

/// The key under which the skip times of an anime's season are cached:
/// the name in lower case, `|`, and the season.
pub open spec fn skip_cache_key_of(name: Seq<char>, season: i8) -> Seq<char> {
    lowercase(name) + seq!['|'] + signed_decimal(season as int)
}

/// Builds the cache key of an anime's season.
pub fn skip_cache_key(name: &str, season: i8) -> (r: String)
    ensures
        r@ == skip_cache_key_of(name@, season),
{
    let mut out = to_lowercase(name);
    crate::text::push_char(&mut out, '|');
    push_signed_decimal(&mut out, season as i64);
    out
}

/// The title and the text of the start time of a chapter line written by
/// the player script (`[i] "Title" @ 12.3s`): the title is what stands
/// between the first two double quotes; the time is what stands between
/// the first `@ ` and the first `s` after it.
pub open spec fn chapter_fields(line: Seq<char>) -> Option<(Seq<char>, Seq<char>)> {
    match find_char(line, '"') {
        None => None,
        Some(st) => match find_char(line.skip(st + 1), '"') {
            None => None,
            Some(e) => match find_seq(line, "@ "@) {
                None => None,
                Some(at) => match find_char(line.skip(at + 2), 's') {
                    None => None,
                    Some(so) => Some((line.subrange(st + 1, st + 1 + e), line.subrange(at + 2, at + 2 + so))),
                },
            },
        },
    }
}

/// The chapter lines of a text, in order: the fields of each line that has
/// them.
pub open spec fn chapter_lines_of(ls: Seq<Seq<char>>) -> Seq<(Seq<char>, Seq<char>)>
    decreases ls.len(),
{
    if ls.len() == 0 {
        seq![]
    } else {
        let rest = chapter_lines_of(ls.drop_last());
        match chapter_fields(ls.last()) {
            Some(f) => rest.push(f),
            None => rest,
        }
    }
}

/// Finds `c` in `s` from `from` on, as an index into `s`.
fn find_char_after(s: &Vec<char>, c: char, from: usize) -> (r: Option<usize>)
    requires
        from <= s.len(),
    ensures
        match find_char(s@.skip(from as int), c) {
            Some(k) => r == Some((from + k) as usize),
            None => r is None,
        },
{
    let i = index_of_char_from(s, c, from);
    let ghost rest = s@.skip(from as int);
    proof {
        lemma_find_char(rest, c);
        assert forall|j: int| 0 <= j < i - from implies rest[j] != c by {
            assert(rest[j] == s@[from + j]);
        }
        if i < s.len() {
            assert(rest[i - from] == c);
            match find_char(rest, c) {
                Some(k) => {
                    if k < i - from {
                        assert(rest[k] != c);
                    }
                    if k > i - from {
                        assert(rest[i - from] != c);
                    }
                },
                None => {
                    assert(rest[i - from] != c);
                },
            }
        } else {
            assert forall|j: int| 0 <= j < rest.len() implies rest[j] != c by {
                assert(rest[j] == s@[from + j]);
            }
            if let Some(k) = find_char(rest, c) {
                assert(rest[k] == c);
            }
        }
    }
    if i < s.len() {
        Some(i)
    } else {
        None
    }
}

/// Reads the title and the start-time text of one chapter line.
pub fn chapter_line_fields(line: &Vec<char>) -> (r: Option<(String, String)>)
    ensures
        match chapter_fields(line@) {
            Some((t, x)) => r matches Some(f) && f.0@ == t && f.1@ == x,
            None => r is None,
        },
{
    let n = line.len();
    proof {
        assert(line@.skip(0) =~= line@);
        lemma_find_char(line@, '"');
        assert(line@.len() == n);
    }
    let st = match find_char_after(line, '"', 0) {
        Some(st) => st,
        None => return None,
    };
    assert(find_char(line@, '"') == Some(st as int));
    let e = match find_char_after(line, '"', st + 1) {
        Some(e) => e,
        None => return None,
    };
    let pat = chars_of("@ ");
    proof {
        reveal_strlit("@ ");
    }
    let at = match index_of_seq(line, &pat) {
        Some(at) => at,
        None => return None,
    };
    proof {
        lemma_find_seq(line@, pat@);
    }
    let s_end = match find_char_after(line, 's', at + 2) {
        Some(x) => x,
        None => return None,
    };
    proof {
        lemma_find_char(line@.skip(st + 1), '"');
        lemma_find_char(line@.skip(at + 2), 's');
    }
    let title = slice_chars(line, st + 1, e);
    let time = slice_chars(line, at + 2, s_end);
    Some((string_of(&title), string_of(&time)))
}

/// Reads the chapter lines of the file that the player script writes.
pub fn chapter_lines(content: &str) -> (r: Vec<(String, String)>)
    ensures
        r@.len() == chapter_lines_of(lines(content@)).len(),
        forall|k: int|
            0 <= k < r@.len() ==> (#[trigger] r@[k]).0@ == chapter_lines_of(lines(content@))[k].0
                && r@[k].1@ == chapter_lines_of(lines(content@))[k].1,
{
    let cs = chars_of(content);
    let ls = split_lines(&cs);
    let ghost lv = char_views(ls@);
    let mut out: Vec<(String, String)> = Vec::new();
    let mut i: usize = 0;
    while i < ls.len()
        invariant
            i <= ls.len(),
            lv == char_views(ls@),
            lv == lines(content@),
            out@.len() == chapter_lines_of(lv.take(i as int)).len(),
            forall|k: int|
                0 <= k < out@.len() ==> (#[trigger] out@[k]).0@ == chapter_lines_of(lv.take(i as int))[k].0
                    && out@[k].1@ == chapter_lines_of(lv.take(i as int))[k].1,
        decreases ls.len() - i,
    {
        let ghost pre = lv.take(i as int);
        assert(lv.take(i + 1).drop_last() =~= pre);
        assert(lv.take(i + 1).last() == ls@[i as int]@);
        match chapter_line_fields(&ls[i]) {
            Some(f) => {
                out.push(f);
            },
            None => {},
        }
        i = i + 1;
    }
    assert(lv.take(ls.len() as int) =~= lv);
    out
}

/// Whether a chapter title, in lower case, names an opening.
pub open spec fn is_opening(t: Seq<char>) -> bool {
    t == "op"@ || t == "opening"@ || t == "intro"@ || contains_seq(t, "opening"@) || contains_seq(
        t,
        "intro"@,
    )
}

/// Whether a chapter title, in lower case, names an ending.
pub open spec fn is_ending(t: Seq<char>) -> bool {
    t == "ed"@ || t == "ending"@ || t == "credits"@ || contains_seq(t, "ending"@) || contains_seq(
        t,
        "credits"@,
    )
}

/// What a skippable chapter is.
pub enum SkipKind {
    Opening,
    Ending,
}

/// The kind of a chapter by its title: an opening wins over an ending;
/// `None` for a chapter that is neither.
pub open spec fn chapter_kind_of(title: Seq<char>) -> Option<SkipKind> {
    let t = lowercase(title);
    if is_opening(t) {
        Some(SkipKind::Opening)
    } else if is_ending(t) {
        Some(SkipKind::Ending)
    } else {
        None
    }
}

/// Classifies a chapter by its title.
pub fn chapter_kind(title: &str) -> (r: Option<SkipKind>)
    ensures
        r == chapter_kind_of(title@),
{
    let t = to_lowercase(title);
    let ts = t.as_str();
    proof {
        reveal_strlit("op");
        reveal_strlit("opening");
        reveal_strlit("intro");
        reveal_strlit("ed");
        reveal_strlit("ending");
        reveal_strlit("credits");
    }
    let op = t == String::from_str("op") || t == String::from_str("opening") || t
        == String::from_str("intro") || contains_text(ts, "opening") || contains_text(ts, "intro");
    if op {
        return Some(SkipKind::Opening);
    }
    let ed = t == String::from_str("ed") || t == String::from_str("ending") || t
        == String::from_str("credits") || contains_text(ts, "ending") || contains_text(ts, "credits");
    if ed {
        Some(SkipKind::Ending)
    } else {
        None
    }
}

/// A chapter whose title, in lower case, contains `opening` or `intro` is
/// an opening; one that contains `ending` or `credits` is an opening or an
/// ending, and an ending when it names no opening; a title that contains
/// none of these words and is not `op` or `ed` is not skipped.
pub proof fn lemma_chapter_words(title: Seq<char>)
    ensures
        contains_seq(lowercase(title), "opening"@) || contains_seq(lowercase(title), "intro"@)
            ==> chapter_kind_of(title) == Some(SkipKind::Opening),
        contains_seq(lowercase(title), "ending"@) || contains_seq(lowercase(title), "credits"@)
            ==> chapter_kind_of(title) is Some,
        (contains_seq(lowercase(title), "ending"@) || contains_seq(lowercase(title), "credits"@))
            && !contains_seq(lowercase(title), "opening"@) && !contains_seq(lowercase(title), "intro"@)
            && lowercase(title) != "op"@ ==> chapter_kind_of(title) == Some(SkipKind::Ending),
        !contains_seq(lowercase(title), "opening"@) && !contains_seq(lowercase(title), "intro"@)
            && !contains_seq(lowercase(title), "ending"@) && !contains_seq(lowercase(title), "credits"@)
            && lowercase(title) != "op"@ && lowercase(title) != "ed"@ ==> chapter_kind_of(title) is None,
{
    let t = lowercase(title);
    lemma_find_seq(t, "opening"@);
    lemma_find_seq(t, "intro"@);
    lemma_find_seq(t, "ending"@);
    lemma_find_seq(t, "credits"@);
    if t == "opening"@ {
        assert(t.subrange(0, t.len() as int) =~= t);
        assert(occurs_at(t, "opening"@, 0));
    }
    if t == "intro"@ {
        assert(t.subrange(0, t.len() as int) =~= t);
        assert(occurs_at(t, "intro"@, 0));
    }
    if t == "ending"@ {
        assert(t.subrange(0, t.len() as int) =~= t);
        assert(occurs_at(t, "ending"@, 0));
    }
    if t == "credits"@ {
        assert(t.subrange(0, t.len() as int) =~= t);
        assert(occurs_at(t, "credits"@, 0));
    }
}

/// A chapter to skip: its position among the chapters, its kind, and the
/// position of the chapter after it, whose start ends the skip (`None` for
/// the last chapter, which is skipped for a fixed length instead).
pub struct ChapterSkip {
    pub index: usize,
    pub kind: SkipKind,
    pub next: Option<usize>,
}

/// The skips of the first `n` chapters, by their titles, in order.
pub open spec fn chapter_skips_of(titles: Seq<Seq<char>>, n: nat) -> Seq<ChapterSkip>
    decreases n,
{
    if n == 0 {
        seq![]
    } else {
        let rest = chapter_skips_of(titles, (n - 1) as nat);
        let i = n - 1;
        match chapter_kind_of(titles[i]) {
            Some(k) => rest.push(
                ChapterSkip {
                    index: i as usize,
                    kind: k,
                    next: if i + 1 < titles.len() {
                        Some((i + 1) as usize)
                    } else {
                        None
                    },
                },
            ),
            None => rest,
        }
    }
}

/// The skips of a list of chapters, given by their titles.
pub fn chapter_skips(titles: &Vec<String>) -> (r: Vec<ChapterSkip>)
    ensures
        r@ == chapter_skips_of(titles@.map_values(|t: String| t@), titles@.len()),
{
    let ghost tv = titles@.map_values(|t: String| t@);
    let mut out: Vec<ChapterSkip> = Vec::new();
    let mut i: usize = 0;
    while i < titles.len()
        invariant
            i <= titles.len(),
            tv == titles@.map_values(|t: String| t@),
            out@ == chapter_skips_of(tv, i as nat),
        decreases titles.len() - i,
    {
        let next = if i + 1 < titles.len() {
            Some(i + 1)
        } else {
            None
        };
        assert(tv[i as int] == titles@[i as int]@);
        match chapter_kind(titles[i].as_str()) {
            Some(k) => {
                out.push(ChapterSkip { index: i, kind: k, next });
            },
            None => {},
        }
        i = i + 1;
    }
    out
}

/// The player's format selection: the best video up to 1080 lines with the
/// best audio, else the best single file up to 1080 lines, else the best.
pub open spec fn ytdl_format_arg() -> Seq<char> {
    "--ytdl-format=bestvideo[height<=1080]+bestaudio/best[height<=1080]/best"@
}

/// The player's arguments: the format selection, fullscreen when the last
/// episode ended in fullscreen, the script when there is one, the start
/// position when resuming (already written with three decimals), and the
/// link.
pub open spec fn mpv_args_of(
    restore_fs: bool,
    script: Option<Seq<char>>,
    start: Option<Seq<char>>,
    link: Seq<char>,
) -> Seq<Seq<char>> {
    seq![ytdl_format_arg()] + (if restore_fs {
        seq!["--fs"@]
    } else {
        seq![]
    }) + (match script {
        Some(p) => seq!["--script="@ + p],
        None => seq![],
    }) + (match start {
        Some(t) => seq!["--start="@ + t],
        None => seq![],
    }) + seq![link]
}

/// Builds the player's arguments.
pub fn mpv_args(restore_fs: bool, script: Option<&str>, start: Option<&str>, link: &str) -> (r: Vec<
    String,
>)
    ensures
        r@.map_values(|a: String| a@) == mpv_args_of(
            restore_fs,
            match script {
                Some(p) => Some(p@),
                None => None,
            },
            match start {
                Some(t) => Some(t@),
                None => None,
            },
            link@,
        ),
{
    let mut v: Vec<String> = Vec::new();
    v.push(String::from_str("--ytdl-format=bestvideo[height<=1080]+bestaudio/best[height<=1080]/best"));
    if restore_fs {
        v.push(String::from_str("--fs"));
    }
    match script {
        Some(p) => {
            let mut a = String::from_str("--script=");
            a.append(p);
            v.push(a);
        },
        None => {},
    }
    match start {
        Some(t) => {
            let mut a = String::from_str("--start=");
            a.append(t);
            v.push(a);
        },
        None => {},
    }
    v.push(link.to_owned());
    assert(v@.map_values(|a: String| a@) =~= mpv_args_of(
        restore_fs,
        match script {
            Some(p) => Some(p@),
            None => None,
        },
        match start {
            Some(t) => Some(t@),
            None => None,
        },
        link@,
    ));
    v
}

/// Whether the saved fullscreen state says fullscreen: the file was read
/// and holds `1`, whitespace around it aside.
pub fn fullscreen_flag(content: Option<&str>) -> (r: bool)
    ensures
        r == (content matches Some(c) && trim(c@) == seq!['1']),
{
    match content {
        Some(c) => {
            let t = trim_chars(&chars_of(c));
            let r = t.len() == 1 && t[0] == '1';
            assert(r ==> t@ =~= seq!['1']);
            r
        },
        None => false,
    }
}

/// The downloader's arguments for one episode: one progress line per
/// update, progress shown, the output template, and the episode's link.
pub open spec fn yt_dlp_args_of(template: Seq<char>, link: Seq<char>) -> Seq<Seq<char>> {
    seq!["--newline"@, "--progress"@, "-o"@, template, link]
}

/// Builds the downloader's arguments for one episode.
pub fn yt_dlp_args(template: &str, link: &str) -> (r: Vec<String>)
    ensures
        r@.map_values(|a: String| a@) == yt_dlp_args_of(template@, link@),
{
    let mut v: Vec<String> = Vec::new();
    v.push(String::from_str("--newline"));
    v.push(String::from_str("--progress"));
    v.push(String::from_str("-o"));
    v.push(template.to_owned());
    v.push(link.to_owned());
    assert(v@.map_values(|a: String| a@) =~= yt_dlp_args_of(template@, link@));
    v
}

} // verus!

//! The Lua script that the player loads for an episode: it skips openings
//! and endings (from AniSkip, from the file's chapters, or from the cache
//! of chapters seen before), asks for the next episode when wanted, and
//! saves the playback position and the fullscreen state on exit.
use vstd::prelude::*;
use crate::text::push_char;

verus! {

/// The start of the section that skips the openings and endings given by AniSkip, up to the flag for moving on to the next episode.
pub const ANISKIP_0: &'static str = r#"local skipped = {}
local auto_next = "#;

/// The part of that section between the flag and the path of the signal file.
pub const ANISKIP_1: &'static str = r#"
local skip_timer = nil
mp.observe_property("time-pos", "number", function(_, pos)
    if pos then
        for i, s in ipairs(skips) do
            if not skipped[i] and pos >= s.start and pos < s.ends then
                skipped[i] = true
                if skip_timer then skip_timer:kill() end
                local label = string.upper(s.type)
                mp.osd_message("Skip " .. label .. " dans 5s...", 5)
                skip_timer = mp.add_timeout(5, function()
                    if string.lower(s.type) == "ed" and auto_next then
                        mp.osd_message("Épisode suivant...", 2)
                        local f = io.open(""#;

/// The rest of that section.
pub const ANISKIP_2: &'static str = r#"", "w")
                        if f then
                            f:write("next")
                            f:close()
                        end
                        mp.command("quit")
                        return
                    end
                    mp.commandv("seek", tostring(s.ends), "absolute")
                    mp.osd_message("Skip " .. label, 2)
                end)
            end
        end
    end
end)
"#;

/// The start of the section that skips the chapters named as openings or endings, up to the flag for moving on to the next episode.
pub const CHAPTERS_0: &'static str = r#"local chapter_skipped = {}
local chapter_auto_next = "#;

/// The part of that section between the flag and the path of the chapter log.
pub const CHAPTERS_1: &'static str = r#"
local chapters_logged = false
local dbg_file
local chapter_skip_timer = nil
local function check_chapters()
    local count = mp.get_property_number("chapter-list/count", 0)
    if count == 0 then return end
    if not chapters_logged then
        chapters_logged = true
        dbg_file = io.open(""#;

/// The part of that section between the chapter log and the path of the signal file.
pub const CHAPTERS_2: &'static str = r#"", "w")
        if dbg_file then
            dbg_file:write("Chapters found: " .. count .. "\n")
            for j = 0, count - 1 do
                local ct = mp.get_property("chapter-list/" .. j .. "/title", "?")
                local cs = mp.get_property_number("chapter-list/" .. j .. "/time", 0)
                dbg_file:write("  [" .. j .. "] \"" .. ct .. "\" @ " .. string.format("%.1f", cs) .. "s\n")
            end
            dbg_file:flush()
        end
    end
    local pos = mp.get_property_number("time-pos")
    if not pos then return end
    for i = 0, count - 1 do
        local title = mp.get_property("chapter-list/" .. i .. "/title", "")
        local start = mp.get_property_number("chapter-list/" .. i .. "/time", 0)
        local next_start = nil
        if i + 1 < count then
            next_start = mp.get_property_number("chapter-list/" .. (i + 1) .. "/time", nil)
        else
            next_start = mp.get_property_number("duration", nil)
        end
        if title and next_start then
            local t = string.lower(title)
            local is_op = t == "op" or t == "opening" or t == "intro" or string.find(t, "opening") or string.find(t, "intro")
            local is_ed = t == "ed" or t == "ending" or t == "credits" or string.find(t, "ending") or string.find(t, "credits")
            if (is_op or is_ed) and not chapter_skipped[i] and pos >= start and pos < next_start then
                chapter_skipped[i] = true
                if dbg_file then
                    dbg_file:write("SKIP triggered: \"" .. title .. "\" pos=" .. string.format("%.1f", pos) .. " -> " .. string.format("%.1f", next_start) .. "\n")
                    dbg_file:flush()
                end
                if chapter_skip_timer then chapter_skip_timer:kill() end
                local skip_target = next_start
                local skip_title = title
                local skip_is_ed = is_ed
                mp.osd_message("Skip " .. string.upper(skip_title) .. " dans 5s...", 5)
                chapter_skip_timer = mp.add_timeout(5, function()
                    if skip_is_ed and chapter_auto_next then
                        mp.osd_message("Épisode suivant...", 2)
                        local f = io.open(""#;

/// The rest of that section.
pub const CHAPTERS_3: &'static str = r#"", "w")
                        if f then
                            f:write("next")
                            f:close()
                        end
                        mp.command("quit")
                        return
                    end
                    mp.commandv("seek", tostring(skip_target), "absolute")
                    mp.osd_message("Skip " .. string.upper(skip_title), 2)
                end)
            end
        end
    end
end
mp.observe_property("time-pos", "number", function(_, pos)
    if pos then check_chapters() end
end)
mp.observe_property("chapter-list/count", "number", function()
    check_chapters()
end)
"#;

/// The start of the section that offers to skip the cached openings and endings, up to the flag for moving on to the next episode.
pub const CACHED_0: &'static str = r#"local cached_auto_next = "#;

/// The part of that section between the flag and the path of the signal file.
pub const CACHED_1: &'static str = r#"
local cached_active = nil
local cached_triggered = {}
local overlay = mp.create_osd_overlay("ass-events")
local function show_skip_button(label)
    overlay.data = "{\\an3\\fs28\\bord2\\shad1\\1c&HFFFFFF&\\3c&H000000&\\pos(" ..
        (mp.get_property_number("osd-width", 1920) - 40) .. "," ..
        (mp.get_property_number("osd-height", 1080) - 60) .. ")}" ..
        "⏭ Skip " .. label
    overlay:update()
end
local function hide_skip_button()
    overlay:remove()
    cached_active = nil
    mp.remove_key_binding("cached-skip")
end
local function do_cached_skip()
    if not cached_active then return end
    local s = cached_active
    hide_skip_button()
    if string.lower(s.type) == "ed" and cached_auto_next then
        mp.osd_message("Épisode suivant...", 2)
        local f = io.open(""#;

/// The rest of that section.
pub const CACHED_2: &'static str = r#"", "w")
        if f then
            f:write("next")
            f:close()
        end
        mp.command("quit")
        return
    end
    mp.commandv("seek", tostring(s.ends), "absolute")
    mp.osd_message("Skip " .. string.upper(s.type), 2)
end
mp.observe_property("time-pos", "number", function(_, pos)
    if not pos then return end
    for i, s in ipairs(cached_skips) do
        if not cached_triggered[i] and pos >= s.start and pos < s.ends then
            cached_triggered[i] = true
            cached_active = s
            local label = s.type == "op" and "Intro" or "Outro"
            show_skip_button(label)
            mp.add_forced_key_binding("ENTER", "cached-skip", do_cached_skip)
        end
    end
    if cached_active and pos >= cached_active.ends then
        hide_skip_button()
    end
end)
"#;

/// The start of the section that asks for the next episode when the file ends, up to the path of the signal file.
pub const EOF_0: &'static str = r#"mp.register_event("end-file", function(event)
    if event.reason == "eof" then
        local f = io.open(""#;

/// The rest of that section.
pub const EOF_1: &'static str = r#"", "w")
        if f then
            f:write("next")
            f:close()
        end
    end
end)
"#;

/// The start of the section that saves the playback position, up to the path of the position file.
pub const POSITION_0: &'static str = r#"local last_saved_pos = 0
mp.observe_property("time-pos", "number", function(_, pos)
    if pos and math.abs(pos - last_saved_pos) >= 5 then
        last_saved_pos = pos
        local f = io.open(""#;

/// The part of that section between the two uses of the position file.
pub const POSITION_1: &'static str = r#"", "w")
        if f then
            f:write(string.format("%.3f", pos))
            f:close()
        end
    end
end)
mp.register_event("shutdown", function()
    local pos = mp.get_property_number("time-pos")
    if pos then
        local f = io.open(""#;

/// The part of that section between the position file and the path of the fullscreen file.
pub const POSITION_2: &'static str = r#"", "w")
        if f then
            f:write(string.format("%.3f", pos))
            f:close()
        end
    end
    local fs = mp.get_property_bool("fullscreen")
    local f = io.open(""#;

/// The rest of that section.
pub const POSITION_3: &'static str = r#"", "w")
    if f then
        f:write(fs and "1" or "0")
        f:close()
    end
end)
"#;

/// One skippable segment, as the script lists it: its start and end in
/// seconds (already written with three decimals) and its type (`op` or
/// `ed`).
pub struct SkipLine {
    pub start: String,
    pub end: String,
    pub kind: String,
}

/// The text of a path inside a Lua string: each backslash doubled.
pub open spec fn escaped(s: Seq<char>) -> Seq<char>
    decreases s.len(),
{
    if s.len() == 0 {
        seq![]
    } else {
        escaped(s.drop_last()) + (if s.last() == '\\' {
            seq!['\\', '\\']
        } else {
            seq![s.last()]
        })
    }
}

/// Appends `s` with each backslash doubled.
pub fn push_escaped(out: &mut String, s: &str)
    ensures
        final(out)@ == old(out)@ + escaped(s@),
{
    let cs = crate::text::chars_of(s);
    let mut i: usize = 0;
    while i < cs.len()
        invariant
            i <= cs.len(),
            cs@ == s@,
            out@ == old(out)@ + escaped(cs@.take(i as int)),
        decreases cs.len() - i,
    {
        assert(cs@.take(i + 1).drop_last() =~= cs@.take(i as int));
        if cs[i] == '\\' {
            push_char(out, '\\');
            push_char(out, '\\');
        } else {
            push_char(out, cs[i]);
        }
        i = i + 1;
    }
    assert(cs@.take(cs.len() as int) =~= cs@);
}

/// The Lua text of a flag.
pub open spec fn lua_bool(b: bool) -> Seq<char> {
    if b {
        "true"@
    } else {
        "false"@
    }
}

/// The Lua table entry of one segment.
pub open spec fn skip_entry(start: Seq<char>, end: Seq<char>, kind: Seq<char>) -> Seq<char> {
    "  {start="@ + start + ", ends="@ + end + ", type=\""@ + kind + "\"},\n"@
}

/// The table entries of the first `n` segments.
pub open spec fn skip_entries(lines: Seq<SkipLine>, n: nat) -> Seq<char>
    decreases n,
{
    if n == 0 || n > lines.len() {
        seq![]
    } else {
        let l = lines[n - 1];
        skip_entries(lines, (n - 1) as nat) + skip_entry(l.start@, l.end@, l.kind@)
    }
}

/// A Lua table named `name` of the given segments.
pub open spec fn skip_table(name: Seq<char>, lines: Seq<SkipLine>) -> Seq<char> {
    "local "@ + name + " = {\n"@ + skip_entries(lines, lines.len()) + "}\n"@
}

/// The row of one segment in a table.
pub open spec fn row_of(l: SkipLine) -> Seq<char> {
    skip_entry(l.start@, l.end@, l.kind@)
}

/// The total length of the rows of the first `k` segments.
pub open spec fn rows_len(lines: Seq<SkipLine>, k: nat) -> nat
    decreases k,
{
    if k == 0 {
        0
    } else {
        rows_len(lines, (k - 1) as nat) + row_of(lines[k - 1]).len()
    }
}

proof fn lemma_entries_rows(lines: Seq<SkipLine>, n: nat)
    requires
        n <= lines.len(),
    ensures
        skip_entries(lines, n).len() == rows_len(lines, n),
        forall|k: int|
            0 <= k < n ==> #[trigger] skip_entries(lines, n).subrange(
                rows_len(lines, k as nat) as int,
                rows_len(lines, (k + 1) as nat) as int,
            ) == row_of(lines[k]),
    decreases n,
{
    if n > 0 {
        let m = (n - 1) as nat;
        lemma_entries_rows(lines, m);
        let e = skip_entries(lines, m);
        let all = skip_entries(lines, n);
        assert(all == e + row_of(lines[n - 1]));
        assert forall|k: int| 0 <= k < n implies #[trigger] all.subrange(
            rows_len(lines, k as nat) as int,
            rows_len(lines, (k + 1) as nat) as int,
        ) == row_of(lines[k]) by {
            if k < m {
                lemma_rows_len_mono(lines, (k + 1) as nat, m);
                assert(all.subrange(rows_len(lines, k as nat) as int, rows_len(lines, (k + 1) as nat) as int)
                    =~= e.subrange(rows_len(lines, k as nat) as int, rows_len(lines, (k + 1) as nat) as int));
            } else {
                assert(all.subrange(rows_len(lines, k as nat) as int, rows_len(lines, (k + 1) as nat) as int)
                    =~= row_of(lines[k]));
            }
        }
    }
}

proof fn lemma_rows_len_mono(lines: Seq<SkipLine>, a: nat, b: nat)
    requires
        a <= b,
    ensures
        rows_len(lines, a) <= rows_len(lines, b),
    decreases b,
{
    if a < b {
        lemma_rows_len_mono(lines, a, (b - 1) as nat);
    }
}

/// A table lists one row per segment, in order and nothing else: after the
/// opening line come the rows of the segments, the `k`-th row right after
/// the rows before it, and then the closing line.
pub proof fn lemma_table_rows(name: Seq<char>, lines: Seq<SkipLine>)
    ensures
        ({
            let head = ("local "@ + name + " = {\n"@).len() as int;
            let t = skip_table(name, lines);
            &&& t.len() == head + rows_len(lines, lines.len()) + "}\n"@.len()
            &&& t.take(head as int) == "local "@ + name + " = {\n"@
            &&& forall|k: int|
                0 <= k < lines.len() ==> #[trigger] t.subrange(
                    head + rows_len(lines, k as nat),
                    head + rows_len(lines, (k + 1) as nat),
                ) == row_of(lines[k])
            &&& t.skip(head + rows_len(lines, lines.len())) == "}\n"@
        }),
{
    let h = "local "@ + name + " = {\n"@;
    let e = skip_entries(lines, lines.len());
    let t = skip_table(name, lines);
    lemma_entries_rows(lines, lines.len());
    assert(t == h + e + "}\n"@);
    assert(t.take(h.len() as int) =~= h);
    assert(t.skip(h.len() as int + rows_len(lines, lines.len())) =~= "}\n"@);
    assert forall|k: int| 0 <= k < lines.len() implies #[trigger] t.subrange(
        h.len() as int + rows_len(lines, k as nat),
        h.len() as int + rows_len(lines, (k + 1) as nat),
    ) == row_of(lines[k]) by {
        lemma_rows_len_mono(lines, (k + 1) as nat, lines.len());
        lemma_rows_len_mono(lines, k as nat, (k + 1) as nat);
        assert(e.subrange(rows_len(lines, k as nat) as int, rows_len(lines, (k + 1) as nat) as int)
            == row_of(lines[k]));
        assert(t.subrange(h.len() as int + rows_len(lines, k as nat), h.len() as int + rows_len(lines, (k + 1) as nat))
            =~= e.subrange(rows_len(lines, k as nat) as int, rows_len(lines, (k + 1) as nat) as int));
    }
}

/// AniSkip's segments, when there are any.
pub open spec fn aniskip_section(skips: Seq<SkipLine>, auto_next: bool, signal_path: Seq<char>) -> Seq<char> {
    if skips.len() > 0 {
        skip_table("skips"@, skips) + ANISKIP_0@ + lua_bool(auto_next) + ANISKIP_1@ + escaped(
            signal_path,
        ) + ANISKIP_2@
    } else {
        seq![]
    }
}

/// The fallback on the file's chapters, always there.
pub open spec fn chapters_section(auto_next: bool, debug_path: Seq<char>, signal_path: Seq<char>) -> Seq<char> {
    CHAPTERS_0@ + lua_bool(auto_next) + CHAPTERS_1@ + escaped(debug_path) + CHAPTERS_2@ + escaped(
        signal_path,
    ) + CHAPTERS_3@
}

/// The cached segments, when there are any.
pub open spec fn cached_section(cached: Seq<SkipLine>, auto_next: bool, signal_path: Seq<char>) -> Seq<char> {
    if cached.len() > 0 {
        skip_table("cached_skips"@, cached) + CACHED_0@ + lua_bool(auto_next) + CACHED_1@ + escaped(
            signal_path,
        ) + CACHED_2@
    } else {
        seq![]
    }
}

/// The request for the next episode at the end of the file, when wanted.
pub open spec fn eof_section(auto_next: bool, signal_path: Seq<char>) -> Seq<char> {
    if auto_next {
        EOF_0@ + escaped(signal_path) + EOF_1@
    } else {
        seq![]
    }
}

/// The saving of the position and of the fullscreen state, always there.
pub open spec fn position_section(pos_path: Seq<char>, fs_path: Seq<char>) -> Seq<char> {
    POSITION_0@ + escaped(pos_path) + POSITION_1@ + escaped(pos_path) + POSITION_2@ + escaped(
        fs_path,
    ) + POSITION_3@
}

/// The script, section by section: AniSkip's segments when there are any,
/// the chapter fallback, the cached segments when there are any, the request
/// for the next episode at the end of the file when `auto_next` holds, and
/// the saving of the position and of the fullscreen state. Paths are given
/// as they are and escaped here.
pub open spec fn script_of(
    skips: Seq<SkipLine>,
    cached: Seq<SkipLine>,
    auto_next: bool,
    pos_path: Seq<char>,
    signal_path: Seq<char>,
    debug_path: Seq<char>,
    fs_path: Seq<char>,
) -> Seq<char> {
    aniskip_section(skips, auto_next, signal_path) + chapters_section(auto_next, debug_path, signal_path)
        + cached_section(cached, auto_next, signal_path) + eof_section(auto_next, signal_path)
        + position_section(pos_path, fs_path)
}

/// Appends the Lua text of a flag.
fn push_bool(out: &mut String, b: bool)
    ensures
        final(out)@ == old(out)@ + lua_bool(b),
{
    if b {
        out.append("true");
    } else {
        out.append("false");
    }
}

/// Appends a table of segments.
fn push_table(out: &mut String, name: &str, lines: &Vec<SkipLine>)
    ensures
        final(out)@ == old(out)@ + skip_table(name@, lines@),
{
    out.append("local ");
    out.append(name);
    out.append(" = {\n");
    let ghost head = out@;
    let mut i: usize = 0;
    while i < lines.len()
        invariant
            i <= lines.len(),
            out@ == head + skip_entries(lines@, i as nat),
        decreases lines.len() - i,
    {
        let l = &lines[i];
        out.append("  {start=");
        out.append(l.start.as_str());
        out.append(", ends=");
        out.append(l.end.as_str());
        out.append(", type=\"");
        out.append(l.kind.as_str());
        out.append("\"},\n");
        i = i + 1;
    }
    out.append("}\n");
}

fn push_aniskip(out: &mut String, skips: &Vec<SkipLine>, auto_next: bool, signal_path: &str)
    ensures
        final(out)@ == old(out)@ + aniskip_section(skips@, auto_next, signal_path@),
{
    if skips.len() > 0 {
        push_table(out, "skips", skips);
        out.append(ANISKIP_0);
        push_bool(out, auto_next);
        out.append(ANISKIP_1);
        push_escaped(out, signal_path);
        out.append(ANISKIP_2);
    }
}

fn push_chapters(out: &mut String, auto_next: bool, debug_path: &str, signal_path: &str)
    ensures
        final(out)@ == old(out)@ + chapters_section(auto_next, debug_path@, signal_path@),
{
    out.append(CHAPTERS_0);
    push_bool(out, auto_next);
    out.append(CHAPTERS_1);
    push_escaped(out, debug_path);
    out.append(CHAPTERS_2);
    push_escaped(out, signal_path);
    out.append(CHAPTERS_3);
}

fn push_cached(out: &mut String, cached: &Vec<SkipLine>, auto_next: bool, signal_path: &str)
    ensures
        final(out)@ == old(out)@ + cached_section(cached@, auto_next, signal_path@),
{
    if cached.len() > 0 {
        push_table(out, "cached_skips", cached);
        out.append(CACHED_0);
        push_bool(out, auto_next);
        out.append(CACHED_1);
        push_escaped(out, signal_path);
        out.append(CACHED_2);
    }
}

fn push_eof(out: &mut String, auto_next: bool, signal_path: &str)
    ensures
        final(out)@ == old(out)@ + eof_section(auto_next, signal_path@),
{
    if auto_next {
        out.append(EOF_0);
        push_escaped(out, signal_path);
        out.append(EOF_1);
    }
}

fn push_position(out: &mut String, pos_path: &str, fs_path: &str)
    ensures
        final(out)@ == old(out)@ + position_section(pos_path@, fs_path@),
{
    out.append(POSITION_0);
    push_escaped(out, pos_path);
    out.append(POSITION_1);
    push_escaped(out, pos_path);
    out.append(POSITION_2);
    push_escaped(out, fs_path);
    out.append(POSITION_3);
}

/// Writes the player script.
pub fn mpv_script(
    skips: &Vec<SkipLine>,
    cached: &Vec<SkipLine>,
    auto_next: bool,
    pos_path: &str,
    signal_path: &str,
    debug_path: &str,
    fs_path: &str,
) -> (r: String)
    ensures
        r@ == script_of(skips@, cached@, auto_next, pos_path@, signal_path@, debug_path@, fs_path@),
{
    let mut out = String::new();
    push_aniskip(&mut out, skips, auto_next, signal_path);
    push_chapters(&mut out, auto_next, debug_path, signal_path);
    push_cached(&mut out, cached, auto_next, signal_path);
    push_eof(&mut out, auto_next, signal_path);
    push_position(&mut out, pos_path, fs_path);
    assert(out@ =~= script_of(skips@, cached@, auto_next, pos_path@, signal_path@, debug_path@, fs_path@));
    out
}

} // verus!

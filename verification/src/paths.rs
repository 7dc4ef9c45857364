//! Where the program keeps its files: the platform's data directory for the
//! project, and one file name per use.
use vstd::prelude::*;

verus! {

/// The data directory of a project, from `directories::ProjectDirs::from`
/// with the given qualifier, organization and application, and its
/// `data_dir`, as text (`to_string_lossy`). `None` when the operating
/// system gives no valid home directory. Which directory it is depends on
/// the platform and on the environment at the time of the call, so nothing
/// is stated of the text.
#[verifier::external_body]
fn project_data_dir(qualifier: &str, organization: &str, application: &str) -> (r: Option<String>) {
    directories::ProjectDirs::from(qualifier, organization, application).map(
        |d| d.data_dir().to_string_lossy().into_owned(),
    )
}

/// The qualifier of the project's directories (none).
pub const QUALIFIER: &'static str = "";

/// The organization of the project's directories.
pub const ORGANIZATION: &'static str = "B0SE";

/// The name of the application, as its directories are named.
pub const APPLICATION: &'static str = "ani-fr";

/// A plain file name: it starts with an ASCII letter or digit and is made
/// of ASCII letters, digits, `_` and `.` only (so it is relative, has no
/// separator, and is neither `.` nor `..`).
pub open spec fn plain_file_name(f: Seq<char>) -> bool {
    &&& f.len() > 0
    &&& ('a' <= f[0] <= 'z' || 'A' <= f[0] <= 'Z' || '0' <= f[0] <= '9')
    &&& forall|i: int|
        0 <= i < f.len() ==> ('a' <= #[trigger] f[i] <= 'z' || 'A' <= f[i] <= 'Z' || '0' <= f[i]
            <= '9' || f[i] == '_' || f[i] == '.')
}

/// A Windows verbatim path: it starts with `\\?\`.
pub open spec fn verbatim(dir: Seq<char>) -> bool {
    dir.len() >= 4 && dir.take(4) == seq!['\\', '\\', '?', '\\']
}

/// `std::path::Path::join` of a directory and a plain file name, as text.
/// The documentation says that a relative path is adjoined to the
/// directory, the file name becoming the last component; stated here is
/// that the result ends with the file name, and, for a directory that is
/// not a verbatim path (whose joined path std normalizes), that it starts
/// with the directory. Whether a separator is put between them, and which,
/// depends on the platform and on how the directory ends: that is left
/// unsaid.
#[verifier::external_body]
fn join_path(dir: &str, file: &str) -> (r: String)
    requires
        plain_file_name(file@),
    ensures
        r@.len() >= file@.len(),
        r@.skip(r@.len() - file@.len()) == file@,
        !verbatim(dir@) ==> r@.len() >= dir@.len() + file@.len() && r@.take(dir@.len() as int)
            == dir@,
{
    std::path::Path::new(dir).join(file).to_string_lossy().into_owned()
}

/// `p` is a path in some directory to the file `file`.
pub open spec fn names_file(p: Seq<char>, file: Seq<char>) -> bool {
    p.len() >= file.len() && p.skip(p.len() - file.len()) == file
}

/// The data directory of the project (qualifier none, organization
/// `B0SE`, application `ani-fr`); `None` when there is no home directory.
pub fn data_dir() -> (r: Option<String>) {
    project_data_dir(QUALIFIER, ORGANIZATION, APPLICATION)
}

/// The path of the file `file` in the directory `dir`, or `None` when there
/// is no directory (no home directory was found): the directory's text
/// comes first and the file name last.
pub fn data_file(dir: &Option<String>, file: &str) -> (r: Option<String>)
    requires
        plain_file_name(file@),
    ensures
        r is Some <==> dir is Some,
        r matches Some(p) ==> names_file(p@, file@),
        r matches Some(p) ==> !verbatim(dir->0@) ==> p@.take(dir->0@.len() as int) == dir->0@
            && p@.len() >= dir->0@.len() + file@.len(),
{
    match dir {
        Some(d) => Some(join_path(d.as_str(), file)),
        None => None,
    }
}

/// The saved MyAnimeList credentials.
pub fn config_path() -> (r: Option<String>)
    ensures
        r matches Some(p) ==> names_file(p@, "mal_config.json"@),
{
    proof {
        reveal_strlit("mal_config.json");
    }
    let dir = data_dir();
    data_file(&dir, "mal_config.json")
}

/// The cache of MyAnimeList ids.
pub fn cache_path() -> (r: Option<String>)
    ensures
        r matches Some(p) ==> names_file(p@, "mal_cache.json"@),
{
    proof {
        reveal_strlit("mal_cache.json");
    }
    let dir = data_dir();
    data_file(&dir, "mal_cache.json")
}

/// The watch history.
pub fn history_path() -> (r: Option<String>)
    ensures
        r matches Some(p) ==> names_file(p@, "watch_history.json"@),
{
    proof {
        reveal_strlit("watch_history.json");
    }
    let dir = data_dir();
    data_file(&dir, "watch_history.json")
}

/// The last playback position, written by the player script.
pub fn last_position_path() -> (r: Option<String>)
    ensures
        r matches Some(p) ==> names_file(p@, "last_pos.txt"@),
{
    proof {
        reveal_strlit("last_pos.txt");
    }
    let dir = data_dir();
    data_file(&dir, "last_pos.txt")
}

/// The fullscreen state at the end of the last episode.
pub fn fullscreen_state_path() -> (r: Option<String>)
    ensures
        r matches Some(p) ==> names_file(p@, "fs_state.txt"@),
{
    proof {
        reveal_strlit("fs_state.txt");
    }
    let dir = data_dir();
    data_file(&dir, "fs_state.txt")
}

/// The file whose presence asks for the next episode.
pub fn next_episode_signal_path() -> (r: Option<String>)
    ensures
        r matches Some(p) ==> names_file(p@, "next_episode.signal"@),
{
    proof {
        reveal_strlit("next_episode.signal");
    }
    let dir = data_dir();
    data_file(&dir, "next_episode.signal")
}

/// The cache of skip times found in chapters.
pub fn skip_cache_path() -> (r: Option<String>)
    ensures
        r matches Some(p) ==> names_file(p@, "skip_cache.json"@),
{
    proof {
        reveal_strlit("skip_cache.json");
    }
    let dir = data_dir();
    data_file(&dir, "skip_cache.json")
}

/// The chapter list that the player script writes.
pub fn chapters_debug_path() -> (r: Option<String>)
    ensures
        r matches Some(p) ==> names_file(p@, "chapters_debug.txt"@),
{
    proof {
        reveal_strlit("chapters_debug.txt");
    }
    let dir = data_dir();
    data_file(&dir, "chapters_debug.txt")
}

/// The player script.
pub fn script_path() -> (r: Option<String>)
    ensures
        r matches Some(p) ==> names_file(p@, "aniskip.lua"@),
{
    proof {
        reveal_strlit("aniskip.lua");
    }
    let dir = data_dir();
    data_file(&dir, "aniskip.lua")
}

/// The anime data file.
pub fn anime_data_path() -> (r: Option<String>)
    ensures
        r matches Some(p) ==> names_file(p@, "anime_data.json"@),
{
    proof {
        reveal_strlit("anime_data.json");
    }
    let dir = data_dir();
    data_file(&dir, "anime_data.json")
}

} // verus!

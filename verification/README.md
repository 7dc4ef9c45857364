# ani-fr

A terminal front end for watching and downloading French-dubbed and
subtitled anime, with MyAnimeList progress tracking and automatic skipping
of openings and endings.

The library (`src/`) holds the program's logic, specified and proved with
Verus:

- `anime`, `menu`: the catalogue, the menus and their labels;
- `data`: merging the local and remote anime data files;
- `mal`, `login`, `matching`: MyAnimeList credentials, the login state
  machine, requests, the id cache, and matching French titles to
  MyAnimeList ids (automatic searches, then a manual fallback);
- `aniskip`: reading the opening and ending segments that AniSkip returns;
- `history`: the watch history (one entry per anime, newest first);
- `player`, `script`: download names, progress lines, chapters, the player's
  arguments and its Lua script;
- `hooks`, `playback`, `timer`: the input hooks and keys of the automatic
  clicker;
- `paths`, `text`, `sorting`: file locations and shared text and ordering
  primitives.

`app/` is the program around it: prompts, files, network, the clock,
processes, floating-point timing and the operating system's input hooks.

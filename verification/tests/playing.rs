use ani_fr::player::yt_dlp_args;
use ani_fr::paths::{anime_data_path, config_path, data_file, last_position_path, script_path};
use ani_fr::player::{
    chapter_kind, chapter_lines, chapter_skips, extract_percent, extract_speed, fullscreen_flag,
    mpv_args, output_template, progress_of_line, season_folder, skip_cache_key, to_title_case,
    SkipKind,
};
use ani_fr::script::{mpv_script, SkipLine};

#[test]
fn title_case_words() {
    assert_eq!(to_title_case("one piece"), "One Piece");
    assert_eq!(to_title_case("  l'attaque   des titans "), "L'attaque Des Titans");
    assert_eq!(to_title_case("ßeta"), "SSeta");
    assert_eq!(to_title_case(""), "");
}

#[test]
fn download_names() {
    assert_eq!(season_folder(2), "S2");
    assert_eq!(season_folder(-1), "S-1");
    assert_eq!(output_template("One Piece/S1", "One Piece", 1, 3), "One Piece/S1/One Piece S1E03.%(ext)s");
    assert_eq!(output_template("d", "N", 12, 123), "d/N S12E123.%(ext)s");
}

#[test]
fn progress_line_fields() {
    let line = "[download]  45.3% of ~  10.00MiB at    1.20MiB/s ETA 00:05";
    assert_eq!(extract_percent(line), Some("45.3".to_string()));
    assert_eq!(extract_speed(line), Some("1.20MiB/s".to_string()));
    assert_eq!(extract_percent("no percent here"), None);
    assert_eq!(extract_percent("100%"), None);
    assert_eq!(extract_speed("[download] 5% at 1MiB/s"), None);
    let p = progress_of_line(line).unwrap();
    assert_eq!(p.percent.as_deref(), Some("45.3"));
    assert_eq!(p.speed.as_deref(), Some("1.20MiB/s"));
    assert!(progress_of_line("[info] 45% at 1 ETA 2").is_none());
}

#[test]
fn skip_cache_keys() {
    assert_eq!(skip_cache_key("One Piece", 2), "one piece|2");
    assert_eq!(skip_cache_key("ÉTÉ", -3), "été|-3");
}

#[test]
fn chapter_parsing() {
    let content = "Chapters found: 3\n  [0] \"Opening\" @ 0.0s\n  [1] \"Episode\" @ 90.5s\r\n  [2] \"Ending Credits\" @ 1300.0s\nSKIP triggered: \"x\"\n";
    let ch = chapter_lines(content);
    assert_eq!(
        ch,
        vec![
            ("Opening".to_string(), "0.0".to_string()),
            ("Episode".to_string(), "90.5".to_string()),
            ("Ending Credits".to_string(), "1300.0".to_string()),
        ]
    );
}

#[test]
fn chapter_kinds() {
    assert!(matches!(chapter_kind("OP"), Some(SkipKind::Opening)));
    assert!(matches!(chapter_kind("Intro Song"), Some(SkipKind::Opening)));
    assert!(matches!(chapter_kind("ED"), Some(SkipKind::Ending)));
    assert!(matches!(chapter_kind("Credits"), Some(SkipKind::Ending)));
    assert!(matches!(chapter_kind("Opening and Ending"), Some(SkipKind::Opening)));
    assert!(chapter_kind("Part A").is_none());
    assert!(chapter_kind("open").is_none());
}

#[test]
fn chapter_skip_plan() {
    let titles: Vec<String> = ["Intro", "Part A", "Ending"].iter().map(|s| s.to_string()).collect();
    let skips = chapter_skips(&titles);
    assert_eq!(skips.len(), 2);
    assert_eq!(skips[0].index, 0);
    assert!(matches!(skips[0].kind, SkipKind::Opening));
    assert_eq!(skips[0].next, Some(1));
    assert_eq!(skips[1].index, 2);
    assert!(matches!(skips[1].kind, SkipKind::Ending));
    assert_eq!(skips[1].next, None);
}

#[test]
fn player_arguments() {
    assert_eq!(
        mpv_args(true, Some("/d/aniskip.lua"), Some("12.500"), "https://x"),
        vec![
            "--ytdl-format=bestvideo[height<=1080]+bestaudio/best[height<=1080]/best".to_string(),
            "--fs".to_string(),
            "--script=/d/aniskip.lua".to_string(),
            "--start=12.500".to_string(),
            "https://x".to_string(),
        ]
    );
    assert_eq!(mpv_args(false, None, None, "l").len(), 2);
}

#[test]
fn fullscreen_state() {
    assert!(fullscreen_flag(Some(" 1\n")));
    assert!(!fullscreen_flag(Some("0")));
    assert!(!fullscreen_flag(Some("11")));
    assert!(!fullscreen_flag(None));
}

#[test]
fn script_sections() {
    let skips = vec![SkipLine { start: "1.000".to_string(), end: "2.500".to_string(), kind: "op".to_string() }];
    let s = mpv_script(&skips, &Vec::new(), true, "C:\\pos.txt", "/sig", "/dbg", "/fs");
    assert!(s.starts_with("local skips = {\n  {start=1.000, ends=2.500, type=\"op\"},\n}\nlocal skipped = {}\nlocal auto_next = true\n"));
    assert!(s.contains("io.open(\"C:\\\\pos.txt\", \"w\")"));
    assert!(s.contains("local chapter_auto_next = true"));
    assert!(s.contains("dbg_file = io.open(\"/dbg\", \"w\")"));
    assert!(s.contains("mp.register_event(\"end-file\""));
    assert!(!s.contains("cached_skips"));
    let t = mpv_script(&Vec::new(), &skips, false, "/p", "/sig", "/dbg", "/fs");
    assert!(t.starts_with("local chapter_skipped = {}\nlocal chapter_auto_next = false\n"));
    assert!(t.contains("local cached_skips = {\n  {start=1.000, ends=2.500, type=\"op\"},\n}\nlocal cached_auto_next = false\n"));
    assert!(t.contains("overlay.data = \"{\\\\an3\\\\fs28"));
    assert!(!t.contains("end-file"));
    assert!(t.ends_with("f:write(fs and \"1\" or \"0\")\n        f:close()\n    end\nend)\n"));
}

#[test]
fn data_file_names() {
    if let Some(p) = last_position_path() {
        assert!(p.ends_with("last_pos.txt"));
    }
    if let Some(p) = config_path() {
        assert!(p.ends_with("mal_config.json"));
        assert!(p.len() > "mal_config.json".len());
    }
    if let (Some(a), Some(b)) = (anime_data_path(), script_path()) {
        assert_eq!(a.trim_end_matches("anime_data.json"), b.trim_end_matches("aniskip.lua"));
    }
}

#[test]
fn data_file_in_a_directory() {
    let p = data_file(&Some("/home/u/.local/share/ani-fr".to_string()), "mal_cache.json").unwrap();
    assert!(p.starts_with("/home/u/.local/share/ani-fr"));
    assert!(p.ends_with("mal_cache.json"));
    assert!(p.len() > "/home/u/.local/share/ani-fr".len() + "mal_cache.json".len() - 1);
    assert_eq!(data_file(&None, "mal_cache.json"), None);
}

#[test]
fn downloader_arguments() {
    assert_eq!(
        yt_dlp_args("One Piece/S1/One Piece S1E03.%(ext)s", "u3"),
        vec![
            "--newline".to_string(),
            "--progress".to_string(),
            "-o".to_string(),
            "One Piece/S1/One Piece S1E03.%(ext)s".to_string(),
            "u3".to_string(),
        ]
    );
}

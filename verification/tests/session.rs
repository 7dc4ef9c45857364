use ani_fr::playback::{click_decision, ClickAction};
use ani_fr::data::{
    merge_plan, plan_data_merge, read_media_doc, refresh_plan, DataRefresh, EntryFields,
    EntrySource, MediaDoc,
};
use ani_fr::history::{HistoryEntry, WatchHistory, MAX_HISTORY};
use ani_fr::hooks::{
    f7, f8, held, is_held, set_eat, HookState, HC_ACTION, VK_F7, VK_F8, WM_KEYDOWN, WM_KEYUP,
    WM_LBUTTONDOWN, WM_LBUTTONUP,
};
use ani_fr::playback::{Playback, Toggle};
use ani_fr::timer::{group_size, rhythm_beat, ring_slot, FrameClock};

#[test]
fn history_upserts_and_orders_newest_first() {
    let mut h = WatchHistory::new();
    h.record_watch("A", "vf", 1, 1, 0, 100);
    h.record_watch("B", "vostfr", 2, 3, 7, 200);
    let names: Vec<&str> = h.entries.iter().map(|e| e.name.as_str()).collect();
    assert_eq!(names, vec!["B", "A"]);
    h.record_watch("A", "vostfr", 1, 2, 9, 300);
    assert_eq!(h.entries.len(), 2);
    assert_eq!(h.entries[0].name, "A");
    assert_eq!(h.entries[0].episode, 2);
    assert_eq!(h.entries[0].lang, "vostfr");
    assert_eq!(h.entries[0].updated_at, 300);
    assert_eq!(h.entries[1].name, "B");
}

#[test]
fn history_keeps_ten_newest() {
    let mut h = WatchHistory::new();
    for i in 0..60i64 {
        h.record_watch(&format!("anime {}", i), "vf", 1, 1, 0, i);
    }
    assert_eq!(MAX_HISTORY, 10);
    assert_eq!(h.entries.len(), MAX_HISTORY);
    assert_eq!(h.entries[0].name, "anime 59");
    assert_eq!(h.entries[9].name, "anime 50");
    assert!(h.entries.windows(2).all(|w| w[0].updated_at >= w[1].updated_at));
}

#[test]
fn history_ties_keep_their_order() {
    let mut h = WatchHistory {
        entries: vec![
            HistoryEntry { name: "X".to_string(), lang: "vf".to_string(), season: 1, episode: 1, timestamp_bits: 0, updated_at: 5 },
            HistoryEntry { name: "Y".to_string(), lang: "vf".to_string(), season: 1, episode: 1, timestamp_bits: 0, updated_at: 5 },
        ],
    };
    h.record_watch("Z", "vf", 1, 1, 0, 5);
    let names: Vec<&str> = h.entries.iter().map(|e| e.name.as_str()).collect();
    assert_eq!(names, vec!["X", "Y", "Z"]);
}

#[test]
fn mouse_hook_swallows_only_while_eating() {
    let mut s = HookState::new();
    assert!(!s.on_mouse(HC_ACTION, WM_LBUTTONDOWN as usize, 0));
    assert!(held(&s));
    assert!(is_held(&s));
    set_eat(&mut s, true);
    assert!(s.on_mouse(HC_ACTION, WM_LBUTTONUP as usize, 0));
    assert!(!held(&s));
    assert!(!s.on_mouse(HC_ACTION, WM_LBUTTONDOWN as usize, 1));
    assert!(!held(&s));
    assert!(!s.on_mouse(1, WM_LBUTTONDOWN as usize, 0));
    assert!(!held(&s));
    assert!(!s.on_mouse(HC_ACTION, 0x0200, 0));
    set_eat(&mut s, false);
    assert!(!s.eat);
}

#[test]
fn keyboard_hook_tracks_f7_and_f8() {
    let mut s = HookState::new();
    s.on_key(HC_ACTION, WM_KEYDOWN as usize, VK_F7);
    assert!(f7(&s) && !f8(&s));
    s.on_key(HC_ACTION, WM_KEYDOWN as usize, VK_F8);
    assert!(f8(&s));
    s.on_key(HC_ACTION, WM_KEYUP as usize, VK_F7);
    assert!(!f7(&s) && f8(&s));
    s.on_key(HC_ACTION, WM_KEYDOWN as usize, 0x41);
    assert!(!f7(&s));
    s.on_key(-1, WM_KEYUP as usize, VK_F8);
    assert!(f8(&s));
}

#[test]
fn playback_keys() {
    let mut p = Playback::new();
    let s = p.step(true, false);
    assert!(matches!(s.toggle, Toggle::Start) && !s.stop && p.enabled);
    assert_eq!(s.set_eat, Some(true));
    let s = p.step(true, false);
    assert!(matches!(s.toggle, Toggle::Unchanged) && p.enabled);
    assert_eq!(s.set_eat, None);
    p.step(false, false);
    let s = p.step(true, false);
    assert!(matches!(s.toggle, Toggle::Pause) && !p.enabled);
    p.step(false, false);
    p.step(true, false);
    let s = p.step(true, true);
    assert!(s.stop && !p.enabled);
    assert_eq!(s.set_eat, Some(false));
    let s = p.step(false, true);
    assert!(!s.stop);
}

#[test]
fn playback_start_and_stop_in_one_poll() {
    let mut p = Playback::new();
    let s = p.step(true, true);
    assert!(matches!(s.toggle, Toggle::Start));
    assert!(s.stop);
    assert!(!p.enabled);
    assert_eq!(s.set_eat, Some(false));
}

#[test]
fn clicks_only_while_on_and_held() {
    assert!(matches!(click_decision(true, true), ClickAction::Click));
    assert!(matches!(click_decision(true, false), ClickAction::Wait));
    assert!(matches!(click_decision(false, true), ClickAction::Finish));
    assert!(matches!(click_decision(false, false), ClickAction::Finish));
}

#[test]
fn frame_clock_bookkeeping() {
    let mut c = FrameClock::new();
    assert_eq!(c.advance(), 1);
    assert_eq!(c.tick, 1);
    assert_eq!(group_size(0), 3);
    assert_eq!(group_size(50), 4);
    assert_eq!(group_size(149), 5);
    assert_eq!(group_size(150), 3);
    assert!(rhythm_beat(3));
    assert!(!rhythm_beat(4));
    assert!(!rhythm_beat(50));
    assert!(rhythm_beat(52));
    assert_eq!(ring_slot(9), 1);
    assert_eq!(ring_slot(16), 0);
}

fn fields(name: Option<&str>, lang: Option<&str>, season: Option<i64>) -> EntryFields {
    EntryFields { name: name.map(|s| s.to_string()), lang: lang.map(|s| s.to_string()), season }
}

fn describe(v: &[EntrySource]) -> Vec<String> {
    v.iter()
        .map(|s| match s {
            EntrySource::Local(i) => format!("L{}", i),
            EntrySource::Remote(i) => format!("R{}", i),
        })
        .collect()
}

#[test]
fn merge_keeps_local_first_and_one_per_key() {
    let local = vec![
        fields(Some("Naruto"), Some("vf"), Some(1)),
        fields(Some("naruto"), Some("vf"), None),
        fields(Some("Bleach"), Some("vf"), Some(1)),
    ];
    let remote = vec![
        fields(Some("NARUTO"), Some("vf"), Some(1)),
        fields(Some("Naruto"), Some("vostfr"), Some(1)),
        fields(None, None, None),
        fields(Some(""), Some(""), Some(1)),
    ];
    assert_eq!(describe(&merge_plan(&local, &remote)), vec!["L0", "L2", "R1", "R2"]);
    assert!(merge_plan(&Vec::new(), &Vec::new()).is_empty());
}

#[test]
fn data_merge_from_bytes() {
    let local = br#"{"media":[{"name":"A","lang":"vf","season":1},{"name":"B","lang":"vf","season":2}]}"#;
    let remote = br#"{"media":[{"name":"a","lang":"vf","season":1},{"name":"C","lang":"vf","season":"x"}]}"#;
    let plan = plan_data_merge(Some(&local[..]), &remote[..]).unwrap();
    assert_eq!(describe(&plan), vec!["L0", "L1", "R1"]);
    assert!(plan_data_merge(Some(&local[..]), b"not json").is_none());
    let plan = plan_data_merge(Some(&b"garbage"[..]), &remote[..]).unwrap();
    assert_eq!(describe(&plan), vec!["R0", "R1"]);
    let plan = plan_data_merge(None, br#"{"other":1}"#).unwrap();
    assert!(plan.is_empty());
}

#[test]
fn media_doc_reading() {
    assert!(matches!(read_media_doc(b"[1,2"), MediaDoc::NotJson));
    assert!(matches!(read_media_doc(b"{\"media\":3}"), MediaDoc::NoMedia));
    match read_media_doc(br#"{"media":[{"name":"A","season":2,"lang":5}]}"#) {
        MediaDoc::Media(v) => {
            assert_eq!(v.len(), 1);
            assert_eq!(v[0].name.as_deref(), Some("A"));
            assert_eq!(v[0].lang, None);
            assert_eq!(v[0].season, Some(2));
        }
        _ => panic!("one entry"),
    }
}

#[test]
fn refresh_decision() {
    assert!(matches!(refresh_plan(false, false), DataRefresh::Replace));
    assert!(matches!(refresh_plan(true, true), DataRefresh::Replace));
    assert!(matches!(refresh_plan(true, false), DataRefresh::Merge));
}

use ani_fr::matching::{MatchAction, MatchEvent, MatchState};
use ani_fr::aniskip::skip_segments;
use ani_fr::login::{callback_page, LoginAction, LoginEnd, LoginEvent, LoginState};
use ani_fr::mal::{
    apply_refresh, auto_search_queries, authorize_url, check_token, code_grant_body,
    extract_code_from_request, finish_renewal, format_timestamp, generate_code_verifier,
    grant_outcome, is_logged_in, list_status_body, list_status_url, read_search_reply,
    read_token_reply, refresh_body, search_reply_results, search_url, skip_times_url,
    token_is_fresh, urlencoded, GrantOutcome, MalCache, MalConfig, TokenCheck, TokenReply,
    WatchingState,
};

fn config(token: &str, expires_at: i64) -> MalConfig {
    MalConfig {
        client_id: "cid".to_string(),
        client_secret: "sec".to_string(),
        access_token: token.to_string(),
        refresh_token: "ref".to_string(),
        expires_at,
    }
}

fn full_reply(expires_in: i64) -> TokenReply {
    TokenReply {
        access_token: Some("new-access".to_string()),
        refresh_token: Some("new-refresh".to_string()),
        expires_in: Some(expires_in),
        error: None,
    }
}

#[test]
fn default_config_is_not_a_login() {
    let c = MalConfig::default();
    assert_eq!(c.client_id, "");
    assert_eq!(c.expires_at, 0);
    assert!(!is_logged_in(&Some(c)));
    assert!(!is_logged_in(&None));
    assert!(is_logged_in(&Some(config("tok", 0))));
}

#[test]
fn urlencoded_escapes_reserved_bytes() {
    assert_eq!(urlencoded("abc-_.~XYZ09"), "abc-_.~XYZ09");
    assert_eq!(urlencoded("a b&c=d"), "a%20b%26c%3Dd");
    assert_eq!(urlencoded("é"), "%C3%A9");
    assert_eq!(urlencoded("http://localhost:7878/callback"), "http%3A%2F%2Flocalhost%3A7878%2Fcallback");
}

#[test]
fn authorization_url_and_bodies() {
    assert_eq!(
        authorize_url("id1", "ver"),
        "https://myanimelist.net/v1/oauth2/authorize?response_type=code&client_id=id1&code_challenge=ver&code_challenge_method=plain&redirect_uri=http%3A%2F%2Flocalhost%3A7878%2Fcallback"
    );
    assert_eq!(
        code_grant_body("id", "s s", "c", "v"),
        "client_id=id&client_secret=s%20s&code=c&code_verifier=v&grant_type=authorization_code&redirect_uri=http%3A%2F%2Flocalhost%3A7878%2Fcallback"
    );
    assert_eq!(
        refresh_body(&config("t", 0)),
        "client_id=cid&client_secret=sec&grant_type=refresh_token&refresh_token=ref"
    );
}

#[test]
fn code_from_callback_request() {
    let req = "GET /callback?code=abc123&state=x HTTP/1.1\r\nHost: localhost\r\n\r\n";
    assert_eq!(extract_code_from_request(req), Some("abc123".to_string()));
    assert_eq!(extract_code_from_request("GET /callback?state=x&code=z HTTP/1.1"), Some("z".to_string()));
    assert_eq!(extract_code_from_request("GET /callback HTTP/1.1"), None);
    assert_eq!(extract_code_from_request("GET /callback?error=denied HTTP/1.1"), None);
    assert_eq!(extract_code_from_request(""), None);
    assert_eq!(extract_code_from_request("GET /cb?code=a=b HTTP/1.1"), Some("a=b".to_string()));
}

#[test]
fn code_verifier_has_128_alphanumeric_chars() {
    let v = generate_code_verifier();
    assert_eq!(v.chars().count(), 128);
    assert!(v.chars().all(|c| c.is_ascii_alphanumeric()));
}

#[test]
fn token_freshness() {
    assert!(token_is_fresh(&config("t", 100), 99));
    assert!(!token_is_fresh(&config("t", 100), 100));
    assert!(matches!(check_token(&config("t", 100), 99), TokenCheck::Fresh));
    match check_token(&config("t", 100), 100) {
        TokenCheck::Renew { body } => assert!(body.contains("grant_type=refresh_token")),
        TokenCheck::Fresh => panic!("an expired token must be renewed"),
    }
}

#[test]
fn refresh_takes_complete_replies_only() {
    let mut c = config("old", 5);
    assert!(apply_refresh(&mut c, &full_reply(60), 1000));
    assert_eq!(c.access_token, "new-access");
    assert_eq!(c.refresh_token, "new-refresh");
    assert_eq!(c.expires_at, 1060);
    assert_eq!(c.client_id, "cid");
    let mut d = config("old", 5);
    let partial = TokenReply { refresh_token: None, ..full_reply(60) };
    assert!(!apply_refresh(&mut d, &partial, 1000));
    assert_eq!(d.access_token, "old");
    assert_eq!(d.expires_at, 5);
}

#[test]
fn finish_renewal_outcomes() {
    let mut c = config("old", 5);
    assert!(!finish_renewal(&mut c, None, 1000));
    assert_eq!(c.access_token, "old");
    assert!(finish_renewal(&mut c, Some(full_reply(60)), 1000));
    assert_eq!(c.access_token, "new-access");
    assert_eq!(c.expires_at, 1060);
    let mut d = config("old", 5);
    assert!(!finish_renewal(&mut d, Some(full_reply(i64::MAX)), 1000));
    assert_eq!(d.access_token, "old");
    assert_eq!(d.expires_at, 5);
}

#[test]
fn grant_outcome_variants() {
    match grant_outcome("id", "sec", &full_reply(10), 5) {
        GrantOutcome::Granted(c) => {
            assert_eq!(c.client_id, "id");
            assert_eq!(c.client_secret, "sec");
            assert_eq!(c.access_token, "new-access");
            assert_eq!(c.expires_at, 15);
        }
        _ => panic!("a complete reply grants"),
    }
    let refused = TokenReply {
        access_token: None,
        refresh_token: None,
        expires_in: None,
        error: Some("invalid_grant".to_string()),
    };
    assert!(matches!(grant_outcome("id", "sec", &refused, 5), GrantOutcome::Refused(e) if e == "invalid_grant"));
    let empty = TokenReply { error: None, ..refused };
    assert!(matches!(grant_outcome("id", "sec", &empty, 5), GrantOutcome::Unexpected));
}

#[test]
fn token_reply_parsing() {
    let r = read_token_reply(r#"{"access_token":"a","refresh_token":"b","expires_in":3600}"#).unwrap();
    assert_eq!(r.access_token.as_deref(), Some("a"));
    assert_eq!(r.refresh_token.as_deref(), Some("b"));
    assert_eq!(r.expires_in, Some(3600));
    assert_eq!(r.error, None);
    let e = read_token_reply(r#"{"error":"invalid_request","expires_in":"x"}"#).unwrap();
    assert_eq!(e.error.as_deref(), Some("invalid_request"));
    assert_eq!(e.expires_in, None);
    assert!(read_token_reply("not json").is_none());
}

#[test]
fn search_reply_hits() {
    let text = r#"{"data":[{"node":{"id":21,"title":"One Piece"}},{"node":{"id":0,"title":"Zero"}},{"other":1},{"node":{"id":5}}]}"#;
    assert_eq!(
        search_reply_results(text),
        vec![(21, "One Piece".to_string()), (5, "?".to_string())]
    );
    assert!(search_reply_results("{}").is_empty());
    assert!(search_reply_results("oops").is_empty());
    let nodes = read_search_reply(text).unwrap();
    assert_eq!(nodes.len(), 4);
    assert!(nodes[2].is_none());
}

#[test]
fn search_queries_shrink() {
    assert_eq!(auto_search_queries("One Piece"), vec!["One Piece".to_string()]);
    assert_eq!(
        auto_search_queries("a b c d e f g h"),
        vec![
            "a b c d e f g h".to_string(),
            "a b c d e f g".to_string(),
            "a b c d e".to_string(),
            "a b c".to_string(),
        ]
    );
    assert_eq!(
        auto_search_queries("a  b c d"),
        vec!["a  b c d".to_string(), "a b c".to_string()]
    );
}

#[test]
fn urls_and_bodies_for_mal_and_aniskip() {
    assert_eq!(search_url("one piece"), "https://api.myanimelist.net/v2/anime?q=one%20piece&limit=10");
    assert_eq!(list_status_url(21), "https://api.myanimelist.net/v2/anime/21/my_list_status");
    assert_eq!(list_status_body(3, false), "status=watching&num_watched_episodes=3");
    assert_eq!(list_status_body(12, true), "status=completed&num_watched_episodes=12");
    assert_eq!(
        skip_times_url(21, 4),
        "https://api.aniskip.com/v2/skip-times/21/4?types=op&types=ed&episodeLength=0"
    );
}

#[test]
fn timestamps() {
    assert_eq!(format_timestamp(0), "00:00");
    assert_eq!(format_timestamp(65), "01:05");
    assert_eq!(format_timestamp(3725), "01:02:05");
    assert_eq!(format_timestamp(36000 * 10), "100:00:00");
}

#[test]
fn cache_reads_back_what_was_written() {
    let mut cache = MalCache::new();
    assert_eq!(cache.lookup("Naruto"), None);
    cache.insert("Naruto", 20);
    cache.insert("Bleach", 269);
    cache.insert("Naruto", 21);
    assert_eq!(cache.lookup("Naruto"), Some(21));
    assert_eq!(cache.lookup("Bleach"), Some(269));
    assert_eq!(cache.mappings.len(), 2);
}

#[test]
fn remember_first_result() {
    let mut cache = MalCache::new();
    assert_eq!(cache.remember_first("X", &Vec::new()), None);
    assert_eq!(cache.lookup("X"), None);
    let hits = vec![(7, "Seven".to_string()), (8, "Eight".to_string())];
    assert_eq!(cache.remember_first("X", &hits), Some(7));
    assert_eq!(cache.lookup("X"), Some(7));
}

#[test]
fn completion_needs_last_episode_of_last_season() {
    let mut w = WatchingState {
        name: "A".to_string(),
        lang: "vf".to_string(),
        season: 1,
        episode: 12,
        mal_id: Some(1),
        total_episodes: 12,
        is_last_season: true,
    };
    assert!(w.is_completed());
    w.is_last_season = false;
    assert!(!w.is_completed());
    w.is_last_season = true;
    w.episode = 11;
    assert!(!w.is_completed());
}

fn step(s: &mut LoginState, e: LoginEvent) -> LoginAction {
    s.step(e)
}

#[test]
fn login_already_connected() {
    let mut s = LoginState::new();
    let a = step(&mut s, LoginEvent::Begin { saved: Some(config("tok", 0)) });
    assert!(matches!(a, LoginAction::End { end: LoginEnd::AlreadyConnected }));
    assert!(matches!(s, LoginState::Finished));
    assert!(matches!(step(&mut s, LoginEvent::BrowserOpened { ok: true }), LoginAction::Ignore));
}

#[test]
fn login_refuses_blank_inputs() {
    let mut s = LoginState::new();
    assert!(matches!(step(&mut s, LoginEvent::Begin { saved: None }), LoginAction::AskClientId));
    let a = step(&mut s, LoginEvent::ClientIdEntered { input: Some("   ".to_string()) });
    assert!(matches!(a, LoginAction::End { end: LoginEnd::InvalidClientId }));
    let mut t = LoginState::new();
    step(&mut t, LoginEvent::Begin { saved: Some(config("", 0)) });
    step(&mut t, LoginEvent::ClientIdEntered { input: Some(" id ".to_string()) });
    let a = step(&mut t, LoginEvent::SecretEntered { input: None });
    assert!(matches!(a, LoginAction::End { end: LoginEnd::InvalidClientSecret }));
}

#[test]
fn login_full_flow() {
    let mut s = LoginState::new();
    step(&mut s, LoginEvent::Begin { saved: None });
    assert!(matches!(
        step(&mut s, LoginEvent::ClientIdEntered { input: Some(" my-id \n".to_string()) }),
        LoginAction::AskClientSecret
    ));
    let url = match step(&mut s, LoginEvent::SecretEntered { input: Some("secret".to_string()) }) {
        LoginAction::OpenBrowser { url } => url,
        _ => panic!("the browser is opened next"),
    };
    assert!(url.starts_with("https://myanimelist.net/v1/oauth2/authorize?response_type=code&client_id=my-id&code_challenge="));
    let verifier = match &s {
        LoginState::OpeningBrowser { verifier, client_secret, .. } => {
            assert_eq!(client_secret, "secret");
            verifier.clone()
        }
        _ => panic!("waiting for the browser"),
    };
    assert_eq!(verifier.len(), 128);
    match step(&mut s, LoginEvent::BrowserOpened { ok: false }) {
        LoginAction::Listen { manual_link } => assert_eq!(manual_link, Some(url.clone())),
        _ => panic!("listen next"),
    }
    let body = match step(&mut s, LoginEvent::RequestReceived { request: "GET /callback?code=XYZ HTTP/1.1\r\n".to_string() }) {
        LoginAction::AnswerThenRequestToken { body } => body,
        _ => panic!("the code is traded next"),
    };
    assert_eq!(body, code_grant_body("my-id", "secret", "XYZ", &verifier));
    match step(&mut s, LoginEvent::TokenReceived { reply: Some(full_reply(3600)), now: 1_700_000_000 }) {
        LoginAction::End { end: LoginEnd::Connected(c) } => {
            assert_eq!(c.client_id, "my-id");
            assert_eq!(c.access_token, "new-access");
            assert_eq!(c.expires_at, 1_700_003_600);
        }
        _ => panic!("connected"),
    }
    assert!(matches!(s, LoginState::Finished));
}

#[test]
fn login_error_ends() {
    let listening = || LoginState::Listening {
        client_id: "i".to_string(),
        client_secret: "s".to_string(),
        verifier: "v".to_string(),
    };
    let mut s = listening();
    assert!(matches!(step(&mut s, LoginEvent::ListenFailed { error: "busy".to_string() }), LoginAction::End { end: LoginEnd::ServerError(e) } if e == "busy"));
    let mut s = listening();
    assert!(matches!(step(&mut s, LoginEvent::AcceptFailed { error: "x".to_string() }), LoginAction::End { end: LoginEnd::ConnectionError(e) } if e == "x"));
    let mut s = listening();
    assert!(matches!(step(&mut s, LoginEvent::RequestReceived { request: "GET / HTTP/1.1".to_string() }), LoginAction::AnswerThenEnd { end: LoginEnd::NoCode }));
    let awaiting = || LoginState::AwaitingToken { client_id: "i".to_string(), client_secret: "s".to_string() };
    let mut s = awaiting();
    assert!(matches!(step(&mut s, LoginEvent::TokenReceived { reply: None, now: 1 }), LoginAction::End { end: LoginEnd::TokenRequestFailed }));
    let mut s = awaiting();
    let refused = TokenReply { access_token: None, refresh_token: None, expires_in: None, error: Some("bad".to_string()) };
    assert!(matches!(step(&mut s, LoginEvent::TokenReceived { reply: Some(refused), now: 1 }), LoginAction::End { end: LoginEnd::MalError(e) } if e == "bad"));
    let mut s = awaiting();
    let empty = TokenReply { access_token: None, refresh_token: None, expires_in: None, error: None };
    assert!(matches!(step(&mut s, LoginEvent::TokenReceived { reply: Some(empty), now: 1 }), LoginAction::End { end: LoginEnd::UnexpectedReply }));
    let mut s = awaiting();
    assert!(matches!(step(&mut s, LoginEvent::TokenReceived { reply: Some(full_reply(i64::MAX)), now: 1 }), LoginAction::End { end: LoginEnd::ExpiryOutOfRange }));
    let mut s = listening();
    assert!(matches!(step(&mut s, LoginEvent::Begin { saved: None }), LoginAction::Ignore));
    assert!(matches!(s, LoginState::Listening { .. }));
}

#[test]
fn callback_page_is_html() {
    assert!(callback_page().starts_with("HTTP/1.1 200 OK\r\n"));
    assert!(callback_page().contains("Connexion réussie"));
}

#[test]
fn matching_stops_at_first_hits() {
    let mut cache = MalCache::new();
    let mut m = MatchState::new("a b c d e f g h");
    let mut sent = Vec::new();
    let mut ev = MatchEvent::Begin;
    loop {
        match m.step(&mut cache, ev) {
            MatchAction::Search { query } => {
                sent.push(query.clone());
                let hits = if sent.len() == 3 { vec![(42, "X".to_string())] } else { Vec::new() };
                ev = MatchEvent::Results { hits };
            }
            MatchAction::Done { id, cache_changed } => {
                assert_eq!(id, Some(42));
                assert!(cache_changed);
                break;
            }
            _ => panic!("no prompt expected"),
        }
    }
    assert_eq!(sent, vec!["a b c d e f g h".to_string(), "a b c d e f g".to_string(), "a b c d e".to_string()]);
    assert_eq!(cache.lookup("a b c d e f g h"), Some(42));
    let mut again = MatchState::new("a b c d e f g h");
    assert!(matches!(again.step(&mut cache, MatchEvent::Begin), MatchAction::Done { id: Some(42), cache_changed: false }));
}

#[test]
fn matching_manual_fallback() {
    let mut cache = MalCache::new();
    let mut m = MatchState::new("Nom");
    assert!(matches!(m.step(&mut cache, MatchEvent::Begin), MatchAction::Search { query } if query == "Nom"));
    assert!(matches!(m.step(&mut cache, MatchEvent::Results { hits: Vec::new() }), MatchAction::AskManual));
    assert!(matches!(m.step(&mut cache, MatchEvent::ManualInput { input: Some("  Title ".to_string()) }), MatchAction::Search { query } if query == "Title"));
    assert!(matches!(m.step(&mut cache, MatchEvent::Results { hits: Vec::new() }), MatchAction::Done { id: None, cache_changed: false }));
    assert_eq!(cache.lookup("Nom"), None);
    let mut b = MatchState::new("Nom");
    b.step(&mut cache, MatchEvent::Begin);
    b.step(&mut cache, MatchEvent::Results { hits: Vec::new() });
    assert!(matches!(b.step(&mut cache, MatchEvent::ManualInput { input: Some("   ".to_string()) }), MatchAction::Done { id: None, cache_changed: false }));
    let mut c = MatchState::new("Nom");
    c.step(&mut cache, MatchEvent::Begin);
    c.step(&mut cache, MatchEvent::Results { hits: Vec::new() });
    c.step(&mut cache, MatchEvent::ManualInput { input: Some("T".to_string()) });
    assert!(matches!(c.step(&mut cache, MatchEvent::Results { hits: vec![(7, "t".to_string())] }), MatchAction::Done { id: Some(7), cache_changed: true }));
    assert_eq!(cache.lookup("Nom"), Some(7));
    assert!(matches!(c.step(&mut cache, MatchEvent::Begin), MatchAction::Ignore));
}

#[test]
fn aniskip_segments() {
    let text = r#"{"found":true,"results":[{"skipType":"op","interval":{"startTime":10.5,"endTime":95}},{"skipType":"ed"},{"interval":{"endTime":3.0}}]}"#;
    let segs = skip_segments(text);
    assert_eq!(segs.len(), 2);
    assert_eq!(segs[0].skip_type, "op");
    assert_eq!(f64::from_bits(segs[0].start_bits), 10.5);
    assert_eq!(f64::from_bits(segs[0].end_bits), 95.0);
    assert_eq!(segs[1].skip_type, "");
    assert_eq!(f64::from_bits(segs[1].start_bits), 0.0);
    assert_eq!(f64::from_bits(segs[1].end_bits), 3.0);
    assert!(skip_segments(r#"{"found":false,"results":[{"skipType":"op","interval":{"startTime":1,"endTime":2}}]}"#).is_empty());
    assert!(skip_segments("not json").is_empty());
    assert!(skip_segments(r#"{"found":true}"#).is_empty());
}

//! MyAnimeList: the saved credentials, the name-to-id cache, and the
//! requests the program sends (form bodies, URLs) and what it makes of the
//! replies.
use rand::RngExt;
use vstd::prelude::*;
use vstd::utf8::encode_utf8;
use crate::text::{
    chars_of, opt_view, decimal, find_char, join, join_words, lemma_find_char, lines, pad2, push_all,
    push_char, push_decimal, push_pad2, slice_chars, split_lines, split_whitespace, char_views,
    string_of, string_views, words,
};

verus! {

/// The saved MyAnimeList credentials.
pub struct MalConfig {
    pub client_id: String,
    pub client_secret: String,
    pub access_token: String,
    pub refresh_token: String,
    pub expires_at: i64,
}

/// The mathematical value of a `MalConfig`.
pub struct MalConfigView {
    pub client_id: Seq<char>,
    pub client_secret: Seq<char>,
    pub access_token: Seq<char>,
    pub refresh_token: Seq<char>,
    pub expires_at: i64,
}

impl View for MalConfig {
    type V = MalConfigView;

    open spec fn view(&self) -> MalConfigView {
        MalConfigView {
            client_id: self.client_id@,
            client_secret: self.client_secret@,
            access_token: self.access_token@,
            refresh_token: self.refresh_token@,
            expires_at: self.expires_at,
        }
    }
}

impl Default for MalConfig {
    fn default() -> (r: Self)
        ensures
            r@ == (MalConfigView {
                client_id: seq![],
                client_secret: seq![],
                access_token: seq![],
                refresh_token: seq![],
                expires_at: 0,
            }),
    {
        MalConfig {
            client_id: String::new(),
            client_secret: String::new(),
            access_token: String::new(),
            refresh_token: String::new(),
            expires_at: 0,
        }
    }
}

impl MalConfig {
    /// A copy of these credentials.
    pub fn duplicate(&self) -> (r: Self)
        ensures
            r@ == self@,
    {
        MalConfig {
            client_id: self.client_id.clone(),
            client_secret: self.client_secret.clone(),
            access_token: self.access_token.clone(),
            refresh_token: self.refresh_token.clone(),
            expires_at: self.expires_at,
        }
    }
}

/// Saved credentials count as a login: there are credentials and their
/// access token is not empty.
pub open spec fn logged_in(config: Option<MalConfig>) -> bool {
    config matches Some(c) && c.access_token@.len() > 0
}

/// Whether saved credentials count as a login.
pub fn is_logged_in(config: &Option<MalConfig>) -> (r: bool)
    ensures
        r == logged_in(*config),
{
    match config {
        Some(c) => !c.access_token.as_str().is_empty(),
        None => false,
    }
}

/// The bytes that form-encoding keeps as they are: ASCII letters, digits,
/// `-`, `_`, `.` and `~`.
pub open spec fn unreserved(b: u8) -> bool {
    ||| 0x41 <= b <= 0x5A
    ||| 0x61 <= b <= 0x7A
    ||| 0x30 <= b <= 0x39
    ||| b == 0x2D
    ||| b == 0x5F
    ||| b == 0x2E
    ||| b == 0x7E
}

/// The upper-case hexadecimal digit of a value below 16.
pub open spec fn hex_digit(d: u8) -> char {
    if d < 10 {
        (d + 0x30) as char
    } else {
        (d - 10 + 0x41) as char
    }
}

/// The encoding of one byte: itself when unreserved, `%` and two upper-case
/// hexadecimal digits otherwise.
pub open spec fn encode_byte(b: u8) -> Seq<char> {
    if unreserved(b) {
        seq![b as char]
    } else {
        seq!['%', hex_digit(b / 16), hex_digit(b % 16)]
    }
}

/// The percent-encoding of a byte string.
pub open spec fn url_encode(bytes: Seq<u8>) -> Seq<char>
    decreases bytes.len(),
{
    if bytes.len() == 0 {
        seq![]
    } else {
        url_encode(bytes.drop_last()) + encode_byte(bytes.last())
    }
}

/// The percent-encoding of the UTF-8 bytes of a text.
pub open spec fn url_encode_text(s: Seq<char>) -> Seq<char> {
    url_encode(encode_utf8(s))
}

/// The value of a hexadecimal digit written by `hex_digit`.
pub open spec fn hex_value(c: char) -> int {
    if '0' <= c <= '9' {
        c as int - 0x30
    } else {
        c as int - 0x41 + 10
    }
}

/// Reads percent-encoded text back into bytes, from the end: three
/// characters starting with `%` are one escaped byte, any other character
/// is the byte of its code.
pub open spec fn url_decode(s: Seq<char>) -> Seq<u8>
    decreases s.len(),
{
    if s.len() == 0 {
        seq![]
    } else if s.len() >= 3 && s[s.len() - 3] == '%' {
        url_decode(s.take(s.len() - 3)).push(
            (hex_value(s[s.len() - 2]) * 16 + hex_value(s[s.len() - 1])) as u8,
        )
    } else {
        url_decode(s.drop_last()).push(s.last() as u8)
    }
}

proof fn lemma_hex_digit(d: u8)
    requires
        d < 16,
    ensures
        hex_value(hex_digit(d)) == d,
        hex_digit(d) != '%',
{
}

proof fn lemma_encode_tail(bytes: Seq<u8>)
    ensures
        url_encode(bytes).len() >= bytes.len(),
        url_encode(bytes).len() >= 1 ==> url_encode(bytes).last() != '%',
        url_encode(bytes).len() >= 2 ==> url_encode(bytes)[url_encode(bytes).len() - 2] != '%',
    decreases bytes.len(),
{
    if bytes.len() > 0 {
        let p = bytes.drop_last();
        let b = bytes.last();
        lemma_encode_tail(p);
        let e = url_encode(p);
        let s = url_encode(bytes);
        assert(s == e + encode_byte(b));
        if unreserved(b) {
            assert(s.last() == b as char);
            if s.len() >= 2 {
                assert(s[s.len() - 2] == e.last());
            }
        } else {
            lemma_hex_digit(b / 16);
            lemma_hex_digit(b % 16);
            assert(s.last() == hex_digit(b % 16));
            assert(s[s.len() - 2] == hex_digit(b / 16));
        }
    }
}

/// Percent-encoding loses nothing: reading the encoding back gives the
/// bytes that were encoded.
pub proof fn lemma_url_decode_encode(bytes: Seq<u8>)
    ensures
        url_decode(url_encode(bytes)) == bytes,
    decreases bytes.len(),
{
    if bytes.len() > 0 {
        let p = bytes.drop_last();
        let b = bytes.last();
        lemma_url_decode_encode(p);
        lemma_encode_tail(p);
        let e = url_encode(p);
        let s = url_encode(bytes);
        assert(s == e + encode_byte(b));
        if unreserved(b) {
            assert(s.drop_last() =~= e);
            if s.len() >= 3 {
                assert(s[s.len() - 3] == e[e.len() - 2]);
            }
            assert((b as char) as u8 == b);
        } else {
            lemma_hex_digit(b / 16);
            lemma_hex_digit(b % 16);
            assert(s.take(s.len() - 3) =~= e);
            assert(s[s.len() - 3] == '%');
            assert((b / 16) * 16 + b % 16 == b);
        }
        assert(bytes =~= p.push(b));
    }
}

/// The characters of bytes, one each.
pub open spec fn byte_chars(bytes: Seq<u8>) -> Seq<char> {
    bytes.map_values(|b: u8| b as char)
}

/// Percent-encoding changes nothing exactly when every byte is unreserved;
/// each other byte makes the text two characters longer.
pub proof fn lemma_url_encode_identity(bytes: Seq<u8>)
    ensures
        url_encode(bytes).len() >= bytes.len(),
        (url_encode(bytes) == byte_chars(bytes)) <==> (forall|i: int|
            0 <= i < bytes.len() ==> unreserved(#[trigger] bytes[i])),
    decreases bytes.len(),
{
    if bytes.len() > 0 {
        let p = bytes.drop_last();
        let b = bytes.last();
        lemma_url_encode_identity(p);
        assert(byte_chars(bytes) =~= byte_chars(p).push(b as char));
        if unreserved(b) {
            assert(url_encode(bytes) =~= url_encode(p).push(b as char));
            assert forall|i: int| 0 <= i < p.len() implies #[trigger] p[i] == bytes[i] by {}
            if url_encode(bytes) == byte_chars(bytes) {
                assert(url_encode(p) =~= url_encode(bytes).drop_last());
                assert(byte_chars(p) =~= byte_chars(bytes).drop_last());
                assert forall|i: int| 0 <= i < bytes.len() implies unreserved(#[trigger] bytes[i]) by {
                    if i < p.len() {
                        assert(unreserved(p[i]));
                    }
                }
            }
            if forall|i: int| 0 <= i < bytes.len() ==> unreserved(#[trigger] bytes[i]) {
                assert forall|i: int| 0 <= i < p.len() implies unreserved(#[trigger] p[i]) by {
                    assert(unreserved(bytes[i]));
                }
                assert(url_encode(p) == byte_chars(p));
            }
        } else {
            assert(url_encode(bytes).len() == url_encode(p).len() + 3);
            assert(url_encode(bytes) != byte_chars(bytes)) by {
                assert(url_encode(bytes).len() != byte_chars(bytes).len());
            }
            assert(!unreserved(bytes[bytes.len() - 1]));
        }
    } else {
        assert(url_encode(bytes) =~= byte_chars(bytes));
    }
}

/// What `urlencoded` writes reads back as the UTF-8 bytes of its argument.
pub proof fn lemma_urlencoded_roundtrip(s: Seq<char>)
    ensures
        url_decode(url_encode_text(s)) == encode_utf8(s),
{
    lemma_url_decode_encode(encode_utf8(s));
}

fn hex(d: u8) -> (c: char)
    requires
        d < 16,
    ensures
        c == hex_digit(d),
{
    if d < 10 {
        (d + 0x30) as char
    } else {
        (d - 10 + 0x41) as char
    }
}

/// Appends the percent-encoding of the UTF-8 bytes of `s` to `out`.
pub fn push_urlencoded(out: &mut String, s: &str)
    ensures
        final(out)@ == old(out)@ + url_encode_text(s@),
{
    let bytes = s.as_bytes();
    let mut i: usize = 0;
    while i < bytes.len()
        invariant
            i <= bytes.len(),
            bytes@ == encode_utf8(s@),
            out@ == old(out)@ + url_encode(bytes@.take(i as int)),
        decreases bytes.len() - i,
    {
        let b = bytes[i];
        let ghost now = bytes@.take(i + 1);
        assert(now.drop_last() == bytes@.take(i as int));
        assert(now.last() == b);
        if (0x41 <= b && b <= 0x5A) || (0x61 <= b && b <= 0x7A) || (0x30 <= b && b <= 0x39) || b
            == 0x2D || b == 0x5F || b == 0x2E || b == 0x7E {
            push_char(out, b as char);
            assert(out@ == old(out)@ + url_encode(now));
        } else {
            push_char(out, '%');
            push_char(out, hex(b / 16));
            push_char(out, hex(b % 16));
            assert(out@ == old(out)@ + url_encode(now));
        }
        i = i + 1;
    }
    assert(bytes@.take(bytes.len() as int) == bytes@);
}

/// Percent-encodes the UTF-8 bytes of a text, as `application/x-www-form-
/// urlencoded` values are written.
pub fn urlencoded(s: &str) -> (r: String)
    ensures
        r@ == url_encode_text(s@),
{
    let mut out = String::new();
    push_urlencoded(&mut out, s);
    out
}

/// One `key=value` pair of a form body: the key as it is, the value
/// percent-encoded.
pub open spec fn form_pair(p: (Seq<char>, Seq<char>)) -> Seq<char> {
    p.0 + seq!['='] + url_encode_text(p.1)
}

/// A form body: the pairs, joined with `&`.
pub open spec fn form_body_of(params: Seq<(Seq<char>, Seq<char>)>) -> Seq<char> {
    join(params.map_values(|p: (Seq<char>, Seq<char>)| form_pair(p)), seq!['&'])
}

/// The views of a vector of string pairs.
pub open spec fn pair_views(v: Seq<(String, String)>) -> Seq<(Seq<char>, Seq<char>)> {
    v.map_values(|p: (String, String)| (p.0@, p.1@))
}

/// The body of a form post: each pair as `key=value` with the value
/// percent-encoded, joined with `&`.
pub fn form_body(params: &Vec<(String, String)>) -> (r: String)
    ensures
        r@ == form_body_of(pair_views(params@)),
{
    let ghost pieces = pair_views(params@).map_values(|p: (Seq<char>, Seq<char>)| form_pair(p));
    let mut out = String::new();
    let mut i: usize = 0;
    while i < params.len()
        invariant
            i <= params.len(),
            pieces == pair_views(params@).map_values(|p: (Seq<char>, Seq<char>)| form_pair(p)),
            out@ == join(pieces.take(i as int), seq!['&']),
        decreases params.len() - i,
    {
        let ghost prefix = pieces.take(i + 1);
        assert(prefix.drop_last() == pieces.take(i as int));
        assert(prefix.last() == form_pair((params@[i as int].0@, params@[i as int].1@)));
        if i > 0 {
            push_char(&mut out, '&');
        }
        let key = chars_of(params[i].0.as_str());
        push_all(&mut out, &key);
        push_char(&mut out, '=');
        push_urlencoded(&mut out, params[i].1.as_str());
        if i == 0 {
            assert(out@ =~= prefix[0]);
        } else {
            assert(out@ =~= join(pieces.take(i as int), seq!['&']) + seq!['&'] + prefix.last());
        }
        i = i + 1;
    }
    assert(pieces.take(params.len() as int) == pieces);
    out
}

/// Where MyAnimeList sends the browser back after authorization.
pub fn redirect_uri() -> (r: &'static str)
    ensures
        r@ == "http://localhost:7878/callback"@,
{
    "http://localhost:7878/callback"
}

/// The token endpoint.
pub fn token_url() -> (r: &'static str)
    ensures
        r@ == "https://myanimelist.net/v1/oauth2/token"@,
{
    "https://myanimelist.net/v1/oauth2/token"
}

/// The authorization page the user is sent to.
pub open spec fn authorize_url_of(client_id: Seq<char>, verifier: Seq<char>) -> Seq<char> {
    "https://myanimelist.net/v1/oauth2/authorize?response_type=code&client_id="@ + client_id
        + "&code_challenge="@ + verifier + "&code_challenge_method=plain&redirect_uri="@
        + url_encode_text("http://localhost:7878/callback"@)
}

/// Builds the authorization URL for a client and a code verifier (used as
/// a plain code challenge).
pub fn authorize_url(client_id: &str, verifier: &str) -> (r: String)
    ensures
        r@ == authorize_url_of(client_id@, verifier@),
{
    let mut out = String::new();
    out.append(
        "https://myanimelist.net/v1/oauth2/authorize?response_type=code&client_id=",
    );
    out.append(client_id);
    out.append("&code_challenge=");
    out.append(verifier);
    out.append("&code_challenge_method=plain&redirect_uri=");
    push_urlencoded(&mut out, redirect_uri());
    out
}

fn pair(k: &str, v: &str) -> (r: (String, String))
    ensures
        r.0@ == k@,
        r.1@ == v@,
{
    (k.to_owned(), v.to_owned())
}

/// The pairs of the request that trades an authorization code for tokens.
pub open spec fn code_grant_pairs(
    client_id: Seq<char>,
    client_secret: Seq<char>,
    code: Seq<char>,
    verifier: Seq<char>,
) -> Seq<(Seq<char>, Seq<char>)> {
    seq![
        ("client_id"@, client_id),
        ("client_secret"@, client_secret),
        ("code"@, code),
        ("code_verifier"@, verifier),
        ("grant_type"@, "authorization_code"@),
        ("redirect_uri"@, "http://localhost:7878/callback"@),
    ]
}

/// The form body that trades an authorization code for tokens.
pub fn code_grant_body(client_id: &str, client_secret: &str, code: &str, verifier: &str) -> (r:
    String)
    ensures
        r@ == form_body_of(code_grant_pairs(client_id@, client_secret@, code@, verifier@)),
{
    let mut v: Vec<(String, String)> = Vec::new();
    v.push(pair("client_id", client_id));
    v.push(pair("client_secret", client_secret));
    v.push(pair("code", code));
    v.push(pair("code_verifier", verifier));
    v.push(pair("grant_type", "authorization_code"));
    v.push(pair("redirect_uri", redirect_uri()));
    assert(pair_views(v@) =~= code_grant_pairs(client_id@, client_secret@, code@, verifier@));
    form_body(&v)
}

/// The pairs of the request that renews the tokens of saved credentials.
pub open spec fn refresh_pairs(c: MalConfigView) -> Seq<(Seq<char>, Seq<char>)> {
    seq![
        ("client_id"@, c.client_id),
        ("client_secret"@, c.client_secret),
        ("grant_type"@, "refresh_token"@),
        ("refresh_token"@, c.refresh_token),
    ]
}

/// The form body that renews the tokens of saved credentials.
pub fn refresh_body(config: &MalConfig) -> (r: String)
    ensures
        r@ == form_body_of(refresh_pairs(config@)),
{
    let mut v: Vec<(String, String)> = Vec::new();
    v.push(pair("client_id", config.client_id.as_str()));
    v.push(pair("client_secret", config.client_secret.as_str()));
    v.push(pair("grant_type", "refresh_token"));
    v.push(pair("refresh_token", config.refresh_token.as_str()));
    assert(pair_views(v@) =~= refresh_pairs(config@));
    form_body(&v)
}

/// Whether the access token of saved credentials is still valid at `now`
/// (seconds since the epoch).
pub fn token_is_fresh(config: &MalConfig, now: i64) -> (r: bool)
    ensures
        r == (now < config.expires_at),
{
    now < config.expires_at
}

/// What the program reads from a reply of the token endpoint.
pub struct TokenReply {
    pub access_token: Option<String>,
    pub refresh_token: Option<String>,
    pub expires_in: Option<i64>,
    pub error: Option<String>,
}

/// The mathematical value of a `TokenReply`.
pub struct TokenReplyView {
    pub access_token: Option<Seq<char>>,
    pub refresh_token: Option<Seq<char>>,
    pub expires_in: Option<i64>,
    pub error: Option<Seq<char>>,
}

impl View for TokenReply {
    type V = TokenReplyView;

    open spec fn view(&self) -> TokenReplyView {
        TokenReplyView {
            access_token: opt_view(self.access_token),
            refresh_token: opt_view(self.refresh_token),
            expires_in: self.expires_in,
            error: opt_view(self.error),
        }
    }
}

/// What `serde_json` reads from the text of a reply of the token endpoint;
/// `None` when the text is not JSON.
pub uninterp spec fn token_reply_of(text: Seq<char>) -> Option<TokenReplyView>;

/// Parses the text of a reply of the token endpoint with
/// `serde_json::from_str` and reads its string `access_token`, string
/// `refresh_token`, integer `expires_in` and string `error` (each if
/// present). The result is named `token_reply_of`.
#[verifier::external_body]
pub fn read_token_reply(text: &str) -> (r: Option<TokenReply>)
    ensures
        match r {
            Some(t) => token_reply_of(text@) == Some(t@),
            None => token_reply_of(text@) is None,
        },
{
    let v: serde_json::Value = serde_json::from_str(text).ok()?;
    let s = |k: &str| v.get(k).and_then(|x| x.as_str()).map(|x| x.to_string());
    Some(TokenReply {
        access_token: s("access_token"),
        refresh_token: s("refresh_token"),
        expires_in: v.get("expires_in").and_then(|x| x.as_i64()),
        error: s("error"),
    })
}

/// A reply holds a complete set of tokens.
pub open spec fn reply_complete(r: TokenReply) -> bool {
    r.access_token is Some && r.refresh_token is Some && r.expires_in is Some
}

/// The expiry time of a complete reply received at `now` fits an `i64`.
pub open spec fn reply_expiry_fits(r: TokenReply, now: i64) -> bool {
    reply_complete(r) ==> i64::MIN <= now + r.expires_in->0 <= i64::MAX
}

/// Takes a renewal reply received at `now` into saved credentials: when the
/// reply holds both tokens and a lifetime, they replace the old ones and the
/// expiry becomes `now` plus the lifetime, and the result is `true`;
/// otherwise nothing changes and the result is `false`.
pub fn apply_refresh(config: &mut MalConfig, reply: &TokenReply, now: i64) -> (r: bool)
    requires
        reply_expiry_fits(*reply, now),
    ensures
        r == reply_complete(*reply),
        r ==> final(config)@ == (MalConfigView {
            access_token: reply.access_token->0@,
            refresh_token: reply.refresh_token->0@,
            expires_at: (now + reply.expires_in->0) as i64,
            ..old(config)@
        }),
        !r ==> final(config)@ == old(config)@,
{
    match (&reply.access_token, &reply.refresh_token, reply.expires_in) {
        (Some(access), Some(refresh), Some(expires)) => {
            config.access_token = access.clone();
            config.refresh_token = refresh.clone();
            config.expires_at = now + expires;
            true
        },
        _ => false,
    }
}

/// What keeping a login valid asks for first.
pub enum TokenCheck {
    /// The access token is still valid.
    Fresh,
    /// The tokens must be renewed: send this form body to the token
    /// endpoint.
    Renew { body: String },
}

/// What `check_token` decides at time `now`.
pub open spec fn token_check_at(config: MalConfigView, now: i64, r: TokenCheck) -> bool {
    if now < config.expires_at {
        r is Fresh
    } else {
        r matches TokenCheck::Renew { body } && body@ == form_body_of(refresh_pairs(config))
    }
}

/// The first half of keeping a login valid at time `now` (seconds since
/// the epoch): when the access token has expired, gives the renewal
/// request to send.
pub fn check_token(config: &MalConfig, now: i64) -> (r: TokenCheck)
    ensures
        token_check_at(config@, now, r),
{
    let r = if token_is_fresh(config, now) {
        TokenCheck::Fresh
    } else {
        TokenCheck::Renew { body: refresh_body(config) }
    };
    r
}

/// What `finish_renewal` does with a reply received at time `now`: a
/// complete reply whose expiry fits an `i64` is taken in (and `true` is
/// returned); anything else leaves the credentials as they were.
pub open spec fn renewal_at(
    before: MalConfigView,
    after: MalConfigView,
    reply: Option<TokenReply>,
    now: i64,
    r: bool,
) -> bool {
    match reply {
        Some(rp) => if reply_complete(rp) && i64::MIN <= now + rp.expires_in->0 <= i64::MAX {
            r && after == (MalConfigView {
                access_token: rp.access_token->0@,
                refresh_token: rp.refresh_token->0@,
                expires_at: (now + rp.expires_in->0) as i64,
                ..before
            })
        } else {
            !r && after == before
        },
        None => !r && after == before,
    }
}

/// The second half of keeping a login valid: takes in the reply of the
/// renewal request (`None`: the request failed), received at time `now`.
/// Returns whether the credentials now hold renewed tokens.
pub fn finish_renewal(config: &mut MalConfig, reply: Option<TokenReply>, now: i64) -> (r: bool)
    ensures
        renewal_at(old(config)@, final(config)@, reply, now, r),
{
    match reply {
        None => false,
        Some(rp) => {
            let fits = match rp.expires_in {
                Some(e) => now.checked_add(e).is_some(),
                None => true,
            };
            let r = if fits {
                apply_refresh(config, &rp, now)
            } else {
                false
            };
            r
        },
    }
}

/// What a login makes of the reply to its code grant.
pub enum GrantOutcome {
    /// The reply held tokens: these credentials are to be saved.
    Granted(MalConfig),
    /// The reply held an error message and no complete set of tokens.
    Refused(String),
    /// The reply held neither.
    Unexpected,
}

/// Decides what a login does with the reply to its code grant, received at
/// `now`: a complete reply gives the credentials to save, with the expiry
/// `now` plus the lifetime; otherwise an error message, if the reply has
/// one; otherwise the reply is unexpected.
pub fn grant_outcome(client_id: &str, client_secret: &str, reply: &TokenReply, now: i64) -> (r:
    GrantOutcome)
    requires
        reply_expiry_fits(*reply, now),
    ensures
        reply_complete(*reply) ==> (r matches GrantOutcome::Granted(c) && c@ == (MalConfigView {
            client_id: client_id@,
            client_secret: client_secret@,
            access_token: reply.access_token->0@,
            refresh_token: reply.refresh_token->0@,
            expires_at: (now + reply.expires_in->0) as i64,
        })),
        !reply_complete(*reply) && reply.error is Some ==> (r matches GrantOutcome::Refused(e)
            && e@ == reply.error->0@),
        !reply_complete(*reply) && reply.error is None ==> r is Unexpected,
{
    match (&reply.access_token, &reply.refresh_token, reply.expires_in) {
        (Some(access), Some(refresh), Some(expires)) => {
            return GrantOutcome::Granted(
                MalConfig {
                    client_id: client_id.to_owned(),
                    client_secret: client_secret.to_owned(),
                    access_token: access.clone(),
                    refresh_token: refresh.clone(),
                    expires_at: now + expires,
                },
            );
        },
        _ => {},
    }
    match &reply.error {
        Some(e) => GrantOutcome::Refused(e.clone()),
        None => GrantOutcome::Unexpected,
    }
}

/// The pieces of `s` between occurrences of `c`, as `str::split` yields
/// them (an empty text gives one empty piece).
pub open spec fn split_on(s: Seq<char>, c: char) -> Seq<Seq<char>>
    decreases s.len(),
{
    if s.len() == 0 {
        seq![seq![]]
    } else {
        let p = split_on(s.drop_last(), c);
        if s.last() == c {
            p.push(seq![])
        } else {
            p.update(p.len() - 1, p.last().push(s.last()))
        }
    }
}

proof fn lemma_split_on_nonempty(s: Seq<char>, c: char)
    ensures
        split_on(s, c).len() >= 1,
    decreases s.len(),
{
    if s.len() > 0 {
        lemma_split_on_nonempty(s.drop_last(), c);
    }
}

/// Splits `s` at each occurrence of `c` (`str::split`).
pub fn split_at_char(s: &Vec<char>, c: char) -> (r: Vec<Vec<char>>)
    ensures
        char_views(r@) == split_on(s@, c),
{
    let mut done: Vec<Vec<char>> = Vec::new();
    let mut cur: Vec<char> = Vec::new();
    let mut i: usize = 0;
    assert(split_on(s@.take(0), c) =~= char_views(done@).push(cur@));
    while i < s.len()
        invariant
            i <= s.len(),
            split_on(s@.take(i as int), c) == char_views(done@).push(cur@),
        decreases s.len() - i,
    {
        let ghost now = s@.take(i + 1);
        assert(now.drop_last() == s@.take(i as int));
        assert(now.last() == s@[i as int]);
        let ghost before = char_views(done@);
        if s[i] == c {
            let ghost wv = cur@;
            let w = cur;
            cur = Vec::new();
            done.push(w);
            assert(char_views(done@) =~= before.push(wv));
            assert(split_on(now, c) =~= char_views(done@).push(cur@));
        } else {
            let ghost old_cur = cur@;
            cur.push(s[i]);
            assert(before.push(old_cur).update(before.len() as int, old_cur.push(s@[i as int]))
                =~= before.push(cur@));
        }
        i = i + 1;
    }
    assert(s@.take(s.len() as int) == s@);
    let ghost before = char_views(done@);
    done.push(cur);
    assert(char_views(done@) =~= before.push(char_views(done@).last()));
    done
}

/// The value of the first `code` parameter among query parameters; `None`
/// also when that parameter has no `=`.
pub open spec fn find_code(params: Seq<Seq<char>>) -> Option<Seq<char>>
    decreases params.len(),
{
    if params.len() == 0 {
        None
    } else {
        let p = params[0];
        match find_char(p, '=') {
            Some(k) => {
                if p.take(k) == "code"@ {
                    Some(p.skip(k + 1))
                } else {
                    find_code(params.drop_first())
                }
            },
            None => {
                if p == "code"@ {
                    None
                } else {
                    find_code(params.drop_first())
                }
            },
        }
    }
}

/// The authorization code carried by the request line of an HTTP request
/// to the callback: the `code` parameter of the query of the request
/// target, the second word of the first line.
pub open spec fn request_code(req: Seq<char>) -> Option<Seq<char>> {
    let ls = lines(req);
    if ls.len() == 0 {
        None
    } else {
        let ws = words(ls[0]);
        if ws.len() < 2 {
            None
        } else {
            let parts = split_on(ws[1], '?');
            if parts.len() < 2 {
                None
            } else {
                find_code(split_on(parts[1], '&'))
            }
        }
    }
}

fn is_code_key(k: &Vec<char>) -> (r: bool)
    ensures
        r == (k@ == "code"@),
{
    proof {
        reveal_strlit("code");
    }
    let r = k.len() == 4 && k[0] == 'c' && k[1] == 'o' && k[2] == 'd' && k[3] == 'e';
    if r {
        assert(k@ =~= "code"@);
    }
    r
}

/// Reads the authorization code out of the request the browser sends to
/// the callback.
pub fn extract_code_from_request(request: &str) -> (r: Option<String>)
    ensures
        r matches Some(c) ==> request_code(request@) == Some(c@),
        r is None ==> request_code(request@) is None,
{
    let cs = chars_of(request);
    let ls = split_lines(&cs);
    if ls.len() == 0 {
        return None;
    }
    assert(char_views(ls@)[0] == ls@[0]@);
    let ws = split_whitespace(&ls[0]);
    if ws.len() < 2 {
        return None;
    }
    assert(char_views(ws@)[1] == ws@[1]@);
    let parts = split_at_char(&ws[1], '?');
    if parts.len() < 2 {
        return None;
    }
    assert(char_views(parts@)[1] == parts@[1]@);
    let params = split_at_char(&parts[1], '&');
    let ghost all = char_views(params@);
    let mut i: usize = 0;
    assert(all.skip(0) =~= all);
    assert(request_code(request@) == find_code(all));
    while i < params.len()
        invariant
            i <= params.len(),
            all == char_views(params@),
            request_code(request@) == find_code(all.skip(i as int)),
        decreases params.len() - i,
    {
        let p = &params[i];
        let ghost rest = all.skip(i as int);
        assert(rest[0] == p@);
        assert(rest.drop_first() == all.skip(i + 1));
        let eq = index_of_char(p, '=');
        proof {
            lemma_find_char(p@, '=');
        }
        if eq < p.len() {
            proof {
                match find_char(p@, '=') {
                    Some(k) => {
                        if k < eq {
                            assert(p@[k] == '=');
                        }
                        if k > eq {
                            assert(p@[eq as int] != '=');
                        }
                    },
                    None => {
                        assert(p@[eq as int] != '=');
                    },
                }
            }
            let key = slice_chars(p, 0, eq);
            assert(key@ =~= p@.take(eq as int));
            if is_code_key(&key) {
                let value = slice_chars(p, eq + 1, p.len());
                assert(value@ =~= p@.skip(eq + 1));
                return Some(string_of(&value));
            }
        } else {
            assert(find_char(p@, '=') is None);
            if is_code_key(p) {
                return None;
            }
        }
        i = i + 1;
    }
    assert(all.skip(params.len() as int) =~= Seq::<Seq<char>>::empty());
    None
}

/// The index of the first occurrence of `c` in `s`, or `s.len()`.
fn index_of_char(s: &Vec<char>, c: char) -> (r: usize)
    ensures
        r <= s.len(),
        r < s.len() ==> s@[r as int] == c,
        forall|j: int| 0 <= j < r ==> s@[j] != c,
{
    crate::text::index_of_char_from(s, c, 0)
}

/// `rand::rng().random_range(0..bound)`: a value below `bound` drawn from
/// the thread's random generator. Which value comes is left open.
#[verifier::external_body]
fn random_below(bound: usize) -> (r: usize)
    requires
        bound > 0,
    ensures
        r < bound,
{
    rand::rng().random_range(0..bound)
}

/// The `i`-th character of the code verifier alphabet `A-Z`, `a-z`, `0-9`.
pub open spec fn verifier_char(i: usize) -> char {
    if i < 26 {
        ((0x41 + i) as u8) as char
    } else if i < 52 {
        ((0x61 + i - 26) as u8) as char
    } else {
        ((0x30 + i - 52) as u8) as char
    }
}

/// An ASCII letter or digit.
pub open spec fn is_ascii_alnum(c: char) -> bool {
    ||| 'A' <= c <= 'Z'
    ||| 'a' <= c <= 'z'
    ||| '0' <= c <= '9'
}

fn alphabet_char(i: usize) -> (c: char)
    requires
        i < 62,
    ensures
        c == verifier_char(i),
        is_ascii_alnum(c),
{
    if i < 26 {
        ((0x41 + i) as u8) as char
    } else if i < 52 {
        ((0x61 + i - 26) as u8) as char
    } else {
        ((0x30 + i - 52) as u8) as char
    }
}

/// The code verifier spelled by alphabet positions.
pub fn code_verifier_from(indices: &Vec<usize>) -> (r: String)
    requires
        forall|k: int| 0 <= k < indices@.len() ==> #[trigger] indices@[k] < 62,
    ensures
        r@ == indices@.map_values(|i: usize| verifier_char(i)),
        forall|k: int| 0 <= k < r@.len() ==> is_ascii_alnum(#[trigger] r@[k]),
{
    let mut out = String::new();
    let mut j: usize = 0;
    while j < indices.len()
        invariant
            j <= indices.len(),
            forall|k: int| 0 <= k < indices@.len() ==> #[trigger] indices@[k] < 62,
            out@ == indices@.take(j as int).map_values(|i: usize| verifier_char(i)),
            forall|k: int| 0 <= k < out@.len() ==> is_ascii_alnum(#[trigger] out@[k]),
        decreases indices.len() - j,
    {
        let c = alphabet_char(indices[j]);
        push_char(&mut out, c);
        assert(indices@.take(j + 1).map_values(|i: usize| verifier_char(i)) =~= indices@.take(
            j as int,
        ).map_values(|i: usize| verifier_char(i)).push(c));
        j = j + 1;
    }
    assert(indices@.take(indices.len() as int) == indices@);
    out
}

/// A fresh PKCE code verifier: 128 characters drawn at random from `A-Z`,
/// `a-z` and `0-9`.
pub fn generate_code_verifier() -> (r: String)
    ensures
        r@.len() == 128,
        forall|k: int| 0 <= k < r@.len() ==> is_ascii_alnum(#[trigger] r@[k]),
{
    let mut indices: Vec<usize> = Vec::new();
    let mut n: usize = 0;
    while n < 128
        invariant
            n <= 128,
            indices@.len() == n,
            forall|k: int| 0 <= k < indices@.len() ==> #[trigger] indices@[k] < 62,
        decreases 128 - n,
    {
        indices.push(random_below(62));
        n = n + 1;
    }
    code_verifier_from(&indices)
}

/// The cache of MyAnimeList ids, by the French name of the anime.
pub struct MalCache {
    pub mappings: Vec<(String, u64)>,
}

/// The views of the entries of a cache.
pub open spec fn entry_views(v: Seq<(String, u64)>) -> Seq<(Seq<char>, u64)> {
    v.map_values(|e: (String, u64)| (e.0@, e.1))
}

/// The map an entry list stands for (a later entry for a name wins).
pub open spec fn assoc(s: Seq<(Seq<char>, u64)>) -> Map<Seq<char>, u64>
    decreases s.len(),
{
    if s.len() == 0 {
        Map::empty()
    } else {
        assoc(s.drop_last()).insert(s.last().0, s.last().1)
    }
}

/// No name has two entries.
pub open spec fn names_distinct(s: Seq<(Seq<char>, u64)>) -> bool {
    forall|i: int, j: int| 0 <= i < j < s.len() ==> s[i].0 != s[j].0
}

impl View for MalCache {
    type V = Map<Seq<char>, u64>;

    open spec fn view(&self) -> Map<Seq<char>, u64> {
        assoc(entry_views(self.mappings@))
    }
}

proof fn lemma_assoc_tail(s: Seq<(Seq<char>, u64)>, n: int, k: Seq<char>)
    requires
        0 <= n <= s.len(),
        forall|j: int| n <= j < s.len() ==> #[trigger] s[j].0 != k,
    ensures
        assoc(s).contains_key(k) == assoc(s.take(n)).contains_key(k),
        assoc(s).contains_key(k) ==> assoc(s)[k] == assoc(s.take(n))[k],
    decreases s.len() - n,
{
    if n < s.len() {
        let t = s.drop_last();
        assert(t.take(n) == s.take(n));
        lemma_assoc_tail(t, n, k);
    } else {
        assert(s.take(n) == s);
    }
}

proof fn lemma_assoc_update(s: Seq<(Seq<char>, u64)>, i: int, k: Seq<char>, v: u64)
    requires
        0 <= i < s.len(),
        s[i].0 == k,
        names_distinct(s),
    ensures
        assoc(s.update(i, (k, v))) == assoc(s).insert(k, v),
    decreases s.len(),
{
    let u = s.update(i, (k, v));
    if i == s.len() - 1 {
        assert(u.drop_last() == s.drop_last());
        assert(assoc(u) =~= assoc(s).insert(k, v));
    } else {
        let t = s.drop_last();
        assert(u.drop_last() == t.update(i, (k, v)));
        lemma_assoc_update(t, i, k, v);
        assert(s.last().0 != k);
        assert(assoc(u) =~= assoc(s).insert(k, v));
    }
}

impl MalCache {
    /// An empty cache.
    pub fn new() -> (r: Self)
        ensures
            r@ == Map::<Seq<char>, u64>::empty(),
            r.wf(),
    {
        MalCache { mappings: Vec::new() }
    }

    /// No name has two entries.
    pub open spec fn wf(&self) -> bool {
        names_distinct(entry_views(self.mappings@))
    }

    /// The id cached for a name, if any.
    pub fn lookup(&self, name: &str) -> (r: Option<u64>)
        ensures
            r == (if self@.contains_key(name@) {
                Some(self@[name@])
            } else {
                None
            }),
    {
        let ghost s = entry_views(self.mappings@);
        let key = name.to_owned();
        let mut i: usize = self.mappings.len();
        while i > 0
            invariant
                i <= self.mappings.len(),
                s == entry_views(self.mappings@),
                key@ == name@,
                forall|j: int| i <= j < s.len() ==> #[trigger] s[j].0 != name@,
            decreases i,
        {
            if self.mappings[i - 1].0 == key {
                proof {
                    lemma_assoc_tail(s, i as int, name@);
                    let t = s.take(i as int);
                    assert(t.drop_last() == s.take(i - 1));
                    assert(t.last() == s[i - 1]);
                }
                return Some(self.mappings[i - 1].1);
            }
            i = i - 1;
        }
        proof {
            lemma_assoc_tail(s, 0, name@);
            assert(s.take(0) =~= Seq::<(Seq<char>, u64)>::empty());
        }
        None
    }

    /// Caches `id` for `name`, replacing the id cached for it before.
    pub fn insert(&mut self, name: &str, id: u64)
        requires
            old(self).wf(),
        ensures
            final(self).wf(),
            final(self)@ == old(self)@.insert(name@, id),
    {
        let ghost s = entry_views(self.mappings@);
        let key = name.to_owned();
        let mut i: usize = 0;
        while i < self.mappings.len()
            invariant
                i <= self.mappings.len(),
                s == entry_views(self.mappings@),
                s == entry_views(old(self).mappings@),
                names_distinct(s),
                key@ == name@,
                forall|j: int| 0 <= j < i ==> #[trigger] s[j].0 != name@,
            decreases self.mappings.len() - i,
        {
            if self.mappings[i].0 == key {
                self.mappings.set(i, (key, id));
                proof {
                    assert(entry_views(self.mappings@) =~= s.update(i as int, (name@, id)));
                    lemma_assoc_update(s, i as int, name@, id);
                    assert(self@ == assoc(s).insert(name@, id));
                    assert(old(self)@ == assoc(s));
                    assert forall|a: int, b: int|
                        0 <= a < b < self.mappings@.len() implies entry_views(self.mappings@)[a].0
                        != entry_views(self.mappings@)[b].0 by {
                        if a != i && b != i {
                            assert(s[a].0 != s[b].0);
                        } else if a == i {
                            assert(s[b].0 != s[a].0);
                        } else {
                            assert(s[a].0 != s[b].0);
                        }
                    }
                }
                return;
            }
            i = i + 1;
        }
        self.mappings.push((key, id));
        proof {
            assert(entry_views(self.mappings@) =~= s.push((name@, id)));
            assert(entry_views(self.mappings@).drop_last() =~= s);
        }
    }

    /// Takes the first search result for `name` into the cache and returns
    /// its id; with no result, the cache is left as it is and there is no
    /// id.
    pub fn remember_first(&mut self, name: &str, results: &Vec<(u64, String)>) -> (r: Option<u64>)
        requires
            old(self).wf(),
        ensures
            final(self).wf(),
            results@.len() > 0 ==> r == Some(results@[0].0) && final(self)@ == old(self)@.insert(
                name@,
                results@[0].0,
            ),
            results@.len() == 0 ==> r is None && final(self)@ == old(self)@,
    {
        if results.len() == 0 {
            return None;
        }
        let id = results[0].0;
        self.insert(name, id);
        Some(id)
    }
}

/// A cached id is read back as it was written, and writing one name leaves
/// the ids of the other names as they were.
pub proof fn lemma_cache_read_after_write(
    before: Map<Seq<char>, u64>,
    name: Seq<char>,
    id: u64,
    other: Seq<char>,
)
    requires
        other != name,
    ensures
        before.insert(name, id).contains_key(name),
        before.insert(name, id)[name] == id,
        before.insert(name, id).contains_key(other) == before.contains_key(other),
        before.contains_key(other) ==> before.insert(name, id)[other] == before[other],
{
}

/// What the program reads of one search hit: its `node`, if any, with the
/// node's id and title, if any.
pub struct SearchNode {
    pub id: Option<u64>,
    pub title: Option<String>,
}

/// The mathematical value of a `SearchNode`.
pub struct SearchNodeView {
    pub id: Option<u64>,
    pub title: Option<Seq<char>>,
}

impl View for SearchNode {
    type V = SearchNodeView;

    open spec fn view(&self) -> SearchNodeView {
        SearchNodeView {
            id: self.id,
            title: match self.title {
                Some(t) => Some(t@),
                None => None,
            },
        }
    }
}

/// The views of the hits of a search.
pub open spec fn node_views(items: Seq<Option<SearchNode>>) -> Seq<Option<SearchNodeView>> {
    items.map_values(
        |n: Option<SearchNode>|
            match n {
                Some(x) => Some(x@),
                None => None,
            },
    )
}

/// What `serde_json` reads from the text of a search reply: the `node` of
/// each entry of its `data` array, with the node's `id` and `title`;
/// `None` when the text is not JSON or has no `data` array.
pub uninterp spec fn search_reply_of(text: Seq<char>) -> Option<Seq<Option<SearchNodeView>>>;

/// Parses the text of a search reply with `serde_json::from_str` and reads
/// the hits: for each entry of the `data` array, its `node` (if any), with
/// the node's unsigned `id` and string `title` (each if present). The
/// result is named `search_reply_of`.
#[verifier::external_body]
pub fn read_search_reply(text: &str) -> (r: Option<Vec<Option<SearchNode>>>)
    ensures
        match r {
            Some(v) => search_reply_of(text@) == Some(node_views(v@)),
            None => search_reply_of(text@) is None,
        },
{
    let v: serde_json::Value = serde_json::from_str(text).ok()?;
    let data = v.get("data").and_then(|d| d.as_array())?;
    Some(data.iter().map(|item| item.get("node").map(|n| SearchNode {
        id: n.get("id").and_then(|x| x.as_u64()),
        title: n.get("title").and_then(|x| x.as_str()).map(|t| t.to_string()),
    })).collect())
}

/// The hits of a search as (id, title) pairs: hits without a node, and
/// nodes without a positive id, are left out; a missing title reads `?`.
pub open spec fn search_hits(items: Seq<Option<SearchNodeView>>) -> Seq<(u64, Seq<char>)>
    decreases items.len(),
{
    if items.len() == 0 {
        seq![]
    } else {
        let r = search_hits(items.drop_last());
        match items.last() {
            Some(node) => {
                let id = match node.id {
                    Some(i) => i,
                    None => 0,
                };
                if id > 0 {
                    r.push(
                        (
                            id,
                            match node.title {
                                Some(t) => t,
                                None => "?"@,
                            },
                        ),
                    )
                } else {
                    r
                }
            },
            None => r,
        }
    }
}

/// The views of (id, title) pairs.
pub open spec fn hit_views(v: Seq<(u64, String)>) -> Seq<(u64, Seq<char>)> {
    v.map_values(|h: (u64, String)| (h.0, h.1@))
}

/// Turns the hits of a search into (id, title) pairs.
pub fn search_results(items: &Vec<Option<SearchNode>>) -> (r: Vec<(u64, String)>)
    ensures
        hit_views(r@) == search_hits(node_views(items@)),
{
    let mut out: Vec<(u64, String)> = Vec::new();
    let mut i: usize = 0;
    while i < items.len()
        invariant
            i <= items.len(),
            hit_views(out@) == search_hits(node_views(items@).take(i as int)),
        decreases items.len() - i,
    {
        let ghost now = node_views(items@).take(i + 1);
        assert(now.drop_last() == node_views(items@).take(i as int));
        assert(now.last() == node_views(items@)[i as int]);
        let ghost before = hit_views(out@);
        match &items[i] {
            Some(node) => {
                let id = match node.id {
                    Some(v) => v,
                    None => 0,
                };
                if id > 0 {
                    let title = match &node.title {
                        Some(t) => t.clone(),
                        None => "?".to_owned(),
                    };
                    let ghost tv = title@;
                    out.push((id, title));
                    assert(hit_views(out@) =~= before.push((id, tv)));
                }
            },
            None => {},
        }
        i = i + 1;
    }
    assert(node_views(items@).take(items.len() as int) == node_views(items@));
    out
}

/// The hits of a search reply, as (id, title) pairs; none when the reply
/// is not JSON or has no `data` array.
pub fn search_reply_results(text: &str) -> (r: Vec<(u64, String)>)
    ensures
        hit_views(r@) == match search_reply_of(text@) {
            Some(ns) => search_hits(ns),
            None => Seq::<(u64, Seq<char>)>::empty(),
        },
{
    match read_search_reply(text) {
        Some(items) => search_results(&items),
        None => {
            let v: Vec<(u64, String)> = Vec::new();
            assert(hit_views(v@) =~= Seq::<(u64, Seq<char>)>::empty());
            v
        },
    }
}

/// The URL of a MyAnimeList title search.
pub open spec fn search_url_of(query: Seq<char>) -> Seq<char> {
    "https://api.myanimelist.net/v2/anime?q="@ + url_encode_text(query) + "&limit=10"@
}

/// Builds the URL of a title search (at most ten hits).
pub fn search_url(query: &str) -> (r: String)
    ensures
        r@ == search_url_of(query@),
{
    let mut out = String::new();
    out.append("https://api.myanimelist.net/v2/anime?q=");
    push_urlencoded(&mut out, query);
    out.append("&limit=10");
    out
}

/// The searches tried for a name, in order: the whole name, then its first
/// seven, five and three words, each only when the name has more words.
pub open spec fn search_queries(name: Seq<char>) -> Seq<Seq<char>> {
    let ws = words(name);
    seq![name] + (if ws.len() > 7 {
        seq![join(ws.take(7), seq![' '])]
    } else {
        seq![]
    }) + (if ws.len() > 5 {
        seq![join(ws.take(5), seq![' '])]
    } else {
        seq![]
    }) + (if ws.len() > 3 {
        seq![join(ws.take(3), seq![' '])]
    } else {
        seq![]
    })
}

fn first_words(ws: &Vec<Vec<char>>, n: usize) -> (r: String)
    requires
        n <= ws.len(),
    ensures
        r@ == join(char_views(ws@).take(n as int), seq![' ']),
{
    let mut part: Vec<Vec<char>> = Vec::new();
    let mut i: usize = 0;
    while i < n
        invariant
            i <= n <= ws.len(),
            char_views(part@) == char_views(ws@).take(i as int),
        decreases n - i,
    {
        let ghost before = char_views(part@);
        let w = slice_chars(&ws[i], 0, ws[i].len());
        assert(w@ =~= ws@[i as int]@);
        part.push(w);
        assert(char_views(part@) =~= before.push(w@));
        assert(char_views(ws@)[i as int] == ws@[i as int]@);
        assert(char_views(ws@).take(i + 1) =~= char_views(ws@).take(i as int).push(
            char_views(ws@)[i as int],
        ));
        i = i + 1;
    }
    join_words(&part, ' ')
}

/// The searches to try for an anime name: the whole name, then shorter
/// prefixes of it.
pub fn auto_search_queries(name: &str) -> (r: Vec<String>)
    ensures
        string_views(r@) == search_queries(name@),
{
    let cs = chars_of(name);
    let ws = split_whitespace(&cs);
    let mut out: Vec<String> = Vec::new();
    out.push(name.to_owned());
    let ghost q0 = string_views(out@);
    let mut q7: Vec<String> = Vec::new();
    if ws.len() > 7 {
        q7.push(first_words(&ws, 7));
    }
    let mut q5: Vec<String> = Vec::new();
    if ws.len() > 5 {
        q5.push(first_words(&ws, 5));
    }
    let mut q3: Vec<String> = Vec::new();
    if ws.len() > 3 {
        q3.push(first_words(&ws, 3));
    }
    let ghost v7 = string_views(q7@);
    let ghost v5 = string_views(q5@);
    let ghost v3 = string_views(q3@);
    out.append(&mut q7);
    out.append(&mut q5);
    out.append(&mut q3);
    assert(string_views(out@) =~= q0 + v7 + v5 + v3);
    assert(string_views(out@) =~= search_queries(name@));
    out
}

/// The URL of the list entry of an anime.
pub open spec fn list_status_url_of(mal_id: u64) -> Seq<char> {
    "https://api.myanimelist.net/v2/anime/"@ + decimal(mal_id as nat) + "/my_list_status"@
}

/// Builds the URL that updates the list entry of an anime.
pub fn list_status_url(mal_id: u64) -> (r: String)
    ensures
        r@ == list_status_url_of(mal_id),
{
    let mut out = String::new();
    out.append("https://api.myanimelist.net/v2/anime/");
    push_decimal(&mut out, mal_id);
    out.append("/my_list_status");
    out
}

/// The body of a list update: the status (`completed` or `watching`) and
/// the number of episodes watched.
pub open spec fn list_status_body_of(episode: nat, is_completed: bool) -> Seq<char> {
    "status="@ + url_encode_text(
        if is_completed {
            "completed"@
        } else {
            "watching"@
        },
    ) + "&num_watched_episodes="@ + url_encode_text(decimal(episode))
}

/// Builds the body of a list update.
pub fn list_status_body(episode: usize, is_completed: bool) -> (r: String)
    ensures
        r@ == list_status_body_of(episode as nat, is_completed),
{
    let status = if is_completed {
        "completed"
    } else {
        "watching"
    };
    let mut ep = String::new();
    push_decimal(&mut ep, episode as u64);
    let mut out = String::new();
    out.append("status=");
    push_urlencoded(&mut out, status);
    out.append("&num_watched_episodes=");
    push_urlencoded(&mut out, ep.as_str());
    out
}

/// The URL that asks AniSkip for the opening and ending of an episode.
pub open spec fn skip_times_url_of(mal_id: u64, episode: nat) -> Seq<char> {
    "https://api.aniskip.com/v2/skip-times/"@ + decimal(mal_id as nat) + "/"@ + decimal(episode)
        + "?types=op&types=ed&episodeLength=0"@
}

/// Builds the AniSkip URL for an episode.
pub fn skip_times_url(mal_id: u64, episode: usize) -> (r: String)
    ensures
        r@ == skip_times_url_of(mal_id, episode as nat),
{
    let mut out = String::new();
    out.append("https://api.aniskip.com/v2/skip-times/");
    push_decimal(&mut out, mal_id);
    out.append("/");
    push_decimal(&mut out, episode as u64);
    out.append("?types=op&types=ed&episodeLength=0");
    out
}

/// A playback position of `total` whole seconds as `MM:SS`, or `HH:MM:SS`
/// from one hour on, each field at least two digits.
pub open spec fn timestamp_text(total: nat) -> Seq<char> {
    let h = total / 3600;
    let m = (total % 3600) / 60;
    let s = total % 60;
    if h > 0 {
        pad2(h) + seq![':'] + pad2(m) + seq![':'] + pad2(s)
    } else {
        pad2(m) + seq![':'] + pad2(s)
    }
}

/// Formats a playback position given in whole seconds.
pub fn format_timestamp(total_seconds: u64) -> (r: String)
    ensures
        r@ == timestamp_text(total_seconds as nat),
{
    let h = total_seconds / 3600;
    let m = (total_seconds % 3600) / 60;
    let s = total_seconds % 60;
    let mut out = String::new();
    if h > 0 {
        push_pad2(&mut out, h);
        push_char(&mut out, ':');
    }
    push_pad2(&mut out, m);
    push_char(&mut out, ':');
    push_pad2(&mut out, s);
    out
}

/// What is being watched, kept so that an interrupted session can still be
/// recorded.
pub struct WatchingState {
    pub name: String,
    pub lang: String,
    pub season: i8,
    pub episode: usize,
    pub mal_id: Option<u64>,
    pub total_episodes: usize,
    pub is_last_season: bool,
}

impl WatchingState {
    /// Whether watching this episode completes the anime: it is the last
    /// episode of the last season.
    pub fn is_completed(&self) -> (r: bool)
        ensures
            r == (self.episode == self.total_episodes && self.is_last_season),
    {
        self.episode == self.total_episodes && self.is_last_season
    }
}

} // verus!

//! The MyAnimeList login, as a state machine: the caller performs each
//! action (a prompt, opening the browser, the local callback server, the
//! token request) and hands back what came of it as the next event.
use vstd::prelude::*;
use crate::mal::{
    authorize_url_of, code_grant_body, code_grant_pairs, extract_code_from_request, form_body_of,
    generate_code_verifier, grant_outcome, is_ascii_alnum, is_logged_in, reply_complete,
    request_code, logged_in, GrantOutcome, MalConfig, MalConfigView, TokenReply, authorize_url,
};
use crate::text::{trim, trim_str};

verus! {

/// Where a login stands.
pub enum LoginState {
    /// Nothing done yet.
    Start,
    /// Waiting for the client id typed by the user.
    AskingClientId,
    /// Waiting for the client secret.
    AskingSecret { client_id: String },
    /// Waiting to hear whether the browser opened the authorization page.
    OpeningBrowser { client_id: String, client_secret: String, verifier: String, url: String },
    /// Waiting for the browser's callback on the local server.
    Listening { client_id: String, client_secret: String, verifier: String },
    /// Waiting for the reply of the token endpoint.
    AwaitingToken { client_id: String, client_secret: String },
    /// The login is over.
    Finished,
}

/// What came of the last action.
pub enum LoginEvent {
    /// The login starts, with the saved credentials, if any.
    Begin { saved: Option<MalConfig> },
    /// The prompt for the client id returned this text (`None`: the prompt
    /// failed or was cancelled).
    ClientIdEntered { input: Option<String> },
    /// The prompt for the client secret returned this text.
    SecretEntered { input: Option<String> },
    /// Whether the browser could be opened on the authorization page.
    BrowserOpened { ok: bool },
    /// The local server could not be started.
    ListenFailed { error: String },
    /// No connection could be accepted on the local server.
    AcceptFailed { error: String },
    /// The browser's request, as received by the local server.
    RequestReceived { request: String },
    /// The reply of the token endpoint (`None`: the request failed or the
    /// reply was not JSON), received at `now` (seconds since the epoch).
    TokenReceived { reply: Option<TokenReply>, now: i64 },
}

/// How a login ends.
pub enum LoginEnd {
    /// Credentials with an access token were already saved.
    AlreadyConnected,
    /// The client id was empty or the prompt failed.
    InvalidClientId,
    /// The client secret was empty or the prompt failed.
    InvalidClientSecret,
    /// The local server could not be started.
    ServerError(String),
    /// No connection reached the local server.
    ConnectionError(String),
    /// The callback carried no authorization code.
    NoCode,
    /// The login succeeded: these credentials are to be saved.
    Connected(MalConfig),
    /// MyAnimeList refused the code grant with this error.
    MalError(String),
    /// The token reply held neither tokens nor an error.
    UnexpectedReply,
    /// The token reply gives an expiry beyond what an `i64` holds.
    ExpiryOutOfRange,
    /// The token request failed.
    TokenRequestFailed,
}

/// What the caller is to do next.
pub enum LoginAction {
    /// Prompt for the client id.
    AskClientId,
    /// Prompt for the client secret.
    AskClientSecret,
    /// Open the browser on this authorization page.
    OpenBrowser { url: String },
    /// Start the local server on port 7878 and wait for the callback; when
    /// `manual_link` is given, first show it for the user to open by hand.
    Listen { manual_link: Option<String> },
    /// Answer the browser with the success page, then send this form body
    /// to the token endpoint.
    AnswerThenRequestToken { body: String },
    /// Answer the browser with the success page, then end the login.
    AnswerThenEnd { end: LoginEnd },
    /// End the login.
    End { end: LoginEnd },
    /// The event does not fit where the login stands: nothing to do.
    Ignore,
}

/// The page the local server answers the browser's callback with.
pub fn callback_page() -> (r: &'static str)
    ensures
        r@ == "HTTP/1.1 200 OK\r\nContent-Type: text/html\r\n\r\n<html><body><h2>Connexion réussie ! Vous pouvez fermer cette page.</h2></body></html>"@,
{
    "HTTP/1.1 200 OK\r\nContent-Type: text/html\r\n\r\n<html><body><h2>Connexion réussie ! Vous pouvez fermer cette page.</h2></body></html>"
}

/// A prompt's answer that the login accepts: given, and not blank.
pub open spec fn accepted_input(input: Option<String>) -> bool {
    input matches Some(v) && trim(v@).len() > 0
}

/// A code verifier as the login draws it.
pub open spec fn good_verifier(v: Seq<char>) -> bool {
    v.len() == 128 && forall|k: int| 0 <= k < v.len() ==> is_ascii_alnum(#[trigger] v[k])
}

/// What the login does with the token reply: every outcome of
/// `grant_outcome`, the time of receipt `now` taken into the expiry.
pub open spec fn token_end_ok(
    end: LoginEnd,
    client_id: Seq<char>,
    client_secret: Seq<char>,
    reply: TokenReply,
    now: i64,
) -> bool {
    if reply_complete(reply) {
        if i64::MIN <= now + reply.expires_in->0 <= i64::MAX {
            end matches LoginEnd::Connected(c) && c@ == (MalConfigView {
                client_id,
                client_secret,
                access_token: reply.access_token->0@,
                refresh_token: reply.refresh_token->0@,
                expires_at: (now + reply.expires_in->0) as i64,
            })
        } else {
            end is ExpiryOutOfRange
        }
    } else if reply.error is Some {
        end matches LoginEnd::MalError(e) && e@ == reply.error->0@
    } else {
        end is UnexpectedReply
    }
}

/// Whether an event is one that the login waits for where it stands.
pub open spec fn event_fits(s: LoginState, e: LoginEvent) -> bool {
    ||| s is Start && e is Begin
    ||| s is AskingClientId && e is ClientIdEntered
    ||| s is AskingSecret && e is SecretEntered
    ||| s is OpeningBrowser && e is BrowserOpened
    ||| s is Listening && (e is ListenFailed || e is AcceptFailed || e is RequestReceived)
    ||| s is AwaitingToken && e is TokenReceived
}

impl LoginState {
    /// A login that has not started.
    pub fn new() -> (r: Self)
        ensures
            r is Start,
    {
        LoginState::Start
    }

    /// Takes one event and says what to do next.
    ///
    /// A login that starts with saved credentials holding an access token
    /// ends at once; otherwise it asks for the client id and then the
    /// client secret (each trimmed, and refused when blank), draws a code
    /// verifier, opens the browser on the authorization page (showing the
    /// link when the browser cannot be opened), waits for the callback,
    /// and trades the code it carries for tokens. An event that does not
    /// fit where the login stands changes nothing.
    #[verifier::rlimit(40)]
    pub fn step(&mut self, event: LoginEvent) -> (action: LoginAction)
        ensures
            event matches LoginEvent::Begin { saved } ==> (*old(self) is Start ==> (if logged_in(saved) {
                *final(self) is Finished && action == (LoginAction::End { end: LoginEnd::AlreadyConnected })
            } else {
                *final(self) is AskingClientId && action is AskClientId
            })),
            event matches LoginEvent::ClientIdEntered { input } ==> (*old(self) is AskingClientId ==> (if accepted_input(input) {
                (*final(self) matches LoginState::AskingSecret { client_id } && client_id@ == trim(input->0@))
                    && action is AskClientSecret
            } else {
                *final(self) is Finished && action == (LoginAction::End { end: LoginEnd::InvalidClientId })
            })),
            event matches LoginEvent::SecretEntered { input } ==> (*old(self) matches LoginState::AskingSecret { client_id: old_id } ==> (if accepted_input(input) {
                (*final(self) matches LoginState::OpeningBrowser { client_id, client_secret, verifier, url }
                    && client_id@ == old_id@
                    && client_secret@ == trim(input->0@)
                    && good_verifier(verifier@)
                    && url@ == authorize_url_of(client_id@, verifier@)
                    && (action matches LoginAction::OpenBrowser { url: u } && u@ == url@))
            } else {
                *final(self) is Finished && action == (LoginAction::End { end: LoginEnd::InvalidClientSecret })
            })),
            event matches LoginEvent::BrowserOpened { ok } ==> (*old(self) matches LoginState::OpeningBrowser { client_id, client_secret, verifier, url } ==> (
                *final(self) == (LoginState::Listening { client_id, client_secret, verifier })
                && action == (LoginAction::Listen { manual_link: if ok { None } else { Some(url) } }))),
            event matches LoginEvent::ListenFailed { error } ==> (*old(self) is Listening ==> (
                *final(self) is Finished && action == (LoginAction::End { end: LoginEnd::ServerError(error) }))),
            event matches LoginEvent::AcceptFailed { error } ==> (*old(self) is Listening ==> (
                *final(self) is Finished && action == (LoginAction::End { end: LoginEnd::ConnectionError(error) }))),
            event matches LoginEvent::RequestReceived { request } ==> (*old(self) matches LoginState::Listening { client_id, client_secret, verifier } ==> (
                match request_code(request@) {
                    Some(code) => *final(self) == (LoginState::AwaitingToken { client_id, client_secret })
                        && (action matches LoginAction::AnswerThenRequestToken { body }
                        && body@ == form_body_of(code_grant_pairs(client_id@, client_secret@, code, verifier@))),
                    None => *final(self) is Finished && action == (LoginAction::AnswerThenEnd { end: LoginEnd::NoCode }),
                })),
            event matches LoginEvent::TokenReceived { reply, now } ==> (*old(self) matches LoginState::AwaitingToken { client_id, client_secret } ==> (
                *final(self) is Finished && (action matches LoginAction::End { end }
                && match reply {
                    None => end is TokenRequestFailed,
                    Some(rp) => token_end_ok(end, client_id@, client_secret@, rp, now),
                }))),
            !event_fits(*old(self), event) ==> (*final(self) == *old(self) && action is Ignore),
    {
        let mut state = LoginState::Finished;
        std::mem::swap(&mut state, self);
        match (state, event) {
            (LoginState::Start, LoginEvent::Begin { saved }) => {
                if is_logged_in(&saved) {
                    LoginAction::End { end: LoginEnd::AlreadyConnected }
                } else {
                    *self = LoginState::AskingClientId;
                    LoginAction::AskClientId
                }
            },
            (LoginState::AskingClientId, LoginEvent::ClientIdEntered { input }) => {
                match input {
                    Some(v) => {
                        let t = trim_str(v.as_str());
                        if t.as_str().is_empty() {
                            LoginAction::End { end: LoginEnd::InvalidClientId }
                        } else {
                            *self = LoginState::AskingSecret { client_id: t };
                            LoginAction::AskClientSecret
                        }
                    },
                    None => LoginAction::End { end: LoginEnd::InvalidClientId },
                }
            },
            (LoginState::AskingSecret { client_id }, LoginEvent::SecretEntered { input }) => {
                match input {
                    Some(v) => {
                        let t = trim_str(v.as_str());
                        if t.as_str().is_empty() {
                            LoginAction::End { end: LoginEnd::InvalidClientSecret }
                        } else {
                            let verifier = generate_code_verifier();
                            let url = authorize_url(client_id.as_str(), verifier.as_str());
                            let shown = url.clone();
                            *self = LoginState::OpeningBrowser {
                                client_id,
                                client_secret: t,
                                verifier,
                                url,
                            };
                            LoginAction::OpenBrowser { url: shown }
                        }
                    },
                    None => LoginAction::End { end: LoginEnd::InvalidClientSecret },
                }
            },
            (
                LoginState::OpeningBrowser { client_id, client_secret, verifier, url },
                LoginEvent::BrowserOpened { ok },
            ) => {
                *self = LoginState::Listening { client_id, client_secret, verifier };
                if ok {
                    LoginAction::Listen { manual_link: None }
                } else {
                    LoginAction::Listen { manual_link: Some(url) }
                }
            },
            (LoginState::Listening { .. }, LoginEvent::ListenFailed { error }) => {
                LoginAction::End { end: LoginEnd::ServerError(error) }
            },
            (LoginState::Listening { .. }, LoginEvent::AcceptFailed { error }) => {
                LoginAction::End { end: LoginEnd::ConnectionError(error) }
            },
            (
                LoginState::Listening { client_id, client_secret, verifier },
                LoginEvent::RequestReceived { request },
            ) => {
                match extract_code_from_request(request.as_str()) {
                    Some(code) => {
                        let body = code_grant_body(
                            client_id.as_str(),
                            client_secret.as_str(),
                            code.as_str(),
                            verifier.as_str(),
                        );
                        *self = LoginState::AwaitingToken { client_id, client_secret };
                        LoginAction::AnswerThenRequestToken { body }
                    },
                    None => LoginAction::AnswerThenEnd { end: LoginEnd::NoCode },
                }
            },
            (
                LoginState::AwaitingToken { client_id, client_secret },
                LoginEvent::TokenReceived { reply, now },
            ) => {
                match reply {
                    None => LoginAction::End { end: LoginEnd::TokenRequestFailed },
                    Some(rp) => {
                        let fits = match rp.expires_in {
                            Some(e) => now.checked_add(e).is_some(),
                            None => true,
                        };
                        let end = if !fits && rp.access_token.is_some() && rp.refresh_token.is_some() {
                            LoginEnd::ExpiryOutOfRange
                        } else {
                            match grant_outcome(
                                client_id.as_str(),
                                client_secret.as_str(),
                                &rp,
                                now,
                            ) {
                                GrantOutcome::Granted(c) => LoginEnd::Connected(c),
                                GrantOutcome::Refused(e) => LoginEnd::MalError(e),
                                GrantOutcome::Unexpected => LoginEnd::UnexpectedReply,
                            }
                        };
                        LoginAction::End { end }
                    },
                }
            },
            (state, _) => {
                *self = state;
                LoginAction::Ignore
            },
        }
    }
}

/// A finished login waits for nothing: every event is ignored.
pub proof fn lemma_finished_absorbs(e: LoginEvent)
    ensures
        !event_fits(LoginState::Finished, e),
{
}

/// Credentials come out of a login only from a reply that holds both tokens
/// and a lifetime, and they carry the client id and secret that were typed,
/// the tokens of the reply, and an expiry that is the time of receipt plus
/// the lifetime.
pub proof fn lemma_connected_only_on_complete_reply(
    end: LoginEnd,
    client_id: Seq<char>,
    client_secret: Seq<char>,
    reply: TokenReply,
    now: i64,
)
    requires
        token_end_ok(end, client_id, client_secret, reply, now),
        end is Connected,
    ensures
        reply_complete(reply),
        end->Connected_0@.client_id == client_id,
        end->Connected_0@.client_secret == client_secret,
        end->Connected_0@.access_token == reply.access_token->0@,
        end->Connected_0@.refresh_token == reply.refresh_token->0@,
        end->Connected_0@.expires_at == now + reply.expires_in->0,
{
}

} // verus!

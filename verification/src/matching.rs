//! Matching a French anime name to a MyAnimeList id: the cache first, then
//! searches for the whole name and for shorter prefixes of it, stopping at
//! the first search with hits, and at last one search for a title typed by
//! the user. The caller sends each search and prompts; the first hit is
//! cached.
use vstd::prelude::*;
use crate::login::accepted_input;
use crate::mal::{auto_search_queries, search_queries, MalCache};
use crate::text::{string_views, trim, trim_str};

verus! {

/// Where a match stands.
pub enum MatchState {
    /// Nothing done yet, for this name.
    Start { name: String },
    /// Waiting for the hits of the search for `queries[next]`.
    Searching { name: String, queries: Vec<String>, next: usize },
    /// Every automatic search came back empty: waiting for the user's title.
    AwaitingManual { name: String },
    /// Waiting for the hits of the search for the user's title.
    ManualSearching { name: String },
    /// The match is over.
    Finished,
}

/// What came of the last action.
pub enum MatchEvent {
    /// The match starts.
    Begin,
    /// The hits of the last search, as (id, title) pairs.
    Results { hits: Vec<(u64, String)> },
    /// What the user typed (`None`: the prompt failed or was cancelled).
    ManualInput { input: Option<String> },
}

/// What the caller is to do next.
pub enum MatchAction {
    /// Search MyAnimeList for this title.
    Search { query: String },
    /// Say that nothing was found and ask the user for a title.
    AskManual,
    /// The match is over, with this id (if any); `cache_changed` tells
    /// whether the cache took a new id and is to be saved.
    Done { id: Option<u64>, cache_changed: bool },
    /// The event does not fit where the match stands: nothing to do.
    Ignore,
}

impl MatchState {
    /// A match for a name that has not started.
    pub fn new(name: &str) -> (r: Self)
        ensures
            r matches MatchState::Start { name: n } && n@ == name@,
    {
        MatchState::Start { name: name.to_owned() }
    }

    /// The automatic searches of a match are those of its name, and one of
    /// them is awaited.
    pub open spec fn wf(&self) -> bool {
        match self {
            MatchState::Searching { name, queries, next } => string_views(queries@)
                == search_queries(name@) && next < queries@.len(),
            _ => true,
        }
    }

    /// Takes one event and says what to do next.
    ///
    /// A name found in the cache ends the match at once. Otherwise the
    /// searches of `search_queries` are asked for in turn, until one has
    /// hits; when none has, the user is asked for a title, which is trimmed
    /// and refused when blank, and searched once. The first hit of the
    /// search that has hits is cached for the name and ends the match.
    #[verifier::rlimit(40)]
    pub fn step(&mut self, cache: &mut MalCache, event: MatchEvent) -> (action: MatchAction)
        requires
            old(self).wf(),
            old(cache).wf(),
        ensures
            final(self).wf(),
            final(cache).wf(),
            event is Begin ==> (*old(self) matches MatchState::Start { name } ==> (
                if old(cache)@.contains_key(name@) {
                    *final(self) is Finished && final(cache)@ == old(cache)@
                    && action == (MatchAction::Done { id: Some(old(cache)@[name@]), cache_changed: false })
                } else {
                    (*final(self) matches MatchState::Searching { name: n, queries, next }
                        && n@ == name@ && next == 0
                        && (action matches MatchAction::Search { query } && query@ == name@))
                    && final(cache)@ == old(cache)@
                })),
            event matches MatchEvent::Results { hits } ==> (*old(self) matches MatchState::Searching { name, queries, next } ==> (
                if hits@.len() > 0 {
                    *final(self) is Finished
                    && final(cache)@ == old(cache)@.insert(name@, hits@[0].0)
                    && action == (MatchAction::Done { id: Some(hits@[0].0), cache_changed: true })
                } else if next + 1 < queries@.len() {
                    (*final(self) matches MatchState::Searching { name: n, queries: q, next: k }
                        && n@ == name@ && k == next + 1
                        && (action matches MatchAction::Search { query } && query@ == search_queries(name@)[k as int]))
                    && final(cache)@ == old(cache)@
                } else {
                    (*final(self) matches MatchState::AwaitingManual { name: n } && n@ == name@)
                    && action is AskManual && final(cache)@ == old(cache)@
                })),
            event matches MatchEvent::ManualInput { input } ==> (*old(self) matches MatchState::AwaitingManual { name } ==> (
                final(cache)@ == old(cache)@ && if accepted_input(input) {
                    (*final(self) matches MatchState::ManualSearching { name: n } && n@ == name@)
                    && (action matches MatchAction::Search { query } && query@ == trim(input->0@))
                } else {
                    *final(self) is Finished && action == (MatchAction::Done { id: None, cache_changed: false })
                })),
            event matches MatchEvent::Results { hits } ==> (*old(self) matches MatchState::ManualSearching { name } ==> (
                *final(self) is Finished && if hits@.len() > 0 {
                    final(cache)@ == old(cache)@.insert(name@, hits@[0].0)
                    && action == (MatchAction::Done { id: Some(hits@[0].0), cache_changed: true })
                } else {
                    final(cache)@ == old(cache)@
                    && action == (MatchAction::Done { id: None, cache_changed: false })
                })),
            !match_event_fits(*old(self), event) ==> (*final(self) == *old(self)
                && final(cache)@ == old(cache)@ && action is Ignore),
    {
        let mut state = MatchState::Finished;
        std::mem::swap(&mut state, self);
        match (state, event) {
            (MatchState::Start { name }, MatchEvent::Begin) => {
                match cache.lookup(name.as_str()) {
                    Some(id) => MatchAction::Done { id: Some(id), cache_changed: false },
                    None => {
                        let queries = auto_search_queries(name.as_str());
                        assert(string_views(queries@).len() == queries@.len());
                        assert(search_queries(name@).len() >= 1);
                        let query = queries[0].clone();
                        assert(string_views(queries@)[0] == queries@[0]@);
                        *self = MatchState::Searching { name, queries, next: 0 };
                        MatchAction::Search { query }
                    },
                }
            },
            (MatchState::Searching { name, queries, next }, MatchEvent::Results { hits }) => {
                assert(string_views(queries@).len() == queries@.len());
                assert(next < queries.len());
                if hits.len() > 0 {
                    let id = cache.remember_first(name.as_str(), &hits);
                    MatchAction::Done { id, cache_changed: true }
                } else if next + 1 < queries.len() {
                    let query = queries[next + 1].clone();
                    assert(string_views(queries@)[next + 1] == queries@[next + 1]@);
                    *self = MatchState::Searching { name, queries, next: next + 1 };
                    MatchAction::Search { query }
                } else {
                    *self = MatchState::AwaitingManual { name };
                    MatchAction::AskManual
                }
            },
            (MatchState::AwaitingManual { name }, MatchEvent::ManualInput { input }) => {
                match input {
                    Some(v) => {
                        let t = trim_str(v.as_str());
                        if t.as_str().is_empty() {
                            MatchAction::Done { id: None, cache_changed: false }
                        } else {
                            *self = MatchState::ManualSearching { name };
                            MatchAction::Search { query: t }
                        }
                    },
                    None => MatchAction::Done { id: None, cache_changed: false },
                }
            },
            (MatchState::ManualSearching { name }, MatchEvent::Results { hits }) => {
                let id = cache.remember_first(name.as_str(), &hits);
                match id {
                    Some(_) => MatchAction::Done { id, cache_changed: true },
                    None => MatchAction::Done { id: None, cache_changed: false },
                }
            },
            (state, _) => {
                *self = state;
                MatchAction::Ignore
            },
        }
    }
}

/// Whether an event is one that the match waits for where it stands.
pub open spec fn match_event_fits(s: MatchState, e: MatchEvent) -> bool {
    ||| s is Start && e is Begin
    ||| s is Searching && e is Results
    ||| s is AwaitingManual && e is ManualInput
    ||| s is ManualSearching && e is Results
}

/// The automatic searches stop at the first one with hits, and a name of at
/// most three words is searched once, as it is, before the user is asked.
pub proof fn lemma_search_order(name: Seq<char>)
    ensures
        search_queries(name)[0] == name,
        crate::text::words(name).len() <= 3 ==> search_queries(name).len() == 1,
        crate::text::words(name).len() > 7 ==> search_queries(name).len() == 4,
{
}

} // verus!

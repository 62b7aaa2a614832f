//! The client of the game-library service: what it asks for, and how it
//! decides between the service and the snapshot kept from an earlier run.

use vstd::prelude::*;

verus! {

/// The address of the service's list of owned games.
pub const STEAM_API_URL: &'static str =
    "https://api.steampowered.com/IPlayerService/GetOwnedGames/v1";

/// The file that keeps the snapshot of the library between runs.
pub const CACHE_FILE: &'static str = "steam-library.json";

/// What a request adds behind the player's id.
pub const REQUEST_OPTIONS: &'static str = "&include_appinfo=true&include_played_free_games=false";

/// The client, with the key and the player's id that it asks with.
pub struct SteamClient {
    api_key: String,
    steam_id: String,
}

/// The address that a request with the given key and id goes to.
pub open spec fn request_text(api_key: Seq<char>, steam_id: Seq<char>) -> Seq<char> {
    STEAM_API_URL@ + "?key="@ + api_key + "&steamid="@ + steam_id + REQUEST_OPTIONS@
}

impl SteamClient {
    /// The key that the client asks with.
    pub closed spec fn key(&self) -> Seq<char> {
        self.api_key@
    }

    /// The id of the player whose library the client asks for.
    pub closed spec fn player(&self) -> Seq<char> {
        self.steam_id@
    }

    /// A client for the given key and player.
    pub fn new(api_key: String, steam_id: String) -> (r: Self)
        ensures
            r.key() == api_key@,
            r.player() == steam_id@,
    {
        SteamClient { api_key, steam_id }
    }

    /// The address that the client's request goes to.
    pub fn request_url(&self) -> (r: String)
        ensures
            r@ == request_text(self.key(), self.player()),
    {
        let mut url = STEAM_API_URL.to_string();
        url.append("?key=");
        url.append(self.api_key.as_str());
        url.append("&steamid=");
        url.append(self.steam_id.as_str());
        url.append(REQUEST_OPTIONS);
        url
    }
}

/// Whether a snapshot of the library is at hand.
#[derive(Clone, Copy, Debug, PartialEq, Eq, Structural)]
pub enum CacheState {
    NoCache,
    Cached,
}

/// What can happen to the snapshot.
#[derive(Clone, Copy, Debug, PartialEq, Eq, Structural)]
pub enum CacheEvent {
    /// The service was asked and answered.
    FetchSucceeded,
    /// The service was asked and the request failed.
    FetchFailed,
    /// The snapshot was read.
    Read,
    /// The snapshot was cleared away.
    Clear,
}

/// Where the games of a run come from.
#[derive(Clone, Copy, Debug, PartialEq, Eq, Structural)]
pub enum GameSource {
    /// From the snapshot; the service is not asked.
    Snapshot,
    /// From the service, asked once.
    Service,
}

/// What is to be done to the snapshot file after an event.
#[derive(Clone, Copy, Debug, PartialEq, Eq, Structural)]
pub enum CacheAction {
    /// Write what the service answered as the new snapshot.
    Store,
    /// Remove the snapshot file.
    Remove,
    /// Leave the file alone.
    Keep,
}

/// Where the games come from in the given state: from the snapshot where
/// there is one, else from the service.
pub open spec fn source_in(state: CacheState) -> GameSource {
    match state {
        CacheState::Cached => GameSource::Snapshot,
        CacheState::NoCache => GameSource::Service,
    }
}

/// The state after an event and what is to be done to the file, or `None`
/// where the event cannot happen in the state: the service is asked only
/// without a snapshot, and only a snapshot can be read.
pub open spec fn transition(state: CacheState, event: CacheEvent) -> Option<
    (CacheState, CacheAction),
> {
    match (state, event) {
        (CacheState::NoCache, CacheEvent::FetchSucceeded) => Some(
            (CacheState::Cached, CacheAction::Store),
        ),
        (CacheState::NoCache, CacheEvent::FetchFailed) => Some(
            (CacheState::NoCache, CacheAction::Keep),
        ),
        (CacheState::NoCache, CacheEvent::Clear) => Some((CacheState::NoCache, CacheAction::Keep)),
        (CacheState::Cached, CacheEvent::Read) => Some((CacheState::Cached, CacheAction::Keep)),
        (CacheState::Cached, CacheEvent::Clear) => Some((CacheState::NoCache, CacheAction::Remove)),
        _ => None,
    }
}

impl CacheState {
    /// The state that the presence or absence of the snapshot file means.
    pub fn of_file(present: bool) -> (r: CacheState)
        ensures
            r == if present {
                CacheState::Cached
            } else {
                CacheState::NoCache
            },
    {
        if present {
            CacheState::Cached
        } else {
            CacheState::NoCache
        }
    }

    /// Where the games of a run come from in this state.
    pub fn source(self) -> (r: GameSource)
        ensures
            r == source_in(self),
    {
        match self {
            CacheState::Cached => GameSource::Snapshot,
            CacheState::NoCache => GameSource::Service,
        }
    }

    /// The state after an event and what is to be done to the snapshot
    /// file, or `None` where the event cannot happen in this state.
    pub fn step(self, event: CacheEvent) -> (r: Option<(CacheState, CacheAction)>)
        ensures
            r == transition(self, event),
    {
        match self {
            CacheState::NoCache => match event {
                CacheEvent::FetchSucceeded => Some((CacheState::Cached, CacheAction::Store)),
                CacheEvent::FetchFailed => Some((CacheState::NoCache, CacheAction::Keep)),
                CacheEvent::Clear => Some((CacheState::NoCache, CacheAction::Keep)),
                CacheEvent::Read => None,
            },
            CacheState::Cached => match event {
                CacheEvent::Read => Some((CacheState::Cached, CacheAction::Keep)),
                CacheEvent::Clear => Some((CacheState::NoCache, CacheAction::Remove)),
                CacheEvent::FetchSucceeded => None,
                CacheEvent::FetchFailed => None,
            },
        }
    }
}

/// The service is asked exactly where there is no snapshot. With a
/// snapshot no request can happen, and reading the snapshot leaves it in
/// place and the file alone: the snapshot lasts until it is cleared away.
pub proof fn lemma_snapshot_spares_service(state: CacheState, event: CacheEvent)
    ensures
        source_in(state) == GameSource::Service <==> state == CacheState::NoCache,
        (event == CacheEvent::FetchSucceeded || event == CacheEvent::FetchFailed) && transition(
            state,
            event,
        ) is Some ==> state == CacheState::NoCache,
        event == CacheEvent::Read && transition(state, event) is Some ==> state == CacheState::Cached
            && transition(state, event) == Some((CacheState::Cached, CacheAction::Keep)),
        transition(state, event) matches Some((next, _)) ==> (state == CacheState::Cached ==> (next
            == CacheState::NoCache <==> event == CacheEvent::Clear)),
{
}

/// The snapshot is written exactly when the service has answered, and
/// then there is a snapshot; a failed request leaves the state and the
/// file as they were.
pub proof fn lemma_store_after_answer(state: CacheState, event: CacheEvent)
    ensures
        transition(state, event) matches Some((next, action)) ==> (action == CacheAction::Store <==> state
            == CacheState::NoCache && event == CacheEvent::FetchSucceeded),
        transition(state, event) matches Some((next, action)) ==> (action == CacheAction::Store
            ==> next == CacheState::Cached),
        event == CacheEvent::FetchFailed ==> (transition(state, event) matches Some((next, action))
            ==> next == state && action == CacheAction::Keep),
{
}

} // verus!

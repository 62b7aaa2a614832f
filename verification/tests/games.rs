use library_generator::game::{
    games_with_names, last_played_label, sorted_by_playtime, total_playtime, SteamGame,
    SteamGamesResponse, SteamLibraryResponse,
};
use library_generator::steam::{CacheAction, CacheEvent, CacheState, GameSource, SteamClient};

fn game(appid: u64, name: &str, minutes: u64) -> SteamGame {
    SteamGame {
        appid,
        name: name.to_string(),
        playtime_forever: minutes,
        img_icon_url: String::new(),
        rtime_last_played: 0,
        playtime_linux_forever: 0,
        playtime_deck_forever: 0,
    }
}

#[test]
fn a_game_is_empty_without_a_name() {
    assert!(game(1, "", 5).is_empty());
    assert!(!game(1, "Game", 0).is_empty());
}

#[test]
fn a_game_never_played_says_so() {
    assert_eq!(game(10, "Game", 120).last_played_date(), "Never");
}

#[test]
fn the_last_played_date_is_the_day_in_utc() {
    let mut g = game(10, "Game", 120);
    g.rtime_last_played = 1431648000;
    assert_eq!(g.last_played_date(), "2015-05-15");
    g.rtime_last_played = 1431648000 + 86_399;
    assert_eq!(g.last_played_date(), "2015-05-15");
    g.rtime_last_played = 1431648000 + 86_400;
    assert_eq!(g.last_played_date(), "2015-05-16");
    g.rtime_last_played = 1;
    assert_eq!(g.last_played_date(), "1970-01-01");
}

#[test]
fn a_timestamp_beyond_the_calendar_is_unknown() {
    let mut g = game(10, "Game", 120);
    g.rtime_last_played = i64::MAX as u64;
    assert_eq!(g.last_played_date(), "Unknown");
}

#[test]
fn a_timestamp_above_the_signed_range_wraps_around() {
    let mut g = game(10, "Game", 120);
    g.rtime_last_played = u64::MAX;
    assert_eq!(g.last_played_date(), "1969-12-31");
}

#[test]
fn the_label_follows_the_timestamp_and_the_date() {
    assert_eq!(last_played_label(0, None), "Never");
    assert_eq!(last_played_label(0, Some("2015-05-15".to_string())), "Never");
    assert_eq!(last_played_label(5, Some("2015-05-15".to_string())), "2015-05-15");
    assert_eq!(last_played_label(5, None), "Unknown");
}

#[test]
fn one_game_of_two_hours() {
    let fetched = SteamLibraryResponse {
        response: SteamGamesResponse { game_count: 1, games: vec![game(10, "Game", 120)] },
    };
    let games = fetched.into_games();
    assert_eq!(games.len(), 1);
    assert_eq!(games[0].appid, 10);
    assert_eq!(games[0].name, "Game");
    let minutes = total_playtime(&games).expect("fits");
    assert_eq!(minutes, 120);
    assert_eq!(minutes as f64 / 60.0, 2.0);
}

#[test]
fn playtime_adds_up_or_does_not_fit() {
    assert_eq!(total_playtime(&Vec::new()), Some(0));
    assert_eq!(total_playtime(&vec![game(1, "a", 30), game(2, "", 45), game(3, "c", 0)]), Some(75));
    assert_eq!(total_playtime(&vec![game(1, "a", u64::MAX)]), Some(u64::MAX));
    assert_eq!(total_playtime(&vec![game(1, "a", u64::MAX), game(2, "b", 0)]), Some(u64::MAX));
    assert_eq!(total_playtime(&vec![game(1, "a", u64::MAX), game(2, "b", 1)]), None);
    assert_eq!(total_playtime(&vec![game(1, "a", u64::MAX), game(2, "b", 1), game(3, "c", 0)]), None);
}

#[test]
fn the_most_played_come_first_and_ties_keep_their_order() {
    let games = vec![game(1, "a", 10), game(2, "b", 50), game(3, "c", 10), game(4, "d", 0), game(5, "e", 50)];
    let sorted = sorted_by_playtime(&games);
    let order: Vec<u64> = sorted.iter().map(|g| g.appid).collect();
    assert_eq!(order, vec![2, 5, 1, 3, 4]);
    // The list itself is untouched.
    let untouched: Vec<u64> = games.iter().map(|g| g.appid).collect();
    assert_eq!(untouched, vec![1, 2, 3, 4, 5]);
}

#[test]
fn only_named_games_get_a_page() {
    let games = vec![game(1, "a", 10), game(2, "", 50), game(3, "c", 10), game(4, "", 0)];
    let named = games_with_names(&games);
    let order: Vec<u64> = named.iter().map(|g| g.appid).collect();
    assert_eq!(order, vec![1, 3]);
    assert_eq!(games.len(), 4);
}

#[test]
fn the_request_names_key_and_player() {
    let client = SteamClient::new("KEY".to_string(), "42".to_string());
    assert_eq!(
        client.request_url(),
        "https://api.steampowered.com/IPlayerService/GetOwnedGames/v1?key=KEY&steamid=42&include_appinfo=true&include_played_free_games=false"
    );
}

#[test]
fn without_a_snapshot_the_service_is_asked_and_the_answer_stored() {
    let state = CacheState::of_file(false);
    assert_eq!(state, CacheState::NoCache);
    assert_eq!(state.source(), GameSource::Service);
    assert_eq!(state.step(CacheEvent::FetchSucceeded), Some((CacheState::Cached, CacheAction::Store)));
    // The second run finds the snapshot and does not ask again.
    let next = CacheState::of_file(true);
    assert_eq!(next, CacheState::Cached);
    assert_eq!(next.source(), GameSource::Snapshot);
    assert_eq!(next.step(CacheEvent::Read), Some((CacheState::Cached, CacheAction::Keep)));
    assert_eq!(next.step(CacheEvent::FetchSucceeded), None);
    assert_eq!(next.step(CacheEvent::FetchFailed), None);
}

#[test]
fn a_failed_request_stores_nothing() {
    assert_eq!(
        CacheState::NoCache.step(CacheEvent::FetchFailed),
        Some((CacheState::NoCache, CacheAction::Keep))
    );
    assert_eq!(CacheState::NoCache.step(CacheEvent::Read), None);
}

#[test]
fn clearing_removes_the_snapshot_where_there_is_one() {
    assert_eq!(CacheState::Cached.step(CacheEvent::Clear), Some((CacheState::NoCache, CacheAction::Remove)));
    assert_eq!(CacheState::NoCache.step(CacheEvent::Clear), Some((CacheState::NoCache, CacheAction::Keep)));
}

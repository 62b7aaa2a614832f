use library_generator::game::{ByPlaytimeDescending, SteamGame};
use library_generator::library::{Album, Artist, ByYearTitle};
use library_generator::pages::ByText;
use library_generator::ranking::{sort_ranked, Ranking};
use library_generator::track::{ByAlbumPosition, ByTitle, Track};

fn placed(title: &str, disc: &str, track: &str) -> Track {
    Track {
        title: title.to_string(),
        artist: "X".to_string(),
        disc: disc.to_string(),
        track: track.to_string(),
        ..Track::default()
    }
}

fn dated(title: &str, year: &str) -> Album {
    let mut album = Album::new(String::new(), title.to_string(), "X".to_string());
    album.year = year.to_string();
    album
}

#[test]
fn tracks_rank_by_disc_then_number() {
    let a = placed("a", "1", "2");
    let b = placed("b", "1", "10");
    let c = placed("c", "2", "1");
    let d = placed("d", "", "");
    assert!(ByAlbumPosition::in_order(&a, &b));
    assert!(!ByAlbumPosition::in_order(&b, &a));
    assert!(ByAlbumPosition::in_order(&b, &c));
    assert!(!ByAlbumPosition::in_order(&c, &a));
    assert!(ByAlbumPosition::in_order(&a, &a));
    // No disc counts as disc 1, no number as number 0.
    assert!(ByAlbumPosition::in_order(&d, &a));
    assert!(!ByAlbumPosition::in_order(&a, &d));
    assert!(ByAlbumPosition::in_order(&d, &c));
}

#[test]
fn tracks_rank_by_title_as_text() {
    let a = placed("Alpha", "9", "9");
    let b = placed("alpha", "1", "1");
    assert!(ByTitle::in_order(&a, &b));
    assert!(!ByTitle::in_order(&b, &a));
    assert!(ByTitle::in_order(&a, &a));
}

#[test]
fn albums_rank_by_year_then_title() {
    let old = dated("Zebra", "1990");
    let new = dated("Apple", "2000");
    let twin = dated("Banana", "2000");
    let undated = dated("Zulu", "");
    assert!(ByYearTitle::in_order(&old, &new));
    assert!(!ByYearTitle::in_order(&new, &old));
    assert!(ByYearTitle::in_order(&new, &twin));
    assert!(!ByYearTitle::in_order(&twin, &new));
    assert!(ByYearTitle::in_order(&undated, &old));
    assert!(ByYearTitle::in_order(&twin, &twin));
    // Years are compared as text.
    assert!(ByYearTitle::in_order(&dated("a", "10"), &dated("a", "9")));
}

#[test]
fn games_rank_by_playtime_downwards() {
    let game = |minutes: u64| SteamGame {
        appid: 1,
        name: "g".to_string(),
        playtime_forever: minutes,
        img_icon_url: String::new(),
        rtime_last_played: 0,
        playtime_linux_forever: 0,
        playtime_deck_forever: 0,
    };
    assert!(ByPlaytimeDescending::in_order(&game(5), &game(3)));
    assert!(!ByPlaytimeDescending::in_order(&game(3), &game(5)));
    assert!(ByPlaytimeDescending::in_order(&game(3), &game(3)));
}

#[test]
fn texts_rank_lexicographically() {
    assert!(ByText::in_order(&"a".to_string(), &"b".to_string()));
    assert!(!ByText::in_order(&"b".to_string(), &"a".to_string()));
}

#[test]
fn sorting_is_stable_for_tracks_of_one_place() {
    let mut tracks = vec![
        placed("late", "2", "1"),
        placed("x", "1", "3"),
        placed("y", "1", "3"),
        placed("first", "1", "1"),
        placed("z", "1", "3"),
    ];
    sort_ranked::<Track, ByAlbumPosition>(&mut tracks);
    let order: Vec<&str> = tracks.iter().map(|t| t.title.as_str()).collect();
    assert_eq!(order, vec!["first", "x", "y", "z", "late"]);
}

#[test]
fn adding_to_an_unsorted_list_sorts_all_of_it() {
    let mut album = Album::new("1".to_string(), "Y".to_string(), "X".to_string());
    album.tracks = vec![placed("c", "1", "3"), placed("a", "1", "1")];
    album.add_track(placed("b", "1", "2"));
    let order: Vec<&str> = album.tracks.iter().map(|t| t.title.as_str()).collect();
    assert_eq!(order, vec!["a", "b", "c"]);

    let mut artist = Artist::new("X".to_string());
    artist.tracks = vec![placed("z", "", ""), placed("m", "", "")];
    artist.add_track(placed("a", "", ""));
    let order: Vec<&str> = artist.tracks.iter().map(|t| t.title.as_str()).collect();
    assert_eq!(order, vec!["a", "m", "z"]);

    artist.albums = vec![dated("Z", "2000"), dated("A", "2000")];
    artist.add_album(dated("M", "1999"));
    let order: Vec<&str> = artist.albums.iter().map(|a| a.title.as_str()).collect();
    assert_eq!(order, vec!["M", "A", "Z"]);
}

#[test]
fn copies_hold_the_same_values() {
    let mut album = Album::new("1".to_string(), "Y".to_string(), "X".to_string());
    album.genre = "Rock".to_string();
    album.add_track(placed("a", "1", "1"));
    let mut artist = Artist::new("X".to_string());
    artist.add_album(album.clone());
    artist.add_track(placed("loose", "", ""));
    assert_eq!(format!("{:?}", album.clone()), format!("{:?}", album));
    assert_eq!(format!("{:?}", artist.clone()), format!("{:?}", artist));
    let track = placed("t", "2", "3");
    assert_eq!(format!("{:?}", track.clone()), format!("{:?}", track));
}

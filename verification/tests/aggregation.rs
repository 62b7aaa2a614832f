use library_generator::library::{Album, Artist};
use library_generator::parser::{Library, Parser};
use library_generator::track::Track;

fn record(title: &str, artist: &str, album: &str, album_id: &str, track: &str) -> Track {
    Track {
        title: title.to_string(),
        artist: artist.to_string(),
        album: album.to_string(),
        album_id: album_id.to_string(),
        track: track.to_string(),
        ..Track::default()
    }
}

fn aggregate(records: Vec<Track>) -> Library {
    Parser::new().parse_tracks(records)
}

fn titles(tracks: &[Track]) -> Vec<&str> {
    tracks.iter().map(|t| t.title.as_str()).collect()
}

fn album<'a>(artist: &'a Artist, title: &str) -> &'a Album {
    artist.albums.iter().find(|a| a.title == title).expect("album")
}

#[test]
fn two_loose_tracks_with_the_same_title_are_both_kept() {
    let library = aggregate(vec![
        record("Song A", "X", "", "", ""),
        record("Song A", "X", "", "", ""),
    ]);
    assert_eq!(library.len(), 1);
    let artist = library.get("X").expect("artist X");
    assert_eq!(artist.name, "X");
    assert!(artist.albums.is_empty());
    assert_eq!(titles(&artist.tracks), vec!["Song A", "Song A"]);
}

#[test]
fn album_tracks_come_out_in_track_order() {
    let library = aggregate(vec![
        record("Second", "X", "Y", "1", "2"),
        record("First", "X", "Y", "1", "1"),
    ]);
    assert_eq!(library.len(), 1);
    let artist = library.get("X").expect("artist X");
    assert!(artist.tracks.is_empty());
    assert_eq!(artist.albums.len(), 1);
    let album = &artist.albums[0];
    assert_eq!(album.title, "Y");
    assert_eq!(album.id, "1");
    assert_eq!(album.artist, "X");
    assert_eq!(album.track_count(), 2);
    assert_eq!(album.tracks[0].track, "1");
    assert_eq!(album.tracks[1].track, "2");
    assert_eq!(titles(&album.tracks), vec!["First", "Second"]);
    assert_eq!(album.tracks[0].disc_number(), 1);
    assert_eq!(album.tracks[1].disc_number(), 1);
}

#[test]
fn a_record_without_a_title_leaves_the_library_empty() {
    let library = aggregate(vec![record("", "X", "", "", "")]);
    assert_eq!(library.len(), 0);
    assert!(library.get("X").is_none());
    assert!(library.artists().is_empty());
}

#[test]
fn a_record_without_a_title_is_dropped_even_with_an_album() {
    let library = aggregate(vec![
        record("", "X", "Y", "1", "1"),
        record("Kept", "X", "Y", "1", "2"),
        record("", "X", "", "", ""),
    ]);
    let artist = library.get("X").expect("artist X");
    assert!(artist.tracks.is_empty());
    assert_eq!(artist.albums.len(), 1);
    assert_eq!(titles(&artist.albums[0].tracks), vec!["Kept"]);
    for artist in library.artists() {
        assert!(artist.tracks.iter().all(|t| !t.title.is_empty()));
        for album in &artist.albums {
            assert!(album.tracks.iter().all(|t| !t.title.is_empty()));
        }
    }
}

#[test]
fn a_record_without_an_artist_is_dropped() {
    let mut untagged = record("Song", "", "Y", "1", "1");
    untagged.albumartist = "Various".to_string();
    let library = aggregate(vec![untagged, record("Song", "", "", "", "")]);
    assert_eq!(library.len(), 0);
}

#[test]
fn the_album_artist_owns_the_record_where_it_is_given() {
    let mut compiled = record("Song", "Singer", "Hits", "7", "1");
    compiled.albumartist = "Various".to_string();
    assert_eq!(compiled.owner(), "Various");
    let plain = record("Other", "Singer", "", "", "");
    assert_eq!(plain.owner(), "Singer");

    let library = aggregate(vec![compiled, plain]);
    assert_eq!(library.len(), 2);
    let various = library.get("Various").expect("artist Various");
    assert_eq!(various.albums.len(), 1);
    assert_eq!(various.albums[0].artist, "Various");
    assert_eq!(titles(&various.albums[0].tracks), vec!["Song"]);
    let singer = library.get("Singer").expect("artist Singer");
    assert!(singer.albums.is_empty());
    assert_eq!(titles(&singer.tracks), vec!["Other"]);
}

#[test]
fn tracks_are_ordered_by_disc_before_track_number() {
    let mut late = record("D2T1", "X", "Y", "1", "1");
    late.disc = "2".to_string();
    let mut early = record("D1T9", "X", "Y", "1", "9");
    early.disc = "1".to_string();
    let unnumbered = record("NoDisc", "X", "Y", "1", "3");
    let library = aggregate(vec![late, early, unnumbered]);
    let artist = library.get("X").expect("artist X");
    assert_eq!(titles(&artist.albums[0].tracks), vec!["NoDisc", "D1T9", "D2T1"]);
}

#[test]
fn text_that_is_no_number_counts_as_track_zero_and_disc_one() {
    let mut odd = record("Odd", "X", "Y", "1", "A1");
    odd.disc = "one".to_string();
    assert_eq!(odd.track_number(), 0);
    assert_eq!(odd.disc_number(), 1);
    let first = record("First", "X", "Y", "1", "1");
    let library = aggregate(vec![first, odd]);
    let artist = library.get("X").expect("artist X");
    assert_eq!(titles(&artist.albums[0].tracks), vec!["Odd", "First"]);
}

#[test]
fn tracks_of_the_same_place_keep_the_order_of_arrival() {
    let library = aggregate(vec![
        record("b", "X", "Y", "1", "5"),
        record("a", "X", "Y", "1", "5"),
        record("c", "X", "Y", "1", "5"),
        record("first", "X", "Y", "1", "4"),
    ]);
    let artist = library.get("X").expect("artist X");
    assert_eq!(titles(&artist.albums[0].tracks), vec!["first", "b", "a", "c"]);
}

#[test]
fn loose_tracks_are_ordered_by_title() {
    let library = aggregate(vec![
        record("beta", "X", "", "", ""),
        record("Zeta", "X", "", "", ""),
        record("alpha", "X", "", "", ""),
        record("alpha", "X", "", "", "9"),
        record("", "X", "", "", ""),
    ]);
    let artist = library.get("X").expect("artist X");
    assert_eq!(titles(&artist.tracks), vec!["Zeta", "alpha", "alpha", "beta"]);
    assert_eq!(artist.tracks[1].track, "");
    assert_eq!(artist.tracks[2].track, "9");
}

#[test]
fn an_album_takes_year_genre_and_total_from_its_first_record_only() {
    let mut first = record("One", "X", "Y", "1", "1");
    first.year = "1999".to_string();
    first.genre = "Rock".to_string();
    first.tracktotal = "12".to_string();
    first.disctotal = "3".to_string();
    let mut second = record("Two", "X", "Y", "1", "2");
    second.year = "2005".to_string();
    second.genre = "Jazz".to_string();
    second.tracktotal = "20".to_string();
    let library = aggregate(vec![first, second]);
    let artist = library.get("X").expect("artist X");
    let album = &artist.albums[0];
    assert_eq!(album.year, "1999");
    assert_eq!(album.genre, "Rock");
    assert_eq!(album.tracktotal, 12);
    assert_eq!(album.disctotal, 1);
    assert_eq!(album.track_count(), 2);
}

#[test]
fn a_track_total_that_is_no_number_counts_as_zero() {
    let mut first = record("One", "X", "Y", "1", "1");
    first.tracktotal = "twelve".to_string();
    let library = aggregate(vec![first]);
    assert_eq!(library.get("X").expect("artist X").albums[0].tracktotal, 0);
}

#[test]
fn albums_are_ordered_by_year_then_title() {
    let mut records = Vec::new();
    for (id, title, year) in [("1", "Zebra", "2001"), ("2", "Apple", "2001"), ("3", "Late", "2010"), ("4", "Old", "1990"), ("5", "Undated", "")] {
        let mut r = record("Song", "X", title, id, "1");
        r.year = year.to_string();
        records.push(r);
    }
    let library = aggregate(records);
    let artist = library.get("X").expect("artist X");
    let order: Vec<&str> = artist.albums.iter().map(|a| a.title.as_str()).collect();
    assert_eq!(order, vec!["Undated", "Old", "Apple", "Zebra", "Late"]);
}

#[test]
fn albums_stay_in_order_when_an_album_receives_more_tracks() {
    let dated = |title: &str, album: &str, id: &str, year: &str| {
        let mut r = record(title, "X", album, id, "1");
        r.year = year.to_string();
        r
    };
    let library = aggregate(vec![
        dated("m1", "Middle", "1", "2000"),
        dated("z1", "Zero", "2", "1990"),
        dated("m2", "Middle", "1", "2020"),
        dated("a1", "After", "3", "2010"),
        dated("z2", "Zero", "2", ""),
    ]);
    let artist = library.get("X").expect("artist X");
    let order: Vec<(&str, &str, usize)> =
        artist.albums.iter().map(|a| (a.year.as_str(), a.title.as_str(), a.track_count())).collect();
    assert_eq!(order, vec![("1990", "Zero", 2), ("2000", "Middle", 2), ("2010", "After", 1)]);
}

#[test]
fn albums_without_an_id_and_with_one_title_collapse_across_artists() {
    let library = aggregate(vec![
        record("One", "X", "Shared", "", "1"),
        record("Two", "Y", "Shared", "", "2"),
    ]);
    assert_eq!(library.len(), 2);
    let x = library.get("X").expect("artist X");
    let y = library.get("Y").expect("artist Y");
    // One album is kept under the key; Y received it last and holds both
    // tracks, X holds it as it was when X received it.
    assert_eq!(titles(&album(y, "Shared").tracks), vec!["One", "Two"]);
    assert_eq!(album(y, "Shared").artist, "X");
    assert_eq!(titles(&album(x, "Shared").tracks), vec!["One"]);
}

#[test]
fn the_album_kept_under_a_key_is_found_by_the_key() {
    let mut parser = Parser::new();
    parser.parse_tracks(vec![
        record("One", "X", "Shared", "", "1"),
        record("Two", "Y", "Shared", "", "2"),
        record("Three", "X", "Other", "7", "1"),
    ]);
    let shared = parser.album("-Shared").expect("kept");
    assert_eq!(titles(&shared.tracks), vec!["One", "Two"]);
    assert_eq!(shared.artist, "X");
    assert_eq!(parser.album("7-Other").expect("kept").track_count(), 1);
    assert!(parser.album("Shared").is_none());
    assert!(parser.album("7-Shared").is_none());
}

#[test]
fn an_owner_is_brought_up_to_date_by_its_next_record_of_the_album() {
    let library = aggregate(vec![
        record("One", "X", "Shared", "", "1"),
        record("Two", "Y", "Shared", "", "2"),
        record("Three", "X", "Shared", "", "3"),
        record("Four", "Y", "Shared", "", "4"),
    ]);
    let x = library.get("X").expect("artist X");
    let y = library.get("Y").expect("artist Y");
    assert_eq!(titles(&album(y, "Shared").tracks), vec!["One", "Two", "Three", "Four"]);
    assert_eq!(titles(&album(x, "Shared").tracks), vec!["One", "Two", "Three"]);
}

#[test]
fn a_second_title_under_one_id_takes_the_place_of_the_first() {
    let library = aggregate(vec![
        record("One", "X", "First", "9", "1"),
        record("Two", "X", "Second", "9", "1"),
    ]);
    let x = library.get("X").expect("artist X");
    assert_eq!(x.albums.len(), 1);
    assert_eq!(x.albums[0].title, "Second");
    assert_eq!(titles(&x.albums[0].tracks), vec!["Two"]);
}

#[test]
fn the_same_title_under_two_ids_gives_two_albums() {
    let library = aggregate(vec![
        record("One", "X", "Same", "1", "1"),
        record("Two", "X", "Same", "2", "1"),
        record("Three", "X", "Same", "1", "2"),
    ]);
    let x = library.get("X").expect("artist X");
    assert_eq!(x.albums.len(), 2);
    let first = x.albums.iter().find(|a| a.id == "1").expect("album 1");
    let second = x.albums.iter().find(|a| a.id == "2").expect("album 2");
    assert_eq!(titles(&first.tracks), vec!["One", "Three"]);
    assert_eq!(titles(&second.tracks), vec!["Two"]);
}

#[test]
fn every_album_held_equals_the_album_kept_when_owners_are_up_to_date() {
    // Each album key comes under one id. "S" is shared: X has the last
    // record of it, and Y is later given another album under that id.
    let mut parser = Parser::new();
    let library = parser.parse_tracks(vec![
        record("a1", "X", "A", "1", "2"),
        record("s1", "X", "S", "9", "1"),
        record("b1", "Y", "B", "2", "1"),
        record("s2", "Y", "S", "9", "3"),
        record("a2", "X", "A", "1", "1"),
        record("c1", "X", "C", "3", "1"),
        record("b2", "Y", "B", "2", "2"),
        record("s3", "X", "S", "9", "2"),
        record("s4", "Y", "S", "9", "4"),
        record("s5", "X", "S", "9", "5"),
        record("t1", "Y", "T", "9", "1"),
    ]);
    let x = library.get("X").expect("artist X");
    let y = library.get("Y").expect("artist Y");
    assert_eq!(titles(&album(x, "A").tracks), vec!["a2", "a1"]);
    assert_eq!(titles(&album(x, "C").tracks), vec!["c1"]);
    assert_eq!(titles(&album(y, "B").tracks), vec!["b1", "b2"]);
    let mut held = 0;
    for artist in library.artists() {
        for album in &artist.albums {
            let key = format!("{}-{}", album.id, album.title);
            let kept = parser.album(&key).expect("kept under its key");
            assert_eq!(format!("{:?}", album), format!("{:?}", kept));
            held += 1;
        }
    }
    assert_eq!(held, 5);
    assert_eq!(titles(&album(x, "S").tracks), vec!["s1", "s3", "s2", "s4", "s5"]);
    assert_eq!(titles(&album(y, "T").tracks), vec!["t1"]);
    assert!(y.albums.iter().all(|a| a.title != "S"));
}

#[test]
fn an_owner_that_is_not_brought_up_to_date_is_left_behind() {
    let mut parser = Parser::new();
    let library = parser.parse_tracks(vec![
        record("s1", "X", "S", "9", "1"),
        record("s2", "Y", "S", "9", "2"),
        record("s3", "X", "S", "9", "3"),
    ]);
    let kept = parser.album("9-S").expect("kept under its key");
    let x = library.get("X").expect("artist X");
    let y = library.get("Y").expect("artist Y");
    assert_eq!(format!("{:?}", album(x, "S")), format!("{:?}", kept));
    assert_ne!(format!("{:?}", album(y, "S")), format!("{:?}", kept));
    assert_eq!(titles(&album(y, "S").tracks), vec!["s1", "s2"]);
    assert_eq!(titles(&kept.tracks), vec!["s1", "s2", "s3"]);
}

#[test]
fn running_the_same_batch_twice_gives_the_same_library() {
    let batch = || {
        vec![
            record("b", "X", "Y", "1", "2"),
            record("a", "X", "Y", "1", "1"),
            record("loose", "Z", "", "", ""),
            record("", "Q", "", "", ""),
            record("c", "W", "Y", "1", "3"),
        ]
    };
    let first = aggregate(batch());
    let second = aggregate(batch());
    assert_eq!(first.len(), second.len());
    for artist in first.artists() {
        let other = second.get(&artist.name).expect("same artists");
        assert_eq!(format!("{:?}", artist), format!("{:?}", other));
    }
    assert_eq!(format!("{:?}", first.artists()), format!("{:?}", second.artists()));
}

#[test]
fn every_track_list_is_in_order_after_a_mixed_batch() {
    let mut records = Vec::new();
    let discs = ["2", "", "1", "x", "3"];
    for i in 0..40u32 {
        let mut r = record(
            &format!("t{}", (i * 7) % 11),
            if i % 3 == 0 { "X" } else { "Y" },
            if i % 4 == 0 { "" } else if i % 4 == 1 { "A" } else { "B" },
            if i % 2 == 0 { "1" } else { "" },
            &format!("{}", (i * 5) % 9),
        );
        r.disc = discs[(i % 5) as usize].to_string();
        records.push(r);
    }
    let library = aggregate(records);
    assert_eq!(library.len(), 2);
    for artist in library.artists() {
        for pair in artist.tracks.windows(2) {
            assert!(pair[0].title <= pair[1].title);
        }
        for album in &artist.albums {
            for pair in album.tracks.windows(2) {
                let a = (pair[0].disc_number(), pair[0].track_number());
                let b = (pair[1].disc_number(), pair[1].track_number());
                assert!(a <= b);
            }
        }
    }
}

#[test]
fn artists_are_listed_in_the_order_in_which_they_came_up() {
    let mut various = record("v", "Singer", "Hits", "7", "1");
    various.albumartist = "Various".to_string();
    let library = aggregate(vec![
        record("a", "Zed", "", "", ""),
        record("", "Nobody", "", "", ""),
        record("b", "Abe", "Y", "1", "1"),
        various,
        record("c", "Zed", "Y", "1", "2"),
        record("d", "Singer", "", "", ""),
        record("e", "Abe", "", "", ""),
    ]);
    let names: Vec<&str> = library.artists().iter().map(|a| a.name.as_str()).collect();
    assert_eq!(names, vec!["Zed", "Abe", "Various", "Singer"]);
}

#[test]
fn a_parser_goes_on_where_it_stopped() {
    let mut parser = Parser::new();
    let first = parser.parse_tracks(vec![record("One", "X", "Y", "1", "2")]);
    assert_eq!(first.get("X").expect("artist X").albums[0].track_count(), 1);
    let second = parser.parse_tracks(vec![record("Two", "X", "Y", "1", "1")]);
    assert_eq!(titles(&second.get("X").expect("artist X").albums[0].tracks), vec!["Two", "One"]);
    // The library handed out earlier is a copy and stays as it was.
    assert_eq!(first.get("X").expect("artist X").albums[0].track_count(), 1);
}

#[test]
fn process_track_takes_a_record_as_it_comes() {
    let mut parser = Parser::new();
    parser.process_track(record("One", "X", "", "", ""));
    parser.process_track(record("Two", "", "", "", ""));
    let library = parser.library();
    assert_eq!(library.len(), 1);
    assert_eq!(titles(&library.get("X").expect("artist X").tracks), vec!["One"]);
}

#[test]
fn an_album_id_with_a_hyphen_can_meet_another_album_under_one_key() {
    // "a-b" + "-" + "c" and "a" + "-" + "b-c" are the same key.
    let library = aggregate(vec![
        record("One", "X", "c", "a-b", "1"),
        record("Two", "X", "b-c", "a", "2"),
    ]);
    let x = library.get("X").expect("artist X");
    assert_eq!(x.albums.len(), 2);
    assert!(x.albums.iter().all(|a| a.id == "a-b" && a.title == "c"));
    let mut counts: Vec<usize> = x.albums.iter().map(|a| a.track_count()).collect();
    counts.sort();
    assert_eq!(counts, vec![1, 2]);
}

#[test]
fn albums_and_artists_start_empty() {
    let album = Album::new("1".to_string(), "Y".to_string(), "X".to_string());
    assert_eq!(album.id, "1");
    assert_eq!(album.title, "Y");
    assert_eq!(album.artist, "X");
    assert_eq!(album.year, "");
    assert_eq!(album.genre, "");
    assert_eq!(album.tracktotal, 0);
    assert_eq!(album.disctotal, 1);
    assert_eq!(album.track_count(), 0);
    let artist = Artist::new("X".to_string());
    assert_eq!(artist.name, "X");
    assert!(artist.albums.is_empty());
    assert!(artist.tracks.is_empty());
}

#[test]
fn set_latest_replaces_the_album_of_the_id_or_adds_one() {
    let mut artist = Artist::new("X".to_string());
    let mut first = Album::new("1".to_string(), "B".to_string(), "X".to_string());
    first.add_track(record("One", "X", "B", "1", "1"));
    artist.set_latest("1", first.clone());
    let other = Album::new("2".to_string(), "A".to_string(), "X".to_string());
    artist.set_latest("2", other);
    assert_eq!(artist.albums.iter().map(|a| a.title.as_str()).collect::<Vec<_>>(), vec!["A", "B"]);
    first.add_track(record("Two", "X", "B", "1", "2"));
    artist.set_latest("1", first);
    assert_eq!(artist.albums.len(), 2);
    assert_eq!(artist.albums[1].track_count(), 2);
    assert_eq!(artist.albums[0].track_count(), 0);
}

#[test]
fn track_predicates() {
    let full = record("Song", "X", "Y", "1", "3");
    assert!(!full.is_empty());
    assert!(full.is_valid());
    assert!(full.has_album());
    assert_eq!(full.track_number(), 3);
    assert_eq!(full.album_key(), "1-Y");
    let untitled = record("", "X", "", "", "");
    assert!(untitled.is_empty());
    assert!(!untitled.is_valid());
    assert!(!untitled.has_album());
    let blank = Track::default();
    assert!(blank.is_empty());
    assert!(!blank.is_valid());
    assert_eq!(blank.album_key(), "-");
    assert_eq!(blank.owner(), "");
}

#[test]
fn a_record_is_empty_exactly_when_it_is_not_valid() {
    let untitled = record("", "X", "Y", "1", "1");
    assert!(untitled.is_empty());
    let unsigned = record("Song", "", "Y", "1", "1");
    assert!(unsigned.is_empty());
    let mut compiled = record("Song", "", "Y", "1", "1");
    compiled.albumartist = "Various".to_string();
    assert!(compiled.is_empty());
    let bare = record("Song", "X", "", "", "");
    assert!(!bare.is_empty());
    for title in ["", "Song", " "] {
        for artist in ["", "X", " "] {
            let r = record(title, artist, "Y", "1", "1");
            assert_eq!(r.is_empty(), title.is_empty() || artist.is_empty());
            assert_eq!(r.is_empty(), !r.is_valid());
        }
    }
}

#[test]
fn an_empty_record_is_passed_over_whatever_else_it_names() {
    let mut parser = Parser::new();
    let library = parser.parse_tracks(vec![record("", "X", "Y", "1", "1")]);
    assert_eq!(library.len(), 0);
    assert!(library.get("X").is_none());
    assert!(parser.album("1-Y").is_none());
}

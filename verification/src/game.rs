//! The games of a player's library, as the library service lists them.

use vstd::prelude::*;
use crate::ranking::{sort_ranked, stable_sort, views, Ranking};

verus! {

/// One game of the library.
#[derive(Debug)]
pub struct SteamGame {
    pub appid: u64,
    pub name: String,
    /// Minutes played in all.
    pub playtime_forever: u64,
    pub img_icon_url: String,
    /// When the game was last played, in seconds since 1970-01-01 00:00:00
    /// UTC; 0 where it never was.
    pub rtime_last_played: u64,
    pub playtime_linux_forever: u64,
    pub playtime_deck_forever: u64,
}

/// A `SteamGame` as the values it holds.
pub struct SteamGameView {
    pub appid: u64,
    pub name: Seq<char>,
    pub playtime_forever: u64,
    pub img_icon_url: Seq<char>,
    pub rtime_last_played: u64,
    pub playtime_linux_forever: u64,
    pub playtime_deck_forever: u64,
}

impl View for SteamGame {
    type V = SteamGameView;

    open spec fn view(&self) -> SteamGameView {
        SteamGameView {
            appid: self.appid,
            name: self.name@,
            playtime_forever: self.playtime_forever,
            img_icon_url: self.img_icon_url@,
            rtime_last_played: self.rtime_last_played,
            playtime_linux_forever: self.playtime_linux_forever,
            playtime_deck_forever: self.playtime_deck_forever,
        }
    }
}

/// The games of a library, in the order in which the service lists them.
pub type GameLibrary = Vec<SteamGame>;

/// What the service answers with, inside its envelope.
#[derive(Debug)]
pub struct SteamGamesResponse {
    pub game_count: u32,
    pub games: Vec<SteamGame>,
}

/// The envelope of the service's answer.
#[derive(Debug)]
pub struct SteamLibraryResponse {
    pub response: SteamGamesResponse,
}

impl SteamLibraryResponse {
    /// The games that the answer lists, as they stand in it.
    pub fn into_games(self) -> (games: GameLibrary)
        ensures
            games == self.response.games,
    {
        self.response.games
    }
}

/// The calendar date in UTC, written as year, month and day with hyphens
/// between them, of the instant that lies `secs` seconds after 1970-01-01
/// 00:00:00 UTC; `None` where the instant lies outside the calendar's range.
pub uninterp spec fn utc_date_text(secs: int) -> Option<Seq<char>>;

/// Calls `chrono::DateTime::<Utc>::from_timestamp` with no nanoseconds and,
/// where that gives an instant, `format` on it with the pattern
/// `%Y-%m-%d`. The contract gives the outcome the name `utc_date_text`: it
/// depends on `secs` alone, and nothing more is claimed of it.
#[verifier::external_body]
fn utc_date(secs: i64) -> (r: Option<String>)
    ensures
        match r {
            Some(text) => utc_date_text(secs as int) == Some(text@),
            None => utc_date_text(secs as int) is None,
        },
{
    chrono::DateTime::<chrono::Utc>::from_timestamp(secs, 0).map(
        |at| at.format("%Y-%m-%d").to_string(),
    )
}

/// What is shown for the time a game was last played: `Never` for the
/// timestamp 0, else the date, else `Unknown` where there is no date.
pub open spec fn played_label(rtime: u64, date: Option<Seq<char>>) -> Seq<char> {
    if rtime == 0 {
        "Never"@
    } else {
        match date {
            Some(text) => text,
            None => "Unknown"@,
        }
    }
}

/// What is shown for the time a game was last played, given the date that
/// its timestamp falls on, if it falls on one.
pub fn last_played_label(rtime: u64, date: Option<String>) -> (r: String)
    ensures
        r@ == played_label(
            rtime,
            match date {
                Some(text) => Some(text@),
                None => None,
            },
        ),
{
    if rtime == 0 {
        "Never".to_string()
    } else {
        match date {
            Some(text) => text,
            None => "Unknown".to_string(),
        }
    }
}

impl SteamGameView {
    /// A game is empty when it has no name.
    pub open spec fn is_empty(self) -> bool {
        self.name.len() == 0
    }

    /// What is shown for the time the game was last played.
    pub open spec fn last_played_text(self) -> Seq<char> {
        played_label(self.rtime_last_played, utc_date_text(self.rtime_last_played as i64 as int))
    }
}

impl Clone for SteamGame {
    fn clone(&self) -> (r: Self)
        ensures
            r == *self,
    {
        SteamGame {
            appid: self.appid,
            name: self.name.clone(),
            playtime_forever: self.playtime_forever,
            img_icon_url: self.img_icon_url.clone(),
            rtime_last_played: self.rtime_last_played,
            playtime_linux_forever: self.playtime_linux_forever,
            playtime_deck_forever: self.playtime_deck_forever,
        }
    }
}

impl SteamGame {
    /// Whether the game has no name.
    pub fn is_empty(&self) -> (r: bool)
        ensures
            r == self@.is_empty(),
    {
        self.name.as_str().is_empty()
    }

    /// What is shown for the time the game was last played: `Never` where
    /// it never was, else the date in UTC, else `Unknown`.
    pub fn last_played_date(&self) -> (r: String)
        ensures
            r@ == self@.last_played_text(),
    {
        let date = if self.rtime_last_played == 0 {
            None
        } else {
            utc_date(#[verifier::truncate] (self.rtime_last_played as i64))
        };
        last_played_label(self.rtime_last_played, date)
    }
}

/// Ranks games by the time played, the most played first.
pub struct ByPlaytimeDescending;

impl Ranking<SteamGame> for ByPlaytimeDescending {
    open spec fn le(a: SteamGameView, b: SteamGameView) -> bool {
        a.playtime_forever >= b.playtime_forever
    }

    proof fn lemma_total(a: SteamGameView, b: SteamGameView) {
    }

    proof fn lemma_transitive(a: SteamGameView, b: SteamGameView, c: SteamGameView) {
    }

    fn in_order(a: &SteamGame, b: &SteamGame) -> (r: bool) {
        a.playtime_forever >= b.playtime_forever
    }
}

/// The minutes played over all the games of a list.
pub open spec fn total_minutes(games: Seq<SteamGameView>) -> nat
    decreases games.len(),
{
    if games.len() == 0 {
        0
    } else {
        total_minutes(games.drop_last()) + games.last().playtime_forever as nat
    }
}

/// The games of a list that have a name, in the list's order.
pub open spec fn named_games(games: Seq<SteamGameView>) -> Seq<SteamGameView>
    decreases games.len(),
{
    if games.len() == 0 {
        games
    } else if games.last().is_empty() {
        named_games(games.drop_last())
    } else {
        named_games(games.drop_last()).push(games.last())
    }
}

/// The minutes played over all the games, or `None` where the sum does
/// not fit in 64 bits.
pub fn total_playtime(games: &Vec<SteamGame>) -> (r: Option<u64>)
    ensures
        r == if total_minutes(views(games@)) <= u64::MAX {
            Some(total_minutes(views(games@)) as u64)
        } else {
            None
        },
{
    let mut sum: u64 = 0;
    let mut i: usize = 0;
    while i < games.len()
        invariant
            i <= games.len(),
            sum == total_minutes(views(games@).take(i as int)),
        decreases games.len() - i,
    {
        proof {
            let upto = views(games@).take(i + 1);
            assert(upto.drop_last() =~= views(games@).take(i as int));
            assert(upto.last() == games@[i as int]@);
            lemma_total_minutes_grows(views(games@), i + 1);
        }
        match sum.checked_add(games[i].playtime_forever) {
            Some(next) => {
                sum = next;
            },
            None => {
                return None;
            },
        }
        i = i + 1;
    }
    proof {
        assert(views(games@).take(games.len() as int) =~= views(games@));
    }
    Some(sum)
}

/// The minutes of a list are no fewer than those of any of its prefixes.
proof fn lemma_total_minutes_grows(games: Seq<SteamGameView>, k: int)
    requires
        0 <= k <= games.len(),
    ensures
        total_minutes(games.take(k)) <= total_minutes(games),
    decreases games.len() - k,
{
    if k == games.len() {
        assert(games.take(k) =~= games);
    } else {
        lemma_total_minutes_grows(games.drop_last(), k);
        assert(games.drop_last().take(k) =~= games.take(k));
    }
}

/// Copies a list of games.
fn clone_games(games: &Vec<SteamGame>) -> (r: Vec<SteamGame>)
    ensures
        r@ == games@,
{
    let mut out: Vec<SteamGame> = Vec::new();
    let mut i: usize = 0;
    while i < games.len()
        invariant
            i <= games.len(),
            out@ == games@.take(i as int),
        decreases games.len() - i,
    {
        out.push(games[i].clone());
        proof {
            assert(games@.take(i + 1) =~= games@.take(i as int).push(games@[i as int]));
        }
        i = i + 1;
    }
    proof {
        assert(games@.take(games.len() as int) =~= games@);
    }
    out
}

/// The games with the most played first, games played equally long in
/// the order in which the list has them. The list itself is left as it is.
pub fn sorted_by_playtime(games: &Vec<SteamGame>) -> (r: Vec<SteamGame>)
    ensures
        views(r@) == stable_sort::<SteamGame, ByPlaytimeDescending>(views(games@)),
{
    let mut out = clone_games(games);
    sort_ranked::<SteamGame, ByPlaytimeDescending>(&mut out);
    out
}

/// The games that get a page of their own: those with a name, in the
/// list's order.
pub fn games_with_names(games: &Vec<SteamGame>) -> (r: Vec<SteamGame>)
    ensures
        views(r@) == named_games(views(games@)),
{
    let mut out: Vec<SteamGame> = Vec::new();
    let mut i: usize = 0;
    proof {
        assert(views(out@) =~= named_games(views(games@).take(0)));
    }
    while i < games.len()
        invariant
            i <= games.len(),
            views(out@) == named_games(views(games@).take(i as int)),
        decreases games.len() - i,
    {
        proof {
            let upto = views(games@).take(i + 1);
            assert(upto.drop_last() =~= views(games@).take(i as int));
            assert(upto.last() == games@[i as int]@);
        }
        if !games[i].is_empty() {
            let ghost had = views(out@);
            out.push(games[i].clone());
            proof {
                assert(views(out@) =~= had.push(games@[i as int]@));
            }
        }
        i = i + 1;
    }
    proof {
        assert(views(games@).take(games.len() as int) =~= views(games@));
    }
    out
}

} // verus!

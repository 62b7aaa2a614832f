//! What the documents of a site are made from: where each page goes, what
//! a page says of searchable text and optional fields, how text is escaped,
//! and the figures of the index pages.

use vstd::prelude::*;
use vstd::std_specs::iter::IteratorSpec;
use vstd::string::StringSliceAdditionalSpecFns;
use vstd::utf8::{encode_utf8, is_char_boundary};
use crate::game::{sorted_by_playtime, ByPlaytimeDescending, SteamGame, SteamGameView};
use crate::library::{Artist, ArtistView};
use crate::parser::{names_of, Library};
use crate::ranking::{sort_ranked, stable_sort, views, Ranking};
use crate::text::{lemma_text_le_total, lemma_text_le_transitive, str_eq, str_le, text_le};
use crate::track::{Track, TrackView};

verus! {

/// The slug of a text: the text brought down to lower-case ASCII letters
/// and digits, with single hyphens in between where it had anything else.
pub uninterp spec fn slug_text(text: Seq<char>) -> Seq<char>;

/// Calls `slug::slugify`. The contract gives its result the name
/// `slug_text`: it depends on the text alone, and nothing more is claimed
/// of it.
#[verifier::external_body]
fn slugify(text: &str) -> (r: String)
    ensures
        r@ == slug_text(text@),
{
    slug::slugify(text)
}

/// Calls `String::push`, which puts one character at the end of the string.
#[verifier::external_body]
fn push_char(s: &mut String, c: char)
    ensures
        final(s)@ == old(s)@.push(c),
{
    s.push(c)
}

/// The parts of a site, each with a directory of its own.
#[derive(Clone, Copy, Debug, PartialEq, Eq, Structural)]
pub enum Section {
    Artists,
    Albums,
    Tracks,
    Games,
}

impl Section {
    /// The name of the section's directory.
    pub open spec fn dir_text(self) -> Seq<char> {
        match self {
            Section::Artists => "artists"@,
            Section::Albums => "albums"@,
            Section::Tracks => "tracks"@,
            Section::Games => "games"@,
        }
    }

    /// The name of the section's directory.
    pub fn dir_name(self) -> (r: &'static str)
        ensures
            r@ == self.dir_text(),
    {
        match self {
            Section::Artists => "artists",
            Section::Albums => "albums",
            Section::Tracks => "tracks",
            Section::Games => "games",
        }
    }
}

/// The address of the page with the given slug within its section.
pub open spec fn url_text(section: Section, slug: Seq<char>) -> Seq<char> {
    "/"@ + section.dir_text() + "/"@ + slug
}

/// The file of the page with the given slug, below the output directory.
pub open spec fn path_text(output_dir: Seq<char>, section: Section, slug: Seq<char>) -> Seq<char> {
    output_dir + "/"@ + section.dir_text() + "/"@ + slug + ".md"@
}

/// The file of the index of a section, or of the whole site where no
/// section is given, below the output directory.
pub open spec fn index_path_text(output_dir: Seq<char>, section: Option<Section>) -> Seq<char> {
    match section {
        Some(s) => output_dir + "/"@ + s.dir_text() + "/_index.md"@,
        None => output_dir + "/_index.md"@,
    }
}

/// The directory of a section, below the output directory.
pub open spec fn section_dir_text(output_dir: Seq<char>, section: Section) -> Seq<char> {
    output_dir + "/"@ + section.dir_text()
}

/// The address of the page with the given slug within its section.
pub fn url_for_slug(section: Section, slug: &str) -> (r: String)
    ensures
        r@ == url_text(section, slug@),
{
    let mut url = "/".to_string();
    url.append(section.dir_name());
    url.append("/");
    url.append(slug);
    url
}

/// The file of the page with the given slug, below the output directory.
pub fn path_for_slug(output_dir: &str, section: Section, slug: &str) -> (r: String)
    ensures
        r@ == path_text(output_dir@, section, slug@),
{
    let mut path = output_dir.to_string();
    path.append("/");
    path.append(section.dir_name());
    path.append("/");
    path.append(slug);
    path.append(".md");
    path
}

/// The address of the page that a title gets within its section.
pub fn page_url(section: Section, title: &str) -> (r: String)
    ensures
        r@ == url_text(section, slug_text(title@)),
{
    let slug = slugify(title);
    url_for_slug(section, slug.as_str())
}

/// The file of the page that a title gets, below the output directory.
pub fn page_path(output_dir: &str, section: Section, title: &str) -> (r: String)
    ensures
        r@ == path_text(output_dir@, section, slug_text(title@)),
{
    let slug = slugify(title);
    path_for_slug(output_dir, section, slug.as_str())
}

/// The file of the index of a section, or of the whole site where no
/// section is given, below the output directory.
pub fn index_path(output_dir: &str, section: Option<Section>) -> (r: String)
    ensures
        r@ == index_path_text(output_dir@, section),
{
    let mut path = output_dir.to_string();
    match section {
        Some(s) => {
            path.append("/");
            path.append(s.dir_name());
        },
        None => {},
    }
    path.append("/_index.md");
    proof {
        reveal_strlit("/_index.md");
        reveal_strlit("/");
        if section is Some {
            assert(path@ =~= output_dir@ + "/"@ + section->0.dir_text() + "/_index.md"@);
        }
    }
    path
}

/// The directory of a section, below the output directory.
pub fn section_dir(output_dir: &str, section: Section) -> (r: String)
    ensures
        r@ == section_dir_text(output_dir@, section),
{
    let mut path = output_dir.to_string();
    path.append("/");
    path.append(section.dir_name());
    path
}

/// A text with every occurrence of one character replaced by a text.
pub open spec fn replace_char(text: Seq<char>, from: char, to: Seq<char>) -> Seq<char>
    decreases text.len(),
{
    if text.len() == 0 {
        text
    } else {
        replace_char(text.drop_last(), from, to) + if text.last() == from {
            to
        } else {
            seq![text.last()]
        }
    }
}

/// Replaces every occurrence of one character by a text.
pub fn replace(text: &str, from: char, to: &str) -> (r: String)
    ensures
        r@ == replace_char(text@, from, to@),
{
    let mut out = String::new();
    let mut it = text.chars();
    let ghost mut k: int = 0;
    proof {
        assert(text@.skip(0) =~= text@);
        assert(text@.take(0) =~= Seq::<char>::empty());
    }
    loop
        invariant
            it.obeys_prophetic_iter_laws(),
            it.decrease() is Some,
            0 <= k <= text@.len(),
            it.remaining() == text@.skip(k),
            out@ == replace_char(text@.take(k), from, to@),
        decreases it.decrease()->0,
    {
        match it.next() {
            None => {
                proof {
                    assert(text@.skip(k).len() == 0);
                    assert(text@.take(k) =~= text@);
                }
                return out;
            },
            Some(c) => {
                proof {
                    assert(text@.skip(k)[0] == text@[k]);
                    assert(text@.skip(k).drop_first() =~= text@.skip(k + 1));
                    assert(text@.take(k + 1).drop_last() =~= text@.take(k));
                    assert(text@.take(k + 1).last() == c);
                }
                if c == from {
                    out.append(to);
                } else {
                    push_char(&mut out, c);
                    proof {
                        assert(out@ =~= replace_char(text@.take(k), from, to@) + seq![c]);
                    }
                }
                proof {
                    k = k + 1;
                }
            },
        }
    }
}

/// A text escaped for a basic string of a TOML document: first every
/// backslash doubled, then a backslash put before every double quote, then
/// every line feed and every carriage return written as `\n` and `\r`.
pub open spec fn toml_escaped(text: Seq<char>) -> Seq<char> {
    replace_char(
        replace_char(replace_char(replace_char(text, '\\', "\\\\"@), '"', "\\\""@), '\n', "\\n"@),
        '\r',
        "\\r"@,
    )
}

/// Escapes a text for a basic string of a TOML document.
pub fn escape_toml(text: &str) -> (r: String)
    ensures
        r@ == toml_escaped(text@),
{
    let a = replace(text, '\\', "\\\\");
    let b = replace(a.as_str(), '"', "\\\"");
    let c = replace(b.as_str(), '\n', "\\n");
    replace(c.as_str(), '\r', "\\r")
}

/// A comment on one line: every line feed and every carriage return
/// replaced by a space.
pub open spec fn one_line(text: Seq<char>) -> Seq<char> {
    replace_char(replace_char(text, '\n', " "@), '\r', " "@)
}

/// Puts a comment on one line.
pub fn flatten(text: &str) -> (r: String)
    ensures
        r@ == one_line(text@),
{
    let a = replace(text, '\n', " ");
    replace(a.as_str(), '\r', " ")
}

/// A field as a page shows it: left out where it is empty.
pub fn optional(field: &String) -> (r: Option<String>)
    ensures
        match r {
            Some(text) => field@.len() > 0 && text@ == field@,
            None => field@.len() == 0,
        },
{
    if field.as_str().is_empty() {
        None
    } else {
        Some(field.clone())
    }
}

/// The comment of a track as its page shows it: on one line, and left out
/// where the track has none.
pub open spec fn comment_text(track: TrackView) -> Option<Seq<char>> {
    if track.comments.len() == 0 {
        None
    } else {
        Some(one_line(track.comments))
    }
}

/// The comment of a track as its page shows it.
pub fn comment_line(track: &Track) -> (r: Option<String>)
    ensures
        match r {
            Some(text) => comment_text(track@) == Some(text@),
            None => comment_text(track@) is None,
        },
{
    if track.comments.as_str().is_empty() {
        None
    } else {
        Some(flatten(track.comments.as_str()))
    }
}

/// The longest searchable text of a page, in bytes.
pub const SEARCH_LIMIT: usize = 500;

/// The searchable text of a track before it is cut: title and artist,
/// then the album and the genre where the track has them, with single
/// spaces between.
pub open spec fn search_text(track: TrackView) -> Seq<char> {
    track.title + " "@ + track.artist + if track.has_album() {
        " "@ + track.album
    } else {
        Seq::empty()
    } + if track.genre.len() > 0 {
        " "@ + track.genre
    } else {
        Seq::empty()
    }
}

/// Whether a text in its UTF-8 form can be cut to `limit` bytes: it is no
/// longer than that, or a character ends at the limit.
pub open spec fn can_cut(bytes: Seq<u8>, limit: int) -> bool {
    bytes.len() <= limit || is_char_boundary(bytes, limit)
}

/// The first `limit` bytes of a text in its UTF-8 form, or all of it where
/// it is no longer than that.
pub open spec fn cut(bytes: Seq<u8>, limit: int) -> Seq<u8> {
    if bytes.len() <= limit {
        bytes
    } else {
        bytes.subrange(0, limit)
    }
}

/// The searchable text of a track's page: `search_text`, cut to its first
/// `SEARCH_LIMIT` bytes where it is longer. `None` where the cut would fall
/// inside a character.
pub fn search_content(track: &Track) -> (r: Option<String>)
    ensures
        match r {
            Some(text) => {
                &&& can_cut(encode_utf8(search_text(track@)), SEARCH_LIMIT as int)
                &&& encode_utf8(text@) == cut(
                    encode_utf8(search_text(track@)),
                    SEARCH_LIMIT as int,
                )
                &&& encode_utf8(search_text(track@)).len() <= SEARCH_LIMIT ==> text@
                    == search_text(track@)
            },
            None => !can_cut(encode_utf8(search_text(track@)), SEARCH_LIMIT as int),
        },
{
    let mut text = track.title.clone();
    text.append(" ");
    text.append(track.artist.as_str());
    if track.has_album() {
        text.append(" ");
        text.append(track.album.as_str());
    }
    if !track.genre.as_str().is_empty() {
        text.append(" ");
        text.append(track.genre.as_str());
    }
    proof {
        assert(text@ =~= search_text(track@));
    }
    if text.as_str().as_bytes().len() > SEARCH_LIMIT {
        if text.as_str().is_char_boundary(SEARCH_LIMIT) {
            let (head, _) = text.as_str().split_at(SEARCH_LIMIT);
            Some(head.to_owned())
        } else {
            None
        }
    } else {
        Some(text)
    }
}

/// Ranks texts in lexicographic order.
pub struct ByText;

impl Ranking<String> for ByText {
    open spec fn le(a: Seq<char>, b: Seq<char>) -> bool {
        text_le(a, b)
    }

    proof fn lemma_total(a: Seq<char>, b: Seq<char>) {
        lemma_text_le_total(a, b);
    }

    proof fn lemma_transitive(a: Seq<char>, b: Seq<char>, c: Seq<char>) {
        lemma_text_le_transitive(a, b, c);
    }

    fn in_order(a: &String, b: &String) -> (r: bool) {
        str_le(a.as_str(), b.as_str())
    }
}

/// How many albums a list of artists holds in all.
pub open spec fn album_total(artists: Seq<ArtistView>) -> nat
    decreases artists.len(),
{
    if artists.len() == 0 {
        0
    } else {
        album_total(artists.drop_last()) + artists.last().albums.len()
    }
}

/// How many tracks an artist holds: those of its albums and those without
/// an album.
pub open spec fn tracks_of(artist: ArtistView) -> nat {
    album_tracks(artist.albums_tracks()) + artist.tracks.len()
}

/// The sum of a list of counts.
pub open spec fn album_tracks(counts: Seq<nat>) -> nat
    decreases counts.len(),
{
    if counts.len() == 0 {
        0
    } else {
        album_tracks(counts.drop_last()) + counts.last()
    }
}

impl ArtistView {
    /// How many tracks each album of the artist holds, album by album.
    pub open spec fn albums_tracks(self) -> Seq<nat> {
        self.albums.map_values(|a: crate::library::AlbumView| a.tracks.len())
    }
}

/// How many tracks a list of artists holds in all.
pub open spec fn track_total(artists: Seq<ArtistView>) -> nat
    decreases artists.len(),
{
    if artists.len() == 0 {
        0
    } else {
        track_total(artists.drop_last()) + tracks_of(artists.last())
    }
}

/// A count as a machine number, where it fits in one.
pub open spec fn fitting(n: nat) -> Option<usize> {
    if n <= usize::MAX {
        Some(n as usize)
    } else {
        None
    }
}

/// How many tracks the artist holds, with and without an album; `None`
/// where the number does not fit in a `usize`.
pub fn artist_track_count(artist: &Artist) -> (r: Option<usize>)
    ensures
        r == fitting(tracks_of(artist@)),
{
    let mut sum: usize = 0;
    let mut i: usize = 0;
    let ghost counts = artist@.albums_tracks();
    proof {
        assert(counts.take(0) =~= Seq::<nat>::empty());
    }
    while i < artist.albums.len()
        invariant
            i <= artist.albums.len(),
            counts == artist@.albums_tracks(),
            counts.len() == artist.albums.len(),
            sum == album_tracks(counts.take(i as int)),
        decreases artist.albums.len() - i,
    {
        proof {
            assert(counts.take(i + 1).drop_last() =~= counts.take(i as int));
            assert(counts.take(i + 1).last() == artist.albums@[i as int]@.tracks.len());
            lemma_album_tracks_grows(counts, i + 1);
        }
        match sum.checked_add(artist.albums[i].track_count()) {
            Some(next) => {
                sum = next;
            },
            None => {
                return None;
            },
        }
        i = i + 1;
    }
    proof {
        assert(counts.take(counts.len() as int) =~= counts);
    }
    sum.checked_add(artist.tracks.len())
}

/// The sum of a list of counts is no less than that of any of its prefixes.
proof fn lemma_album_tracks_grows(counts: Seq<nat>, k: int)
    requires
        0 <= k <= counts.len(),
    ensures
        album_tracks(counts.take(k)) <= album_tracks(counts),
    decreases counts.len() - k,
{
    if k == counts.len() {
        assert(counts.take(k) =~= counts);
    } else {
        lemma_album_tracks_grows(counts.drop_last(), k);
        assert(counts.drop_last().take(k) =~= counts.take(k));
    }
}

/// The albums of a list of artists are no fewer than those of any of its
/// prefixes, and likewise the tracks.
proof fn lemma_totals_grow(artists: Seq<ArtistView>, k: int)
    requires
        0 <= k <= artists.len(),
    ensures
        album_total(artists.take(k)) <= album_total(artists),
        track_total(artists.take(k)) <= track_total(artists),
    decreases artists.len() - k,
{
    if k == artists.len() {
        assert(artists.take(k) =~= artists);
    } else {
        lemma_totals_grow(artists.drop_last(), k);
        assert(artists.drop_last().take(k) =~= artists.take(k));
    }
}

/// The figures that the index of the music pages shows.
#[derive(Debug)]
pub struct LibraryCounts {
    pub artists: usize,
    pub albums: usize,
    pub tracks: usize,
}

/// An artist as the index lists it: the name and the slug of its page.
#[derive(Debug)]
pub struct ArtistLink {
    pub name: String,
    pub slug: String,
}

/// An `ArtistLink` as the texts it holds.
pub struct ArtistLinkView {
    pub name: Seq<char>,
    pub slug: Seq<char>,
}

impl View for ArtistLink {
    type V = ArtistLinkView;

    open spec fn view(&self) -> ArtistLinkView {
        ArtistLinkView { name: self.name@, slug: self.slug@ }
    }
}

/// The link of an artist's name.
pub open spec fn link_of(name: Seq<char>) -> ArtistLinkView {
    ArtistLinkView { name, slug: slug_text(name) }
}

impl Library {
    /// How many albums the artists hold in all; `None` where the number
    /// does not fit in a `usize`.
    pub fn album_count(&self) -> (r: Option<usize>)
        ensures
            r == fitting(album_total(self.listed())),
    {
        let artists = self.artists();
        let mut sum: usize = 0;
        let mut i: usize = 0;
        proof {
            assert(views(artists@).take(0) =~= Seq::<ArtistView>::empty());
        }
        while i < artists.len()
            invariant
                i <= artists.len(),
                views(artists@) == self.listed(),
                sum == album_total(views(artists@).take(i as int)),
            decreases artists.len() - i,
        {
            proof {
                let upto = views(artists@).take(i + 1);
                assert(upto.drop_last() =~= views(artists@).take(i as int));
                assert(upto.last() == artists@[i as int]@);
                assert(artists@[i as int]@.albums.len() == artists@[i as int].albums@.len());
                lemma_totals_grow(views(artists@), i + 1);
            }
            match sum.checked_add(artists[i].albums.len()) {
                Some(next) => {
                    sum = next;
                },
                None => {
                    return None;
                },
            }
            i = i + 1;
        }
        proof {
            assert(views(artists@).take(artists.len() as int) =~= views(artists@));
        }
        Some(sum)
    }

    /// How many tracks the artists hold in all, with and without an
    /// album; `None` where the number does not fit in a `usize`.
    pub fn track_count(&self) -> (r: Option<usize>)
        ensures
            r == fitting(track_total(self.listed())),
    {
        let artists = self.artists();
        let mut sum: usize = 0;
        let mut i: usize = 0;
        proof {
            assert(views(artists@).take(0) =~= Seq::<ArtistView>::empty());
        }
        while i < artists.len()
            invariant
                i <= artists.len(),
                views(artists@) == self.listed(),
                sum == track_total(views(artists@).take(i as int)),
            decreases artists.len() - i,
        {
            proof {
                let upto = views(artists@).take(i + 1);
                assert(upto.drop_last() =~= views(artists@).take(i as int));
                assert(upto.last() == artists@[i as int]@);
                lemma_totals_grow(views(artists@), i + 1);
            }
            match artist_track_count(&artists[i]) {
                Some(count) => match sum.checked_add(count) {
                    Some(next) => {
                        sum = next;
                    },
                    None => {
                        return None;
                    },
                },
                None => {
                    return None;
                },
            }
            i = i + 1;
        }
        proof {
            assert(views(artists@).take(artists.len() as int) =~= views(artists@));
        }
        Some(sum)
    }

    /// The names of the artists in lexicographic order.
    pub fn sorted_names(&self) -> (r: Vec<String>)
        ensures
            views(r@) == stable_sort::<String, ByText>(names_of(self.listed())),
    {
        let artists = self.artists();
        let mut names: Vec<String> = Vec::new();
        let mut i: usize = 0;
        proof {
            assert(views(names@) =~= names_of(views(artists@).take(0)));
        }
        while i < artists.len()
            invariant
                i <= artists.len(),
                views(artists@) == self.listed(),
                views(names@) == names_of(views(artists@).take(i as int)),
            decreases artists.len() - i,
        {
            let ghost had = views(names@);
            names.push(artists[i].name.clone());
            proof {
                assert(views(names@) =~= had.push(artists@[i as int].name@));
                assert(names_of(views(artists@).take(i + 1)) =~= names_of(
                    views(artists@).take(i as int),
                ).push(artists@[i as int]@.name));
            }
            i = i + 1;
        }
        proof {
            assert(views(artists@).take(artists.len() as int) =~= views(artists@));
        }
        sort_ranked::<String, ByText>(&mut names);
        names
    }

    /// The artists as the index lists them: in lexicographic order of
    /// their names, each with the slug of its page.
    pub fn artist_links(&self) -> (r: Vec<ArtistLink>)
        ensures
            views(r@) == stable_sort::<String, ByText>(names_of(self.listed())).map_values(
                |name: Seq<char>| link_of(name),
            ),
    {
        let names = self.sorted_names();
        let ghost sorted = views(names@);
        let mut links: Vec<ArtistLink> = Vec::new();
        let mut i: usize = 0;
        while i < names.len()
            invariant
                i <= names.len(),
                sorted == views(names@),
                views(links@) == sorted.take(i as int).map_values(|name: Seq<char>| link_of(name)),
            decreases names.len() - i,
        {
            let ghost had = views(links@);
            let slug = slugify(names[i].as_str());
            links.push(ArtistLink { name: names[i].clone(), slug });
            proof {
                assert(sorted[i as int] == names@[i as int]@);
                assert(views(links@) =~= had.push(link_of(sorted[i as int])));
                assert(sorted.take(i + 1).map_values(|name: Seq<char>| link_of(name)) =~= sorted.take(
                    i as int,
                ).map_values(|name: Seq<char>| link_of(name)).push(link_of(sorted[i as int])));
            }
            i = i + 1;
        }
        proof {
            assert(sorted.take(names.len() as int) =~= sorted);
        }
        links
    }
}

/// A game as the index of the games lists it: the name, the slug of its
/// page and the minutes played.
#[derive(Debug)]
pub struct GameLink {
    pub name: String,
    pub slug: String,
    pub playtime_forever: u64,
}

/// A `GameLink` as the values it holds.
pub struct GameLinkView {
    pub name: Seq<char>,
    pub slug: Seq<char>,
    pub playtime_forever: u64,
}

impl View for GameLink {
    type V = GameLinkView;

    open spec fn view(&self) -> GameLinkView {
        GameLinkView {
            name: self.name@,
            slug: self.slug@,
            playtime_forever: self.playtime_forever,
        }
    }
}

/// The link of a game.
pub open spec fn game_link_of(game: SteamGameView) -> GameLinkView {
    GameLinkView {
        name: game.name,
        slug: slug_text(game.name),
        playtime_forever: game.playtime_forever,
    }
}

/// The games as their index lists them: the most played first, games
/// played equally long in the order in which the list has them, each with
/// the slug of its page.
pub fn game_links(games: &Vec<SteamGame>) -> (r: Vec<GameLink>)
    ensures
        views(r@) == stable_sort::<SteamGame, ByPlaytimeDescending>(views(games@)).map_values(
            |game: SteamGameView| game_link_of(game),
        ),
{
    let sorted = sorted_by_playtime(games);
    let ghost ranked = views(sorted@);
    let mut links: Vec<GameLink> = Vec::new();
    let mut i: usize = 0;
    while i < sorted.len()
        invariant
            i <= sorted.len(),
            ranked == views(sorted@),
            views(links@) == ranked.take(i as int).map_values(
                |game: SteamGameView| game_link_of(game),
            ),
        decreases sorted.len() - i,
    {
        let ghost had = views(links@);
        let slug = slugify(sorted[i].name.as_str());
        links.push(
            GameLink {
                name: sorted[i].name.clone(),
                slug,
                playtime_forever: sorted[i].playtime_forever,
            },
        );
        proof {
            assert(ranked[i as int] == sorted@[i as int]@);
            assert(views(links@) =~= had.push(game_link_of(ranked[i as int])));
            assert(ranked.take(i + 1).map_values(|game: SteamGameView| game_link_of(game))
                =~= ranked.take(i as int).map_values(|game: SteamGameView| game_link_of(game)).push(
                game_link_of(ranked[i as int]),
            ));
        }
        i = i + 1;
    }
    proof {
        assert(ranked.take(sorted.len() as int) =~= ranked);
    }
    links
}

/// The names of the templates that a site cannot be made without, in the
/// order in which they are looked for.
pub open spec fn required_templates() -> Seq<Seq<char>> {
    seq![
        "track.md.tera"@,
        "artist.md.tera"@,
        "album.md.tera"@,
        "index.md.tera"@,
        "game.md.tera"@,
        "games_index.md.tera"@,
    ]
}

/// The first of the `wanted` names that is not among the `available` ones.
pub open spec fn first_missing(wanted: Seq<Seq<char>>, available: Seq<Seq<char>>) -> Option<
    Seq<char>,
>
    decreases wanted.len(),
{
    if wanted.len() == 0 {
        None
    } else if !available.contains(wanted[0]) {
        Some(wanted[0])
    } else {
        first_missing(wanted.drop_first(), available)
    }
}

/// Whether `name` is among the `available` names.
fn is_available(available: &Vec<String>, name: &str) -> (r: bool)
    ensures
        r == views(available@).contains(name@),
{
    let mut i: usize = 0;
    while i < available.len()
        invariant
            i <= available.len(),
            forall|j: int| 0 <= j < i ==> views(available@)[j] != name@,
        decreases available.len() - i,
    {
        if str_eq(available[i].as_str(), name) {
            proof {
                assert(views(available@)[i as int] == name@);
            }
            return true;
        }
        i = i + 1;
    }
    false
}

/// The first required template that is not among the available ones, if
/// one is missing.
pub fn missing_template(available: &Vec<String>) -> (r: Option<String>)
    ensures
        match r {
            Some(name) => first_missing(required_templates(), views(available@)) == Some(name@),
            None => first_missing(required_templates(), views(available@)) is None,
        },
{
    let wanted: Vec<&'static str> = vec![
        "track.md.tera",
        "artist.md.tera",
        "album.md.tera",
        "index.md.tera",
        "game.md.tera",
        "games_index.md.tera",
    ];
    let ghost names = required_templates();
    proof {
        assert(names.len() == 6);
        assert(forall|j: int| 0 <= j < 6 ==> wanted@[j]@ == names[j]);
        assert(names.skip(0) =~= names);
    }
    let mut i: usize = 0;
    while i < wanted.len()
        invariant
            i <= wanted.len(),
            names == required_templates(),
            wanted@.len() == names.len(),
            forall|j: int| 0 <= j < names.len() ==> wanted@[j]@ == names[j],
            first_missing(names, views(available@)) == first_missing(
                names.skip(i as int),
                views(available@),
            ),
        decreases wanted.len() - i,
    {
        proof {
            assert(names.skip(i as int)[0] == names[i as int]);
            assert(names.skip(i as int).drop_first() =~= names.skip(i + 1));
        }
        if !is_available(available, wanted[i]) {
            return Some(wanted[i].to_string());
        }
        i = i + 1;
    }
    None
}

} // verus!

//! Albums and artists: the two levels of the hierarchy above a track.

use vstd::prelude::*;
use crate::ranking::{Ranking, is_sorted, sort_ranked, stable_sort, views};
use crate::text::{
    lemma_text_le_antisymmetric, lemma_text_le_total, lemma_text_le_transitive, str_eq, str_le,
    text_le,
};
use crate::track::{ByAlbumPosition, ByTitle, Track, TrackView};

verus! {

/// An album with the tracks gathered for it so far.
#[derive(Debug)]
pub struct Album {
    pub id: String,
    pub title: String,
    pub artist: String,
    pub year: String,
    pub tracktotal: u32,
    pub disctotal: u32,
    pub genre: String,
    pub tracks: Vec<Track>,
}

/// An `Album` as the values it holds.
pub struct AlbumView {
    pub id: Seq<char>,
    pub title: Seq<char>,
    pub artist: Seq<char>,
    pub year: Seq<char>,
    pub tracktotal: u32,
    pub disctotal: u32,
    pub genre: Seq<char>,
    pub tracks: Seq<TrackView>,
}

impl View for Album {
    type V = AlbumView;

    open spec fn view(&self) -> AlbumView {
        AlbumView {
            id: self.id@,
            title: self.title@,
            artist: self.artist@,
            year: self.year@,
            tracktotal: self.tracktotal,
            disctotal: self.disctotal,
            genre: self.genre@,
            tracks: views(self.tracks@),
        }
    }
}

impl AlbumView {
    /// An album without tracks, on one disc, its year and genre not yet known.
    pub open spec fn new(id: Seq<char>, title: Seq<char>, artist: Seq<char>) -> AlbumView {
        AlbumView {
            id,
            title,
            artist,
            year: Seq::empty(),
            tracktotal: 0,
            disctotal: 1,
            genre: Seq::empty(),
            tracks: Seq::empty(),
        }
    }

    /// The album with one more track, its tracks in order of disc and track
    /// number, tracks of the same place in the order in which they came.
    pub open spec fn with_track(self, track: TrackView) -> AlbumView {
        AlbumView { tracks: stable_sort::<Track, ByAlbumPosition>(self.tracks.push(track)), ..self }
    }

    /// Whether the tracks stand in order of disc and track number.
    pub open spec fn tracks_sorted(self) -> bool {
        is_sorted::<Track, ByAlbumPosition>(self.tracks)
    }
}

/// Copies a list of tracks.
fn clone_tracks(tracks: &Vec<Track>) -> (r: Vec<Track>)
    ensures
        r@ == tracks@,
{
    let mut out: Vec<Track> = Vec::new();
    let mut i: usize = 0;
    while i < tracks.len()
        invariant
            i <= tracks.len(),
            out@ == tracks@.take(i as int),
        decreases tracks.len() - i,
    {
        out.push(tracks[i].clone());
        proof {
            assert(tracks@.take(i + 1) =~= tracks@.take(i as int).push(tracks@[i as int]));
        }
        i = i + 1;
    }
    proof {
        assert(tracks@.take(tracks.len() as int) =~= tracks@);
    }
    out
}

impl Clone for Album {
    fn clone(&self) -> (r: Self)
        ensures
            r@ == self@,
            r.tracks@ == self.tracks@,
    {
        Album {
            id: self.id.clone(),
            title: self.title.clone(),
            artist: self.artist.clone(),
            year: self.year.clone(),
            tracktotal: self.tracktotal,
            disctotal: self.disctotal,
            genre: self.genre.clone(),
            tracks: clone_tracks(&self.tracks),
        }
    }
}

impl Album {
    /// An album without tracks, on one disc, its year and genre not yet known.
    pub fn new(id: String, title: String, artist: String) -> (r: Self)
        ensures
            r@ == AlbumView::new(id@, title@, artist@),
    {
        let r = Album {
            id,
            title,
            artist,
            year: String::new(),
            tracktotal: 0,
            disctotal: 1,
            genre: String::new(),
            tracks: Vec::new(),
        };
        proof {
            assert(views(r.tracks@) =~= Seq::<TrackView>::empty());
        }
        r
    }

    /// Adds a track and puts the tracks in order of disc and track number.
    pub fn add_track(&mut self, track: Track)
        ensures
            final(self)@ == old(self)@.with_track(track@),
            final(self)@.tracks_sorted(),
    {
        let ghost before = self.tracks@;
        self.tracks.push(track);
        proof {
            assert(views(self.tracks@) =~= views(before).push(track@));
        }
        sort_ranked::<Track, ByAlbumPosition>(&mut self.tracks);
        proof {
            crate::ranking::lemma_stable_sort_sorted::<Track, ByAlbumPosition>(
                views(before).push(track@),
            );
        }
    }

    /// How many tracks the album holds.
    pub fn track_count(&self) -> (r: usize)
        ensures
            r == self@.tracks.len(),
    {
        self.tracks.len()
    }
}

/// Ranks albums by year, then by title, both as text.
pub struct ByYearTitle;

impl Ranking<Album> for ByYearTitle {
    open spec fn le(a: AlbumView, b: AlbumView) -> bool {
        if a.year == b.year {
            text_le(a.title, b.title)
        } else {
            text_le(a.year, b.year)
        }
    }

    proof fn lemma_total(a: AlbumView, b: AlbumView) {
        lemma_text_le_total(a.title, b.title);
        lemma_text_le_total(a.year, b.year);
    }

    proof fn lemma_transitive(a: AlbumView, b: AlbumView, c: AlbumView) {
        if a.year == b.year && b.year == c.year {
            lemma_text_le_transitive(a.title, b.title, c.title);
        } else if a.year != b.year && b.year != c.year {
            lemma_text_le_transitive(a.year, b.year, c.year);
            if a.year == c.year {
                lemma_text_le_antisymmetric(a.year, b.year);
            }
        }
    }

    fn in_order(a: &Album, b: &Album) -> (r: bool) {
        if a.year == b.year {
            str_le(a.title.as_str(), b.title.as_str())
        } else {
            str_le(a.year.as_str(), b.year.as_str())
        }
    }
}

/// An artist with the albums and the album-less tracks gathered so far.
#[derive(Debug)]
pub struct Artist {
    pub name: String,
    pub albums: Vec<Album>,
    pub tracks: Vec<Track>,
}

/// An `Artist` as the values it holds.
pub struct ArtistView {
    pub name: Seq<char>,
    pub albums: Seq<AlbumView>,
    pub tracks: Seq<TrackView>,
}

impl View for Artist {
    type V = ArtistView;

    open spec fn view(&self) -> ArtistView {
        ArtistView { name: self.name@, albums: views(self.albums@), tracks: views(self.tracks@) }
    }
}

/// The place of the first album with the given id, or the length of the
/// list where no album has it.
pub open spec fn slot_of(albums: Seq<AlbumView>, id: Seq<char>) -> int
    decreases albums.len(),
{
    if albums.len() == 0 || albums[0].id == id {
        0
    } else {
        1 + slot_of(albums.drop_first(), id)
    }
}

/// `slot_of` names the first album with the id, and none before it has it.
pub proof fn lemma_slot_of(albums: Seq<AlbumView>, id: Seq<char>)
    ensures
        0 <= slot_of(albums, id) <= albums.len(),
        slot_of(albums, id) < albums.len() ==> albums[slot_of(albums, id)].id == id,
        forall|j: int| 0 <= j < slot_of(albums, id) ==> (#[trigger] albums[j]).id != id,
    decreases albums.len(),
{
    if albums.len() > 0 && albums[0].id != id {
        let rest = albums.drop_first();
        lemma_slot_of(rest, id);
        assert forall|j: int| 0 <= j < slot_of(albums, id) implies (#[trigger] albums[j]).id
            != id by {
            if j > 0 {
                assert(rest[j - 1] == albums[j]);
            }
        }
    }
}

/// The first place whose album has the id is the one that `slot_of` names.
pub proof fn lemma_slot_of_is(albums: Seq<AlbumView>, id: Seq<char>, k: int)
    requires
        0 <= k <= albums.len(),
        k < albums.len() ==> albums[k].id == id,
        forall|j: int| 0 <= j < k ==> (#[trigger] albums[j]).id != id,
    ensures
        slot_of(albums, id) == k,
{
    lemma_slot_of(albums, id);
    let s = slot_of(albums, id);
    if s < k {
        assert(albums[s].id != id);
    }
}

impl ArtistView {
    /// An artist with nothing gathered yet.
    pub open spec fn new(name: Seq<char>) -> ArtistView {
        ArtistView { name, albums: Seq::empty(), tracks: Seq::empty() }
    }

    /// The artist with one more album, the albums in order of year and
    /// title, albums of the same rank in the order in which they came.
    pub open spec fn with_album(self, album: AlbumView) -> ArtistView {
        ArtistView { albums: stable_sort::<Album, ByYearTitle>(self.albums.push(album)), ..self }
    }

    /// The artist with one more album-less track, those tracks in order of
    /// title, tracks of the same title in the order in which they came.
    pub open spec fn with_track(self, track: TrackView) -> ArtistView {
        ArtistView { tracks: stable_sort::<Track, ByTitle>(self.tracks.push(track)), ..self }
    }

    /// The artist with `album` as the latest state of the album that goes
    /// by `id`: in the place of the first album with that id where there is
    /// one, added by `with_album` where there is none.
    pub open spec fn with_latest(self, id: Seq<char>, album: AlbumView) -> ArtistView {
        let slot = slot_of(self.albums, id);
        if slot < self.albums.len() {
            ArtistView { albums: self.albums.update(slot, album), ..self }
        } else {
            self.with_album(album)
        }
    }

    /// Whether the album-less tracks stand in order of title.
    pub open spec fn tracks_sorted(self) -> bool {
        is_sorted::<Track, ByTitle>(self.tracks)
    }

    /// Whether the albums stand in order of year and title.
    pub open spec fn albums_sorted(self) -> bool {
        is_sorted::<Album, ByYearTitle>(self.albums)
    }
}

impl Clone for Artist {
    fn clone(&self) -> (r: Self)
        ensures
            r@ == self@,
    {
        let mut albums: Vec<Album> = Vec::new();
        let mut i: usize = 0;
        while i < self.albums.len()
            invariant
                i <= self.albums.len(),
                views(albums@) == views(self.albums@.take(i as int)),
            decreases self.albums.len() - i,
        {
            let ghost copied = views(albums@);
            let album = self.albums[i].clone();
            albums.push(album);
            proof {
                assert(views(albums@) =~= copied.push(self.albums@[i as int]@));
                assert(views(self.albums@.take(i + 1)) =~= views(self.albums@.take(i as int)).push(
                    self.albums@[i as int]@,
                ));
            }
            i = i + 1;
        }
        proof {
            assert(self.albums@.take(self.albums.len() as int) =~= self.albums@);
        }
        Artist { name: self.name.clone(), albums, tracks: clone_tracks(&self.tracks) }
    }
}

impl Artist {
    /// An artist with nothing gathered yet.
    pub fn new(name: String) -> (r: Self)
        ensures
            r@ == ArtistView::new(name@),
    {
        let r = Artist { name, albums: Vec::new(), tracks: Vec::new() };
        proof {
            assert(views(r.albums@) =~= Seq::<AlbumView>::empty());
            assert(views(r.tracks@) =~= Seq::<TrackView>::empty());
        }
        r
    }

    /// Adds an album and puts the albums in order of year and title.
    pub fn add_album(&mut self, album: Album)
        ensures
            final(self)@ == old(self)@.with_album(album@),
            final(self)@.albums_sorted(),
    {
        let ghost before = self.albums@;
        self.albums.push(album);
        proof {
            assert(views(self.albums@) =~= views(before).push(album@));
        }
        sort_ranked::<Album, ByYearTitle>(&mut self.albums);
        proof {
            crate::ranking::lemma_stable_sort_sorted::<Album, ByYearTitle>(
                views(before).push(album@),
            );
        }
    }

    /// Adds an album-less track and puts those tracks in order of title.
    pub fn add_track(&mut self, track: Track)
        ensures
            final(self)@ == old(self)@.with_track(track@),
            final(self)@.tracks_sorted(),
    {
        let ghost before = self.tracks@;
        self.tracks.push(track);
        proof {
            assert(views(self.tracks@) =~= views(before).push(track@));
        }
        sort_ranked::<Track, ByTitle>(&mut self.tracks);
        proof {
            crate::ranking::lemma_stable_sort_sorted::<Track, ByTitle>(
                views(before).push(track@),
            );
        }
    }

    /// Takes `album` as the latest state of the album that goes by `id`:
    /// it replaces the first album with that id, whole; where the artist
    /// has none, it is added as by `add_album`.
    pub fn set_latest(&mut self, id: &str, album: Album)
        ensures
            final(self)@ == old(self)@.with_latest(id@, album@),
    {
        let ghost before = self.albums@;
        let mut i: usize = 0;
        while i < self.albums.len()
            invariant
                i <= self.albums.len(),
                self.albums@ == before,
                before == old(self).albums@,
                self.name == old(self).name,
                self.tracks == old(self).tracks,
                forall|j: int| 0 <= j < i ==> (#[trigger] views(before)[j]).id != id@,
            decreases self.albums.len() - i,
        {
            if str_eq(self.albums[i].id.as_str(), id) {
                proof {
                    assert(views(before)[i as int] == before[i as int]@);
                    lemma_slot_of_is(views(before), id@, i as int);
                }
                self.albums[i] = album;
                proof {
                    assert(views(self.albums@) =~= views(before).update(i as int, album@));
                }
                return ;
            }
            proof {
                assert(views(before)[i as int] == before[i as int]@);
            }
            i = i + 1;
        }
        proof {
            lemma_slot_of_is(views(before), id@, before.len() as int);
        }
        self.add_album(album);
    }
}

} // verus!

//! The flat record that describes one music track.

use vstd::prelude::*;
use crate::ranking::Ranking;
use crate::text::{number_or, parse_or, str_le, text_le, lemma_text_le_total, lemma_text_le_transitive};

verus! {

/// One metadata record of a music track, every field as free text.
///
/// The same shape serves for a record of the input batch and for a track
/// that has found its place under an album or an artist.
#[derive(Debug)]
pub struct Track {
    pub id: String,
    pub title: String,
    pub artist: String,
    pub album: String,
    pub albumartist: String,
    pub year: String,
    pub genre: String,
    pub length: String,
    pub track: String,
    pub tracktotal: String,
    pub disc: String,
    pub disctotal: String,
    pub bitrate: String,
    pub format: String,
    pub path: String,
    pub added: String,
    pub comments: String,
    pub bpm: String,
    pub composer: String,
    pub label: String,
    pub country: String,
    pub albumtype: String,
    pub mb_trackid: String,
    pub mb_albumid: String,
    pub mb_artistid: String,
    pub album_id: String,
}

/// A `Track` as the texts it holds.
pub struct TrackView {
    pub id: Seq<char>,
    pub title: Seq<char>,
    pub artist: Seq<char>,
    pub album: Seq<char>,
    pub albumartist: Seq<char>,
    pub year: Seq<char>,
    pub genre: Seq<char>,
    pub length: Seq<char>,
    pub track: Seq<char>,
    pub tracktotal: Seq<char>,
    pub disc: Seq<char>,
    pub disctotal: Seq<char>,
    pub bitrate: Seq<char>,
    pub format: Seq<char>,
    pub path: Seq<char>,
    pub added: Seq<char>,
    pub comments: Seq<char>,
    pub bpm: Seq<char>,
    pub composer: Seq<char>,
    pub label: Seq<char>,
    pub country: Seq<char>,
    pub albumtype: Seq<char>,
    pub mb_trackid: Seq<char>,
    pub mb_albumid: Seq<char>,
    pub mb_artistid: Seq<char>,
    pub album_id: Seq<char>,
}

impl View for Track {
    type V = TrackView;

    open spec fn view(&self) -> TrackView {
        TrackView {
            id: self.id@,
            title: self.title@,
            artist: self.artist@,
            album: self.album@,
            albumartist: self.albumartist@,
            year: self.year@,
            genre: self.genre@,
            length: self.length@,
            track: self.track@,
            tracktotal: self.tracktotal@,
            disc: self.disc@,
            disctotal: self.disctotal@,
            bitrate: self.bitrate@,
            format: self.format@,
            path: self.path@,
            added: self.added@,
            comments: self.comments@,
            bpm: self.bpm@,
            composer: self.composer@,
            label: self.label@,
            country: self.country@,
            albumtype: self.albumtype@,
            mb_trackid: self.mb_trackid@,
            mb_albumid: self.mb_albumid@,
            mb_artistid: self.mb_artistid@,
            album_id: self.album_id@,
        }
    }
}

impl TrackView {
    /// The record with every field empty.
    pub open spec fn blank() -> TrackView {
        TrackView {
            id: Seq::empty(),
            title: Seq::empty(),
            artist: Seq::empty(),
            album: Seq::empty(),
            albumartist: Seq::empty(),
            year: Seq::empty(),
            genre: Seq::empty(),
            length: Seq::empty(),
            track: Seq::empty(),
            tracktotal: Seq::empty(),
            disc: Seq::empty(),
            disctotal: Seq::empty(),
            bitrate: Seq::empty(),
            format: Seq::empty(),
            path: Seq::empty(),
            added: Seq::empty(),
            comments: Seq::empty(),
            bpm: Seq::empty(),
            composer: Seq::empty(),
            label: Seq::empty(),
            country: Seq::empty(),
            albumtype: Seq::empty(),
            mb_trackid: Seq::empty(),
            mb_albumid: Seq::empty(),
            mb_artistid: Seq::empty(),
            album_id: Seq::empty(),
        }
    }

    /// A record is valid when it names both a title and an artist.
    pub open spec fn is_valid(self) -> bool {
        self.title.len() > 0 && self.artist.len() > 0
    }

    /// A record is empty when it is not valid: it lacks a title or an
    /// artist.
    pub open spec fn is_empty(self) -> bool {
        self.title.len() == 0 || self.artist.len() == 0
    }

    /// A record belongs to an album when it names one.
    pub open spec fn has_album(self) -> bool {
        self.album.len() > 0
    }

    /// The artist that owns the record: the album artist where one is
    /// given, else the track's artist.
    pub open spec fn owner(self) -> Seq<char> {
        if self.albumartist.len() == 0 {
            self.artist
        } else {
            self.albumartist
        }
    }

    /// The key under which the record's album is known across a batch:
    /// the album id, a hyphen, the album title. It is one text: where an
    /// id holds a hyphen, another id with another title can give the same
    /// key, and records of both then meet in one album.
    pub open spec fn album_key(self) -> Seq<char> {
        self.album_id + seq!['-'] + self.album
    }

    /// The track's number within its disc; 0 where the field is no number.
    pub open spec fn track_number(self) -> u32 {
        number_or(self.track, 0)
    }

    /// The disc the track is on; 1 where the field is no number.
    pub open spec fn disc_number(self) -> u32 {
        number_or(self.disc, 1)
    }
}

impl Default for Track {
    /// A record with every field empty.
    fn default() -> (r: Self)
        ensures
            r@ == TrackView::blank(),
    {
        Track {
            id: String::new(),
            title: String::new(),
            artist: String::new(),
            album: String::new(),
            albumartist: String::new(),
            year: String::new(),
            genre: String::new(),
            length: String::new(),
            track: String::new(),
            tracktotal: String::new(),
            disc: String::new(),
            disctotal: String::new(),
            bitrate: String::new(),
            format: String::new(),
            path: String::new(),
            added: String::new(),
            comments: String::new(),
            bpm: String::new(),
            composer: String::new(),
            label: String::new(),
            country: String::new(),
            albumtype: String::new(),
            mb_trackid: String::new(),
            mb_albumid: String::new(),
            mb_artistid: String::new(),
            album_id: String::new(),
        }
    }
}

impl Clone for Track {
    fn clone(&self) -> (r: Self)
        ensures
            r == *self,
    {
        Track {
            id: self.id.clone(),
            title: self.title.clone(),
            artist: self.artist.clone(),
            album: self.album.clone(),
            albumartist: self.albumartist.clone(),
            year: self.year.clone(),
            genre: self.genre.clone(),
            length: self.length.clone(),
            track: self.track.clone(),
            tracktotal: self.tracktotal.clone(),
            disc: self.disc.clone(),
            disctotal: self.disctotal.clone(),
            bitrate: self.bitrate.clone(),
            format: self.format.clone(),
            path: self.path.clone(),
            added: self.added.clone(),
            comments: self.comments.clone(),
            bpm: self.bpm.clone(),
            composer: self.composer.clone(),
            label: self.label.clone(),
            country: self.country.clone(),
            albumtype: self.albumtype.clone(),
            mb_trackid: self.mb_trackid.clone(),
            mb_albumid: self.mb_albumid.clone(),
            mb_artistid: self.mb_artistid.clone(),
            album_id: self.album_id.clone(),
        }
    }
}

impl Track {
    /// Whether the record lacks a title or an artist, and so is not valid.
    /// Such a record is passed over when a batch is taken in.
    pub fn is_empty(&self) -> (r: bool)
        ensures
            r == self@.is_empty(),
            r == !self@.is_valid(),
    {
        self.title.as_str().is_empty() || self.artist.as_str().is_empty()
    }

    /// Whether the record names both a title and an artist.
    pub fn is_valid(&self) -> (r: bool)
        ensures
            r == self@.is_valid(),
    {
        !self.title.as_str().is_empty() && !self.artist.as_str().is_empty()
    }

    /// Whether the record names an album.
    pub fn has_album(&self) -> (r: bool)
        ensures
            r == self@.has_album(),
    {
        !self.album.as_str().is_empty()
    }

    /// The track's number within its disc; 0 where the field is no number.
    pub fn track_number(&self) -> (r: u32)
        ensures
            r == self@.track_number(),
    {
        parse_or(self.track.as_str(), 0)
    }

    /// The disc the track is on; 1 where the field is no number.
    pub fn disc_number(&self) -> (r: u32)
        ensures
            r == self@.disc_number(),
    {
        parse_or(self.disc.as_str(), 1)
    }

    /// The name of the artist that owns the record: the album artist where
    /// one is given, else the track's artist.
    pub fn owner(&self) -> (r: &String)
        ensures
            r@ == self@.owner(),
            self@.albumartist.len() == 0 ==> r@ == self@.artist,
            self@.albumartist.len() > 0 ==> r@ == self@.albumartist,
    {
        if self.albumartist.as_str().is_empty() {
            &self.artist
        } else {
            &self.albumartist
        }
    }

    /// The key under which the record's album is known across a batch.
    pub fn album_key(&self) -> (r: String)
        ensures
            r@ == self@.album_key(),
    {
        let mut key = self.album_id.clone();
        key.append("-");
        key.append(self.album.as_str());
        proof {
            reveal_strlit("-");
            assert("-"@ =~= seq!['-']);
        }
        key
    }
}

/// Ranks tracks by their place in an album: by disc, then by track number.
pub struct ByAlbumPosition;

impl Ranking<Track> for ByAlbumPosition {
    open spec fn le(a: TrackView, b: TrackView) -> bool {
        a.disc_number() < b.disc_number() || (a.disc_number() == b.disc_number()
            && a.track_number() <= b.track_number())
    }

    proof fn lemma_total(a: TrackView, b: TrackView) {
    }

    proof fn lemma_transitive(a: TrackView, b: TrackView, c: TrackView) {
    }

    fn in_order(a: &Track, b: &Track) -> (r: bool) {
        let da = a.disc_number();
        let db = b.disc_number();
        da < db || (da == db && a.track_number() <= b.track_number())
    }
}

/// Ranks tracks by their title, as text.
pub struct ByTitle;

impl Ranking<Track> for ByTitle {
    open spec fn le(a: TrackView, b: TrackView) -> bool {
        text_le(a.title, b.title)
    }

    proof fn lemma_total(a: TrackView, b: TrackView) {
        lemma_text_le_total(a.title, b.title);
    }

    proof fn lemma_transitive(a: TrackView, b: TrackView, c: TrackView) {
        lemma_text_le_transitive(a.title, b.title, c.title);
    }

    fn in_order(a: &Track, b: &Track) -> (r: bool) {
        str_le(a.title.as_str(), b.title.as_str())
    }
}

} // verus!

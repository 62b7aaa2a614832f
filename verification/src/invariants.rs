//! What holds of every aggregate that a batch of records leads to.

use vstd::prelude::*;
use crate::library::{lemma_slot_of, slot_of, Album, AlbumView, ArtistView, ByYearTitle};
use crate::parser::{names_after_batch, Aggregate};
use crate::ranking::{lemma_stable_sort_same_items, lemma_stable_sort_sorted};
use crate::track::{ByAlbumPosition, ByTitle, Track, TrackView};

verus! {

impl ArtistView {
    /// Whether every track list under the artist is in its order: the
    /// album-less tracks by title, each album's tracks by disc and track
    /// number.
    pub open spec fn track_lists_sorted(self) -> bool {
        &&& self.tracks_sorted()
        &&& forall|j: int| 0 <= j < self.albums.len() ==> (#[trigger] self.albums[j]).tracks_sorted()
    }

    /// Whether every track under the artist, with or without an album,
    /// names a title and an artist.
    pub open spec fn tracks_valid(self) -> bool {
        &&& forall|i: int| 0 <= i < self.tracks.len() ==> (#[trigger] self.tracks[i]).is_valid()
        &&& forall|j: int| 0 <= j < self.albums.len() ==> (#[trigger] self.albums[j]).tracks_valid()
    }
}

impl AlbumView {
    /// Whether every track of the album names a title and an artist.
    pub open spec fn tracks_valid(self) -> bool {
        forall|i: int| 0 <= i < self.tracks.len() ==> (#[trigger] self.tracks[i]).is_valid()
    }
}

impl Aggregate {
    /// Whether every track list of the aggregate is in its order.
    pub open spec fn track_lists_sorted(self) -> bool {
        &&& forall|name: Seq<char>| #[trigger]
            self.artists.contains_key(name) ==> self.artists[name].track_lists_sorted()
        &&& forall|key: Seq<char>| #[trigger]
            self.albums.contains_key(key) ==> self.albums[key].tracks_sorted()
    }

    /// Whether every track of the aggregate names a title and an artist.
    pub open spec fn tracks_valid(self) -> bool {
        &&& forall|name: Seq<char>| #[trigger]
            self.artists.contains_key(name) ==> self.artists[name].tracks_valid()
        &&& forall|key: Seq<char>| #[trigger]
            self.albums.contains_key(key) ==> self.albums[key].tracks_valid()
    }
}

/// Taking an album as the latest state gives the artist that album and,
/// besides it, only albums that the artist had.
pub proof fn lemma_with_latest_albums(artist: ArtistView, id: Seq<char>, album: AlbumView)
    ensures
        artist.with_latest(id, album).name == artist.name,
        artist.with_latest(id, album).tracks == artist.tracks,
        artist.with_latest(id, album).albums.contains(album),
        forall|j: int|
            0 <= j < artist.with_latest(id, album).albums.len() ==> {
                let a = #[trigger] artist.with_latest(id, album).albums[j];
                a == album || artist.albums.contains(a)
            },
{
    let after = artist.with_latest(id, album).albums;
    lemma_slot_of(artist.albums, id);
    let slot = slot_of(artist.albums, id);
    if slot < artist.albums.len() {
        assert(after[slot] == album);
        assert forall|j: int| 0 <= j < after.len() implies {
            let a = #[trigger] after[j];
            a == album || artist.albums.contains(a)
        } by {
            if j != slot {
                assert(after[j] == artist.albums[j]);
            }
        }
    } else {
        let pushed = artist.albums.push(album);
        lemma_stable_sort_same_items::<Album, ByYearTitle>(pushed);
        assert(pushed[pushed.len() - 1] == album);
        assert(pushed.contains(album));
        assert forall|j: int| 0 <= j < after.len() implies {
            let a = #[trigger] after[j];
            a == album || artist.albums.contains(a)
        } by {
            let a = after[j];
            assert(after.contains(a));
            assert(pushed.contains(a));
            let k = choose|k: int| 0 <= k < pushed.len() && pushed[k] == a;
            if k < artist.albums.len() {
                assert(artist.albums[k] == a);
            }
        }
    }
}

/// One more record leaves every track list in its order.
pub proof fn lemma_record_keeps_order(agg: Aggregate, r: TrackView)
    requires
        agg.track_lists_sorted(),
    ensures
        agg.with_record(r).track_lists_sorted(),
{
    let after = agg.with_record(r);
    let name = r.owner();
    if name.len() > 0 {
        let artist = agg.artist(name);
        assert(artist.track_lists_sorted());
        if r.has_album() {
            let album = agg.album_for(r).with_track(r);
            lemma_stable_sort_sorted::<Track, ByAlbumPosition>(agg.album_for(r).tracks.push(r));
            lemma_with_latest_albums(artist, r.album_id, album);
            let owner = artist.with_latest(r.album_id, album);
            assert forall|j: int| 0 <= j < owner.albums.len() implies (#[trigger] owner.albums[j])
                .tracks_sorted() by {
                let a = owner.albums[j];
                if a != album {
                    let k = choose|k: int| 0 <= k < artist.albums.len() && artist.albums[k] == a;
                    assert(artist.albums[k].tracks_sorted());
                }
            }
            assert(owner.track_lists_sorted());
        } else {
            lemma_stable_sort_sorted::<Track, ByTitle>(artist.tracks.push(r));
            assert(artist.with_track(r).albums == artist.albums);
        }
        assert forall|other: Seq<char>| #[trigger]
            after.artists.contains_key(other) implies after.artists[other].track_lists_sorted() by {
            if other != name {
                assert(agg.artists.contains_key(other));
            }
        }
        assert forall|key: Seq<char>| #[trigger]
            after.albums.contains_key(key) implies after.albums[key].tracks_sorted() by {
            if !(r.has_album() && key == r.album_key()) {
                assert(agg.albums.contains_key(key));
            }
        }
    }
}

/// A batch of records leaves every track list in its order.
pub proof fn lemma_batch_keeps_order(agg: Aggregate, records: Seq<TrackView>)
    requires
        agg.track_lists_sorted(),
    ensures
        agg.with_batch(records).track_lists_sorted(),
    decreases records.len(),
{
    if records.len() > 0 {
        lemma_batch_keeps_order(agg, records.drop_last());
        if records.last().is_valid() {
            lemma_record_keeps_order(agg.with_batch(records.drop_last()), records.last());
        }
    }
}

/// Whatever the batch, once all of it is taken in, every artist's
/// album-less tracks stand in order of title, and the tracks of every
/// album, under an artist or under its key, in order of disc and track
/// number.
pub proof fn lemma_track_lists_sorted(records: Seq<TrackView>)
    ensures
        Aggregate::empty().with_batch(records).track_lists_sorted(),
{
    lemma_batch_keeps_order(Aggregate::empty(), records);
}

/// One more valid record leaves every track valid.
pub proof fn lemma_record_keeps_valid(agg: Aggregate, r: TrackView)
    requires
        agg.tracks_valid(),
        r.is_valid(),
    ensures
        agg.with_record(r).tracks_valid(),
{
    let after = agg.with_record(r);
    let name = r.owner();
    if name.len() > 0 {
        let artist = agg.artist(name);
        assert(artist.tracks_valid());
        if r.has_album() {
            let before = agg.album_for(r);
            assert(before.tracks_valid());
            let album = before.with_track(r);
            let pushed = before.tracks.push(r);
            lemma_stable_sort_same_items::<Track, ByAlbumPosition>(pushed);
            assert forall|i: int| 0 <= i < album.tracks.len() implies (#[trigger] album.tracks[i])
                .is_valid() by {
                let t = album.tracks[i];
                assert(album.tracks.contains(t));
                assert(pushed.contains(t));
                let k = choose|k: int| 0 <= k < pushed.len() && pushed[k] == t;
                if k < before.tracks.len() {
                    assert(before.tracks[k] == t);
                }
            }
            lemma_with_latest_albums(artist, r.album_id, album);
            let owner = artist.with_latest(r.album_id, album);
            assert forall|j: int| 0 <= j < owner.albums.len() implies (#[trigger] owner.albums[j])
                .tracks_valid() by {
                let a = owner.albums[j];
                if a != album {
                    let k = choose|k: int| 0 <= k < artist.albums.len() && artist.albums[k] == a;
                    assert(artist.albums[k].tracks_valid());
                }
            }
            assert(owner.tracks_valid());
        } else {
            let pushed = artist.tracks.push(r);
            let owner = artist.with_track(r);
            lemma_stable_sort_same_items::<Track, ByTitle>(pushed);
            assert forall|i: int| 0 <= i < owner.tracks.len() implies (#[trigger] owner.tracks[i])
                .is_valid() by {
                let t = owner.tracks[i];
                assert(owner.tracks.contains(t));
                assert(pushed.contains(t));
                let k = choose|k: int| 0 <= k < pushed.len() && pushed[k] == t;
                if k < artist.tracks.len() {
                    assert(artist.tracks[k] == t);
                }
            }
            assert(owner.albums == artist.albums);
        }
        assert forall|other: Seq<char>| #[trigger]
            after.artists.contains_key(other) implies after.artists[other].tracks_valid() by {
            if other != name {
                assert(agg.artists.contains_key(other));
            }
        }
        assert forall|key: Seq<char>| #[trigger]
            after.albums.contains_key(key) implies after.albums[key].tracks_valid() by {
            if !(r.has_album() && key == r.album_key()) {
                assert(agg.albums.contains_key(key));
            }
        }
    }
}

/// A batch of records leaves every track valid.
pub proof fn lemma_batch_keeps_valid(agg: Aggregate, records: Seq<TrackView>)
    requires
        agg.tracks_valid(),
    ensures
        agg.with_batch(records).tracks_valid(),
    decreases records.len(),
{
    if records.len() > 0 {
        lemma_batch_keeps_valid(agg, records.drop_last());
        if records.last().is_valid() {
            lemma_record_keeps_valid(agg.with_batch(records.drop_last()), records.last());
        }
    }
}

/// Whatever the batch, a record without a title shows up nowhere in what
/// the batch leads to, whether or not it names an artist: every track
/// under every artist and every album has a title, and an artist too.
pub proof fn lemma_untitled_records_dropped(records: Seq<TrackView>)
    ensures
        Aggregate::empty().with_batch(records).tracks_valid(),
        forall|name: Seq<char>, i: int|
            #![trigger Aggregate::empty().with_batch(records).artists[name].tracks[i]]
            Aggregate::empty().with_batch(records).artists.contains_key(name) && 0 <= i
                < Aggregate::empty().with_batch(records).artists[name].tracks.len()
                ==> Aggregate::empty().with_batch(records).artists[name].tracks[i].title.len() > 0,
        forall|name: Seq<char>, j: int, i: int|
            #![trigger Aggregate::empty().with_batch(records).artists[name].albums[j].tracks[i]]
            Aggregate::empty().with_batch(records).artists.contains_key(name) && 0 <= j
                < Aggregate::empty().with_batch(records).artists[name].albums.len() && 0 <= i
                < Aggregate::empty().with_batch(records).artists[name].albums[j].tracks.len()
                ==> Aggregate::empty().with_batch(records).artists[name].albums[j].tracks[i].title.len()
                > 0,
{
    lemma_batch_keeps_valid(Aggregate::empty(), records);
    let out = Aggregate::empty().with_batch(records);
    assert forall|name: Seq<char>, i: int|
        #![trigger out.artists[name].tracks[i]]
        out.artists.contains_key(name) && 0 <= i < out.artists[name].tracks.len()
            implies out.artists[name].tracks[i].title.len() > 0 by {
        assert(out.artists[name].tracks_valid());
        assert(out.artists[name].tracks[i].is_valid());
    }
    assert forall|name: Seq<char>, j: int, i: int|
        #![trigger out.artists[name].albums[j].tracks[i]]
        out.artists.contains_key(name) && 0 <= j < out.artists[name].albums.len() && 0 <= i
            < out.artists[name].albums[j].tracks.len()
            implies out.artists[name].albums[j].tracks[i].title.len() > 0 by {
        assert(out.artists[name].tracks_valid());
        assert(out.artists[name].albums[j].tracks_valid());
        assert(out.artists[name].albums[j].tracks[i].is_valid());
    }
}

impl Aggregate {
    /// Whether the aggregate holds the record where it belongs: among the
    /// tracks of the album of its key where it names an album, else among
    /// its owner's album-less tracks.
    pub open spec fn holds(self, r: TrackView) -> bool {
        if r.has_album() {
            self.albums.contains_key(r.album_key()) && self.albums[r.album_key()].tracks.contains(r)
        } else {
            self.artists.contains_key(r.owner()) && self.artists[r.owner()].tracks.contains(r)
        }
    }
}

/// A record with an owner is held once it is taken in, and one more
/// record takes nothing away: every artist and every album stays, and so
/// does every record that was held.
pub proof fn lemma_record_adds(agg: Aggregate, r: TrackView, earlier: TrackView)
    ensures
        r.owner().len() > 0 ==> agg.with_record(r).holds(r),
        agg.holds(earlier) ==> agg.with_record(r).holds(earlier),
        forall|name: Seq<char>| #[trigger]
            agg.artists.contains_key(name) ==> agg.with_record(r).artists.contains_key(name),
        forall|key: Seq<char>| #[trigger]
            agg.albums.contains_key(key) ==> agg.with_record(r).albums.contains_key(key),
{
    let name = r.owner();
    if name.len() > 0 {
        if r.has_album() {
            let before = agg.album_for(r);
            let pushed = before.tracks.push(r);
            lemma_stable_sort_same_items::<Track, ByAlbumPosition>(pushed);
            assert(pushed[pushed.len() - 1] == r);
            assert(pushed.contains(r));
            if agg.holds(earlier) && earlier.has_album() && earlier.album_key() == r.album_key() {
                let k = choose|k: int| 0 <= k < before.tracks.len() && before.tracks[k] == earlier;
                assert(pushed[k] == earlier);
                assert(pushed.contains(earlier));
            }
        } else {
            let before = agg.artist(name);
            let pushed = before.tracks.push(r);
            lemma_stable_sort_same_items::<Track, ByTitle>(pushed);
            assert(pushed[pushed.len() - 1] == r);
            assert(pushed.contains(r));
            if agg.holds(earlier) && !earlier.has_album() && earlier.owner() == name {
                let k = choose|k: int| 0 <= k < before.tracks.len() && before.tracks[k] == earlier;
                assert(pushed[k] == earlier);
                assert(pushed.contains(earlier));
            }
        }
        if agg.holds(earlier) && !earlier.has_album() && r.has_album() && earlier.owner() == name {
            lemma_with_latest_albums(
                agg.artist(name),
                r.album_id,
                agg.album_for(r).with_track(r),
            );
        }
    }
}

/// A batch takes nothing away: every artist and every album stays, and so
/// does every record that was held.
pub proof fn lemma_batch_adds(agg: Aggregate, records: Seq<TrackView>, earlier: TrackView)
    ensures
        agg.holds(earlier) ==> agg.with_batch(records).holds(earlier),
        forall|name: Seq<char>| #[trigger]
            agg.artists.contains_key(name) ==> agg.with_batch(records).artists.contains_key(name),
        forall|key: Seq<char>| #[trigger]
            agg.albums.contains_key(key) ==> agg.with_batch(records).albums.contains_key(key),
    decreases records.len(),
{
    if records.len() > 0 {
        lemma_batch_adds(agg, records.drop_last(), earlier);
        if records.last().is_valid() {
            lemma_record_adds(agg.with_batch(records.drop_last()), records.last(), earlier);
        }
    }
}

/// Every valid record of a batch is held once the batch is taken in:
/// none is lost on the way.
pub proof fn lemma_valid_records_held(records: Seq<TrackView>, i: int)
    requires
        0 <= i < records.len(),
        records[i].is_valid(),
    ensures
        Aggregate::empty().with_batch(records).holds(records[i]),
    decreases records.len(),
{
    let init = records.drop_last();
    let before = Aggregate::empty().with_batch(init);
    if i == records.len() - 1 {
        lemma_record_adds(before, records[i], records[i]);
    } else {
        assert(init[i] == records[i]);
        lemma_valid_records_held(init, i);
        if records.last().is_valid() {
            lemma_record_adds(before, records.last(), records[i]);
        }
    }
}

/// Taking the same batch in twice, each time starting with nothing,
/// leads to the same aggregate both times, with the artists in the same
/// order.
pub proof fn lemma_rerun_gives_same(
    records: Seq<TrackView>,
    first: Aggregate,
    first_names: Seq<Seq<char>>,
    second: Aggregate,
    second_names: Seq<Seq<char>>,
)
    requires
        first == Aggregate::empty().with_batch(records),
        first_names == names_after_batch(Seq::empty(), records),
        second == Aggregate::empty().with_batch(records),
        second_names == names_after_batch(Seq::empty(), records),
    ensures
        first == second,
        first.artists == second.artists,
        first_names == second_names,
{
}

} // verus!

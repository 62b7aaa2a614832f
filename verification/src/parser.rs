//! The aggregator: it takes flat track records one by one and keeps the
//! artists, with their albums and album-less tracks, that the records so
//! far amount to.

use vstd::prelude::*;
use vstd::hash_map::StringHashMap;
use crate::library::{Album, AlbumView, Artist, ArtistView};
use crate::ranking::views;
use crate::text::{number_or, parse_u32, str_eq};
use crate::track::{Track, TrackView};

verus! {

/// The album that a record founds: identified and titled by the record,
/// owned by the record's artist, with the record's year and genre and the
/// track total that the record states (0 where it states no number).
pub open spec fn seed_album(r: TrackView) -> AlbumView {
    AlbumView {
        year: r.year,
        genre: r.genre,
        tracktotal: number_or(r.tracktotal, 0),
        ..AlbumView::new(r.album_id, r.album, r.owner())
    }
}

/// What a run of records amounts to: the artists by name, and every album
/// by its key, whoever owns it.
pub struct Aggregate {
    pub artists: Map<Seq<char>, ArtistView>,
    pub albums: Map<Seq<char>, AlbumView>,
}

impl Aggregate {
    /// Nothing gathered yet.
    pub open spec fn empty() -> Aggregate {
        Aggregate { artists: Map::empty(), albums: Map::empty() }
    }

    /// The artist of that name as gathered so far.
    pub open spec fn artist(self, name: Seq<char>) -> ArtistView {
        if self.artists.contains_key(name) {
            self.artists[name]
        } else {
            ArtistView::new(name)
        }
    }

    /// The album that a record belongs to, as gathered so far: the one
    /// known under the record's key, or else the one that the record founds.
    pub open spec fn album_for(self, r: TrackView) -> AlbumView {
        if self.albums.contains_key(r.album_key()) {
            self.albums[r.album_key()]
        } else {
            seed_album(r)
        }
    }

    /// The aggregate after one more record.
    ///
    /// A record without an owner changes nothing. A record with an album is
    /// added to the album of its key, and its owner takes that album as the
    /// latest state of the album that goes by the record's album id. A
    /// record without an album is added to its owner's album-less tracks.
    pub open spec fn with_record(self, r: TrackView) -> Aggregate {
        let name = r.owner();
        if name.len() == 0 {
            self
        } else if r.has_album() {
            let album = self.album_for(r).with_track(r);
            Aggregate {
                artists: self.artists.insert(
                    name,
                    self.artist(name).with_latest(r.album_id, album),
                ),
                albums: self.albums.insert(r.album_key(), album),
            }
        } else {
            Aggregate {
                artists: self.artists.insert(name, self.artist(name).with_track(r)),
                albums: self.albums,
            }
        }
    }

    /// The aggregate after a batch of records, taken in order; records
    /// that are not valid are passed over.
    pub open spec fn with_batch(self, records: Seq<TrackView>) -> Aggregate
        decreases records.len(),
    {
        if records.len() == 0 {
            self
        } else {
            let before = self.with_batch(records.drop_last());
            if records.last().is_valid() {
                before.with_record(records.last())
            } else {
                before
            }
        }
    }
}

/// The names of a list of artists, in the list's order.
pub open spec fn names_of(artists: Seq<ArtistView>) -> Seq<Seq<char>> {
    artists.map_values(|a: ArtistView| a.name)
}

/// The names of the artists in the order in which they came up, after one
/// more record: the record's owner comes last where it is new.
pub open spec fn names_after(names: Seq<Seq<char>>, r: TrackView) -> Seq<Seq<char>> {
    if r.owner().len() > 0 && !names.contains(r.owner()) {
        names.push(r.owner())
    } else {
        names
    }
}

/// The names of the artists in the order in which they came up, after a
/// batch of records; records that are not valid are passed over.
pub open spec fn names_after_batch(names: Seq<Seq<char>>, records: Seq<TrackView>) -> Seq<
    Seq<char>,
>
    decreases records.len(),
{
    if records.len() == 0 {
        names
    } else {
        let before = names_after_batch(names, records.drop_last());
        if records.last().is_valid() {
            names_after(before, records.last())
        } else {
            before
        }
    }
}

/// The artists that an aggregation has produced, each under its name, in
/// the order in which they came up.
pub struct Library {
    artists: Vec<Artist>,
}

/// The place of the first artist with the given name, or the length of
/// the list where no artist has it.
pub open spec fn place_of(artists: Seq<ArtistView>, name: Seq<char>) -> int
    decreases artists.len(),
{
    if artists.len() == 0 || artists[0].name == name {
        0
    } else {
        1 + place_of(artists.drop_first(), name)
    }
}

/// `place_of` names the first artist with the name, and none before it has it.
pub proof fn lemma_place_of(artists: Seq<ArtistView>, name: Seq<char>)
    ensures
        0 <= place_of(artists, name) <= artists.len(),
        place_of(artists, name) < artists.len() ==> artists[place_of(artists, name)].name == name,
        forall|j: int| 0 <= j < place_of(artists, name) ==> (#[trigger] artists[j]).name != name,
    decreases artists.len(),
{
    if artists.len() > 0 && artists[0].name != name {
        let rest = artists.drop_first();
        lemma_place_of(rest, name);
        assert forall|j: int| 0 <= j < place_of(artists, name) implies (#[trigger] artists[j]).name
            != name by {
            if j > 0 {
                assert(rest[j - 1] == artists[j]);
            }
        }
    }
}

/// Whether no two artists of the list share a name.
pub open spec fn distinct_names(artists: Seq<ArtistView>) -> bool {
    forall|i: int, j: int|
        0 <= i < j < artists.len() ==> (#[trigger] artists[i]).name != (#[trigger] artists[j]).name
}

/// The mapping from name to artist that a list of artists stands for.
pub open spec fn by_name(artists: Seq<ArtistView>) -> Map<Seq<char>, ArtistView> {
    Map::new(
        |name: Seq<char>| place_of(artists, name) < artists.len(),
        |name: Seq<char>| artists[place_of(artists, name)],
    )
}

/// A list of artists with distinct names and the mapping it stands for
/// hold the same artists: each artist of the list is found under its
/// name, everything found under a name is in the list, and there are as
/// many names as the list is long.
pub proof fn lemma_by_name(artists: Seq<ArtistView>)
    requires
        distinct_names(artists),
    ensures
        by_name(artists).dom().finite(),
        by_name(artists).len() == artists.len(),
        forall|i: int|
            0 <= i < artists.len() ==> by_name(artists).contains_key((#[trigger] artists[i]).name)
                && by_name(artists)[artists[i].name] == artists[i],
        forall|name: Seq<char>| #[trigger]
            by_name(artists).contains_key(name) ==> artists.contains(by_name(artists)[name])
                && by_name(artists)[name].name == name,
    decreases artists.len(),
{
    let m = by_name(artists);
    assert forall|i: int| 0 <= i < artists.len() implies m.contains_key((#[trigger] artists[i]).name)
        && m[artists[i].name] == artists[i] by {
        lemma_place_of(artists, artists[i].name);
    }
    assert forall|name: Seq<char>| #[trigger] m.contains_key(name) implies artists.contains(m[name])
        && m[name].name == name by {
        lemma_place_of(artists, name);
        assert(artists[place_of(artists, name)] == m[name]);
    }
    if artists.len() == 0 {
        assert(m.dom() =~= Set::<Seq<char>>::empty());
    } else {
        let init = artists.drop_last();
        let last = artists.last();
        assert forall|i: int, j: int| 0 <= i < j < init.len() implies (#[trigger] init[i]).name != (
        #[trigger] init[j]).name by {
            assert(init[i] == artists[i] && init[j] == artists[j]);
        }
        lemma_by_name(init);
        assert forall|name: Seq<char>| m.dom().contains(name) <==> by_name(init).dom().insert(
            last.name,
        ).contains(name) by {
            lemma_place_of(artists, name);
            lemma_place_of(init, name);
            let p = place_of(artists, name);
            let q = place_of(init, name);
            if p < artists.len() - 1 {
                assert(init[p] == artists[p]);
                if q == init.len() {
                    assert(init[p].name != name);
                }
            }
            if q < init.len() {
                assert(init[q] == artists[q]);
                if p == artists.len() {
                    assert(artists[q].name != name);
                }
            }
        }
        assert(m.dom() =~= by_name(init).dom().insert(last.name));
        lemma_place_of(init, last.name);
        if place_of(init, last.name) < init.len() {
            let q = place_of(init, last.name);
            assert(init[q] == artists[q]);
            assert(artists[q].name != artists[artists.len() - 1].name);
        }
    }
}

impl View for Library {
    type V = Map<Seq<char>, ArtistView>;

    closed spec fn view(&self) -> Map<Seq<char>, ArtistView> {
        by_name(views(self.artists@))
    }
}

impl Library {
    /// No two artists of a library share a name.
    #[verifier::type_invariant]
    spec fn names_apart(&self) -> bool {
        distinct_names(views(self.artists@))
    }

    /// The artists as a list, in the order in which they came up.
    pub closed spec fn listed(&self) -> Seq<ArtistView> {
        views(self.artists@)
    }

    /// The artists in the order in which they came up: each artist of the
    /// library once, under a name of its own.
    pub fn artists(&self) -> (r: &Vec<Artist>)
        ensures
            views(r@) == self.listed(),
            distinct_names(self.listed()),
            self@ == by_name(self.listed()),
    {
        proof {
            use_type_invariant(self);
        }
        &self.artists
    }

    /// How many artists there are.
    pub fn len(&self) -> (r: usize)
        ensures
            r == self@.len(),
            r == self.listed().len(),
    {
        proof {
            use_type_invariant(self);
            lemma_by_name(views(self.artists@));
        }
        self.artists.len()
    }

    /// The artist of the given name, if there is one.
    pub fn get(&self, name: &str) -> (r: Option<&Artist>)
        ensures
            match r {
                Some(artist) => self@.contains_key(name@) && artist@ == self@[name@],
                None => !self@.contains_key(name@),
            },
    {
        let mut i: usize = 0;
        while i < self.artists.len()
            invariant
                i <= self.artists.len(),
                forall|j: int| 0 <= j < i ==> (#[trigger] views(self.artists@)[j]).name != name@,
            decreases self.artists.len() - i,
        {
            if str_eq(self.artists[i].name.as_str(), name) {
                proof {
                    lemma_place_of(views(self.artists@), name@);
                    let p = place_of(views(self.artists@), name@);
                    if p > i {
                        assert(views(self.artists@)[i as int].name != name@);
                    }
                }
                return Some(&self.artists[i]);
            }
            i = i + 1;
        }
        proof {
            lemma_place_of(views(self.artists@), name@);
        }
        None
    }
}

/// The artists found under the names of `slots`, each at its place.
spec fn artists_at(artists: Seq<Artist>, slots: Map<Seq<char>, usize>) -> Map<
    Seq<char>,
    ArtistView,
> {
    Map::new(|name: Seq<char>| slots.contains_key(name), |name: Seq<char>| artists[slots[name] as int]@)
}

/// The albums found under the keys of `slots`, each at its place.
spec fn albums_at(albums: Seq<Album>, slots: Map<Seq<char>, usize>) -> Map<Seq<char>, AlbumView> {
    Map::new(|key: Seq<char>| slots.contains_key(key), |key: Seq<char>| albums[slots[key] as int]@)
}

/// Every name leads to the place of the artist of that name, and every
/// artist is found under its name.
spec fn names_lead(artists: Seq<Artist>, slots: Map<Seq<char>, usize>) -> bool {
    &&& forall|name: Seq<char>| #[trigger]
        slots.contains_key(name) ==> slots[name] < artists.len() && artists[slots[name] as int].name@
            == name
    &&& forall|i: int|
        0 <= i < artists.len() ==> slots.contains_key((#[trigger] artists[i]).name@)
            && slots[artists[i].name@] == i
}

/// Every key leads to a place of its own among the albums.
spec fn keys_lead(albums: Seq<Album>, slots: Map<Seq<char>, usize>) -> bool {
    &&& forall|key: Seq<char>| #[trigger] slots.contains_key(key) ==> slots[key] < albums.len()
    &&& forall|k1: Seq<char>, k2: Seq<char>|
        slots.contains_key(k1) && slots.contains_key(k2) && k1 != k2 ==> #[trigger] slots[k1]
            != #[trigger] slots[k2]
}

/// The artist of the given name among those at their places, or a new one.
spec fn artist_at(artists: Seq<Artist>, slots: Map<Seq<char>, usize>, name: Seq<char>) -> ArtistView {
    if slots.contains_key(name) {
        artists[slots[name] as int]@
    } else {
        ArtistView::new(name)
    }
}

/// The album of the record among those at their places, or the one that
/// the record founds.
spec fn album_at(albums: Seq<Album>, slots: Map<Seq<char>, usize>, r: TrackView) -> AlbumView {
    if slots.contains_key(r.album_key()) {
        albums[slots[r.album_key()] as int]@
    } else {
        seed_album(r)
    }
}

/// No other name leads to the place of `name`, and no other key to the
/// place of `key`.
proof fn lemma_places_apart(
    artists: Seq<Artist>,
    artist_slots: Map<Seq<char>, usize>,
    albums: Seq<Album>,
    album_slots: Map<Seq<char>, usize>,
    name: Seq<char>,
    key: Seq<char>,
)
    requires
        names_lead(artists, artist_slots),
        keys_lead(albums, album_slots),
    ensures
        forall|other: Seq<char>| #[trigger]
            artist_slots.contains_key(other) && artist_slots.contains_key(name) && other != name
                ==> artist_slots[other] != artist_slots[name],
        forall|other: Seq<char>| #[trigger]
            album_slots.contains_key(other) && album_slots.contains_key(key) && other != key
                ==> album_slots[other] != album_slots[key],
        forall|other: Seq<char>| #[trigger]
            artist_slots.contains_key(other) ==> artist_slots[other] < artists.len(),
        forall|other: Seq<char>| #[trigger]
            album_slots.contains_key(other) ==> album_slots[other] < albums.len(),
{
    assert forall|other: Seq<char>| #[trigger]
        album_slots.contains_key(other) && album_slots.contains_key(key) && other
            != key implies album_slots[other] != album_slots[key] by {
        let i = album_slots[other];
        let j = album_slots[key];
    }
}

/// The place of the artist of the given name, who is entered with nothing
/// gathered where the name is new.
fn artist_slot(artists: &mut Vec<Artist>, slots: &mut StringHashMap<usize>, name: &String) -> (slot:
    usize)
    requires
        names_lead(old(artists)@, old(slots)@),
    ensures
        names_lead(final(artists)@, final(slots)@),
        slot < final(artists)@.len(),
        final(slots)@.contains_key(name@),
        final(slots)@[name@] == slot,
        final(artists)@[slot as int]@ == artist_at(old(artists)@, old(slots)@, name@),
        artists_at(final(artists)@, final(slots)@) == artists_at(old(artists)@, old(slots)@).insert(
            name@,
            artist_at(old(artists)@, old(slots)@, name@),
        ),
        names_of(views(final(artists)@)) == if names_of(views(old(artists)@)).contains(name@) {
            names_of(views(old(artists)@))
        } else {
            names_of(views(old(artists)@)).push(name@)
        },
{
    proof {
        let names = names_of(views(artists@));
        if names.contains(name@) {
            let i = choose|i: int| 0 <= i < names.len() && names[i] == name@;
            assert(artists@[i].name@ == name@);
        }
        if slots@.contains_key(name@) {
            assert(names[slots@[name@] as int] == name@);
        }
    }
    match slots.get(name.as_str()) {
        Some(slot) => {
            let slot = *slot;
            proof {
                assert(artists_at(artists@, slots@) =~= artists_at(old(artists)@, old(slots)@).insert(
                    name@,
                    artist_at(old(artists)@, old(slots)@, name@),
                ));
            }
            slot
        },
        None => {
            let slot = artists.len();
            artists.push(Artist::new(name.clone()));
            slots.insert(name.clone(), slot);
            proof {
                assert(names_of(views(artists@)) =~= names_of(views(old(artists)@)).push(name@));
                assert(artists_at(artists@, slots@) =~= artists_at(old(artists)@, old(slots)@).insert(
                    name@,
                    artist_at(old(artists)@, old(slots)@, name@),
                ));
            }
            slot
        },
    }
}

/// The place of the album that the record belongs to, which is founded
/// from the record where its key is new.
fn album_slot(albums: &mut Vec<Album>, slots: &mut StringHashMap<usize>, track: &Track) -> (slot:
    usize)
    requires
        keys_lead(old(albums)@, old(slots)@),
    ensures
        keys_lead(final(albums)@, final(slots)@),
        slot < final(albums)@.len(),
        final(slots)@.contains_key(track@.album_key()),
        final(slots)@[track@.album_key()] == slot,
        final(albums)@[slot as int]@ == album_at(old(albums)@, old(slots)@, track@),
        albums_at(final(albums)@, final(slots)@) == albums_at(old(albums)@, old(slots)@).insert(
            track@.album_key(),
            album_at(old(albums)@, old(slots)@, track@),
        ),
{
    let key = track.album_key();
    match slots.get(key.as_str()) {
        Some(slot) => {
            let slot = *slot;
            proof {
                assert(albums_at(albums@, slots@) =~= albums_at(old(albums)@, old(slots)@).insert(
                    track@.album_key(),
                    album_at(old(albums)@, old(slots)@, track@),
                ));
            }
            slot
        },
        None => {
            let mut album = Album::new(
                track.album_id.clone(),
                track.album.clone(),
                track.owner().clone(),
            );
            album.year = track.year.clone();
            album.genre = track.genre.clone();
            match parse_u32(track.tracktotal.as_str()) {
                Some(total) => {
                    album.tracktotal = total;
                },
                None => {},
            }
            proof {
                assert(album@ == seed_album(track@));
            }
            let slot = albums.len();
            albums.push(album);
            slots.insert(key, slot);
            proof {
                assert(albums_at(albums@, slots@) =~= albums_at(old(albums)@, old(slots)@).insert(
                    track@.album_key(),
                    album_at(old(albums)@, old(slots)@, track@),
                ));
            }
            slot
        },
    }
}

/// The aggregator. It holds the artists and, apart from them, every album
/// under its key, so that records of one album meet wherever they come
/// from.
pub struct Parser {
    artists: Vec<Artist>,
    artist_slots: StringHashMap<usize>,
    albums: Vec<Album>,
    album_slots: StringHashMap<usize>,
}

impl View for Parser {
    type V = Aggregate;

    closed spec fn view(&self) -> Aggregate {
        Aggregate {
            artists: artists_at(self.artists@, self.artist_slots@),
            albums: albums_at(self.albums@, self.album_slots@),
        }
    }
}

impl Parser {
    /// The names of the artists gathered so far, in the order in which
    /// they came up.
    pub closed spec fn names(&self) -> Seq<Seq<char>> {
        names_of(views(self.artists@))
    }

    /// The aggregator's books are in order: every name and every key leads
    /// to a place of its own, and every artist is found under its name.
    #[verifier::type_invariant]
    spec fn in_order(&self) -> bool {
        &&& names_lead(self.artists@, self.artist_slots@)
        &&& keys_lead(self.albums@, self.album_slots@)
    }

    /// An aggregator that has seen no record.
    pub fn new() -> (r: Self)
        ensures
            r@ == Aggregate::empty(),
            r.names() == Seq::<Seq<char>>::empty(),
    {
        let r = Parser {
            artists: Vec::new(),
            artist_slots: StringHashMap::new(),
            albums: Vec::new(),
            album_slots: StringHashMap::new(),
        };
        proof {
            assert(r@.artists =~= Map::<Seq<char>, ArtistView>::empty());
            assert(r@.albums =~= Map::<Seq<char>, AlbumView>::empty());
            assert(r.names() =~= Seq::<Seq<char>>::empty());
        }
        r
    }

    /// Takes one record into the aggregate.
    pub fn process_track(&mut self, track: Track)
        ensures
            final(self)@ == old(self)@.with_record(track@),
            final(self).names() == names_after(old(self).names(), track@),
    {
        proof {
            use_type_invariant(&*self);
        }
        if track.owner().as_str().is_empty() {
            return ;
        }
        let mut taken = Parser::new();
        core::mem::swap(self, &mut taken);
        let Parser { mut artists, mut artist_slots, mut albums, mut album_slots } = taken;
        let name = track.owner().clone();
        let a = artist_slot(&mut artists, &mut artist_slots, &name);
        if track.has_album() {
            let b = album_slot(&mut albums, &mut album_slots, &track);
            let ghost key = track@.album_key();
            let ghost albums_found = albums@;
            let ghost artists_found = artists@;
            let id = track.album_id.clone();
            albums[b].add_track(track);
            let latest = albums[b].clone();
            artists[a].set_latest(id.as_str(), latest);
            proof {
                let album = old(self)@.album_for(track@).with_track(track@);
                assert(albums@ == albums_found.update(b as int, albums@[b as int]));
                assert(artists@ == artists_found.update(a as int, artists@[a as int]));
                assert(names_of(views(artists@)) =~= names_of(views(artists_found)));
                assert(albums@[b as int]@ == album);
                assert(artists@[a as int]@ == old(self)@.artist(name@).with_latest(id@, album));
                lemma_places_apart(artists_found, artist_slots@, albums_found, album_slots@, name@, key);
                assert(albums_at(albums@, album_slots@) =~= albums_at(
                    albums_found,
                    album_slots@,
                ).insert(key, album));
                assert(artists_at(artists@, artist_slots@) =~= artists_at(
                    artists_found,
                    artist_slots@,
                ).insert(name@, old(self)@.artist(name@).with_latest(id@, album)));
                assert(albums_at(albums@, album_slots@) =~= old(self)@.albums.insert(key, album));
                assert(artists_at(artists@, artist_slots@) =~= old(self)@.artists.insert(
                    name@,
                    old(self)@.artist(name@).with_latest(id@, album),
                ));
            }
        } else {
            let ghost artists_found = artists@;
            artists[a].add_track(track);
            proof {
                assert(artists@ == artists_found.update(a as int, artists@[a as int]));
                assert(names_of(views(artists@)) =~= names_of(views(artists_found)));
                lemma_places_apart(artists_found, artist_slots@, albums@, album_slots@, name@, name@);
                assert(artists_at(artists@, artist_slots@) =~= artists_at(
                    artists_found,
                    artist_slots@,
                ).insert(name@, old(self)@.artist(name@).with_track(track@)));
                assert(artists_at(artists@, artist_slots@) =~= old(self)@.artists.insert(
                    name@,
                    old(self)@.artist(name@).with_track(track@),
                ));
            }
        }
        *self = Parser { artists, artist_slots, albums, album_slots };
    }

    /// Takes a batch of records into the aggregate, in order, passing over
    /// those that are not valid, and hands out the artists gathered so far.
    pub fn parse_tracks(&mut self, tracks: Vec<Track>) -> (library: Library)
        ensures
            final(self)@ == old(self)@.with_batch(views(tracks@)),
            final(self).names() == names_after_batch(old(self).names(), views(tracks@)),
            library@ == final(self)@.artists,
            names_of(library.listed()) == final(self).names(),
    {
        let ghost records = views(tracks@);
        for track in it: tracks
            invariant
                records == views(tracks@),
                self@ == old(self)@.with_batch(records.take(it.index())),
                self.names() == names_after_batch(old(self).names(), records.take(it.index())),
        {
            proof {
                let upto = records.take(it.index() + 1);
                assert(upto.drop_last() =~= records.take(it.index()));
                assert(upto.last() == track@);
            }
            if !track.is_empty() {
                self.process_track(track);
            }
        }
        proof {
            assert(records.take(records.len() as int) =~= records);
        }
        self.library()
    }

    /// The album kept under the given key, if there is one.
    pub fn album(&self, key: &str) -> (r: Option<&Album>)
        ensures
            match r {
                Some(album) => self@.albums.contains_key(key@) && album@ == self@.albums[key@],
                None => !self@.albums.contains_key(key@),
            },
    {
        proof {
            use_type_invariant(self);
        }
        match self.album_slots.get(key) {
            Some(slot) => Some(&self.albums[*slot]),
            None => None,
        }
    }

    /// The artists gathered so far.
    pub fn library(&self) -> (library: Library)
        ensures
            library@ == self@.artists,
            names_of(library.listed()) == self.names(),
    {
        proof {
            use_type_invariant(self);
        }
        let mut artists: Vec<Artist> = Vec::new();
        let mut i: usize = 0;
        while i < self.artists.len()
            invariant
                i <= self.artists.len(),
                views(artists@) == views(self.artists@.take(i as int)),
            decreases self.artists.len() - i,
        {
            let ghost copied = views(artists@);
            let artist = self.artists[i].clone();
            artists.push(artist);
            proof {
                assert(views(artists@) =~= copied.push(self.artists@[i as int]@));
                assert(views(self.artists@.take(i + 1)) =~= views(self.artists@.take(i as int)).push(
                    self.artists@[i as int]@,
                ));
            }
            i = i + 1;
        }
        proof {
            assert(self.artists@.take(self.artists.len() as int) =~= self.artists@);
            let list = views(self.artists@);
            assert forall|i: int| 0 <= i < list.len() implies #[trigger] list[i].name
                == self.artists@[i].name@ && self.artist_slots@.contains_key(list[i].name)
                && self.artist_slots@[list[i].name] == i by {
                assert(list[i] == self.artists@[i]@);
            }
            assert forall|name: Seq<char>| #[trigger]
                by_name(list).contains_key(name) == self@.artists.contains_key(name) by {
                lemma_place_of(list, name);
                let p = place_of(list, name);
                if p < list.len() {
                    assert(list[p].name == name);
                }
                if self.artist_slots@.contains_key(name) {
                    let i = self.artist_slots@[name] as int;
                    assert(list[i].name == name);
                }
            }
            assert forall|name: Seq<char>| #[trigger]
                by_name(list).contains_key(name) implies by_name(list)[name]
                == self@.artists[name] by {
                lemma_place_of(list, name);
                let p = place_of(list, name);
                assert(list[p].name == name);
            }
            assert(by_name(list) =~= self@.artists);
            assert forall|i: int, j: int| 0 <= i < j < list.len() implies (#[trigger] list[i]).name
                != (#[trigger] list[j]).name by {
                assert(self.artist_slots@[list[i].name] == i);
                assert(self.artist_slots@[list[j].name] == j);
            }
        }
        Library { artists }
    }
}

} // verus!

//! Agreement between the albums that the artists hold and the albums kept
//! by key, and the order in which an artist holds its albums.
//!
//! An artist holds a copy of each of its albums, taken when the artist
//! last received a record for it. The copy falls behind when the album
//! receives a record by another way: through another artist, or under
//! another album id. And the copy that takes the place of another under
//! its id may be of another album, with another year and title, and then
//! stands where its rank does not put it. This module says of which
//! batches no copy is behind in the end, and of which the albums of every
//! artist are in order, and proves both.

use vstd::prelude::*;
use crate::library::{lemma_slot_of, slot_of, Album, AlbumView, ArtistView, ByYearTitle};
use crate::parser::Aggregate;
use crate::ranking::{lemma_stable_sort_pairwise, lemma_stable_sort_same_items};
use crate::track::TrackView;

verus! {

impl AlbumView {
    /// The key under which the album is kept: its id, a hyphen, its title.
    pub open spec fn key(self) -> Seq<char> {
        self.id + seq!['-'] + self.title
    }
}

impl TrackView {
    /// Whether the record is taken into an album: it is valid and names one.
    pub open spec fn joins_album(self) -> bool {
        self.is_valid() && self.has_album()
    }
}

impl ArtistView {
    /// Whether no two albums of the artist share an id.
    pub open spec fn distinct_ids(self) -> bool {
        forall|i: int, j: int|
            0 <= i < self.albums.len() && 0 <= j < self.albums.len() && i != j ==> (
            #[trigger] self.albums[i]).id != (#[trigger] self.albums[j]).id
    }
}

impl Aggregate {
    /// Whether every album that an artist holds is the album kept under
    /// its key, track for track.
    pub open spec fn albums_current(self) -> bool {
        forall|name: Seq<char>, j: int|
            #![trigger self.artists[name].albums[j]]
            self.artists.contains_key(name) && 0 <= j < self.artists[name].albums.len() ==> {
                let held = self.artists[name].albums[j];
                self.albums.contains_key(held.key()) && self.albums[held.key()] == held
            }
    }
}

/// Whether the records of one album key all state the same album id.
pub open spec fn one_id_per_key(records: Seq<TrackView>) -> bool {
    forall|i: int, j: int|
        0 <= i < records.len() && 0 <= j < records.len() && (#[trigger] records[i]).joins_album() && (
        #[trigger] records[j]).joins_album() && records[i].album_key() == records[j].album_key()
            ==> records[i].album_id == records[j].album_id
}

/// Whether every owner is brought up to date: where a record for an album
/// is followed by another record of the same key, the owner of the first
/// is later given a record under that album id again.
pub open spec fn owners_brought_up_to_date(records: Seq<TrackView>) -> bool {
    forall|i: int, k: int|
        0 <= i < k < records.len() && (#[trigger] records[i]).joins_album() && (
        #[trigger] records[k]).joins_album() && records[i].album_key() == records[k].album_key()
            ==> exists|m: int|
            i < m < records.len() && (#[trigger] records[m]).joins_album() && records[m].owner()
                == records[i].owner() && records[m].album_id == records[i].album_id
}

/// How many of the first `n` records went to the album of `key`.
spec fn sent_to(records: Seq<TrackView>, n: int, key: Seq<char>) -> nat
    decreases n,
{
    if n <= 0 {
        0
    } else {
        sent_to(records, n - 1, key) + if records[n - 1].joins_album() && records[n - 1].album_key()
            == key {
            1nat
        } else {
            0nat
        }
    }
}

/// The more records, the more went to an album; strictly more where one
/// of the further records went to it.
proof fn lemma_sent_to_grows(records: Seq<TrackView>, a: int, b: int, key: Seq<char>)
    requires
        0 <= a <= b,
    ensures
        sent_to(records, a, key) <= sent_to(records, b, key),
        forall|k: int|
            a <= k < b && (#[trigger] records[k]).joins_album() && records[k].album_key() == key
                ==> sent_to(records, a, key) < sent_to(records, b, key),
    decreases b - a,
{
    if a < b {
        lemma_sent_to_grows(records, a, b - 1, key);
    }
}

/// Where none of the first `n` records went to an album, none was sent.
proof fn lemma_sent_to_none(records: Seq<TrackView>, n: int, key: Seq<char>)
    requires
        forall|i: int|
            0 <= i < n ==> !((#[trigger] records[i]).joins_album() && records[i].album_key() == key),
    ensures
        sent_to(records, n, key) == 0,
    decreases n,
{
    if n > 0 {
        lemma_sent_to_none(records, n - 1, key);
    }
}

/// Record `f`, among the first `n`, went to the album kept under `key`
/// and states its id and title, and the album holds as many tracks as
/// records went to it.
spec fn founds(records: Seq<TrackView>, n: int, f: int, key: Seq<char>, album: AlbumView) -> bool {
    &&& 0 <= f < n
    &&& records[f].joins_album()
    &&& records[f].album_key() == key
    &&& album.id == records[f].album_id
    &&& album.title == records[f].album
    &&& album.tracks.len() == sent_to(records, n, key)
}

/// Record `k`, among the first `n` and after record `i`, went to the album of `key`.
spec fn overtakes(records: Seq<TrackView>, n: int, i: int, k: int, key: Seq<char>) -> bool {
    i < k < n && records[k].joins_album() && records[k].album_key() == key
}

/// Record `i`, among the first `n`, is the last that gave `name` an album
/// under the id of `held`, it gave `held`'s album, and `held` is either
/// still what is kept under its key or a later record went to that key.
spec fn backs(
    agg: Aggregate,
    records: Seq<TrackView>,
    n: int,
    name: Seq<char>,
    held: AlbumView,
    i: int,
) -> bool {
    &&& 0 <= i < n
    &&& records[i].joins_album()
    &&& records[i].owner() == name
    &&& records[i].album_id == held.id
    &&& records[i].album_key() == held.key()
    &&& held.tracks.len() == sent_to(records, i + 1, held.key())
    &&& agg.albums.contains_key(held.key())
    &&& forall|m: int|
        i < m < n && (#[trigger] records[m]).joins_album() && records[m].owner() == name
            ==> records[m].album_id != held.id
    &&& (agg.albums[held.key()] == held || exists|k: int|
        #[trigger] overtakes(records, n, i, k, held.key()))
}

/// Some record among the first `n` backs the album `held` by `name`.
spec fn backed(
    agg: Aggregate,
    records: Seq<TrackView>,
    n: int,
    name: Seq<char>,
    held: AlbumView,
) -> bool {
    exists|i: int| #[trigger] backs(agg, records, n, name, held, i)
}

/// Every album kept under a key was founded by one of the first `n`
/// records and holds as many tracks as records went to it.
spec fn albums_founded(agg: Aggregate, records: Seq<TrackView>, n: int) -> bool {
    forall|key: Seq<char>| #[trigger]
        agg.albums.contains_key(key) ==> exists|f: int|
            #[trigger] founds(records, n, f, key, agg.albums[key])
}

/// No artist holds two albums under one id.
spec fn ids_distinct(agg: Aggregate) -> bool {
    forall|name: Seq<char>| #[trigger]
        agg.artists.contains_key(name) ==> agg.artists[name].distinct_ids()
}

/// Every album that an artist holds is backed by one of the first `n` records.
spec fn holdings_backed(agg: Aggregate, records: Seq<TrackView>, n: int) -> bool {
    forall|name: Seq<char>, j: int|
        #![trigger agg.artists[name].albums[j]]
        agg.artists.contains_key(name) && 0 <= j < agg.artists[name].albums.len() ==> backed(
            agg,
            records,
            n,
            name,
            agg.artists[name].albums[j],
        )
}

/// The record's album is kept under its key, and the record's owner holds
/// an album under the record's album id.
spec fn served(agg: Aggregate, r: TrackView) -> bool {
    &&& agg.albums.contains_key(r.album_key())
    &&& agg.artists.contains_key(r.owner())
    &&& slot_of(agg.artists[r.owner()].albums, r.album_id) < agg.artists[r.owner()].albums.len()
}

/// Every one of the first `n` records that went to an album is served.
spec fn records_served(agg: Aggregate, records: Seq<TrackView>, n: int) -> bool {
    forall|i: int| 0 <= i < n && (#[trigger] records[i]).joins_album() ==> served(agg, records[i])
}

/// What holds of the aggregate after the first `n` records of a batch.
spec fn kept(agg: Aggregate, records: Seq<TrackView>, n: int) -> bool {
    &&& albums_founded(agg, records, n)
    &&& ids_distinct(agg)
    &&& holdings_backed(agg, records, n)
    &&& records_served(agg, records, n)
}

/// Where the artist's albums have distinct ids and `album` goes by `id`,
/// taking it as the latest state keeps the ids distinct, and every other
/// album of the artist is one it had, under another id.
#[verifier::rlimit(40)]
proof fn lemma_with_latest_distinct(artist: ArtistView, id: Seq<char>, album: AlbumView)
    requires
        artist.distinct_ids(),
        album.id == id,
    ensures
        artist.with_latest(id, album).distinct_ids(),
        forall|j: int|
            0 <= j < artist.with_latest(id, album).albums.len() ==> {
                let a = #[trigger] artist.with_latest(id, album).albums[j];
                a == album || (artist.albums.contains(a) && a.id != id)
            },
        slot_of(artist.with_latest(id, album).albums, id) < artist.with_latest(id, album).albums.len(),
        forall|other: Seq<char>|
            slot_of(artist.albums, other) < artist.albums.len() ==> #[trigger] slot_of(
                artist.with_latest(id, album).albums,
                other,
            ) < artist.with_latest(id, album).albums.len(),
{
    let after = artist.with_latest(id, album).albums;
    lemma_slot_of(artist.albums, id);
    let slot = slot_of(artist.albums, id);
    assert forall|other: Seq<char>| slot_of(artist.albums, other) < artist.albums.len() implies #[trigger] slot_of(
        after,
        other,
    ) < after.len() by {
        lemma_slot_of(artist.albums, other);
        lemma_slot_of(after, other);
        let had = artist.albums[slot_of(artist.albums, other)];
        if slot < artist.albums.len() {
            let at = slot_of(artist.albums, other);
            assert(after[at].id == other);
        } else {
            let pushed = artist.albums.push(album);
            lemma_stable_sort_same_items::<Album, ByYearTitle>(pushed);
            assert(pushed[slot_of(artist.albums, other)] == had);
            assert(pushed.contains(had));
            assert(after.contains(had));
            let at = choose|at: int| 0 <= at < after.len() && after[at] == had;
            assert(after[at].id == other);
        }
    }
    assert(slot_of(after, id) < after.len()) by {
        lemma_slot_of(after, id);
        if slot < artist.albums.len() {
            assert(after[slot].id == id);
        } else {
            let pushed = artist.albums.push(album);
            lemma_stable_sort_same_items::<Album, ByYearTitle>(pushed);
            assert(pushed[pushed.len() - 1] == album);
            assert(pushed.contains(album));
            assert(after.contains(album));
            let at = choose|at: int| 0 <= at < after.len() && after[at] == album;
            assert(after[at].id == id);
        }
    }
    if slot < artist.albums.len() {
        assert forall|j: int| 0 <= j < after.len() implies {
            let a = #[trigger] after[j];
            a == album || (artist.albums.contains(a) && a.id != id)
        } by {
            if j != slot {
                assert(after[j] == artist.albums[j]);
                assert(artist.albums[j].id != artist.albums[slot].id);
            }
        }
        assert forall|i: int, j: int|
            0 <= i < after.len() && 0 <= j < after.len() && i != j implies (#[trigger] after[i]).id
            != (#[trigger] after[j]).id by {
            assert(after[i].id == artist.albums[i].id);
            assert(after[j].id == artist.albums[j].id);
        }
    } else {
        let pushed = artist.albums.push(album);
        let apart = |a: AlbumView, b: AlbumView| a.id != b.id;
        assert forall|i: int, j: int|
            0 <= i < pushed.len() && 0 <= j < pushed.len() && i != j implies apart(
            #[trigger] pushed[i],
            #[trigger] pushed[j],
        ) by {
            if i < artist.albums.len() {
                assert(pushed[i] == artist.albums[i]);
            }
            if j < artist.albums.len() {
                assert(pushed[j] == artist.albums[j]);
            }
        }
        lemma_stable_sort_pairwise::<Album, ByYearTitle>(pushed, apart);
        crate::ranking::lemma_stable_sort_permutes::<Album, ByYearTitle>(pushed);
        lemma_stable_sort_same_items::<Album, ByYearTitle>(pushed);
        assert forall|i: int, j: int|
            0 <= i < after.len() && 0 <= j < after.len() && i != j implies (#[trigger] after[i]).id
            != (#[trigger] after[j]).id by {
            assert(apart(after[i], after[j]));
        }
        assert forall|j: int| 0 <= j < after.len() implies {
            let a = #[trigger] after[j];
            a == album || (artist.albums.contains(a) && a.id != id)
        } by {
            let a = after[j];
            assert(after.contains(a));
            assert(pushed.contains(a));
            let k = choose|k: int| 0 <= k < pushed.len() && pushed[k] == a;
            if k < artist.albums.len() {
                assert(artist.albums[k] == a);
            }
        }
    }
}

/// The aggregate after record `n` of the batch.
spec fn next(agg: Aggregate, records: Seq<TrackView>, n: int) -> Aggregate {
    if records[n].is_valid() {
        agg.with_record(records[n])
    } else {
        agg
    }
}

/// The album that record `n` goes to, once the record is in it.
spec fn grown(agg: Aggregate, records: Seq<TrackView>, n: int) -> AlbumView {
    agg.album_for(records[n]).with_track(records[n])
}

/// Where record `n` goes to an album, the album goes by the record's id,
/// is kept under the record's key, and has one track more than records
/// went to it before.
proof fn lemma_grown(agg: Aggregate, records: Seq<TrackView>, n: int)
    requires
        0 <= n < records.len(),
        one_id_per_key(records),
        albums_founded(agg, records, n),
        records_served(agg, records, n),
        records[n].joins_album(),
    ensures
        grown(agg, records, n).id == records[n].album_id,
        grown(agg, records, n).key() == records[n].album_key(),
        grown(agg, records, n).tracks.len() == sent_to(records, n + 1, records[n].album_key()),
        exists|f: int|
            #[trigger] founds(
                records,
                n + 1,
                f,
                records[n].album_key(),
                grown(agg, records, n),
            ),
{
    let r = records[n];
    let key = r.album_key();
    let before = agg.album_for(r);
    let album = grown(agg, records, n);
    crate::ranking::lemma_stable_sort_permutes::<crate::track::Track, crate::track::ByAlbumPosition>(
        before.tracks.push(r),
    );
    assert(album.tracks.len() == before.tracks.len() + 1);
    if agg.albums.contains_key(key) {
        let f = choose|f: int| #[trigger] founds(records, n, f, key, agg.albums[key]);
        assert(records[f].album_id == records[n].album_id);
        assert(records[f].album_key() == records[f].album_id + seq!['-'] + records[f].album);
        assert(founds(records, n + 1, f, key, album));
    } else {
        assert forall|i: int| 0 <= i < n implies !((#[trigger] records[i]).joins_album()
            && records[i].album_key() == key) by {
            if records[i].joins_album() {
                assert(served(agg, records[i]));
            }
        }
        lemma_sent_to_none(records, n, key);
        assert(founds(records, n + 1, n, key, album));
    }
}

/// One more record: the albums kept are still founded.
proof fn lemma_step_founded(agg: Aggregate, records: Seq<TrackView>, n: int)
    requires
        0 <= n < records.len(),
        one_id_per_key(records),
        kept(agg, records, n),
    ensures
        albums_founded(next(agg, records, n), records, n + 1),
{
    let r = records[n];
    let after = next(agg, records, n);
    let taken = r.joins_album();
    let key = r.album_key();
    if taken {
        lemma_grown(agg, records, n);
    }
    assert forall|other: Seq<char>| #[trigger] after.albums.contains_key(other) implies exists|
        f: int,
    | #[trigger] founds(records, n + 1, f, other, after.albums[other]) by {
        if taken && other == key {
            assert(after.albums[other] == grown(agg, records, n));
        } else {
            assert(agg.albums.contains_key(other));
            assert(after.albums[other] == agg.albums[other]);
            let f = choose|f: int| #[trigger] founds(records, n, f, other, agg.albums[other]);
            assert(founds(records, n + 1, f, other, after.albums[other]));
        }
    }
}

/// One more record: no artist comes to hold two albums under one id, and
/// the records served stay served.
#[verifier::rlimit(40)]
proof fn lemma_step_served(agg: Aggregate, records: Seq<TrackView>, n: int)
    requires
        0 <= n < records.len(),
        one_id_per_key(records),
        kept(agg, records, n),
    ensures
        ids_distinct(next(agg, records, n)),
        records_served(next(agg, records, n), records, n + 1),
{
    let r = records[n];
    let after = next(agg, records, n);
    let name = r.owner();
    let taken = r.joins_album();
    let touched = r.is_valid() && name.len() > 0;
    let owner_before = agg.artist(name);
    if agg.artists.contains_key(name) {
        assert(owner_before.distinct_ids());
    }
    if taken {
        lemma_grown(agg, records, n);
        lemma_with_latest_distinct(owner_before, r.album_id, grown(agg, records, n));
    }
    assert forall|who: Seq<char>| #[trigger] after.artists.contains_key(who) implies after.artists[who]
        .distinct_ids() by {
        if touched && who == name {
            if !taken {
                assert(after.artists[who].albums == owner_before.albums);
            }
        } else {
            assert(agg.artists.contains_key(who));
        }
    }
    assert forall|i: int| 0 <= i < n + 1 && (#[trigger] records[i]).joins_album() implies served(
        after,
        records[i],
    ) by {
        if i < n {
            assert(served(agg, records[i]));
            if touched && records[i].owner() == name {
                if !taken {
                    assert(after.artists[name].albums == owner_before.albums);
                }
            }
        }
    }
}

/// One more record: every album held is still backed.
#[verifier::rlimit(40)]
proof fn lemma_step_backed(agg: Aggregate, records: Seq<TrackView>, n: int)
    requires
        0 <= n < records.len(),
        one_id_per_key(records),
        kept(agg, records, n),
    ensures
        holdings_backed(next(agg, records, n), records, n + 1),
{
    let r = records[n];
    let after = next(agg, records, n);
    let name = r.owner();
    let taken = r.joins_album();
    let key = r.album_key();
    let album = grown(agg, records, n);
    let touched = r.is_valid() && name.len() > 0;
    let owner_before = agg.artist(name);
    if agg.artists.contains_key(name) {
        assert(owner_before.distinct_ids());
    }
    if taken {
        lemma_grown(agg, records, n);
        lemma_with_latest_distinct(owner_before, r.album_id, album);
        assert(after.albums == agg.albums.insert(key, album));
    } else {
        assert(after.albums == agg.albums);
    }
    assert forall|who: Seq<char>, j: int|
        #![trigger after.artists[who].albums[j]]
        after.artists.contains_key(who) && 0 <= j < after.artists[who].albums.len() implies backed(
        after,
        records,
        n + 1,
        who,
        after.artists[who].albums[j],
    ) by {
        let held = after.artists[who].albums[j];
        if touched && who == name && taken && held == album {
            assert(backs(after, records, n + 1, who, held, n));
        } else {
            // The album was held before, under another id or by another artist.
            let was_held = if touched && who == name {
                if taken {
                    owner_before.albums.contains(held) && held.id != r.album_id
                } else {
                    after.artists[who].albums == owner_before.albums
                }
            } else {
                agg.artists.contains_key(who) && after.artists[who] == agg.artists[who]
            };
            assert(was_held);
            assert(agg.artists.contains_key(who));
            let before = agg.artists[who].albums;
            let k = if touched && who == name && taken {
                choose|k: int| 0 <= k < before.len() && before[k] == held
            } else {
                j
            };
            assert(before[k] == held);
            assert(backed(agg, records, n, who, agg.artists[who].albums[k]));
            let i = choose|i: int| #[trigger] backs(agg, records, n, who, held, i);
            assert(backs(agg, records, n, who, held, i));
            if taken && held.key() == key {
                // Same key, so the same id; then the record went to this
                // artist under the held album's id, or to another artist.
                assert(records[i].album_id == records[n].album_id);
                assert(who != name);
                assert(overtakes(records, n + 1, i, n, held.key()));
            } else {
                assert(after.albums.contains_key(held.key()));
                assert(after.albums[held.key()] == agg.albums[held.key()]);
                if agg.albums[held.key()] != held {
                    let k2 = choose|k2: int| #[trigger] overtakes(records, n, i, k2, held.key());
                    assert(overtakes(records, n + 1, i, k2, held.key()));
                }
            }
            assert forall|m: int|
                i < m < n + 1 && (#[trigger] records[m]).joins_album() && records[m].owner()
                    == who implies records[m].album_id != held.id by {
                if m == n {
                    assert(who == name);
                    assert(held.id != r.album_id);
                }
            }
            assert(backs(after, records, n + 1, who, held, i));
        }
    }
}

/// `kept` holds after every prefix of a batch that starts from nothing.
proof fn lemma_kept(records: Seq<TrackView>, n: int)
    requires
        0 <= n <= records.len(),
        one_id_per_key(records),
    ensures
        kept(Aggregate::empty().with_batch(records.take(n)), records, n),
    decreases n,
{
    if n > 0 {
        lemma_kept(records, n - 1);
        let upto = records.take(n);
        assert(upto.drop_last() =~= records.take(n - 1));
        assert(upto.last() == records[n - 1]);
        let before = Aggregate::empty().with_batch(records.take(n - 1));
        assert(Aggregate::empty().with_batch(upto) == next(before, records, n - 1));
        lemma_step_founded(before, records, n - 1);
        lemma_step_served(before, records, n - 1);
        lemma_step_backed(before, records, n - 1);
    }
}

/// Let the records of one album key all state the same album id, and let
/// every owner be brought up to date. Then, once the whole batch is taken
/// in, every album that an artist holds equals the album kept under its
/// key: no artist is left with an album that has fallen behind.
pub proof fn lemma_albums_current(records: Seq<TrackView>)
    requires
        one_id_per_key(records),
        owners_brought_up_to_date(records),
    ensures
        Aggregate::empty().with_batch(records).albums_current(),
{
    let n = records.len() as int;
    lemma_kept(records, n);
    assert(records.take(n) =~= records);
    let out = Aggregate::empty().with_batch(records);
    assert forall|name: Seq<char>, j: int|
        #![trigger out.artists[name].albums[j]]
        out.artists.contains_key(name) && 0 <= j < out.artists[name].albums.len() implies {
        let held = out.artists[name].albums[j];
        out.albums.contains_key(held.key()) && out.albums[held.key()] == held
    } by {
        let held = out.artists[name].albums[j];
        assert(backed(out, records, n, name, out.artists[name].albums[j]));
        let i = choose|i: int| #[trigger] backs(out, records, n, name, held, i);
        assert(backs(out, records, n, name, held, i));
        if out.albums[held.key()] != held {
            let k = choose|k: int| #[trigger] overtakes(records, n, i, k, held.key());
            assert(overtakes(records, n, i, k, held.key()));
            assert(records[i].joins_album() && records[k].joins_album());
            let m = choose|m: int|
                i < m < records.len() && (#[trigger] records[m]).joins_album() && records[m].owner()
                    == records[i].owner() && records[m].album_id == records[i].album_id;
            assert(records[m].album_id != held.id);
        }
    }
}

/// Let the records of one album key all state the same album id. Where an
/// owner is not brought up to date, it is left with an album that has
/// fallen behind: the condition of `lemma_albums_current` leaves out no
/// batch of such records on which its conclusion holds.
pub proof fn lemma_albums_current_only_then(records: Seq<TrackView>)
    requires
        one_id_per_key(records),
        Aggregate::empty().with_batch(records).albums_current(),
    ensures
        owners_brought_up_to_date(records),
{
    let n = records.len() as int;
    lemma_kept(records, n);
    assert(records.take(n) =~= records);
    let out = Aggregate::empty().with_batch(records);
    assert forall|i: int, k: int|
        0 <= i < k < records.len() && (#[trigger] records[i]).joins_album() && (
        #[trigger] records[k]).joins_album() && records[i].album_key() == records[k].album_key()
        implies exists|m: int|
        i < m < records.len() && (#[trigger] records[m]).joins_album() && records[m].owner()
            == records[i].owner() && records[m].album_id == records[i].album_id by {
        let left_alone = forall|m: int|
            i < m < records.len() && (#[trigger] records[m]).joins_album() && records[m].owner()
                == records[i].owner() ==> records[m].album_id != records[i].album_id;
        if left_alone {
            let name = records[i].owner();
            let key = records[i].album_key();
            assert(served(out, records[i]));
            let j = slot_of(out.artists[name].albums, records[i].album_id);
            lemma_slot_of(out.artists[name].albums, records[i].album_id);
            let held = out.artists[name].albums[j];
            assert(backed(out, records, n, name, out.artists[name].albums[j]));
            let b = choose|b: int| #[trigger] backs(out, records, n, name, held, b);
            assert(backs(out, records, n, name, held, b));
            // The record that backs the album is the owner's last under
            // that id, which is record `i`.
            if b < i {
                assert(records[i].album_id != held.id);
            }
            if i < b {
                assert(records[b].album_id != records[i].album_id);
            }
            assert(b == i);
            assert(held.key() == key);
            assert(out.albums[key] == held);
            let f = choose|f: int| #[trigger] founds(records, n, f, key, out.albums[key]);
            lemma_sent_to_grows(records, i + 1, n, key);
            assert(records[k].joins_album() && records[k].album_key() == key);
            assert(false);
        }
    }
}

/// Whether an artist's records under one album id all name one album title.
pub open spec fn one_title_per_id(records: Seq<TrackView>) -> bool {
    forall|i: int, j: int|
        0 <= i < records.len() && 0 <= j < records.len() && (#[trigger] records[i]).joins_album() && (
        #[trigger] records[j]).joins_album() && records[i].owner() == records[j].owner()
            && records[i].album_id == records[j].album_id ==> records[i].album == records[j].album
}

impl Aggregate {
    /// Whether every artist's albums stand in order of year and title.
    pub open spec fn albums_sorted(self) -> bool {
        forall|name: Seq<char>| #[trigger]
            self.artists.contains_key(name) ==> self.artists[name].albums_sorted()
    }
}

/// Every album that an artist holds states the year of the album kept
/// under its key.
spec fn years_agree(agg: Aggregate) -> bool {
    forall|name: Seq<char>, j: int|
        #![trigger agg.artists[name].albums[j]]
        agg.artists.contains_key(name) && 0 <= j < agg.artists[name].albums.len() ==> {
            let held = agg.artists[name].albums[j];
            agg.albums.contains_key(held.key()) ==> agg.albums[held.key()].year == held.year
        }
}

/// A key tells the title once the id is known.
proof fn lemma_key_tells_title(id: Seq<char>, first: Seq<char>, second: Seq<char>)
    requires
        id + seq!['-'] + first == id + seq!['-'] + second,
    ensures
        first == second,
{
    let lead = id + seq!['-'];
    assert((lead + first).skip(lead.len() as int) =~= first);
    assert((lead + second).skip(lead.len() as int) =~= second);
}

/// An album in the place of one of the same year and title leaves the
/// list in order.
proof fn lemma_update_keeps_order(albums: Seq<AlbumView>, at: int, album: AlbumView)
    requires
        0 <= at < albums.len(),
        crate::ranking::is_sorted::<Album, ByYearTitle>(albums),
        album.year == albums[at].year,
        album.title == albums[at].title,
    ensures
        crate::ranking::is_sorted::<Album, ByYearTitle>(albums.update(at, album)),
{
    let after = albums.update(at, album);
    assert forall|i: int, j: int| 0 <= i < j < after.len() implies <ByYearTitle as crate::ranking::Ranking<
        Album,
    >>::le(#[trigger] after[i], #[trigger] after[j]) by {
        assert(<ByYearTitle as crate::ranking::Ranking<Album>>::le(albums[i], albums[j]));
    }
}

/// One more record: the albums stay in order, and what the artists hold
/// still states the years of the albums kept.
#[verifier::rlimit(40)]
proof fn lemma_step_ordered(agg: Aggregate, records: Seq<TrackView>, n: int)
    requires
        0 <= n < records.len(),
        one_id_per_key(records),
        one_title_per_id(records),
        kept(agg, records, n),
        agg.albums_sorted(),
        years_agree(agg),
    ensures
        next(agg, records, n).albums_sorted(),
        years_agree(next(agg, records, n)),
{
    let r = records[n];
    let after = next(agg, records, n);
    let name = r.owner();
    let taken = r.joins_album();
    let key = r.album_key();
    let album = grown(agg, records, n);
    let touched = r.is_valid() && name.len() > 0;
    let owner_before = agg.artist(name);
    if taken {
        lemma_grown(agg, records, n);
        lemma_with_latest_distinct(owner_before, r.album_id, album);
        lemma_slot_of(owner_before.albums, r.album_id);
        let slot = slot_of(owner_before.albums, r.album_id);
        if slot < owner_before.albums.len() {
            // The album in that place is an earlier state of the same album.
            let old = owner_before.albums[slot];
            assert(agg.artists.contains_key(name));
            assert(backed(agg, records, n, name, agg.artists[name].albums[slot]));
            let i = choose|i: int| #[trigger] backs(agg, records, n, name, old, i);
            assert(backs(agg, records, n, name, old, i));
            assert(records[i].album == records[n].album);
            assert(old.key() == key);
            lemma_key_tells_title(old.id, old.title, album.title);
            assert(agg.albums[key].year == old.year);
            lemma_update_keeps_order(owner_before.albums, slot, album);
        } else {
            crate::ranking::lemma_stable_sort_sorted::<Album, ByYearTitle>(
                owner_before.albums.push(album),
            );
        }
        assert(owner_before.with_latest(r.album_id, album).albums_sorted());
    }
    assert forall|who: Seq<char>| #[trigger] after.artists.contains_key(who) implies after.artists[who]
        .albums_sorted() by {
        if touched && who == name {
            if !taken {
                assert(after.artists[who].albums == owner_before.albums);
            }
        } else {
            assert(agg.artists.contains_key(who));
        }
    }
    assert forall|who: Seq<char>, j: int|
        #![trigger after.artists[who].albums[j]]
        after.artists.contains_key(who) && 0 <= j < after.artists[who].albums.len() implies {
        let held = after.artists[who].albums[j];
        after.albums.contains_key(held.key()) ==> after.albums[held.key()].year == held.year
    } by {
        let held = after.artists[who].albums[j];
        if after.albums.contains_key(held.key()) {
            if touched && who == name && taken && held == album {
            } else {
                let was_held = if touched && who == name {
                    if taken {
                        owner_before.albums.contains(held)
                    } else {
                        after.artists[who].albums == owner_before.albums
                    }
                } else {
                    agg.artists.contains_key(who) && after.artists[who] == agg.artists[who]
                };
                assert(was_held);
                assert(agg.artists.contains_key(who));
                let before = agg.artists[who].albums;
                let k = if touched && who == name && taken {
                    choose|k: int| 0 <= k < before.len() && before[k] == held
                } else {
                    j
                };
                assert(before[k] == held);
                assert(backed(agg, records, n, who, agg.artists[who].albums[k]));
                let i = choose|i: int| #[trigger] backs(agg, records, n, who, held, i);
                assert(backs(agg, records, n, who, held, i));
                assert(agg.albums.contains_key(held.key()));
                assert(agg.albums[held.key()].year == held.year);
            }
        }
    }
}

/// After every prefix of a batch that starts from nothing, the albums are
/// in order and state the years of the albums kept.
proof fn lemma_ordered(records: Seq<TrackView>, n: int)
    requires
        0 <= n <= records.len(),
        one_id_per_key(records),
        one_title_per_id(records),
    ensures
        Aggregate::empty().with_batch(records.take(n)).albums_sorted(),
        years_agree(Aggregate::empty().with_batch(records.take(n))),
    decreases n,
{
    if n > 0 {
        lemma_ordered(records, n - 1);
        lemma_kept(records, n - 1);
        let upto = records.take(n);
        assert(upto.drop_last() =~= records.take(n - 1));
        assert(upto.last() == records[n - 1]);
        let before = Aggregate::empty().with_batch(records.take(n - 1));
        assert(Aggregate::empty().with_batch(upto) == next(before, records, n - 1));
        lemma_step_ordered(before, records, n - 1);
    }
}

/// Let the records of one album key all state the same album id, and let
/// each artist's records under one album id all name one album title.
/// Then, once the whole batch is taken in, every artist's albums stand in
/// order of year and title.
pub proof fn lemma_albums_sorted(records: Seq<TrackView>)
    requires
        one_id_per_key(records),
        one_title_per_id(records),
    ensures
        Aggregate::empty().with_batch(records).albums_sorted(),
{
    lemma_ordered(records, records.len() as int);
    assert(records.take(records.len() as int) =~= records);
}

} // verus!

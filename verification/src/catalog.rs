//! The in-memory catalog: artists, albums, tracks and countries, each list
//! keyed by unique ids, with the derived read-only queries the rendering
//! layer consumes. The catalog is built once by the loader and never
//! mutated afterwards.

use vstd::prelude::*;
use crate::music::{Album, AlbumView, Artist, ArtistView, Country, CountryView, Sample, Track,
    TrackView};
use crate::text::str_eq;

verus! {

/// Tracks grouped by the id of the album they belong to.
pub type Features = Vec<(String, Vec<Track>)>;

/// Artists grouped by country code.
pub type ArtistsByCountry = Vec<(String, Vec<Artist>)>;

/// Pairwise-distinct artist ids.
pub open spec fn artist_ids_unique(s: Seq<ArtistView>) -> bool {
    forall|i: int, j: int| 0 <= i < j < s.len() ==> s[i].id != s[j].id
}

/// Pairwise-distinct album ids.
pub open spec fn album_ids_unique(s: Seq<AlbumView>) -> bool {
    forall|i: int, j: int| 0 <= i < j < s.len() ==> s[i].id != s[j].id
}

/// Pairwise-distinct track ids.
pub open spec fn track_ids_unique(s: Seq<TrackView>) -> bool {
    forall|i: int, j: int| 0 <= i < j < s.len() ==> s[i].id != s[j].id
}

/// Pairwise-distinct country codes.
pub open spec fn country_codes_unique(s: Seq<CountryView>) -> bool {
    forall|i: int, j: int| 0 <= i < j < s.len() ==> s[i].code != s[j].code
}

/// Some artist in `s` has the id.
pub open spec fn has_artist(s: Seq<ArtistView>, id: Seq<char>) -> bool {
    exists|i: int| 0 <= i < s.len() && (#[trigger] s[i]).id == id
}

/// Some album in `s` has the id.
pub open spec fn has_album(s: Seq<AlbumView>, id: Seq<char>) -> bool {
    exists|i: int| 0 <= i < s.len() && (#[trigger] s[i]).id == id
}

/// Some track in `s` has the id.
pub open spec fn has_track(s: Seq<TrackView>, id: Seq<char>) -> bool {
    exists|i: int| 0 <= i < s.len() && (#[trigger] s[i]).id == id
}

/// The owning artist of the album in `s` with the given id.
pub open spec fn album_owner(s: Seq<AlbumView>, id: Seq<char>) -> Seq<char> {
    s[choose|i: int| 0 <= i < s.len() && (#[trigger] s[i]).id == id].artist_id
}

/// Some track of the album credits the artist.
pub open spec fn some_track_credits(tvs: Seq<TrackView>, album: Seq<char>, artist: Seq<char>) -> bool {
    exists|i: int| 0 <= i < tvs.len() && (#[trigger] tvs[i]).album_id == album && credits(tvs[i], artist)
}

/// The track credits the artist, as primary or contributing.
pub open spec fn credits(t: TrackView, artist_id: Seq<char>) -> bool {
    exists|j: int| 0 <= j < t.artists.len() && (#[trigger] t.artists[j]).id == artist_id
}

/// Tracks crediting the artist within one album, in catalog order.
pub open spec fn group_of(tvs: Seq<TrackView>, artist: Seq<char>, album: Seq<char>) -> Seq<
    TrackView,
> {
    tvs.filter(|t: TrackView| credits(t, artist) && t.album_id == album)
}

/// Some track credits the artist and belongs to the album.
pub open spec fn some_credited(tvs: Seq<TrackView>, artist: Seq<char>, album: Seq<char>) -> bool {
    exists|i: int|
        0 <= i < tvs.len() && credits(#[trigger] tvs[i], artist) && tvs[i].album_id == album
}

/// Some pair of the grouping carries the key.
pub open spec fn key_present(r: Seq<(String, Vec<Track>)>, key: Seq<char>) -> bool {
    exists|k: int| 0 <= k < r.len() && (#[trigger] r[k]).0@ == key
}

/// What a by-album grouping of an artist's tracks must look like: unique
/// keys, each key backed by a credited track, each value exactly the
/// credited tracks of that album, and a key for every credited track.
pub open spec fn grouping_ok(
    tvs: Seq<TrackView>,
    artist: Seq<char>,
    r: Seq<(String, Vec<Track>)>,
) -> bool {
    &&& forall|k1: int, k2: int| 0 <= k1 < k2 < r.len() ==> r[k1].0@ != r[k2].0@
    &&& forall|k: int| 0 <= k < r.len() ==> some_credited(tvs, artist, (#[trigger] r[k]).0@)
    &&& forall|k: int|
        0 <= k < r.len() ==> (#[trigger] r[k]).1.deep_view() == group_of(tvs, artist, r[k].0@)
    &&& forall|i: int|
        0 <= i < tvs.len() && credits(#[trigger] tvs[i], artist) ==> key_present(
            r,
            tvs[i].album_id,
        )
}

/// Artists declaring the given country code, in catalog order.
pub open spec fn country_group(avs: Seq<ArtistView>, code: Seq<char>) -> Seq<ArtistView> {
    avs.filter(|a: ArtistView| a.country_code == Some(code))
}

/// Some artist declares the code.
pub open spec fn some_artist_from(avs: Seq<ArtistView>, code: Seq<char>) -> bool {
    exists|i: int| 0 <= i < avs.len() && (#[trigger] avs[i]).country_code == Some(code)
}

/// Some pair of the country grouping carries the key.
pub open spec fn country_key_present(r: Seq<(String, Vec<Artist>)>, key: Seq<char>) -> bool {
    exists|k: int| 0 <= k < r.len() && (#[trigger] r[k]).0@ == key
}

/// What a by-album grouping of an artist's appearances on other artists'
/// albums must look like: a grouping restricted to albums the artist does
/// not own.
pub open spec fn features_ok(
    tvs: Seq<TrackView>,
    bvs: Seq<AlbumView>,
    artist: Seq<char>,
    r: Seq<(String, Vec<Track>)>,
) -> bool {
    &&& forall|k1: int, k2: int| 0 <= k1 < k2 < r.len() ==> r[k1].0@ != r[k2].0@
    &&& forall|k: int| 0 <= k < r.len() ==> some_credited(tvs, artist, (#[trigger] r[k]).0@)
    &&& forall|k: int|
        0 <= k < r.len() ==> has_album(bvs, (#[trigger] r[k]).0@) && album_owner(bvs, r[k].0@)
            != artist
    &&& forall|k: int|
        0 <= k < r.len() ==> (#[trigger] r[k]).1.deep_view() == group_of(tvs, artist, r[k].0@)
    &&& forall|i: int|
        0 <= i < tvs.len() && credits(#[trigger] tvs[i], artist) && album_owner(
            bvs,
            tvs[i].album_id,
        ) != artist ==> key_present(r, tvs[i].album_id)
}

proof fn lemma_album_owner_is(bvs: Seq<AlbumView>, a: AlbumView, id: Seq<char>)
    requires
        album_ids_unique(bvs),
        bvs.contains(a),
        a.id == id,
    ensures
        has_album(bvs, id),
        album_owner(bvs, id) == a.artist_id,
{
    let i = choose|i: int| 0 <= i < bvs.len() && bvs[i] == a;
    assert((bvs[i]).id == id);
    assert(has_album(bvs, id));
    let c = choose|c: int| 0 <= c < bvs.len() && (#[trigger] bvs[c]).id == id;
    if c != i {
        if c < i {
            assert(bvs[c].id != bvs[i].id);
        } else {
            assert(bvs[i].id != bvs[c].id);
        }
    }
    assert(album_owner(bvs, id) == bvs[c].artist_id);
}

/// The artist record is a collective whose member list names the id.
pub open spec fn lists_member(a: ArtistView, id: Seq<char>) -> bool {
    match a.collective_members {
        Some(ms) => exists|j: int| 0 <= j < ms.len() && (#[trigger] ms[j]).id == id,
        None => false,
    }
}

/// The artist record is a collective whose member list names the id with
/// no recorded leave date.
pub open spec fn lists_member_active(a: ArtistView, id: Seq<char>) -> bool {
    match a.collective_members {
        Some(ms) => exists|j: int|
            0 <= j < ms.len() && (#[trigger] ms[j]).id == id && ms[j].left is None,
        None => false,
    }
}

/// Whether the member list names `id`; with `active_only`, only entries
/// without a leave date count.
fn members_contain(ms: &Vec<crate::music::CollectiveMember>, id: &str, active_only: bool) -> (r:
    bool)
    ensures
        ({
            let mvs = ms.deep_view();
            r == if active_only {
                exists|j: int| 0 <= j < mvs.len() && (#[trigger] mvs[j]).id == id@ && mvs[j].left is None
            } else {
                exists|j: int| 0 <= j < mvs.len() && (#[trigger] mvs[j]).id == id@
            }
        }),
{
    let ghost mvs = ms.deep_view();
    let mut j: usize = 0;
    while j < ms.len()
        invariant
            mvs == ms.deep_view(),
            mvs.len() == ms.len(),
            forall|k: int| 0 <= k < mvs.len() ==> #[trigger] mvs[k] == ms@[k].deep_view(),
            j <= ms.len(),
            forall|k: int|
                0 <= k < j ==> !((#[trigger] mvs[k]).id == id@ && (active_only ==> mvs[k].left
                    is None)),
        decreases ms.len() - j,
    {
        let m = &ms[j];
        let hit = str_eq(m.id.as_str(), id) && (!active_only || m.left.is_none());
        proof {
            assert(mvs[j as int] == ms@[j as int].deep_view());
        }
        if hit {
            return true;
        }
        j = j + 1;
    }
    false
}

/// Whether the track credits the artist, as primary or contributing.
fn track_credits(t: &Track, id: &str) -> (r: bool)
    ensures
        r == credits(t.deep_view(), id@),
{
    let ghost tv = t.deep_view();
    let mut j: usize = 0;
    while j < t.artists.len()
        invariant
            tv == t.deep_view(),
            tv.artists.len() == t.artists.len(),
            forall|k: int| 0 <= k < tv.artists.len() ==> #[trigger] tv.artists[k] == t.artists@[k].deep_view(),
            j <= t.artists.len(),
            forall|k: int| 0 <= k < j ==> (#[trigger] tv.artists[k]).id != id@,
        decreases t.artists.len() - j,
    {
        if str_eq(t.artists[j].id.as_str(), id) {
            assert(tv.artists[j as int].id == id@);
            return true;
        }
        j = j + 1;
    }
    false
}

/// Whether some entry of `v` equals `s`, character for character.
fn vec_contains_str(v: &Vec<String>, s: &str) -> (r: bool)
    ensures
        r == v.deep_view().contains(s@),
{
    let ghost dv = v.deep_view();
    let mut i: usize = 0;
    while i < v.len()
        invariant
            dv == v.deep_view(),
            dv.len() == v.len(),
            forall|k: int| 0 <= k < dv.len() ==> #[trigger] dv[k] == v@[k]@,
            i <= v.len(),
            forall|k: int| 0 <= k < i ==> #[trigger] dv[k] != s@,
        decreases v.len() - i,
    {
        if str_eq(v[i].as_str(), s) {
            assert(dv[i as int] == s@);
            return true;
        }
        i = i + 1;
    }
    assert(!dv.contains(s@));
    false
}

/// The country reference set: a list with pairwise-distinct codes, looked
/// up by code.
#[derive(Debug)]
pub struct Countries {
    pub list: Vec<Country>,
}

impl Countries {
    /// Codes are pairwise distinct.
    pub open spec fn wf(&self) -> bool {
        country_codes_unique(self.list.deep_view())
    }

    /// Looks a country up by its code.
    pub fn get(&self, code: &str) -> (r: Option<&Country>)
        ensures
            match r {
                Some(c) => has_country(self.list.deep_view(), code@) && c.deep_view().code == code@
                    && self.list.deep_view().contains(c.deep_view()),
                None => !has_country(self.list.deep_view(), code@),
            },
    {
        let ghost cvs = self.list.deep_view();
        let mut i: usize = 0;
        while i < self.list.len()
            invariant
                cvs == self.list.deep_view(),
                cvs.len() == self.list.len(),
                forall|k: int| 0 <= k < cvs.len() ==> #[trigger] cvs[k] == self.list@[k].deep_view(),
                i <= self.list.len(),
                forall|k: int| 0 <= k < i ==> (#[trigger] cvs[k]).code != code@,
            decreases self.list.len() - i,
        {
            if str_eq(self.list[i].code.as_str(), code) {
                let c = &self.list[i];
                assert(cvs[i as int] == c.deep_view());
                return Some(c);
            }
            i = i + 1;
        }
        None
    }
}

/// Some country in `s` has the code.
pub open spec fn has_country(s: Seq<CountryView>, code: Seq<char>) -> bool {
    exists|i: int| 0 <= i < s.len() && (#[trigger] s[i]).code == code
}

/// Index of the first entry with the given code.
fn find_code(list: &Vec<Country>, code: &str) -> (r: Option<usize>)
    ensures
        match r {
            Some(k) => k < list.len() && list.deep_view()[k as int].code == code@,
            None => !has_country(list.deep_view(), code@),
        },
{
    let ghost cvs = list.deep_view();
    let mut i: usize = 0;
    while i < list.len()
        invariant
            cvs == list.deep_view(),
            cvs.len() == list.len(),
            forall|k: int| 0 <= k < cvs.len() ==> #[trigger] cvs[k] == list@[k].deep_view(),
            i <= list.len(),
            forall|k: int| 0 <= k < i ==> (#[trigger] cvs[k]).code != code@,
        decreases list.len() - i,
    {
        if str_eq(list[i].code.as_str(), code) {
            assert(cvs[i as int].code == code@);
            return Some(i);
        }
        i = i + 1;
    }
    None
}

/// `v` is an input entry and no later input entry reuses its code before
/// position `upto`.
pub open spec fn latest_entry(cvs: Seq<CountryView>, upto: int, v: CountryView) -> bool {
    exists|i: int|
        0 <= i < upto && v == #[trigger] cvs[i] && (forall|j: int|
            i < j < upto ==> (#[trigger] cvs[j]).code != cvs[i].code)
}

/// Builds the code-keyed country set from the flat reference list; a later
/// entry with a duplicate code replaces the earlier one.
#[verifier::loop_isolation(false)]
#[verifier::rlimit(60)]
pub fn countries_to_hashmap(countries: &Vec<Country>) -> (r: Countries)
    ensures
        r.wf(),
        ({
            let cvs = countries.deep_view();
            let rdv = r.list.deep_view();
            &&& forall|k: int|
                0 <= k < rdv.len() ==> latest_entry(cvs, cvs.len() as int, #[trigger] rdv[k])
            &&& forall|i: int|
                0 <= i < cvs.len() ==> has_country(rdv, (#[trigger] cvs[i]).code)
        }),
{
    let ghost cvs = countries.deep_view();
    let mut list: Vec<Country> = Vec::new();
    let mut i: usize = 0;
    while i < countries.len()
        invariant
            i <= countries.len(),
            country_codes_unique(list.deep_view()),
            forall|k: int|
                0 <= k < list.deep_view().len() ==> latest_entry(
                    cvs,
                    i as int,
                    #[trigger] list.deep_view()[k],
                ),
            forall|i2: int|
                0 <= i2 < i ==> has_country(list.deep_view(), (#[trigger] cvs[i2]).code),
        decreases countries.len() - i,
    {
        let ghost pre = list.deep_view();
        let c = countries[i].clone();
        proof {
            assert(cvs[i as int] == countries@[i as int].deep_view());
            assert(c.deep_view() == cvs[i as int]);
        }
        match find_code(&list, c.code.as_str()) {
            Some(k) => {
                vstd::pervasive::VecAdditionalExecFns::set(&mut list, k, c);
                proof {
                    assert(list.deep_view() =~= pre.update(k as int, cvs[i as int]));
                    assert(pre[k as int].code == cvs[i as int].code);
                    assert forall|k2: int|
                        0 <= k2 < list.deep_view().len() implies latest_entry(
                        cvs,
                        i + 1,
                        #[trigger] list.deep_view()[k2],
                    ) by {
                        if k2 == k {
                            assert(list.deep_view()[k2] == cvs[i as int]);
                        } else {
                            assert(list.deep_view()[k2] == pre[k2]);
                            assert(latest_entry(cvs, i as int, pre[k2]));
                            let w = choose|w: int|
                                0 <= w < i && pre[k2] == #[trigger] cvs[w] && (forall|j: int|
                                    w < j < i ==> (#[trigger] cvs[j]).code != cvs[w].code);
                            assert(pre[k2].code != pre[k as int].code);
                            assert(cvs[i as int].code != cvs[w].code);
                            assert(list.deep_view()[k2] == cvs[w]);
                            assert(forall|j: int|
                                w < j < i + 1 ==> (#[trigger] cvs[j]).code != cvs[w].code);
                        }
                    }
                    assert forall|i2: int|
                        0 <= i2 < i + 1 implies has_country(
                        list.deep_view(),
                        (#[trigger] cvs[i2]).code,
                    ) by {
                        if i2 < i {
                            let w = choose|w: int|
                                0 <= w < pre.len() && (#[trigger] pre[w]).code == cvs[i2].code;
                            if w == k {
                                assert(list.deep_view()[k as int].code == cvs[i2].code);
                            } else {
                                assert(list.deep_view()[w].code == cvs[i2].code);
                            }
                        } else {
                            assert(list.deep_view()[k as int].code == cvs[i2].code);
                        }
                    }
                }
            },
            None => {
                list.push(c);
                proof {
                    assert(list.deep_view() =~= pre.push(cvs[i as int]));
                    assert(!has_country(pre, cvs[i as int].code));
                    assert forall|k2: int|
                        0 <= k2 < list.deep_view().len() implies latest_entry(
                        cvs,
                        i + 1,
                        #[trigger] list.deep_view()[k2],
                    ) by {
                        if k2 < pre.len() {
                            assert(list.deep_view()[k2] == pre[k2]);
                            assert(latest_entry(cvs, i as int, pre[k2]));
                            let w = choose|w: int|
                                0 <= w < i && pre[k2] == #[trigger] cvs[w] && (forall|j: int|
                                    w < j < i ==> (#[trigger] cvs[j]).code != cvs[w].code);
                            assert(cvs[i as int].code != cvs[w].code) by {
                                if cvs[i as int].code == cvs[w].code {
                                    assert(pre[k2].code == cvs[i as int].code);
                                    assert(has_country(pre, cvs[i as int].code));
                                }
                            }
                            assert(list.deep_view()[k2] == cvs[w]);
                            assert(forall|j: int|
                                w < j < i + 1 ==> (#[trigger] cvs[j]).code != cvs[w].code);
                        } else {
                            assert(list.deep_view()[k2] == cvs[i as int]);
                        }
                    }
                    assert(country_codes_unique(list.deep_view())) by {
                        assert forall|a: int, b: int|
                            0 <= a < b < list.deep_view().len() implies list.deep_view()[a].code
                            != list.deep_view()[b].code by {
                            if b < pre.len() {
                            } else {
                                assert(list.deep_view()[b] == cvs[i as int]);
                                assert(list.deep_view()[a] == pre[a]);
                                if pre[a].code == cvs[i as int].code {
                                    assert(has_country(pre, cvs[i as int].code));
                                }
                            }
                        }
                    }
                    assert forall|i2: int|
                        0 <= i2 < i + 1 implies has_country(
                        list.deep_view(),
                        (#[trigger] cvs[i2]).code,
                    ) by {
                        if i2 < i {
                            let w = choose|w: int|
                                0 <= w < pre.len() && (#[trigger] pre[w]).code == cvs[i2].code;
                            assert(list.deep_view()[w].code == cvs[i2].code);
                        } else {
                            assert(list.deep_view()[pre.len() as int].code == cvs[i2].code);
                        }
                    }
                }
            },
        }
        i = i + 1;
    }
    Countries { list }
}

/// The loaded catalog.
#[derive(Debug)]
pub struct Data {
    pub artists: Vec<Artist>,
    pub albums: Vec<Album>,
    pub tracks: Vec<Track>,
    pub countries: Countries,
}

impl Data {
    /// Well-formedness: unique ids throughout, and every album's owner and
    /// every track's album resolve within the catalog.
    pub open spec fn wf(&self) -> bool {
        let avs = self.artists.deep_view();
        let bvs = self.albums.deep_view();
        let tvs = self.tracks.deep_view();
        &&& artist_ids_unique(avs)
        &&& album_ids_unique(bvs)
        &&& track_ids_unique(tvs)
        &&& self.countries.wf()
        &&& forall|i: int| 0 <= i < bvs.len() ==> has_artist(avs, (#[trigger] bvs[i]).artist_id)
        &&& forall|i: int| 0 <= i < tvs.len() ==> has_album(bvs, (#[trigger] tvs[i]).album_id)
    }

    /// Direct album lookup; callers only pass ids obtained from the
    /// catalog, so the album must be present.
    pub fn get_album(&self, id: &str) -> (r: Album)
        requires
            has_album(self.albums.deep_view(), id@),
        ensures
            self.albums.deep_view().contains(r.deep_view()),
            r.deep_view().id == id@,
    {
        let ghost bvs = self.albums.deep_view();
        let mut i: usize = 0;
        while i < self.albums.len()
            invariant
                bvs == self.albums.deep_view(),
                bvs.len() == self.albums.len(),
                forall|k: int| 0 <= k < bvs.len() ==> #[trigger] bvs[k] == self.albums@[k].deep_view(),
                has_album(bvs, id@),
                i <= self.albums.len(),
                forall|k: int| 0 <= k < i ==> (#[trigger] bvs[k]).id != id@,
            decreases self.albums.len() - i,
        {
            if str_eq(self.albums[i].id.as_str(), id) {
                let r = self.albums[i].clone();
                assert(bvs[i as int] == r.deep_view());
                return r;
            }
            i = i + 1;
        }
        proof {
            let w = choose|k: int| 0 <= k < bvs.len() && (#[trigger] bvs[k]).id == id@;
            assert(false);
        }
        unreached()
    }

    /// Artist lookup that may legitimately miss: a track can credit an
    /// artist that was never loaded as a full record.
    pub fn get_artist(&self, id: &str) -> (r: Option<Artist>)
        ensures
            match r {
                Some(a) => self.artists.deep_view().contains(a.deep_view()) && a.deep_view().id
                    == id@,
                None => !has_artist(self.artists.deep_view(), id@),
            },
    {
        let ghost avs = self.artists.deep_view();
        let mut i: usize = 0;
        while i < self.artists.len()
            invariant
                avs == self.artists.deep_view(),
                avs.len() == self.artists.len(),
                forall|k: int| 0 <= k < avs.len() ==> #[trigger] avs[k] == self.artists@[k].deep_view(),
                i <= self.artists.len(),
                forall|k: int| 0 <= k < i ==> (#[trigger] avs[k]).id != id@,
            decreases self.artists.len() - i,
        {
            if str_eq(self.artists[i].id.as_str(), id) {
                let a = self.artists[i].clone();
                assert(avs[i as int] == a.deep_view());
                return Some(a);
            }
            i = i + 1;
        }
        None
    }

    /// All albums owned by the artist.
    #[verifier::loop_isolation(false)]
    pub fn get_albums_by(&self, id: &str) -> (r: Vec<Album>)
        ensures
            r.deep_view() == self.albums.deep_view().filter(
                |a: AlbumView| a.artist_id == id@,
            ),
    {
        let ghost pred = |a: AlbumView| a.artist_id == id@;
        let ghost bvs = self.albums.deep_view();
        let mut r: Vec<Album> = Vec::new();
        let mut i: usize = 0;
        proof {
            reveal(Seq::filter);
            assert(bvs.take(0).filter(pred) =~= Seq::<AlbumView>::empty());
        }
        while i < self.albums.len()
            invariant
                i <= self.albums.len(),
                r.deep_view() == bvs.take(i as int).filter(pred),
            decreases self.albums.len() - i,
        {
            let ghost pre = r.deep_view();
            if str_eq(self.albums[i].artist_id.as_str(), id) {
                r.push(self.albums[i].clone());
                proof {
                    assert(r.deep_view() =~= pre.push(bvs[i as int]));
                }
            }
            proof {
                reveal(Seq::filter);
                let s = bvs.take(i + 1);
                assert(s.drop_last() =~= bvs.take(i as int));
                assert(s.last() == bvs[i as int]);
                assert(bvs[i as int] == self.albums@[i as int].deep_view());
                assert(r.deep_view() =~= s.filter(pred));
            }
            i = i + 1;
        }
        assert(bvs.take(bvs.len() as int) =~= bvs);
        r
    }

    /// All tracks of an album, keyed by their declared positions. Every
    /// matching track is returned, also when two declare the same
    /// position.
    #[verifier::loop_isolation(false)]
    pub fn get_tracks_in_album(&self, id_album: &str) -> (r: Vec<(u8, Track)>)
        ensures
            ({
                let picked = self.tracks.deep_view().filter(
                    |t: TrackView| t.album_id == id_album@,
                );
                &&& r@.len() == picked.len()
                &&& forall|k: int|
                    0 <= k < r@.len() ==> (#[trigger] r@[k]).0 == picked[k].position
                        && r@[k].1.deep_view() == picked[k]
            }),
    {
        let ghost pred = |t: TrackView| t.album_id == id_album@;
        let ghost tvs = self.tracks.deep_view();
        let mut r: Vec<(u8, Track)> = Vec::new();
        let mut i: usize = 0;
        proof {
            reveal(Seq::filter);
            assert(tvs.take(0).filter(pred) =~= Seq::<TrackView>::empty());
        }
        while i < self.tracks.len()
            invariant
                i <= self.tracks.len(),
                ({
                    let picked = tvs.take(i as int).filter(pred);
                    &&& r@.len() == picked.len()
                    &&& forall|k: int|
                        0 <= k < r@.len() ==> (#[trigger] r@[k]).0 == picked[k].position
                            && r@[k].1.deep_view() == picked[k]
                }),
            decreases self.tracks.len() - i,
        {
            if str_eq(self.tracks[i].album_id.as_str(), id_album) {
                let t = self.tracks[i].clone();
                let p = t.position;
                r.push((p, t));
            }
            proof {
                reveal(Seq::filter);
                let s = tvs.take(i + 1);
                assert(s.drop_last() =~= tvs.take(i as int));
                assert(s.last() == tvs[i as int]);
                assert(tvs[i as int] == self.tracks@[i as int].deep_view());
            }
            i = i + 1;
        }
        assert(tvs.take(tvs.len() as int) =~= tvs);
        r
    }

    /// Every artist record with a member list that names this artist id,
    /// regardless of join or leave dates.
    #[verifier::loop_isolation(false)]
    pub fn get_collectives(&self, id_artist: &str) -> (r: Vec<String>)
        ensures
            r.deep_view() == self.artists.deep_view().filter(
                |a: ArtistView| lists_member(a, id_artist@),
            ).map_values(|a: ArtistView| a.id),
    {
        let ghost pred = |a: ArtistView| lists_member(a, id_artist@);
        let ghost avs = self.artists.deep_view();
        let mut r: Vec<String> = Vec::new();
        let mut i: usize = 0;
        proof {
            reveal(Seq::filter);
            assert(avs.take(0).filter(pred).map_values(|a: ArtistView| a.id)
                =~= Seq::<Seq<char>>::empty());
        }
        while i < self.artists.len()
            invariant
                i <= self.artists.len(),
                r.deep_view() == avs.take(i as int).filter(pred).map_values(
                    |a: ArtistView| a.id,
                ),
            decreases self.artists.len() - i,
        {
            let ghost pre = r.deep_view();
            let is_in = match &self.artists[i].collective_members {
                Some(ms) => members_contain(ms, id_artist, false),
                None => false,
            };
            proof {
                assert(avs[i as int] == self.artists@[i as int].deep_view());
                assert(is_in == lists_member(avs[i as int], id_artist@));
            }
            if is_in {
                r.push(self.artists[i].id.clone());
                proof {
                    assert(r.deep_view() =~= pre.push(avs[i as int].id));
                }
            }
            proof {
                reveal(Seq::filter);
                let s = avs.take(i + 1);
                assert(s.drop_last() =~= avs.take(i as int));
                assert(s.last() == avs[i as int]);
                assert(r.deep_view() =~= s.filter(pred).map_values(|a: ArtistView| a.id));
            }
            i = i + 1;
        }
        assert(avs.take(avs.len() as int) =~= avs);
        r
    }

    /// Same, but a membership counts only while no leave date is recorded.
    #[verifier::loop_isolation(false)]
    pub fn get_collectives_active(&self, id_artist: &str) -> (r: Vec<String>)
        ensures
            r.deep_view() == self.artists.deep_view().filter(
                |a: ArtistView| lists_member_active(a, id_artist@),
            ).map_values(|a: ArtistView| a.id),
    {
        let ghost pred = |a: ArtistView| lists_member_active(a, id_artist@);
        let ghost avs = self.artists.deep_view();
        let mut r: Vec<String> = Vec::new();
        let mut i: usize = 0;
        proof {
            reveal(Seq::filter);
            assert(avs.take(0).filter(pred).map_values(|a: ArtistView| a.id)
                =~= Seq::<Seq<char>>::empty());
        }
        while i < self.artists.len()
            invariant
                i <= self.artists.len(),
                r.deep_view() == avs.take(i as int).filter(pred).map_values(
                    |a: ArtistView| a.id,
                ),
            decreases self.artists.len() - i,
        {
            let ghost pre = r.deep_view();
            let is_in = match &self.artists[i].collective_members {
                Some(ms) => members_contain(ms, id_artist, true),
                None => false,
            };
            proof {
                assert(avs[i as int] == self.artists@[i as int].deep_view());
                assert(is_in == lists_member_active(avs[i as int], id_artist@));
            }
            if is_in {
                r.push(self.artists[i].id.clone());
                proof {
                    assert(r.deep_view() =~= pre.push(avs[i as int].id));
                }
            }
            proof {
                reveal(Seq::filter);
                let s = avs.take(i + 1);
                assert(s.drop_last() =~= avs.take(i as int));
                assert(s.last() == avs[i as int]);
                assert(r.deep_view() =~= s.filter(pred).map_values(|a: ArtistView| a.id));
            }
            i = i + 1;
        }
        assert(avs.take(avs.len() as int) =~= avs);
        r
    }

    /// The deduplicated union of every contributing artist across all
    /// tracks of an album.
    #[verifier::loop_isolation(false)]
    pub fn get_album_artist_ids(&self, id_album: &str) -> (r: Vec<String>)
        ensures
            ({
                let tvs = self.tracks.deep_view();
                let ids = r.deep_view();
                &&& forall|k1: int, k2: int| 0 <= k1 < k2 < ids.len() ==> ids[k1] != ids[k2]
                &&& forall|k: int|
                    0 <= k < ids.len() ==> some_track_credits(tvs, id_album@, #[trigger] ids[k])
                &&& forall|i: int, j: int|
                    0 <= i < tvs.len() && tvs[i].album_id == id_album@ && 0 <= j
                        < tvs[i].artists.len() ==> ids.contains((#[trigger] tvs[i].artists[j]).id)
            }),
    {
        let ghost tvs = self.tracks.deep_view();
        let mut r: Vec<String> = Vec::new();
        let mut i: usize = 0;
        while i < self.tracks.len()
            invariant
                i <= self.tracks.len(),
                forall|k1: int, k2: int|
                    0 <= k1 < k2 < r.deep_view().len() ==> r.deep_view()[k1] != r.deep_view()[k2],
                forall|k: int|
                    0 <= k < r.deep_view().len() ==> some_track_credits(
                        tvs,
                        id_album@,
                        #[trigger] r.deep_view()[k],
                    ),
                forall|i2: int, j: int|
                    0 <= i2 < i && tvs[i2].album_id == id_album@ && 0 <= j
                        < tvs[i2].artists.len() ==> r.deep_view().contains(
                        (#[trigger] tvs[i2].artists[j]).id,
                    ),
            decreases self.tracks.len() - i,
        {
            let track = &self.tracks[i];
            proof {
                assert(tvs[i as int] == self.tracks@[i as int].deep_view());
            }
            if str_eq(track.album_id.as_str(), id_album) {
                let mut j: usize = 0;
                while j < track.artists.len()
                    invariant
                        i < self.tracks.len(),
                        tvs[i as int] == self.tracks@[i as int].deep_view(),
                        tvs[i as int].album_id == id_album@,
                        j <= track.artists.len(),
                        track == &self.tracks[i as int],
                        tvs[i as int].artists.len() == track.artists.len(),
                        forall|k1: int, k2: int|
                            0 <= k1 < k2 < r.deep_view().len() ==> r.deep_view()[k1]
                                != r.deep_view()[k2],
                        forall|k: int|
                            0 <= k < r.deep_view().len() ==> some_track_credits(
                                tvs,
                                id_album@,
                                #[trigger] r.deep_view()[k],
                            ),
                        forall|i2: int, j2: int|
                            0 <= i2 < i && tvs[i2].album_id == id_album@ && 0 <= j2
                                < tvs[i2].artists.len() ==> r.deep_view().contains(
                                (#[trigger] tvs[i2].artists[j2]).id,
                            ),
                        forall|j2: int|
                            0 <= j2 < j ==> r.deep_view().contains(
                                (#[trigger] tvs[i as int].artists[j2]).id,
                            ),
                    decreases track.artists.len() - j,
                {
                    let ghost pre = r.deep_view();
                    let aid = &track.artists[j];
                    proof {
                        assert(tvs[i as int].artists[j as int]
                            == track.artists@[j as int].deep_view());
                    }
                    if !vec_contains_str(&r, aid.id.as_str()) {
                        r.push(aid.id.clone());
                        proof {
                            let nid = tvs[i as int].artists[j as int].id;
                            assert(r.deep_view() =~= pre.push(nid));
                            assert(credits(tvs[i as int], nid));
                            assert(some_track_credits(tvs, id_album@, nid));
                            assert forall|k: int|
                                0 <= k < r.deep_view().len() implies some_track_credits(
                                tvs,
                                id_album@,
                                #[trigger] r.deep_view()[k],
                            ) by {
                                if k < pre.len() {
                                    assert(r.deep_view()[k] == pre[k]);
                                } else {
                                    assert(r.deep_view()[k] == nid);
                                }
                            }
                            assert forall|i2: int, j2: int|
                                0 <= i2 < i && tvs[i2].album_id == id_album@ && 0 <= j2
                                    < tvs[i2].artists.len() implies r.deep_view().contains(
                                (#[trigger] tvs[i2].artists[j2]).id,
                            ) by {
                                assert(pre.contains(tvs[i2].artists[j2].id));
                                let w = choose|w: int|
                                    0 <= w < pre.len() && pre[w] == tvs[i2].artists[j2].id;
                                assert(r.deep_view()[w] == tvs[i2].artists[j2].id);
                            }
                            assert forall|j2: int|
                                0 <= j2 < j + 1 implies r.deep_view().contains(
                                (#[trigger] tvs[i as int].artists[j2]).id,
                            ) by {
                                if j2 < j {
                                    assert(pre.contains(tvs[i as int].artists[j2].id));
                                    let w = choose|w: int|
                                        0 <= w < pre.len()
                                            && pre[w] == tvs[i as int].artists[j2].id;
                                    assert(r.deep_view()[w] == tvs[i as int].artists[j2].id);
                                } else {
                                    assert(r.deep_view()[pre.len() as int]
                                        == tvs[i as int].artists[j2].id);
                                }
                            }
                        }
                    } else {
                        proof {
                            assert(r.deep_view().contains(tvs[i as int].artists[j as int].id));
                        }
                    }
                    j = j + 1;
                }
            }
            i = i + 1;
        }
        r
    }

    /// All tracks crediting the artist that belong to the given album.
    #[verifier::loop_isolation(false)]
    fn tracks_crediting(&self, id_artist: &str, album_id: &str) -> (r: Vec<Track>)
        ensures
            r.deep_view() == group_of(self.tracks.deep_view(), id_artist@, album_id@),
    {
        let ghost pred = |t: TrackView| credits(t, id_artist@) && t.album_id == album_id@;
        let ghost tvs = self.tracks.deep_view();
        let mut r: Vec<Track> = Vec::new();
        let mut i: usize = 0;
        proof {
            reveal(Seq::filter);
            assert(tvs.take(0).filter(pred) =~= Seq::<TrackView>::empty());
        }
        while i < self.tracks.len()
            invariant
                i <= self.tracks.len(),
                r.deep_view() == tvs.take(i as int).filter(pred),
            decreases self.tracks.len() - i,
        {
            let ghost pre = r.deep_view();
            if track_credits(&self.tracks[i], id_artist) && str_eq(
                self.tracks[i].album_id.as_str(),
                album_id,
            ) {
                r.push(self.tracks[i].clone());
                proof {
                    assert(r.deep_view() =~= pre.push(tvs[i as int]));
                }
            }
            proof {
                reveal(Seq::filter);
                let sq = tvs.take(i + 1);
                assert(sq.drop_last() =~= tvs.take(i as int));
                assert(sq.last() == tvs[i as int]);
                assert(tvs[i as int] == self.tracks@[i as int].deep_view());
                assert(r.deep_view() =~= sq.filter(pred));
            }
            i = i + 1;
        }
        assert(tvs.take(tvs.len() as int) =~= tvs);
        r
    }

    /// Every track crediting this artist, as primary or contributing,
    /// grouped by the album it belongs to.
    #[verifier::loop_isolation(false)]
    pub fn get_tracks_by(&self, id_artist: &str) -> (r: Features)
        ensures
            grouping_ok(self.tracks.deep_view(), id_artist@, r@),
    {
        let ghost tvs = self.tracks.deep_view();
        let mut keys: Vec<String> = Vec::new();
        let mut i: usize = 0;
        while i < self.tracks.len()
            invariant
                i <= self.tracks.len(),
                forall|k1: int, k2: int|
                    0 <= k1 < k2 < keys.deep_view().len() ==> keys.deep_view()[k1]
                        != keys.deep_view()[k2],
                forall|k: int|
                    0 <= k < keys.deep_view().len() ==> some_credited(
                        tvs,
                        id_artist@,
                        #[trigger] keys.deep_view()[k],
                    ),
                forall|i2: int|
                    0 <= i2 < i && credits(#[trigger] tvs[i2], id_artist@)
                        ==> keys.deep_view().contains(tvs[i2].album_id),
            decreases self.tracks.len() - i,
        {
            let ghost pre = keys.deep_view();
            proof {
                assert(tvs[i as int] == self.tracks@[i as int].deep_view());
            }
            if track_credits(&self.tracks[i], id_artist) {
                if !vec_contains_str(&keys, self.tracks[i].album_id.as_str()) {
                    keys.push(self.tracks[i].album_id.clone());
                    proof {
                        assert(keys.deep_view() =~= pre.push(tvs[i as int].album_id));
                        assert forall|k: int|
                            0 <= k < keys.deep_view().len() implies some_credited(
                            tvs,
                            id_artist@,
                            #[trigger] keys.deep_view()[k],
                        ) by {
                            if k < pre.len() {
                                assert(keys.deep_view()[k] == pre[k]);
                            } else {
                                assert(keys.deep_view()[k] == tvs[i as int].album_id);
                            }
                        }
                        assert forall|i2: int|
                            0 <= i2 <= i && credits(#[trigger] tvs[i2], id_artist@)
                                implies keys.deep_view().contains(tvs[i2].album_id) by {
                            if i2 < i {
                                assert(pre.contains(tvs[i2].album_id));
                                let w = choose|w: int|
                                    0 <= w < pre.len() && pre[w] == tvs[i2].album_id;
                                assert(keys.deep_view()[w] == tvs[i2].album_id);
                            } else {
                                assert(keys.deep_view()[pre.len() as int] == tvs[i2].album_id);
                            }
                        }
                    }
                }
            }
            i = i + 1;
        }
        let kn: usize = keys.len();
        let mut r: Features = Vec::new();
        let mut j: usize = 0;
        while j < kn
            invariant
                kn == keys.len(),
                keys.deep_view().len() == kn,
                forall|k: int| 0 <= k < kn ==> #[trigger] keys.deep_view()[k] == keys@[k]@,
                forall|k1: int, k2: int|
                    0 <= k1 < k2 < kn ==> keys.deep_view()[k1] != keys.deep_view()[k2],
                forall|k: int|
                    0 <= k < kn ==> some_credited(tvs, id_artist@, #[trigger] keys.deep_view()[k]),
                forall|i2: int|
                    0 <= i2 < tvs.len() && credits(#[trigger] tvs[i2], id_artist@)
                        ==> keys.deep_view().contains(tvs[i2].album_id),
                j <= kn,
                r@.len() == j,
                forall|k: int|
                    0 <= k < j ==> (#[trigger] r@[k]).0@ == keys.deep_view()[k] && r@[
                        k
                    ].1.deep_view() == group_of(tvs, id_artist@, keys.deep_view()[k]),
            decreases kn - j,
        {
            let key = keys[j].clone();
            let group = self.tracks_crediting(id_artist, key.as_str());
            r.push((key, group));
            j = j + 1;
        }
        proof {
            assert forall|i2: int|
                0 <= i2 < tvs.len() && credits(#[trigger] tvs[i2], id_artist@) implies key_present(
                r@,
                tvs[i2].album_id,
            ) by {
                assert(keys.deep_view().contains(tvs[i2].album_id));
                let w = choose|w: int|
                    0 <= w < keys.deep_view().len() && keys.deep_view()[w] == tvs[i2].album_id;
                assert(r@[w].0@ == tvs[i2].album_id);
            }
        }
        r
    }

    /// The artist's appearances on other artists' albums: every track
    /// crediting the artist, grouped by album, excluding albums the artist
    /// owns.
    #[verifier::loop_isolation(false)]
    pub fn get_features_by(&self, id_artist: &str) -> (r: Features)
        requires
            self.wf(),
        ensures
            features_ok(self.tracks.deep_view(), self.albums.deep_view(), id_artist@, r@),
    {
        let ghost tvs = self.tracks.deep_view();
        let ghost bvs = self.albums.deep_view();
        let mut keys: Vec<String> = Vec::new();
        let mut i: usize = 0;
        while i < self.tracks.len()
            invariant
                self.wf(),
                tvs == self.tracks.deep_view(),
                bvs == self.albums.deep_view(),
                i <= self.tracks.len(),
                forall|k1: int, k2: int|
                    0 <= k1 < k2 < keys.deep_view().len() ==> keys.deep_view()[k1]
                        != keys.deep_view()[k2],
                forall|k: int|
                    0 <= k < keys.deep_view().len() ==> some_credited(
                        tvs,
                        id_artist@,
                        #[trigger] keys.deep_view()[k],
                    ),
                forall|k: int|
                    0 <= k < keys.deep_view().len() ==> has_album(
                        bvs,
                        #[trigger] keys.deep_view()[k],
                    ) && album_owner(bvs, keys.deep_view()[k]) != id_artist@,
                forall|i2: int|
                    0 <= i2 < i && credits(#[trigger] tvs[i2], id_artist@) && album_owner(
                        bvs,
                        tvs[i2].album_id,
                    ) != id_artist@ ==> keys.deep_view().contains(tvs[i2].album_id),
            decreases self.tracks.len() - i,
        {
            let ghost pre = keys.deep_view();
            proof {
                assert(tvs[i as int] == self.tracks@[i as int].deep_view());
            }
            if track_credits(&self.tracks[i], id_artist) {
                let album = self.get_album(self.tracks[i].album_id.as_str());
                proof {
                    lemma_album_owner_is(bvs, album.deep_view(), tvs[i as int].album_id);
                }
                if !str_eq(album.artist_id.as_str(), id_artist) {
                    if !vec_contains_str(&keys, self.tracks[i].album_id.as_str()) {
                        keys.push(self.tracks[i].album_id.clone());
                        proof {
                            assert(keys.deep_view() =~= pre.push(tvs[i as int].album_id));
                            assert forall|k: int|
                                0 <= k < keys.deep_view().len() implies some_credited(
                                tvs,
                                id_artist@,
                                #[trigger] keys.deep_view()[k],
                            ) && has_album(bvs, keys.deep_view()[k]) && album_owner(
                                bvs,
                                keys.deep_view()[k],
                            ) != id_artist@ by {
                                if k < pre.len() {
                                    assert(keys.deep_view()[k] == pre[k]);
                                } else {
                                    assert(keys.deep_view()[k] == tvs[i as int].album_id);
                                }
                            }
                            assert forall|i2: int|
                                0 <= i2 <= i && credits(#[trigger] tvs[i2], id_artist@)
                                    && album_owner(bvs, tvs[i2].album_id) != id_artist@
                                    implies keys.deep_view().contains(tvs[i2].album_id) by {
                                if i2 < i {
                                    assert(pre.contains(tvs[i2].album_id));
                                    let w = choose|w: int|
                                        0 <= w < pre.len() && pre[w] == tvs[i2].album_id;
                                    assert(keys.deep_view()[w] == tvs[i2].album_id);
                                } else {
                                    assert(keys.deep_view()[pre.len() as int]
                                        == tvs[i2].album_id);
                                }
                            }
                        }
                    }
                }
            }
            i = i + 1;
        }
        let kn: usize = keys.len();
        let mut r: Features = Vec::new();
        let mut j: usize = 0;
        while j < kn
            invariant
                kn == keys.len(),
                keys.deep_view().len() == kn,
                forall|k: int| 0 <= k < kn ==> #[trigger] keys.deep_view()[k] == keys@[k]@,
                forall|k1: int, k2: int|
                    0 <= k1 < k2 < kn ==> keys.deep_view()[k1] != keys.deep_view()[k2],
                forall|k: int|
                    0 <= k < kn ==> some_credited(tvs, id_artist@, #[trigger] keys.deep_view()[k]),
                forall|k: int|
                    0 <= k < kn ==> has_album(bvs, #[trigger] keys.deep_view()[k]) && album_owner(
                        bvs,
                        keys.deep_view()[k],
                    ) != id_artist@,
                forall|i2: int|
                    0 <= i2 < tvs.len() && credits(#[trigger] tvs[i2], id_artist@) && album_owner(
                        bvs,
                        tvs[i2].album_id,
                    ) != id_artist@ ==> keys.deep_view().contains(tvs[i2].album_id),
                tvs == self.tracks.deep_view(),
                j <= kn,
                r@.len() == j,
                forall|k: int|
                    0 <= k < j ==> (#[trigger] r@[k]).0@ == keys.deep_view()[k] && r@[
                        k
                    ].1.deep_view() == group_of(tvs, id_artist@, keys.deep_view()[k]),
            decreases kn - j,
        {
            let key = keys[j].clone();
            let group = self.tracks_crediting(id_artist, key.as_str());
            r.push((key, group));
            j = j + 1;
        }
        proof {
            assert forall|i2: int|
                0 <= i2 < tvs.len() && credits(#[trigger] tvs[i2], id_artist@) && album_owner(
                    bvs,
                    tvs[i2].album_id,
                ) != id_artist@ implies key_present(r@, tvs[i2].album_id) by {
                assert(keys.deep_view().contains(tvs[i2].album_id));
                let w = choose|w: int|
                    0 <= w < keys.deep_view().len() && keys.deep_view()[w] == tvs[i2].album_id;
                assert(r@[w].0@ == tvs[i2].album_id);
            }
        }
        r
    }

    /// Artists declaring the given country code.
    #[verifier::loop_isolation(false)]
    fn artists_from(&self, code: &str) -> (r: Vec<Artist>)
        ensures
            r.deep_view() == country_group(self.artists.deep_view(), code@),
    {
        let ghost pred = |a: ArtistView| a.country_code == Some(code@);
        let ghost avs = self.artists.deep_view();
        let mut r: Vec<Artist> = Vec::new();
        let mut i: usize = 0;
        proof {
            reveal(Seq::filter);
            assert(avs.take(0).filter(pred) =~= Seq::<ArtistView>::empty());
        }
        while i < self.artists.len()
            invariant
                i <= self.artists.len(),
                r.deep_view() == avs.take(i as int).filter(pred),
            decreases self.artists.len() - i,
        {
            let ghost pre = r.deep_view();
            let hit = match &self.artists[i].country_code {
                Some(cc) => str_eq(cc.as_str(), code),
                None => false,
            };
            proof {
                assert(avs[i as int] == self.artists@[i as int].deep_view());
                assert(hit == pred(avs[i as int]));
            }
            if hit {
                r.push(self.artists[i].clone());
                proof {
                    assert(r.deep_view() =~= pre.push(avs[i as int]));
                }
            }
            proof {
                reveal(Seq::filter);
                let sq = avs.take(i + 1);
                assert(sq.drop_last() =~= avs.take(i as int));
                assert(sq.last() == avs[i as int]);
                assert(r.deep_view() =~= sq.filter(pred));
            }
            i = i + 1;
        }
        assert(avs.take(avs.len() as int) =~= avs);
        r
    }

    /// All artists that declare a country, grouped by country code;
    /// artists without one are excluded.
    #[verifier::loop_isolation(false)]
    pub fn get_artists_by_country(&self) -> (r: ArtistsByCountry)
        ensures
            ({
                let avs = self.artists.deep_view();
                &&& forall|k1: int, k2: int| 0 <= k1 < k2 < r@.len() ==> r@[k1].0@ != r@[k2].0@
                &&& forall|k: int|
                    0 <= k < r@.len() ==> some_artist_from(avs, (#[trigger] r@[k]).0@)
                &&& forall|k: int|
                    0 <= k < r@.len() ==> (#[trigger] r@[k]).1.deep_view() == country_group(
                        avs,
                        r@[k].0@,
                    )
                &&& forall|i: int|
                    0 <= i < avs.len() && (#[trigger] avs[i]).country_code is Some
                        ==> country_key_present(r@, avs[i].country_code.unwrap())
            }),
    {
        let ghost avs = self.artists.deep_view();
        let mut keys: Vec<String> = Vec::new();
        let mut i: usize = 0;
        while i < self.artists.len()
            invariant
                avs == self.artists.deep_view(),
                avs.len() == self.artists.len(),
                forall|k: int| 0 <= k < avs.len() ==> #[trigger] avs[k] == self.artists@[k].deep_view(),
                i <= self.artists.len(),
                forall|k1: int, k2: int|
                    0 <= k1 < k2 < keys.deep_view().len() ==> keys.deep_view()[k1]
                        != keys.deep_view()[k2],
                forall|k: int|
                    0 <= k < keys.deep_view().len() ==> some_artist_from(
                        avs,
                        #[trigger] keys.deep_view()[k],
                    ),
                forall|i2: int|
                    0 <= i2 < i && (#[trigger] avs[i2]).country_code is Some
                        ==> keys.deep_view().contains(avs[i2].country_code.unwrap()),
            decreases self.artists.len() - i,
        {
            let ghost pre = keys.deep_view();
            match &self.artists[i].country_code {
                None => {},
                Some(cc) => {
                    proof {
                        assert(avs[i as int].country_code == Some(cc@));
                    }
                    if !vec_contains_str(&keys, cc.as_str()) {
                        keys.push(cc.clone());
                        proof {
                            assert(keys.deep_view() =~= pre.push(cc@));
                            assert forall|k: int|
                                0 <= k < keys.deep_view().len() implies some_artist_from(
                                avs,
                                #[trigger] keys.deep_view()[k],
                            ) by {
                                if k < pre.len() {
                                    assert(keys.deep_view()[k] == pre[k]);
                                } else {
                                    assert(keys.deep_view()[k] == cc@);
                                    assert(avs[i as int].country_code == Some(cc@));
                                }
                            }
                            assert forall|i2: int|
                                0 <= i2 <= i && (#[trigger] avs[i2]).country_code is Some
                                    implies keys.deep_view().contains(
                                avs[i2].country_code.unwrap(),
                            ) by {
                                if i2 < i {
                                    assert(pre.contains(avs[i2].country_code.unwrap()));
                                    let w = choose|w: int|
                                        0 <= w < pre.len() && pre[w] == avs[
                                            i2
                                        ].country_code.unwrap();
                                    assert(keys.deep_view()[w] == avs[i2].country_code.unwrap());
                                } else {
                                    assert(keys.deep_view()[pre.len() as int]
                                        == avs[i2].country_code.unwrap());
                                }
                            }
                        }
                    }
                },
            }
            i = i + 1;
        }
        let kn: usize = keys.len();
        let mut r: ArtistsByCountry = Vec::new();
        let mut j: usize = 0;
        while j < kn
            invariant
                kn == keys.len(),
                keys.deep_view().len() == kn,
                forall|k: int| 0 <= k < kn ==> #[trigger] keys.deep_view()[k] == keys@[k]@,
                forall|k1: int, k2: int|
                    0 <= k1 < k2 < kn ==> keys.deep_view()[k1] != keys.deep_view()[k2],
                forall|k: int|
                    0 <= k < kn ==> some_artist_from(avs, #[trigger] keys.deep_view()[k]),
                forall|i2: int|
                    0 <= i2 < avs.len() && (#[trigger] avs[i2]).country_code is Some
                        ==> keys.deep_view().contains(avs[i2].country_code.unwrap()),
                avs == self.artists.deep_view(),
                j <= kn,
                r@.len() == j,
                forall|k: int|
                    0 <= k < j ==> (#[trigger] r@[k]).0@ == keys.deep_view()[k] && r@[
                        k
                    ].1.deep_view() == country_group(avs, keys.deep_view()[k]),
            decreases kn - j,
        {
            let key = keys[j].clone();
            let group = self.artists_from(key.as_str());
            r.push((key, group));
            j = j + 1;
        }
        proof {
            assert forall|i2: int|
                0 <= i2 < avs.len() && (#[trigger] avs[i2]).country_code is Some
                    implies country_key_present(r@, avs[i2].country_code.unwrap()) by {
                assert(keys.deep_view().contains(avs[i2].country_code.unwrap()));
                let w = choose|w: int|
                    0 <= w < keys.deep_view().len() && keys.deep_view()[w] == avs[
                        i2
                    ].country_code.unwrap();
                assert(r@[w].0@ == avs[i2].country_code.unwrap());
            }
        }
        r
    }

    /// All individual artists (`collectives` false) or all collectives
    /// (`collectives` true), ordered by id.
    #[verifier::loop_isolation(false)]
    fn artists_ordered(&self, collectives: bool) -> (r: Vec<Artist>)
        ensures
            sorted_by_id(r.deep_view()),
            r.deep_view().to_multiset() == self.artists.deep_view().filter(
                |a: ArtistView| (a.collective_members is Some) == collectives,
            ).to_multiset(),
    {
        broadcast use vstd::seq_lib::group_to_multiset_ensures;

        let ghost pred = |a: ArtistView| (a.collective_members is Some) == collectives;
        let ghost avs = self.artists.deep_view();
        let mut r: Vec<Artist> = Vec::new();
        let mut i: usize = 0;
        proof {
            reveal(Seq::filter);
            assert(avs.take(0).filter(pred) =~= Seq::<ArtistView>::empty());
            assert(r.deep_view() =~= Seq::<ArtistView>::empty());
        }
        while i < self.artists.len()
            invariant
                i <= self.artists.len(),
                sorted_by_id(r.deep_view()),
                r.deep_view().to_multiset() == avs.take(i as int).filter(pred).to_multiset(),
            decreases self.artists.len() - i,
        {
            let is_c = match &self.artists[i].collective_members {
                Some(_) => true,
                None => false,
            };
            proof {
                assert(avs[i as int] == self.artists@[i as int].deep_view());
                reveal(Seq::filter);
                let sq = avs.take(i + 1);
                assert(sq.drop_last() =~= avs.take(i as int));
                assert(sq.last() == avs[i as int]);
            }
            if is_c == collectives {
                let a = self.artists[i].clone();
                proof {
                    assert(avs.take(i + 1).filter(pred) == avs.take(i as int).filter(pred).push(
                        avs[i as int],
                    ));
                    assert(avs.take(i + 1).filter(pred).to_multiset() =~= avs.take(
                        i as int,
                    ).filter(pred).to_multiset().insert(avs[i as int]));
                }
                insert_by_id(&mut r, a);
            }
            i = i + 1;
        }
        assert(avs.take(avs.len() as int) =~= avs);
        r
    }

    /// The individual artists, ordered by id.
    pub fn get_artists_sorted(&self) -> (r: Vec<Artist>)
        ensures
            sorted_by_id(r.deep_view()),
            r.deep_view().to_multiset() == self.artists.deep_view().filter(
                |a: ArtistView| a.collective_members is None,
            ).to_multiset(),
    {
        let r = self.artists_ordered(false);
        proof {
            let p1 = |a: ArtistView| (a.collective_members is Some) == false;
            let p2 = |a: ArtistView| a.collective_members is None;
            assert(self.artists.deep_view().filter(p1) =~= self.artists.deep_view().filter(p2))
                by {
                reveal(Seq::filter);
                lemma_filter_agree(self.artists.deep_view(), p1, p2);
            }
        }
        r
    }

    /// The collectives, ordered by id.
    pub fn get_collectives_sorted(&self) -> (r: Vec<Artist>)
        ensures
            sorted_by_id(r.deep_view()),
            r.deep_view().to_multiset() == self.artists.deep_view().filter(
                |a: ArtistView| a.collective_members is Some,
            ).to_multiset(),
    {
        let r = self.artists_ordered(true);
        proof {
            let p1 = |a: ArtistView| (a.collective_members is Some) == true;
            let p2 = |a: ArtistView| a.collective_members is Some;
            assert(self.artists.deep_view().filter(p1) =~= self.artists.deep_view().filter(p2))
                by {
                reveal(Seq::filter);
                lemma_filter_agree(self.artists.deep_view(), p1, p2);
            }
        }
        r
    }

    /// Sample lookup; the catalog does not hold standalone samples.
    pub fn get_sample(&self, id_sample: &str) -> (r: Option<Sample>)
        ensures
            r is None,
    {
        None
    }
}

/// Artist ids ascend in lexicographic order.
pub open spec fn sorted_by_id(s: Seq<ArtistView>) -> bool {
    forall|i: int, j: int|
        0 <= i < j < s.len() ==> crate::text::lex_le((#[trigger] s[i]).id, (#[trigger] s[j]).id)
}

proof fn lemma_filter_agree(s: Seq<ArtistView>, p1: spec_fn(ArtistView) -> bool, p2: spec_fn(
    ArtistView,
) -> bool)
    requires
        forall|a: ArtistView| #[trigger] p1(a) == #[trigger] p2(a),
    ensures
        s.filter(p1) == s.filter(p2),
    decreases s.len(),
{
    reveal(Seq::filter);
    if s.len() > 0 {
        lemma_filter_agree(s.drop_last(), p1, p2);
    }
}

/// Inserts an artist into an id-ordered list, keeping the order.
#[verifier::loop_isolation(false)]
fn insert_by_id(list: &mut Vec<Artist>, a: Artist)
    requires
        sorted_by_id(old(list).deep_view()),
    ensures
        sorted_by_id(final(list).deep_view()),
        final(list).deep_view().to_multiset() == old(list).deep_view().to_multiset().insert(
            a.deep_view(),
        ),
{
    broadcast use vstd::seq_lib::group_to_multiset_ensures;

    let ghost pre = list.deep_view();
    let ghost av = a.deep_view();
    let mut i: usize = 0;
    let mut found: bool = false;
    while !found && i < list.len()
        invariant
            pre == list.deep_view(),
            pre.len() == list.len(),
            av == a.deep_view(),
            i <= list.len(),
            forall|j: int| 0 <= j < i ==> !crate::text::lex_le(av.id, (#[trigger] pre[j]).id),
            found ==> i < list.len() && crate::text::lex_le(av.id, pre[i as int].id),
        decreases 2 * (list.len() - i) + (if found { 0int } else { 1int }),
    {
        proof {
            assert(pre[i as int] == list@[i as int].deep_view());
        }
        if crate::text::str_le(a.id.as_str(), list[i].id.as_str()) {
            found = true;
        } else {
            i = i + 1;
        }
    }
    let ghost pos = i as int;
    list.insert(i, a);
    proof {
        let cur = list.deep_view();
        assert(cur =~= pre.insert(pos, av));
        assert(sorted_by_id(cur)) by {
            assert forall|x: int, y: int|
                0 <= x < y < cur.len() implies crate::text::lex_le(
                (#[trigger] cur[x]).id,
                (#[trigger] cur[y]).id,
            ) by {
                if x < pos && y < pos {
                    assert(cur[x] == pre[x] && cur[y] == pre[y]);
                } else if x < pos && y == pos {
                    assert(cur[x] == pre[x] && cur[y] == av);
                    assert(!crate::text::lex_le(av.id, pre[x].id));
                    crate::text::lemma_lex_le_total(av.id, pre[x].id);
                } else if x < pos && y > pos {
                    assert(cur[x] == pre[x] && cur[y] == pre[y - 1]);
                } else if x == pos {
                    assert(cur[x] == av && cur[y] == pre[y - 1]);
                    assert(crate::text::lex_le(av.id, pre[pos].id));
                    if y - 1 > pos {
                        assert(crate::text::lex_le(pre[pos].id, pre[y - 1].id));
                        crate::text::lemma_lex_le_trans(av.id, pre[pos].id, pre[y - 1].id);
                    }
                } else {
                    assert(cur[x] == pre[x - 1] && cur[y] == pre[y - 1]);
                }
            }
        }
        assert(cur.to_multiset() =~= pre.to_multiset().insert(av)) by {
            assert(cur.remove(pos) =~= pre);
            assert(cur.remove(pos).to_multiset() =~= cur.to_multiset().remove(cur[pos]));
            assert(cur[pos] == av);
            assert(cur.to_multiset().contains(av)) by {
                assert(cur.contains(av));
            }
            assert(pre.to_multiset().insert(av) =~= cur.to_multiset().remove(av).insert(av));
            assert(cur.to_multiset().remove(av).insert(av) =~= cur.to_multiset());
        }
    }
}

/// The display line of a country entry: emoji, name, and artist count.
pub open spec fn country_line(c: CountryView, n: nat) -> Seq<char> {
    c.emoji + seq![' '] + c.name + seq![' ', '('] + crate::text::dec_of(n) + seq![')']
}

/// Renders the index entry of a country, or nothing when no loaded artist
/// comes from it. The first group with the country's code counts.
pub fn make_country(country: &Country, artists: &ArtistsByCountry) -> (r: Option<String>)
    ensures
        ({
            let code = country.deep_view().code;
            match r {
                Some(s) => exists|k: int|
                    0 <= k < artists@.len() && (#[trigger] artists@[k]).0@ == code && (forall|
                        j: int,
                    |
                        0 <= j < k ==> (#[trigger] artists@[j]).0@ != code) && artists@[k].1@.len()
                        > 0 && s@ == country_line(
                        country.deep_view(),
                        artists@[k].1@.len() as nat,
                    ),
                None => forall|k: int|
                    0 <= k < artists@.len() && (#[trigger] artists@[k]).0@ == code && (forall|
                        j: int,
                    |
                        0 <= j < k ==> (#[trigger] artists@[j]).0@ != code) ==> artists@[
                        k
                    ].1@.len() == 0,
            }
        }),
{
    let ghost code = country.deep_view().code;
    let mut i: usize = 0;
    while i < artists.len()
        invariant
            code == country.deep_view().code,
            i <= artists.len(),
            forall|j: int| 0 <= j < i ==> (#[trigger] artists@[j]).0@ != code,
        decreases artists.len() - i,
    {
        if str_eq(artists[i].0.as_str(), country.code.as_str()) {
            let group = &artists[i].1;
            if group.len() == 0 {
                return None;
            }
            let n: u64 = group.len() as u64;
            let mut out = String::new();
            out.append(country.emoji.as_str());
            crate::text::push_char(&mut out, ' ');
            out.append(country.name.as_str());
            crate::text::push_char(&mut out, ' ');
            crate::text::push_char(&mut out, '(');
            crate::text::push_dec_u64(&mut out, n);
            crate::text::push_char(&mut out, ')');
            assert(out@ =~= country_line(country.deep_view(), artists@[i as int].1@.len() as nat));
            return Some(out);
        }
        i = i + 1;
    }
    None
}

/// Some track of the listing declares the position.
pub open spec fn position_declared(picked: Seq<TrackView>, p: int) -> bool {
    exists|k: int| 0 <= k < picked.len() && (#[trigger] picked[k]).position == p
}

/// Law: when the tracks of an album declare pairwise-distinct positions
/// that all lie in `1..=n`, and there are `n` of them, then every position
/// of `1..=n` is declared exactly once: the album listing that
/// `get_tracks_in_album` returns has no gaps and no duplicates.
pub proof fn lemma_positions_cover(picked: Seq<TrackView>, n: int)
    requires
        0 <= n,
        picked.len() == n,
        forall|a: int, b: int|
            0 <= a < b < picked.len() ==> (#[trigger] picked[a]).position != (
            #[trigger] picked[b]).position,
        forall|k: int| 0 <= k < picked.len() ==> 1 <= (#[trigger] picked[k]).position <= n,
    ensures
        forall|p: int| 1 <= p <= n ==> #[trigger] position_declared(picked, p),
{
    broadcast use vstd::seq_lib::group_seq_properties;

    let ps = Seq::new(picked.len(), |k: int| picked[k].position as int);
    assert(ps.no_duplicates()) by {
        assert forall|a: int, b: int|
            0 <= a < ps.len() && 0 <= b < ps.len() && a != b implies ps[a] != ps[b] by {
            if a < b {
                assert(picked[a].position != picked[b].position);
            } else {
                assert(picked[b].position != picked[a].position);
            }
        }
    }
    ps.unique_seq_to_set();
    let range = vstd::set_lib::set_int_range(1, n + 1);
    vstd::set_lib::lemma_int_range(1, n + 1);
    assert(ps.to_set().subset_of(range)) by {
        assert forall|p: int| ps.to_set().contains(p) implies range.contains(p) by {
            let k = choose|k: int| 0 <= k < ps.len() && ps[k] == p;
            assert(1 <= picked[k].position <= n);
        }
    }
    vstd::set_lib::lemma_len_subset(ps.to_set(), range);
    vstd::set_lib::lemma_subset_equality(ps.to_set(), range);
    assert forall|p: int| 1 <= p <= n implies #[trigger] position_declared(picked, p) by {
        assert(range.contains(p));
        assert(ps.to_set().contains(p));
        let k = choose|k: int| 0 <= k < ps.len() && ps[k] == p;
        assert(picked[k].position == p);
    }
}

} // verus!
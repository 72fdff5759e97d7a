//! The catalog's entity types: artists (including collectives), albums,
//! tracks with their credited artists, locations and samples, decoded
//! waveforms, and countries. All time values are [`Duration`]s in whole
//! seconds and all dates are plain [`Date`] values; every entity is keyed by
//! a slug identifier. Each entity has a mathematical view over which the
//! catalog's contracts are stated.

use vstd::prelude::*;
use crate::duration::Duration;
use crate::text::contains_seq;

verus! {

/// A calendar date as plain fields; validation happens at the loading edge.
#[derive(Clone, Copy, Debug, PartialEq, Eq, Structural)]
pub struct Date {
    pub year: i32,
    pub month: u8,
    pub day: u8,
}

impl DeepView for Date {
    type V = Date;

    open spec fn deep_view(&self) -> Date {
        *self
    }
}

/// An artist, or a collective when `collective_members` is present.
#[derive(Debug)]
pub struct Artist {
    pub id: String,
    pub name: String,
    pub image_url: String,
    pub country_code: Option<String>,
    pub description: Option<String>,
    pub collective_members: Option<Vec<CollectiveMember>>,
    pub logo_url: Option<String>,
    pub urls: Vec<String>,
}

/// Membership of an artist in a collective, with optional join/leave dates.
#[derive(Debug)]
pub struct CollectiveMember {
    pub id: String,
    pub joined: Option<Date>,
    pub left: Option<Date>,
}

/// An album owned by one artist.
#[derive(Debug)]
pub struct Album {
    pub id: String,
    pub name: String,
    pub artist_id: String,
    pub genres: Vec<String>,
    pub released: Date,
    pub duration: Duration,
    pub cover_url: String,
    pub track_count: u8,
    pub urls: Vec<String>,
}

/// A track within an album, at a declared 1-based position.
#[derive(Debug)]
pub struct Track {
    pub id: String,
    pub name: String,
    pub position: u8,
    pub artist_id: String,
    pub album_id: String,
    pub duration: Duration,
    pub artists: Vec<TrackArtist>,
    pub locations: Vec<Location>,
    pub samples: Vec<TrackSample>,
    pub wave: Option<Wave>,
}

/// One credited artist on a track, with an optional role.
#[derive(Debug)]
pub struct TrackArtist {
    pub id: String,
    pub credited_for: Option<String>,
}

/// An external playback location, with an optional time offset.
#[derive(Debug)]
pub struct Location {
    pub url: String,
    pub at: Option<Duration>,
}

/// A sample used by a track, with the time ranges where it occurs.
#[derive(Debug)]
pub struct TrackSample {
    pub id: String,
    pub media: String,
    pub artist: String,
    pub name: String,
    pub kind: String,
    pub occurances: Vec<SampleOccurance>,
}

/// Where a sample occurs in a track (`from`..`to`) and where that range
/// starts in the source (`at`).
#[derive(Clone, Copy, Debug, PartialEq, Eq, Structural)]
pub struct SampleOccurance {
    pub from: Duration,
    pub to: Duration,
    pub at: Duration,
}

impl DeepView for SampleOccurance {
    type V = SampleOccurance;

    open spec fn deep_view(&self) -> SampleOccurance {
        *self
    }
}

/// A decoded waveform: one amplitude byte per point.
#[derive(Debug)]
pub struct Wave {
    pub length: i32,
    pub points: Vec<u8>,
}

/// A standalone sample entity.
pub struct Sample {
    pub id: String,
    pub media: SampleMedia,
}

/// The source medium of a sample.
pub enum SampleMedia {
    Song(Track),
}

/// A country from the static reference list.
#[derive(Debug)]
pub struct Country {
    pub name: String,
    pub code: String,
    pub emoji: String,
}

/// Mathematical view of a [`CollectiveMember`].
#[verifier::ext_equal]
pub ghost struct CollectiveMemberView {
    pub id: Seq<char>,
    pub joined: Option<Date>,
    pub left: Option<Date>,
}

impl DeepView for CollectiveMember {
    type V = CollectiveMemberView;

    open spec fn deep_view(&self) -> CollectiveMemberView {
        CollectiveMemberView { id: self.id@, joined: self.joined, left: self.left }
    }
}

/// Mathematical view of an [`Artist`].
#[verifier::ext_equal]
pub ghost struct ArtistView {
    pub id: Seq<char>,
    pub name: Seq<char>,
    pub image_url: Seq<char>,
    pub country_code: Option<Seq<char>>,
    pub description: Option<Seq<char>>,
    pub collective_members: Option<Seq<CollectiveMemberView>>,
    pub logo_url: Option<Seq<char>>,
    pub urls: Seq<Seq<char>>,
}

impl DeepView for Artist {
    type V = ArtistView;

    open spec fn deep_view(&self) -> ArtistView {
        ArtistView {
            id: self.id@,
            name: self.name@,
            image_url: self.image_url@,
            country_code: self.country_code.deep_view(),
            description: self.description.deep_view(),
            collective_members: self.collective_members.deep_view(),
            logo_url: self.logo_url.deep_view(),
            urls: self.urls.deep_view(),
        }
    }
}

/// Mathematical view of an [`Album`].
#[verifier::ext_equal]
pub ghost struct AlbumView {
    pub id: Seq<char>,
    pub name: Seq<char>,
    pub artist_id: Seq<char>,
    pub genres: Seq<Seq<char>>,
    pub released: Date,
    pub duration: Duration,
    pub cover_url: Seq<char>,
    pub track_count: u8,
    pub urls: Seq<Seq<char>>,
}

impl DeepView for Album {
    type V = AlbumView;

    open spec fn deep_view(&self) -> AlbumView {
        AlbumView {
            id: self.id@,
            name: self.name@,
            artist_id: self.artist_id@,
            genres: self.genres.deep_view(),
            released: self.released,
            duration: self.duration,
            cover_url: self.cover_url@,
            track_count: self.track_count,
            urls: self.urls.deep_view(),
        }
    }
}

/// Mathematical view of a [`TrackArtist`].
#[verifier::ext_equal]
pub ghost struct TrackArtistView {
    pub id: Seq<char>,
    pub credited_for: Option<Seq<char>>,
}

impl DeepView for TrackArtist {
    type V = TrackArtistView;

    open spec fn deep_view(&self) -> TrackArtistView {
        TrackArtistView { id: self.id@, credited_for: self.credited_for.deep_view() }
    }
}

/// Mathematical view of a [`Location`].
#[verifier::ext_equal]
pub ghost struct LocationView {
    pub url: Seq<char>,
    pub at: Option<Duration>,
}

impl DeepView for Location {
    type V = LocationView;

    open spec fn deep_view(&self) -> LocationView {
        LocationView { url: self.url@, at: self.at }
    }
}

/// Mathematical view of a [`TrackSample`].
#[verifier::ext_equal]
pub ghost struct TrackSampleView {
    pub id: Seq<char>,
    pub media: Seq<char>,
    pub artist: Seq<char>,
    pub name: Seq<char>,
    pub kind: Seq<char>,
    pub occurances: Seq<SampleOccurance>,
}

impl DeepView for TrackSample {
    type V = TrackSampleView;

    open spec fn deep_view(&self) -> TrackSampleView {
        TrackSampleView {
            id: self.id@,
            media: self.media@,
            artist: self.artist@,
            name: self.name@,
            kind: self.kind@,
            occurances: self.occurances.deep_view(),
        }
    }
}

/// Mathematical view of a [`Wave`].
#[verifier::ext_equal]
pub ghost struct WaveView {
    pub length: i32,
    pub points: Seq<u8>,
}

impl DeepView for Wave {
    type V = WaveView;

    open spec fn deep_view(&self) -> WaveView {
        WaveView { length: self.length, points: self.points@ }
    }
}

/// Mathematical view of a [`Track`].
#[verifier::ext_equal]
pub ghost struct TrackView {
    pub id: Seq<char>,
    pub name: Seq<char>,
    pub position: u8,
    pub artist_id: Seq<char>,
    pub album_id: Seq<char>,
    pub duration: Duration,
    pub artists: Seq<TrackArtistView>,
    pub locations: Seq<LocationView>,
    pub samples: Seq<TrackSampleView>,
    pub wave: Option<WaveView>,
}

impl DeepView for Track {
    type V = TrackView;

    open spec fn deep_view(&self) -> TrackView {
        TrackView {
            id: self.id@,
            name: self.name@,
            position: self.position,
            artist_id: self.artist_id@,
            album_id: self.album_id@,
            duration: self.duration,
            artists: self.artists.deep_view(),
            locations: self.locations.deep_view(),
            samples: self.samples.deep_view(),
            wave: self.wave.deep_view(),
        }
    }
}

/// Mathematical view of a [`Country`].
#[verifier::ext_equal]
pub ghost struct CountryView {
    pub name: Seq<char>,
    pub code: Seq<char>,
    pub emoji: Seq<char>,
}

impl DeepView for Country {
    type V = CountryView;

    open spec fn deep_view(&self) -> CountryView {
        CountryView { name: self.name@, code: self.code@, emoji: self.emoji@ }
    }
}

pub(crate) fn clone_opt_string(o: &Option<String>) -> (r: Option<String>)
    ensures
        r.deep_view() == o.deep_view(),
{
    match o {
        Option::None => Option::None,
        Option::Some(s) => Option::Some(s.clone()),
    }
}

pub(crate) fn clone_vec_string(v: &Vec<String>) -> (r: Vec<String>)
    ensures
        r@ == v@,
        r.deep_view() == v.deep_view(),
{
    let mut r: Vec<String> = Vec::new();
    let mut i: usize = 0;
    while i < v.len()
        invariant
            i <= v.len(),
            r@ == v@.take(i as int),
        decreases v.len() - i,
    {
        r.push(v[i].clone());
        assert(r@ =~= v@.take(i + 1));
        i = i + 1;
    }
    assert(v@.take(v@.len() as int) =~= v@);
    assert(r.deep_view() =~= v.deep_view());
    r
}

fn clone_vec_u8(v: &Vec<u8>) -> (r: Vec<u8>)
    ensures
        r@ == v@,
{
    let mut r: Vec<u8> = Vec::new();
    let mut i: usize = 0;
    while i < v.len()
        invariant
            i <= v.len(),
            r@ == v@.take(i as int),
        decreases v.len() - i,
    {
        r.push(v[i]);
        assert(r@ =~= v@.take(i + 1));
        i = i + 1;
    }
    assert(v@.take(v@.len() as int) =~= v@);
    r
}

impl Clone for CollectiveMember {
    /// An exact copy, up to the member's view.
    fn clone(&self) -> (r: Self)
        ensures
            r.deep_view() == self.deep_view(),
    {
        let r = CollectiveMember { id: self.id.clone(), joined: self.joined, left: self.left };
        assert(r.deep_view() =~= self.deep_view());
        r
    }
}

impl Clone for Artist {
    /// An exact copy, up to the artist's view.
    fn clone(&self) -> (r: Self)
        ensures
            r.deep_view() == self.deep_view(),
    {
        let members: Option<Vec<CollectiveMember>> = match &self.collective_members {
            Option::None => Option::None,
            Option::Some(ms) => {
                let mut out: Vec<CollectiveMember> = Vec::new();
                let mut i: usize = 0;
                while i < ms.len()
                    invariant
                        i <= ms.len(),
                        out@.len() == i,
                        forall|t: int|
                            0 <= t < i ==> #[trigger] out@[t].deep_view() == ms@[t].deep_view(),
                    decreases ms.len() - i,
                {
                    out.push(ms[i].clone());
                    i = i + 1;
                }
                assert(out.deep_view() =~= ms.deep_view());
                Option::Some(out)
            },
        };
        let r = Artist {
            id: self.id.clone(),
            name: self.name.clone(),
            image_url: self.image_url.clone(),
            country_code: clone_opt_string(&self.country_code),
            description: clone_opt_string(&self.description),
            collective_members: members,
            logo_url: clone_opt_string(&self.logo_url),
            urls: clone_vec_string(&self.urls),
        };
        assert(r.collective_members.deep_view() == self.collective_members.deep_view()) by {
            if self.collective_members is Some {
                assert(r.collective_members.deep_view() =~= self.collective_members.deep_view());
            }
        }
        assert(r.deep_view() =~= self.deep_view());
        r
    }
}

impl Clone for Album {
    /// An exact copy, up to the album's view.
    fn clone(&self) -> (r: Self)
        ensures
            r.deep_view() == self.deep_view(),
    {
        let r = Album {
            id: self.id.clone(),
            name: self.name.clone(),
            artist_id: self.artist_id.clone(),
            genres: clone_vec_string(&self.genres),
            released: self.released,
            duration: self.duration,
            cover_url: self.cover_url.clone(),
            track_count: self.track_count,
            urls: clone_vec_string(&self.urls),
        };
        assert(r.deep_view() =~= self.deep_view());
        r
    }
}

impl Clone for TrackArtist {
    /// An exact copy, up to the credit's view.
    fn clone(&self) -> (r: Self)
        ensures
            r.deep_view() == self.deep_view(),
    {
        let r = TrackArtist {
            id: self.id.clone(),
            credited_for: clone_opt_string(&self.credited_for),
        };
        assert(r.deep_view() =~= self.deep_view());
        r
    }
}

impl Clone for Location {
    /// An exact copy, up to the location's view.
    fn clone(&self) -> (r: Self)
        ensures
            r.deep_view() == self.deep_view(),
    {
        let r = Location { url: self.url.clone(), at: self.at };
        assert(r.deep_view() =~= self.deep_view());
        r
    }
}

impl Clone for TrackSample {
    /// An exact copy, up to the sample's view.
    fn clone(&self) -> (r: Self)
        ensures
            r.deep_view() == self.deep_view(),
    {
        let mut occ: Vec<SampleOccurance> = Vec::new();
        let mut i: usize = 0;
        while i < self.occurances.len()
            invariant
                i <= self.occurances.len(),
                occ@ == self.occurances@.take(i as int),
            decreases self.occurances.len() - i,
        {
            occ.push(self.occurances[i]);
            assert(occ@ =~= self.occurances@.take(i + 1));
            i = i + 1;
        }
        assert(self.occurances@.take(self.occurances@.len() as int) =~= self.occurances@);
        let r = TrackSample {
            id: self.id.clone(),
            media: self.media.clone(),
            artist: self.artist.clone(),
            name: self.name.clone(),
            kind: self.kind.clone(),
            occurances: occ,
        };
        assert(r.occurances.deep_view() =~= self.occurances.deep_view());
        assert(r.deep_view() =~= self.deep_view());
        r
    }
}

impl Clone for Wave {
    /// An exact copy, up to the waveform's view.
    fn clone(&self) -> (r: Self)
        ensures
            r.deep_view() == self.deep_view(),
    {
        let r = Wave { length: self.length, points: clone_vec_u8(&self.points) };
        assert(r.deep_view() =~= self.deep_view());
        r
    }
}

impl Clone for Track {
    /// An exact copy, up to the track's view.
    fn clone(&self) -> (r: Self)
        ensures
            r.deep_view() == self.deep_view(),
    {
        let mut artists: Vec<TrackArtist> = Vec::new();
        let mut i: usize = 0;
        while i < self.artists.len()
            invariant
                i <= self.artists.len(),
                artists@.len() == i,
                forall|t: int|
                    0 <= t < i ==> #[trigger] artists@[t].deep_view()
                        == self.artists@[t].deep_view(),
            decreases self.artists.len() - i,
        {
            artists.push(self.artists[i].clone());
            i = i + 1;
        }
        assert(artists.deep_view() =~= self.artists.deep_view());

        let mut locations: Vec<Location> = Vec::new();
        let mut j: usize = 0;
        while j < self.locations.len()
            invariant
                j <= self.locations.len(),
                locations@.len() == j,
                forall|t: int|
                    0 <= t < j ==> #[trigger] locations@[t].deep_view()
                        == self.locations@[t].deep_view(),
            decreases self.locations.len() - j,
        {
            locations.push(self.locations[j].clone());
            j = j + 1;
        }
        assert(locations.deep_view() =~= self.locations.deep_view());

        let mut samples: Vec<TrackSample> = Vec::new();
        let mut k: usize = 0;
        while k < self.samples.len()
            invariant
                k <= self.samples.len(),
                samples@.len() == k,
                forall|t: int|
                    0 <= t < k ==> #[trigger] samples@[t].deep_view()
                        == self.samples@[t].deep_view(),
            decreases self.samples.len() - k,
        {
            samples.push(self.samples[k].clone());
            k = k + 1;
        }
        assert(samples.deep_view() =~= self.samples.deep_view());

        let wave: Option<Wave> = match &self.wave {
            Option::None => Option::None,
            Option::Some(w) => Option::Some(w.clone()),
        };
        let r = Track {
            id: self.id.clone(),
            name: self.name.clone(),
            position: self.position,
            artist_id: self.artist_id.clone(),
            album_id: self.album_id.clone(),
            duration: self.duration,
            artists,
            locations,
            samples,
            wave,
        };
        assert(r.deep_view() =~= self.deep_view());
        r
    }
}

impl Clone for Country {
    /// An exact copy, up to the country's view.
    fn clone(&self) -> (r: Self)
        ensures
            r.deep_view() == self.deep_view(),
    {
        let r = Country {
            name: self.name.clone(),
            code: self.code.clone(),
            emoji: self.emoji.clone(),
        };
        assert(r.deep_view() =~= self.deep_view());
        r
    }
}

/// What a first-match URL lookup returns: the first entry of `us` that
/// contains `key`, or nothing when no entry does.
pub open spec fn url_match_spec(us: Seq<Seq<char>>, key: Seq<char>, r: Option<String>) -> bool {
    match r {
        Option::Some(u) => exists|i: int|
            0 <= i < us.len() && u@ == us[i] && contains_seq(us[i], key) && (forall|j: int|
                0 <= j < i ==> !contains_seq(#[trigger] us[j], key)),
        Option::None => forall|i: int| 0 <= i < us.len() ==> !contains_seq(#[trigger] us[i], key),
    }
}

/// First URL of `urls` that contains `key`.
fn first_url_with(urls: &Vec<String>, key: &str) -> (r: Option<String>)
    ensures
        url_match_spec(urls.deep_view(), key@, r),
{
    let ghost us = urls.deep_view();
    let mut i: usize = 0;
    while i < urls.len()
        invariant
            us == urls.deep_view(),
            us.len() == urls.len(),
            forall|k: int| 0 <= k < us.len() ==> #[trigger] us[k] == urls@[k]@,
            i <= urls.len(),
            forall|j: int| 0 <= j < i ==> !contains_seq(#[trigger] us[j], key@),
        decreases urls.len() - i,
    {
        if crate::text::contains_sub(urls[i].as_str(), key) {
            let u = urls[i].clone();
            assert(u@ == us[i as int]);
            return Option::Some(u);
        }
        i = i + 1;
    }
    Option::None
}

pub const URL_BANDCAMP: &'static str = "bandcamp.com";

pub const URL_SOUNDCLOUD: &'static str = "soundcloud.com";

pub const URL_YOUTUBE: &'static str = "youtube.com";

pub const URL_SPOTIFY: &'static str = "spotify.com";

pub const URL_APPLE: &'static str = "apple.com";

impl Artist {
    /// First listed URL of this artist that contains `url_key`.
    fn url(&self, url_key: &str) -> (r: Option<String>)
        ensures
            url_match_spec(self.urls.deep_view(), url_key@, r),
    {
        first_url_with(&self.urls, url_key)
    }

    pub fn url_bandcamp(&self) -> (r: Option<String>)
        ensures
            url_match_spec(self.urls.deep_view(), URL_BANDCAMP@, r),
    {
        self.url(URL_BANDCAMP)
    }

    pub fn url_soundcloud(&self) -> (r: Option<String>)
        ensures
            url_match_spec(self.urls.deep_view(), URL_SOUNDCLOUD@, r),
    {
        self.url(URL_SOUNDCLOUD)
    }

    pub fn url_youtube(&self) -> (r: Option<String>)
        ensures
            url_match_spec(self.urls.deep_view(), URL_YOUTUBE@, r),
    {
        self.url(URL_YOUTUBE)
    }

    pub fn url_spotify(&self) -> (r: Option<String>)
        ensures
            url_match_spec(self.urls.deep_view(), URL_SPOTIFY@, r),
    {
        self.url(URL_SPOTIFY)
    }

    pub fn url_apple(&self) -> (r: Option<String>)
        ensures
            url_match_spec(self.urls.deep_view(), URL_APPLE@, r),
    {
        self.url(URL_APPLE)
    }
}

impl Album {
    /// First listed URL of this album that contains `url_key`.
    fn url(&self, url_key: &str) -> (r: Option<String>)
        ensures
            url_match_spec(self.urls.deep_view(), url_key@, r),
    {
        first_url_with(&self.urls, url_key)
    }

    pub fn url_bandcamp(&self) -> (r: Option<String>)
        ensures
            url_match_spec(self.urls.deep_view(), URL_BANDCAMP@, r),
    {
        self.url(URL_BANDCAMP)
    }

    pub fn url_soundcloud(&self) -> (r: Option<String>)
        ensures
            url_match_spec(self.urls.deep_view(), URL_SOUNDCLOUD@, r),
    {
        self.url(URL_SOUNDCLOUD)
    }

    pub fn url_youtube(&self) -> (r: Option<String>)
        ensures
            url_match_spec(self.urls.deep_view(), URL_YOUTUBE@, r),
    {
        self.url(URL_YOUTUBE)
    }

    pub fn url_spotify(&self) -> (r: Option<String>)
        ensures
            url_match_spec(self.urls.deep_view(), URL_SPOTIFY@, r),
    {
        self.url(URL_SPOTIFY)
    }

    pub fn url_apple(&self) -> (r: Option<String>)
        ensures
            url_match_spec(self.urls.deep_view(), URL_APPLE@, r),
    {
        self.url(URL_APPLE)
    }
}

/// What a first-match location lookup returns: the first location whose URL
/// contains `key`, or nothing when none does.
pub open spec fn location_match_spec(ls: Seq<LocationView>, key: Seq<char>, r: Option<
    Location,
>) -> bool {
    match r {
        Option::Some(l) => exists|i: int|
            0 <= i < ls.len() && l.deep_view() == ls[i] && contains_seq(ls[i].url, key) && (
            forall|j: int| 0 <= j < i ==> !contains_seq((#[trigger] ls[j]).url, key)),
        Option::None => forall|i: int|
            0 <= i < ls.len() ==> !contains_seq((#[trigger] ls[i]).url, key),
    }
}

impl Track {
    /// First listed location of this track whose URL contains `url_key`.
    fn location(&self, url_key: &str) -> (r: Option<Location>)
        ensures
            location_match_spec(self.locations.deep_view(), url_key@, r),
    {
        let ghost ls = self.locations.deep_view();
        let mut i: usize = 0;
        while i < self.locations.len()
            invariant
                ls == self.locations.deep_view(),
                ls.len() == self.locations.len(),
                forall|k: int|
                    0 <= k < ls.len() ==> #[trigger] ls[k] == self.locations@[k].deep_view(),
                i <= self.locations.len(),
                forall|j: int| 0 <= j < i ==> !contains_seq((#[trigger] ls[j]).url, url_key@),
            decreases self.locations.len() - i,
        {
            if crate::text::contains_sub(self.locations[i].url.as_str(), url_key) {
                let l = self.locations[i].clone();
                assert(l.deep_view() == ls[i as int]);
                return Option::Some(l);
            }
            i = i + 1;
        }
        Option::None
    }

    pub fn location_bandcamp(&self) -> (r: Option<Location>)
        ensures
            location_match_spec(self.locations.deep_view(), URL_BANDCAMP@, r),
    {
        self.location(URL_BANDCAMP)
    }

    pub fn location_soundcloud(&self) -> (r: Option<Location>)
        ensures
            location_match_spec(self.locations.deep_view(), URL_SOUNDCLOUD@, r),
    {
        self.location(URL_SOUNDCLOUD)
    }

    pub fn location_youtube(&self) -> (r: Option<Location>)
        ensures
            location_match_spec(self.locations.deep_view(), URL_YOUTUBE@, r),
    {
        self.location(URL_YOUTUBE)
    }

    pub fn location_spotify(&self) -> (r: Option<Location>)
        ensures
            location_match_spec(self.locations.deep_view(), URL_SPOTIFY@, r),
    {
        self.location(URL_SPOTIFY)
    }

    pub fn location_apple(&self) -> (r: Option<Location>)
        ensures
            location_match_spec(self.locations.deep_view(), URL_APPLE@, r),
    {
        self.location(URL_APPLE)
    }
}

/// Keeps the artists that are collectives (`is_collective` true) or the
/// individual artists (`is_collective` false).
#[verifier::loop_isolation(false)]
pub fn artists_filter_is_collective(artists: Vec<Artist>, is_collective: bool) -> (r: Vec<Artist>)
    ensures
        r.deep_view() == artists.deep_view().filter(
            |a: ArtistView| (a.collective_members is Some) == is_collective,
        ),
{
    let ghost pred = |a: ArtistView| (a.collective_members is Some) == is_collective;
    let ghost davs = artists.deep_view();
    let mut r: Vec<Artist> = Vec::new();
    let mut i: usize = 0;
    proof {
        reveal(Seq::filter);
        assert(davs.take(0).filter(pred) =~= Seq::<ArtistView>::empty());
    }
    while i < artists.len()
        invariant
            davs == artists.deep_view(),
            davs.len() == artists.len(),
            forall|k: int| 0 <= k < davs.len() ==> #[trigger] davs[k] == artists@[k].deep_view(),
            i <= artists.len(),
            r.deep_view() == davs.take(i as int).filter(pred),
        decreases artists.len() - i,
    {
        let ghost pre = r.deep_view();
        let is_c = match &artists[i].collective_members {
            Option::Some(_) => true,
            Option::None => false,
        };
        if is_c == is_collective {
            let a = artists[i].clone();
            r.push(a);
            proof {
                assert(r.deep_view() =~= pre.push(davs[i as int]));
            }
        }
        proof {
            reveal(Seq::filter);
            let s = davs.take(i + 1);
            assert(s.drop_last() =~= davs.take(i as int));
            assert(s.last() == davs[i as int]);
            assert(davs[i as int] == artists@[i as int].deep_view());
            assert((artists@[i as int].collective_members is Some) == is_c);
            assert((davs[i as int].collective_members is Some) == is_c);
            assert(pred(davs[i as int]) == (is_c == is_collective));
            assert(s.filter(pred) == if pred(s.last()) {
                s.drop_last().filter(pred).push(s.last())
            } else {
                s.drop_last().filter(pred)
            });
            assert(r.deep_view() =~= s.filter(pred));
        }
        i = i + 1;
    }
    assert(davs.take(davs.len() as int) =~= davs);
    r
}

} // verus!

//! The catalog loader's resolution logic: raw per-file records, as the
//! surrounding application parses them from YAML, become fully resolved
//! [`Artist`], [`Album`] and [`Track`] entities. Every rule — track-artist
//! resolution, album URL fallback, the `"end"` occurrence token, mandatory
//! durations, slug-derived track ids — lives here; reading directories and
//! files stays outside.

use vstd::prelude::*;
use crate::duration::{duration_secs, duration_text_valid, str_to_duration, Duration,
    lemma_digits_val_take_le};
use crate::music::{Album, Artist, CollectiveMember, Date, Location, SampleOccurance, Track,
    TrackArtist, Wave};
use crate::slug::{parse_name, slug_of};
use crate::text::{all_digits, chars_of, digits_val, is_digit_char, str_eq};
use crate::wave::{b64_bytes_of, b64_valid, decode_waveform};
use crate::catalog::{album_ids_unique, artist_ids_unique, countries_to_hashmap, has_country,
    latest_entry, track_ids_unique, Data};
use crate::music::Country;

verus! {

/// Raw artist metadata, as found in an artist directory's metadata file.
pub struct YamlArtist {
    pub name: String,
    pub image: String,
    pub logo: Option<String>,
    pub urls: Vec<String>,
    pub description: Option<String>,
    pub country: Option<String>,
    pub collective_members: Option<Vec<YamlCollectiveMember>>,
}

/// Raw collective membership: the member's id and optional years.
pub struct YamlCollectiveMember {
    pub name: String,
    pub joined: Option<i32>,
    pub left: Option<i32>,
}

/// Raw album metadata with its position-keyed track map.
pub struct YamlAlbum {
    pub name: String,
    pub genre: String,
    pub released: Date,
    pub cover: String,
    pub tracks: Vec<(String, YamlTrack)>,
    pub track_count: u8,
    pub urls: Option<Vec<String>>,
}

/// Raw per-track record.
pub struct YamlTrack {
    pub name: String,
    pub duration: Option<String>,
    pub artists: Option<Vec<YamlTrackArtist>>,
    pub artist: Option<String>,
    pub location: Vec<YamlLocation>,
    pub sample: Option<Vec<YamlSample>>,
    pub lyrics: Option<String>,
    pub wave: Option<String>,
}

/// Raw credited artist on a track.
pub struct YamlTrackArtist {
    pub id: String,
    pub credited_for: Option<String>,
}

/// Raw playback location with an optional time offset text.
pub struct YamlLocation {
    pub url: String,
    pub at: Option<String>,
}

/// Raw sample descriptor.
pub struct YamlSample {
    pub media: String,
    pub artist: String,
    pub name: String,
    pub kind: String,
    pub occurs: Vec<YamlSampleOccurance>,
}

/// Raw sample occurrence: time texts, where `to` may be `"end"`.
pub struct YamlSampleOccurance {
    pub from: String,
    pub to: String,
    pub at: String,
}

/// Why a load was aborted.
#[derive(Debug)]
pub enum LoadError {
    /// A track's position key is not a number within range.
    BadPosition { artist_id: String, album_id: String, track: String },
    /// A track lacks the mandatory duration.
    MissingDuration { artist_id: String, album_id: String, track: String },
    /// A time text of the track did not parse.
    BadDuration { artist_id: String, album_id: String, track: String },
    /// A waveform text is not decodable.
    BadWave { artist_id: String, album_id: String, track: String },
    /// An album with more than one declared track needs an explicit URL
    /// list.
    MissingUrls { artist_id: String, album_id: String },
    /// The URL fallback needs the track at position `"1"`.
    MissingFirstTrack { artist_id: String, album_id: String },
    /// A collective lists its own id as a member.
    SelfMember { artist_id: String },
    /// Two artist directories share an id.
    DuplicateArtist { id: String },
    /// Two album files share an id.
    DuplicateAlbum { id: String },
    /// Two track names slugify to the same id.
    DuplicateTrack { id: String },
}

/// A time text parses and its seconds are representable.
pub open spec fn time_ok(s: Seq<char>) -> bool {
    duration_text_valid(s) && duration_secs(s) <= u64::MAX
}

/// A position key is a digit run whose value fits the position field.
pub open spec fn pos_ok(s: Seq<char>) -> bool {
    s.len() > 0 && all_digits(s) && digits_val(s) <= u8::MAX
}

/// Every location offset that is present parses.
pub open spec fn locations_ok(ls: Seq<YamlLocation>) -> bool {
    forall|j: int|
        0 <= j < ls.len() ==> match (#[trigger] ls[j]).at {
            Some(t) => time_ok(t@),
            None => true,
        }
}

/// Every occurrence of the sample parses, with `"end"` allowed as an end
/// marker.
pub open spec fn sample_ok(s: YamlSample) -> bool {
    forall|k: int|
        0 <= k < s.occurs@.len() ==> occ_ok(#[trigger] s.occurs@[k])
}

/// The occurrence's three time texts parse (`to` may be `"end"`).
pub open spec fn occ_ok(o: YamlSampleOccurance) -> bool {
    time_ok(o.from@) && (o.to@ == "end"@ || time_ok(o.to@)) && time_ok(o.at@)
}

/// Every sample of the track parses.
pub open spec fn samples_ok(s: Option<Vec<YamlSample>>) -> bool {
    match s {
        Some(v) => forall|k: int| 0 <= k < v@.len() ==> sample_ok(#[trigger] v@[k]),
        None => true,
    }
}

/// A waveform text, when present, decodes and fits the length field.
pub open spec fn wave_ok(w: Option<String>) -> bool {
    match w {
        Some(t) => b64_valid(t@) && b64_bytes_of(t@).len() <= i32::MAX,
        None => true,
    }
}

/// Everything a raw track needs in order to resolve.
pub open spec fn track_ok(yaml: YamlTrack, position: Seq<char>) -> bool {
    &&& pos_ok(position)
    &&& yaml.duration matches Some(d) && time_ok(d@)
    &&& locations_ok(yaml.location@)
    &&& samples_ok(yaml.sample)
    &&& wave_ok(yaml.wave)
}

/// The resolved credited-artist list: an explicit single artist wins, then
/// an explicit list, then the album's owner by default.
pub open spec fn artists_resolved(
    yaml: YamlTrack,
    album_artist: Seq<char>,
    out: Seq<TrackArtist>,
) -> bool {
    match yaml.artist {
        Some(a) => out.len() == 1 && out[0].id@ == a@ && out[0].credited_for is None,
        None => match yaml.artists {
            Some(list) => out.len() == list@.len() && forall|j: int|
                0 <= j < out.len() ==> (#[trigger] out[j]).id@ == list@[j].id@
                    && out[j].credited_for.deep_view() == list@[j].credited_for.deep_view(),
            None => out.len() == 1 && out[0].id@ == album_artist && out[0].credited_for is None,
        },
    }
}

/// The resolved location list: URLs kept, offsets parsed.
pub open spec fn locations_resolved(ls: Seq<YamlLocation>, out: Seq<Location>) -> bool {
    out.len() == ls.len() && forall|j: int|
        0 <= j < out.len() ==> (#[trigger] out[j]).url@ == ls[j].url@ && match ls[j].at {
            Some(t) => out[j].at matches Some(d) && d.seconds == duration_secs(t@),
            None => out[j].at is None,
        }
}

/// One resolved occurrence: times parsed, `"end"` resolved to the track's
/// duration.
pub open spec fn occ_resolved(yo: YamlSampleOccurance, dur: Duration, o: SampleOccurance) -> bool {
    &&& o.from.seconds == duration_secs(yo.from@)
    &&& if yo.to@ == "end"@ {
        o.to == dur
    } else {
        o.to.seconds == duration_secs(yo.to@)
    }
    &&& o.at.seconds == duration_secs(yo.at@)
}

/// One resolved sample: fields carried over, occurrences parsed; the
/// sample id is its name.
pub open spec fn sample_resolved(ys: YamlSample, dur: Duration, ts: crate::music::TrackSample) -> bool {
    &&& ts.id@ == ys.name@
    &&& ts.media@ == ys.media@
    &&& ts.artist@ == ys.artist@
    &&& ts.name@ == ys.name@
    &&& ts.kind@ == ys.kind@
    &&& ts.occurances@.len() == ys.occurs@.len()
    &&& forall|m: int|
        0 <= m < ts.occurances@.len() ==> occ_resolved(ys.occurs@[m], dur, #[trigger] ts.occurances@[m])
}

/// The resolved sample list.
pub open spec fn samples_resolved(
    s: Option<Vec<YamlSample>>,
    dur: Duration,
    out: Seq<crate::music::TrackSample>,
) -> bool {
    match s {
        Some(v) => out.len() == v@.len() && forall|k: int|
            0 <= k < out.len() ==> sample_resolved(v@[k], dur, #[trigger] out[k]),
        None => out.len() == 0,
    }
}

/// The fully resolved track: id is the slug of the name, the position key
/// parsed, the duration mandatory, and every nested record resolved.
pub open spec fn track_resolved(
    artist_id: Seq<char>,
    album_id: Seq<char>,
    position: Seq<char>,
    yaml: YamlTrack,
    t: Track,
) -> bool {
    &&& t.id@ == slug_of(yaml.name@)
    &&& t.name@ == yaml.name@
    &&& t.position == digits_val(position)
    &&& t.artist_id@ == artist_id
    &&& t.album_id@ == album_id
    &&& yaml.duration matches Some(d) && t.duration.seconds == duration_secs(d@)
    &&& artists_resolved(yaml, artist_id, t.artists@)
    &&& locations_resolved(yaml.location@, t.locations@)
    &&& samples_resolved(yaml.sample, t.duration, t.samples@)
    &&& match yaml.wave {
        Some(w) => t.wave matches Some(wv) && wv.points@ == b64_bytes_of(w@) && wv.length
            == wv.points@.len(),
        None => t.wave is None,
    }
}

/// The error names the entity the loader was working on.
pub open spec fn track_err_context(e: LoadError, album: Album, yaml: YamlTrack) -> bool {
    match e {
        LoadError::BadPosition { artist_id, album_id, track } => artist_id@ == album.artist_id@
            && album_id@ == album.id@ && track@ == yaml.name@,
        LoadError::MissingDuration { artist_id, album_id, track } => artist_id@
            == album.artist_id@ && album_id@ == album.id@ && track@ == yaml.name@,
        LoadError::BadDuration { artist_id, album_id, track } => artist_id@ == album.artist_id@
            && album_id@ == album.id@ && track@ == yaml.name@,
        LoadError::BadWave { artist_id, album_id, track } => artist_id@ == album.artist_id@
            && album_id@ == album.id@ && track@ == yaml.name@,
        _ => false,
    }
}

/// Parses a time text, collapsing the two parse failures into one.
fn parse_time(t: &str) -> (r: Option<Duration>)
    ensures
        r matches Some(d) ==> time_ok(t@) && d.seconds == duration_secs(t@),
        r is None <==> !time_ok(t@),
{
    let res = str_to_duration(t);
    match res {
        Ok(d) => Some(d),
        Err(e) => {
            proof {
                match e {
                    crate::duration::ParseError::BadFormat => {
                        assert(res == Err::<Duration, crate::duration::ParseError>(
                            crate::duration::ParseError::BadFormat,
                        ));
                    },
                    crate::duration::ParseError::Overflow => {
                        assert(res == Err::<Duration, crate::duration::ParseError>(
                            crate::duration::ParseError::Overflow,
                        ));
                    },
                }
            }
            None
        },
    }
}

/// Decodes a waveform text, collapsing the two decode failures into one.
fn decode_wave_opt(w: &str) -> (r: Option<Wave>)
    ensures
        r matches Some(wv) ==> wv.points@ == b64_bytes_of(w@) && wv.length == wv.points@.len()
            && b64_valid(w@) && b64_bytes_of(w@).len() <= i32::MAX,
        r is None <==> !(b64_valid(w@) && b64_bytes_of(w@).len() <= i32::MAX),
{
    let res = decode_waveform(w);
    match res {
        Ok(wv) => Some(wv),
        Err(e) => {
            proof {
                match e {
                    crate::wave::DecodeError::InvalidBase64 => {
                        assert(res == Err::<Wave, crate::wave::DecodeError>(
                            crate::wave::DecodeError::InvalidBase64,
                        ));
                    },
                    crate::wave::DecodeError::TooLong => {
                        assert(res == Err::<Wave, crate::wave::DecodeError>(
                            crate::wave::DecodeError::TooLong,
                        ));
                    },
                }
            }
            None
        },
    }
}

/// Parses a 1-based position key.
fn parse_u8(s: &str) -> (r: Option<u8>)
    ensures
        r matches Some(v) ==> pos_ok(s@) && v == digits_val(s@),
        r is None <==> !pos_ok(s@),
{
    let cs = chars_of(s);
    let n: usize = cs.len();
    if n == 0 {
        return None;
    }
    let mut acc: u32 = 0;
    let mut i: usize = 0;
    assert(cs@.take(0) =~= Seq::<char>::empty());
    while i < n
        invariant
            n == cs.len(),
            cs@ == s@,
            i <= n,
            acc == digits_val(s@.take(i as int)),
            acc <= u8::MAX,
            forall|j: int| 0 <= j < i ==> is_digit_char(#[trigger] s@[j]),
        decreases n - i,
    {
        let c = cs[i];
        let v: u32 = c as u32;
        if !(48 <= v && v <= 57) {
            return None;
        }
        proof {
            assert(s@.take(i + 1).drop_last() =~= s@.take(i as int));
            assert(s@.take(i + 1).last() == s@[i as int]);
        }
        let a = acc * 10 + (v - 48);
        if a > 255 {
            proof {
                lemma_digits_val_take_le(s@, i + 1);
            }
            return None;
        }
        acc = a;
        i = i + 1;
    }
    assert(s@.take(n as int) =~= s@);
    Some(acc as u8)
}

/// Builds one [`Track`] from its raw record, its position key, and the
/// album it belongs to.
///
/// Fails with `BadPosition` on a malformed position key, `MissingDuration`
/// when the mandatory duration is absent, `BadDuration` when any time text
/// of the track does not parse, and `BadWave` when the waveform does not
/// decode; the error names the artist, album and track.
#[verifier::loop_isolation(false)]
#[verifier::rlimit(100)]
pub fn read_track(album: &Album, position_str: &str, yaml: &YamlTrack) -> (r: Result<
    Track,
    LoadError,
>)
    ensures
        r matches Ok(t) ==> track_resolved(album.artist_id@, album.id@, position_str@, *yaml, t),
        r is Ok <==> track_ok(*yaml, position_str@),
        r matches Err(e) ==> track_err_context(e, *album, *yaml),
        (r matches Err(e) && e matches LoadError::BadPosition { .. }) <==> !pos_ok(position_str@),
        (r matches Err(e) && e matches LoadError::MissingDuration { .. }) <==> pos_ok(
            position_str@,
        ) && yaml.duration is None,
        (r matches Err(e) && e matches LoadError::BadWave { .. }) <==> pos_ok(position_str@)
            && (yaml.duration matches Some(d) && time_ok(d@)) && locations_ok(yaml.location@)
            && samples_ok(yaml.sample) && !wave_ok(yaml.wave),
{
    // Position.
    let position = match parse_u8(position_str) {
        Some(p) => p,
        None => {
            return Err(
                LoadError::BadPosition {
                    artist_id: album.artist_id.clone(),
                    album_id: album.id.clone(),
                    track: yaml.name.clone(),
                },
            );
        },
    };

    // Mandatory duration.
    let dtext = match &yaml.duration {
        Some(d) => d,
        None => {
            return Err(
                LoadError::MissingDuration {
                    artist_id: album.artist_id.clone(),
                    album_id: album.id.clone(),
                    track: yaml.name.clone(),
                },
            );
        },
    };
    let duration = match parse_time(dtext.as_str()) {
        Some(d) => d,
        None => {
            return Err(
                LoadError::BadDuration {
                    artist_id: album.artist_id.clone(),
                    album_id: album.id.clone(),
                    track: yaml.name.clone(),
                },
            );
        },
    };

    // Credited artists.
    let artists: Vec<TrackArtist> = match &yaml.artist {
        Some(a) => {
            let mut v: Vec<TrackArtist> = Vec::new();
            v.push(TrackArtist { id: a.clone(), credited_for: None });
            v
        },
        None => match &yaml.artists {
            Some(list) => {
                let mut v: Vec<TrackArtist> = Vec::new();
                let mut j: usize = 0;
                while j < list.len()
                    invariant
                        v@.len() == j,
                        j <= list.len(),
                        forall|k: int|
                            0 <= k < j ==> (#[trigger] v@[k]).id@ == list@[k].id@ && v@[
                                k
                            ].credited_for.deep_view() == list@[k].credited_for.deep_view(),
                    decreases list.len() - j,
                {
                    let e = &list[j];
                    let cf: Option<String> = match &e.credited_for {
                        Some(s) => Some(s.clone()),
                        None => None,
                    };
                    v.push(TrackArtist { id: e.id.clone(), credited_for: cf });
                    j = j + 1;
                }
                v
            },
            None => {
                let mut v: Vec<TrackArtist> = Vec::new();
                v.push(TrackArtist { id: album.artist_id.clone(), credited_for: None });
                v
            },
        },
    };

    // Locations.
    let mut locations: Vec<Location> = Vec::new();
    let mut j: usize = 0;
    while j < yaml.location.len()
        invariant
            locations@.len() == j,
            j <= yaml.location.len(),
            pos_ok(position_str@),
            forall|k: int|
                0 <= k < j ==> (#[trigger] locations@[k]).url@ == yaml.location@[k].url@
                    && match yaml.location@[k].at {
                    Some(t) => locations@[k].at matches Some(d) && d.seconds == duration_secs(t@)
                        && time_ok(t@),
                    None => locations@[k].at is None,
                },
        decreases yaml.location.len() - j,
    {
        let loc = &yaml.location[j];
        let at: Option<Duration> = match &loc.at {
            Some(t) => match parse_time(t.as_str()) {
                Some(d) => Some(d),
                None => {
                    assert(!locations_ok(yaml.location@)) by {
                        assert(!(match yaml.location@[j as int].at {
                            Some(t2) => time_ok(t2@),
                            None => true,
                        }));
                    }
                    return Err(
                        LoadError::BadDuration {
                            artist_id: album.artist_id.clone(),
                            album_id: album.id.clone(),
                            track: yaml.name.clone(),
                        },
                    );
                },
            },
            None => None,
        };
        locations.push(Location { url: loc.url.clone(), at });
        j = j + 1;
    }
    assert(locations_ok(yaml.location@)) by {
        assert forall|k: int| 0 <= k < yaml.location@.len() implies match (#[trigger] yaml.location@[
            k
        ]).at {
            Some(t) => time_ok(t@),
            None => true,
        } by {
            assert(locations@[k].url@ == yaml.location@[k].url@);
        }
    }

    // Samples, with the "end" token resolved to the track duration.
    let mut samples: Vec<crate::music::TrackSample> = Vec::new();
    match &yaml.sample {
        None => {},
        Some(list) => {
            let mut k: usize = 0;
            while k < list.len()
                invariant
                    samples@.len() == k,
                    k <= list.len(),
                    pos_ok(position_str@),
                    locations_ok(yaml.location@),
                    forall|k2: int|
                        0 <= k2 < k ==> sample_resolved(
                            list@[k2],
                            duration,
                            #[trigger] samples@[k2],
                        ) && sample_ok(#[trigger] list@[k2]),
                decreases list.len() - k,
            {
                let ys = &list[k];
                let mut occ: Vec<SampleOccurance> = Vec::new();
                let mut m: usize = 0;
                while m < ys.occurs.len()
                    invariant
                        occ@.len() == m,
                        m <= ys.occurs.len(),
                        forall|m2: int|
                            0 <= m2 < m ==> occ_resolved(
                                ys.occurs@[m2],
                                duration,
                                #[trigger] occ@[m2],
                            ) && occ_ok(#[trigger] ys.occurs@[m2]),
                    decreases ys.occurs.len() - m,
                {
                    let yo = &ys.occurs[m];
                    let from = match parse_time(yo.from.as_str()) {
                        Some(d) => d,
                        None => {
                            assert(!occ_ok(ys.occurs@[m as int]));
                            assert(!sample_ok(list@[k as int]));
                            return Err(
                                LoadError::BadDuration {
                                    artist_id: album.artist_id.clone(),
                                    album_id: album.id.clone(),
                                    track: yaml.name.clone(),
                                },
                            );
                        },
                    };
                    let to = if str_eq(yo.to.as_str(), "end") {
                        duration
                    } else {
                        match parse_time(yo.to.as_str()) {
                            Some(d) => d,
                            None => {
                                assert(!occ_ok(ys.occurs@[m as int]));
                                assert(!sample_ok(list@[k as int]));
                                return Err(
                                    LoadError::BadDuration {
                                        artist_id: album.artist_id.clone(),
                                        album_id: album.id.clone(),
                                        track: yaml.name.clone(),
                                    },
                                );
                            },
                        }
                    };
                    let at = match parse_time(yo.at.as_str()) {
                        Some(d) => d,
                        None => {
                            assert(!occ_ok(ys.occurs@[m as int]));
                            assert(!sample_ok(list@[k as int]));
                            return Err(
                                LoadError::BadDuration {
                                    artist_id: album.artist_id.clone(),
                                    album_id: album.id.clone(),
                                    track: yaml.name.clone(),
                                },
                            );
                        },
                    };
                    occ.push(SampleOccurance { from, to, at });
                    m = m + 1;
                }
                let ghost occv = occ@;
                proof {
                    assert(ys.occurs@ == list@[k as int].occurs@);
                    assert(sample_ok(list@[k as int])) by {
                        assert forall|m2: int|
                            0 <= m2 < list@[k as int].occurs@.len() implies occ_ok(
                            #[trigger] list@[k as int].occurs@[m2],
                        ) by {
                            assert(occ_resolved(ys.occurs@[m2], duration, occ@[m2]) && occ_ok(
                                ys.occurs@[m2],
                            ));
                        }
                    }
                    assert forall|m2: int|
                        0 <= m2 < occv.len() implies occ_resolved(
                        list@[k as int].occurs@[m2],
                        duration,
                        #[trigger] occv[m2],
                    ) by {
                        assert(occ_resolved(ys.occurs@[m2], duration, occ@[m2]));
                    }
                }
                samples.push(
                    crate::music::TrackSample {
                        id: ys.name.clone(),
                        media: ys.media.clone(),
                        artist: ys.artist.clone(),
                        name: ys.name.clone(),
                        kind: ys.kind.clone(),
                        occurances: occ,
                    },
                );
                proof {
                    assert(samples@[k as int].occurances@ == occv);
                    assert(sample_resolved(list@[k as int], duration, samples@[k as int]));
                }
                k = k + 1;
            }
            proof {
                assert forall|k2: int| 0 <= k2 < list@.len() implies sample_ok(
                    #[trigger] list@[k2],
                ) by {
                    assert(sample_resolved(list@[k2], duration, samples@[k2]) && sample_ok(
                        list@[k2],
                    ));
                }
                assert(samples_ok(yaml.sample));
            }
        },
    }
    assert(samples_ok(yaml.sample));

    // Waveform.
    let wave: Option<Wave> = match &yaml.wave {
        None => None,
        Some(w) => match decode_wave_opt(w.as_str()) {
            Some(wv) => Some(wv),
            None => {
                return Err(
                    LoadError::BadWave {
                        artist_id: album.artist_id.clone(),
                        album_id: album.id.clone(),
                        track: yaml.name.clone(),
                    },
                );
            },
        },
    };

    let id = parse_name(yaml.name.as_str());
    Ok(
        Track {
            id,
            name: yaml.name.clone(),
            position,
            artist_id: album.artist_id.clone(),
            album_id: album.id.clone(),
            duration,
            artists,
            locations,
            samples,
            wave,
        },
    )
}

/// One resolved collective membership: the raw `name` is the member's id,
/// and a year becomes the first day of that year.
pub open spec fn member_resolved(m: YamlCollectiveMember, out: CollectiveMember) -> bool {
    &&& out.id@ == m.name@
    &&& match m.joined {
        Some(y) => out.joined == Some(Date { year: y, month: 1, day: 1 }),
        None => out.joined is None,
    }
    &&& match m.left {
        Some(y) => out.left == Some(Date { year: y, month: 1, day: 1 }),
        None => out.left is None,
    }
}

/// The fully resolved artist record.
pub open spec fn artist_resolved(artist_id: Seq<char>, yaml: YamlArtist, a: Artist) -> bool {
    &&& a.id@ == artist_id
    &&& a.name@ == yaml.name@
    &&& a.image_url@ == yaml.image@
    &&& a.country_code.deep_view() == yaml.country.deep_view()
    &&& a.description.deep_view() == yaml.description.deep_view()
    &&& a.logo_url.deep_view() == yaml.logo.deep_view()
    &&& a.urls@ == yaml.urls@
    &&& match yaml.collective_members {
        Some(ms) => a.collective_members matches Some(out) && out@.len() == ms@.len() && forall|
            j: int,
        | 0 <= j < out@.len() ==> member_resolved(ms@[j], #[trigger] out@[j]),
        None => a.collective_members is None,
    }
}

/// The artist's member list names the artist itself.
pub open spec fn self_member(artist_id: Seq<char>, yaml: YamlArtist) -> bool {
    match yaml.collective_members {
        Some(ms) => exists|j: int| 0 <= j < ms@.len() && (#[trigger] ms@[j]).name@ == artist_id,
        None => false,
    }
}

/// Builds one [`Artist`] from its raw record and the id of its directory.
///
/// Fails with `SelfMember` when the artist's own id stands in its member
/// list: a collective must not contain itself.
#[verifier::loop_isolation(false)]
pub fn read_artist(artist_id: &str, yaml: &YamlArtist) -> (r: Result<Artist, LoadError>)
    ensures
        r matches Ok(a) ==> artist_resolved(artist_id@, *yaml, a),
        r is Ok <==> !self_member(artist_id@, *yaml),
        r matches Err(e) ==> e matches LoadError::SelfMember { artist_id: aid } && aid@
            == artist_id@,
{
    let members: Option<Vec<CollectiveMember>> = match &yaml.collective_members {
        None => None,
        Some(ms) => {
            let mut out: Vec<CollectiveMember> = Vec::new();
            let mut j: usize = 0;
            while j < ms.len()
                invariant
                    out@.len() == j,
                    j <= ms.len(),
                    forall|k: int| 0 <= k < j ==> member_resolved(ms@[k], #[trigger] out@[k]),
                    forall|k: int| 0 <= k < j ==> (#[trigger] ms@[k]).name@ != artist_id@,
                decreases ms.len() - j,
            {
                let m = &ms[j];
                if str_eq(m.name.as_str(), artist_id) {
                    assert(self_member(artist_id@, *yaml));
                    return Err(LoadError::SelfMember { artist_id: m.name.clone() });
                }
                let joined: Option<Date> = match m.joined {
                    Some(y) => Some(Date { year: y, month: 1, day: 1 }),
                    None => None,
                };
                let left: Option<Date> = match m.left {
                    Some(y) => Some(Date { year: y, month: 1, day: 1 }),
                    None => None,
                };
                out.push(CollectiveMember { id: m.name.clone(), joined, left });
                j = j + 1;
            }
            Some(out)
        },
    };
    Ok(
        Artist {
            id: {
                let mut s = String::new();
                s.append(artist_id);
                s
            },
            name: yaml.name.clone(),
            image_url: yaml.image.clone(),
            country_code: crate::music::clone_opt_string(&yaml.country),
            description: crate::music::clone_opt_string(&yaml.description),
            collective_members: members,
            logo_url: crate::music::clone_opt_string(&yaml.logo),
            urls: crate::music::clone_vec_string(&yaml.urls),
        },
    )
}

/// Some track entry declares position `"1"`.
pub open spec fn has_first_track(ts: Seq<(String, YamlTrack)>) -> bool {
    exists|k: int| 0 <= k < ts.len() && (#[trigger] ts[k]).0@ == "1"@
}

/// The album either lists its URLs or may fall back to its single track.
pub open spec fn urls_ok(yaml: YamlAlbum) -> bool {
    match yaml.urls {
        Some(_) => true,
        None => yaml.track_count <= 1 && has_first_track(yaml.tracks@),
    }
}

/// The resolved URL list: the declared one, or the location URLs of the
/// first entry at position `"1"`.
pub open spec fn album_urls_resolved(yaml: YamlAlbum, urls: Seq<String>) -> bool {
    match yaml.urls {
        Some(us) => urls == us@,
        None => exists|k: int|
            0 <= k < yaml.tracks@.len() && (#[trigger] yaml.tracks@[k]).0@ == "1"@ && (forall|
                j: int,
            | 0 <= j < k ==> (#[trigger] yaml.tracks@[j]).0@ != "1"@) && urls.len()
                == yaml.tracks@[k].1.location@.len() && (forall|j: int|
                0 <= j < urls.len() ==> (#[trigger] urls[j])@
                    == yaml.tracks@[k].1.location@[j].url@),
    }
}

/// The fully resolved album record; its total duration starts at zero.
pub open spec fn album_resolved(
    artist_id: Seq<char>,
    album_id: Seq<char>,
    yaml: YamlAlbum,
    a: Album,
) -> bool {
    &&& a.id@ == album_id
    &&& a.name@ == yaml.name@
    &&& a.artist_id@ == artist_id
    &&& a.genres@.len() == 1 && a.genres@[0]@ == yaml.genre@
    &&& a.released == yaml.released
    &&& a.duration.seconds == 0
    &&& a.cover_url@ == yaml.cover@
    &&& a.track_count == yaml.track_count
    &&& album_urls_resolved(yaml, a.urls@)
}

/// Everything a raw album needs in order to resolve.
pub open spec fn album_ok(yaml: YamlAlbum) -> bool {
    urls_ok(yaml) && forall|k: int|
        0 <= k < yaml.tracks@.len() ==> track_ok(
            (#[trigger] yaml.tracks@[k]).1,
            yaml.tracks@[k].0@,
        )
}

/// Builds one [`Album`] and its [`Track`]s from a raw album file.
///
/// Fails with `MissingUrls` when an album with more than one declared
/// track has no URL list, `MissingFirstTrack` when the URL fallback finds
/// no entry at position `"1"`, and otherwise with the first failing
/// track's error.
#[verifier::loop_isolation(false)]
pub fn read_album(artist_id: &str, album_id: &str, yaml: &YamlAlbum) -> (r: Result<
    (Album, Vec<Track>),
    LoadError,
>)
    ensures
        r matches Ok(p) ==> album_resolved(artist_id@, album_id@, *yaml, p.0) && p.1@.len()
            == yaml.tracks@.len() && (forall|k: int|
            0 <= k < p.1@.len() ==> track_resolved(
                artist_id@,
                album_id@,
                yaml.tracks@[k].0@,
                yaml.tracks@[k].1,
                #[trigger] p.1@[k],
            )),
        r is Ok <==> album_ok(*yaml),
        (r matches Err(e) && e matches LoadError::MissingUrls { .. }) <==> yaml.urls is None
            && yaml.track_count > 1,
        (r matches Err(e) && e matches LoadError::MissingFirstTrack { .. }) <==> yaml.urls
            is None && yaml.track_count <= 1 && !has_first_track(yaml.tracks@),
        r matches Err(e) ==> !(e matches LoadError::SelfMember { .. }) && !(e
            matches LoadError::DuplicateArtist { .. }) && !(e matches LoadError::DuplicateAlbum {
            ..
        }) && !(e matches LoadError::DuplicateTrack { .. }),
{
    let urls: Vec<String> = match &yaml.urls {
        Some(us) => crate::music::clone_vec_string(us),
        None => {
            if yaml.track_count > 1 {
                return Err(
                    LoadError::MissingUrls {
                        artist_id: {
                            let mut t = String::new();
                            t.append(artist_id);
                            t
                        },
                        album_id: {
                            let mut t = String::new();
                            t.append(album_id);
                            t
                        },
                    },
                );
            }
            let mut first: Option<usize> = None;
            let mut k: usize = 0;
            while k < yaml.tracks.len()
                invariant
                    k <= yaml.tracks.len(),
                    match first {
                        Some(f) => f < k && yaml.tracks@[f as int].0@ == "1"@ && (forall|j: int|
                            0 <= j < f ==> (#[trigger] yaml.tracks@[j]).0@ != "1"@),
                        None => forall|j: int|
                            0 <= j < k ==> (#[trigger] yaml.tracks@[j]).0@ != "1"@,
                    },
                decreases yaml.tracks.len() - k,
            {
                if first.is_none() && str_eq(yaml.tracks[k].0.as_str(), "1") {
                    first = Some(k);
                }
                k = k + 1;
            }
            let fi = match first {
                Some(f) => f,
                None => {
                    return Err(
                        LoadError::MissingFirstTrack {
                            artist_id: {
                                let mut t = String::new();
                                t.append(artist_id);
                                t
                            },
                            album_id: {
                                let mut t = String::new();
                                t.append(album_id);
                                t
                            },
                        },
                    );
                },
            };
            let locs = &yaml.tracks[fi].1.location;
            let mut us: Vec<String> = Vec::new();
            let mut j: usize = 0;
            while j < locs.len()
                invariant
                    us@.len() == j,
                    j <= locs.len(),
                    locs == &yaml.tracks@[fi as int].1.location,
                    fi < yaml.tracks.len(),
                    forall|j2: int| 0 <= j2 < j ==> (#[trigger] us@[j2])@ == locs@[j2].url@,
                decreases locs.len() - j,
            {
                us.push(locs[j].url.clone());
                j = j + 1;
            }
            us
        },
    };

    let album = Album {
        id: {
            let mut t = String::new();
            t.append(album_id);
            t
        },
        name: yaml.name.clone(),
        artist_id: {
            let mut t = String::new();
            t.append(artist_id);
            t
        },
        genres: {
            let mut g: Vec<String> = Vec::new();
            g.push(yaml.genre.clone());
            g
        },
        released: yaml.released,
        duration: Duration { seconds: 0 },
        cover_url: yaml.cover.clone(),
        track_count: yaml.track_count,
        urls,
    };
    assert(album_resolved(artist_id@, album_id@, *yaml, album));

    let mut tracks: Vec<Track> = Vec::new();
    let mut k: usize = 0;
    while k < yaml.tracks.len()
        invariant
            tracks@.len() == k,
            k <= yaml.tracks.len(),
            album_resolved(artist_id@, album_id@, *yaml, album),
            forall|k2: int|
                0 <= k2 < k ==> track_resolved(
                    artist_id@,
                    album_id@,
                    yaml.tracks@[k2].0@,
                    yaml.tracks@[k2].1,
                    #[trigger] tracks@[k2],
                ) && track_ok((#[trigger] yaml.tracks@[k2]).1, yaml.tracks@[k2].0@),
        decreases yaml.tracks.len() - k,
    {
        let entry = &yaml.tracks[k];
        match read_track(&album, entry.0.as_str(), &entry.1) {
            Ok(t) => {
                tracks.push(t);
            },
            Err(e) => {
                assert(!track_ok(yaml.tracks@[k as int].1, yaml.tracks@[k as int].0@));
                return Err(e);
            },
        }
        k = k + 1;
    }
    assert(album_ok(*yaml)) by {
        assert forall|k2: int|
            0 <= k2 < yaml.tracks@.len() implies track_ok(
            (#[trigger] yaml.tracks@[k2]).1,
            yaml.tracks@[k2].0@,
        ) by {
            assert(track_resolved(artist_id@, album_id@, yaml.tracks@[k2].0@,
                yaml.tracks@[k2].1, tracks@[k2]) && track_ok(yaml.tracks@[k2].1,
                yaml.tracks@[k2].0@));
        }
    }
    Ok((album, tracks))
}

/// One artist directory as handed over by the file walker: the directory
/// name (the artist id), the artist metadata, and one entry per album
/// file.
pub struct ArtistDir {
    pub id: String,
    pub artist: YamlArtist,
    pub albums: Vec<AlbumFile>,
}

/// One album file: its stem (the album id) and its parsed record.
pub struct AlbumFile {
    pub id: String,
    pub album: YamlAlbum,
}

/// The album at `(a, b)` of the input resolved to `al`.
pub open spec fn album_from(input: Seq<ArtistDir>, a: int, b: int, al: Album) -> bool {
    album_resolved(input[a].id@, input[a].albums@[b].id@, input[a].albums@[b].album, al)
}

/// The track at `(a, b, k)` of the input resolved to `t`.
pub open spec fn track_from(input: Seq<ArtistDir>, a: int, b: int, k: int, t: Track) -> bool {
    track_resolved(
        input[a].id@,
        input[a].albums@[b].id@,
        input[a].albums@[b].album.tracks@[k].0@,
        input[a].albums@[b].album.tracks@[k].1,
        t,
    )
}

/// `al` resolves from some album file strictly before position
/// `(bound_a, bound_b)` in walk order.
pub open spec fn album_src_lt(
    input: Seq<ArtistDir>,
    bound_a: int,
    bound_b: int,
    al: Album,
) -> bool {
    exists|a2: int, b2: int|
        0 <= a2 < input.len() && 0 <= b2 < input[a2].albums@.len() && (a2 < bound_a || (a2
            == bound_a && b2 < bound_b)) && #[trigger] album_from(input, a2, b2, al)
}

/// `t` resolves from some track strictly before `(bound_a, bound_b,
/// bound_k)` in walk order.
pub open spec fn track_src_lt(
    input: Seq<ArtistDir>,
    bound_a: int,
    bound_b: int,
    bound_k: int,
    t: Track,
) -> bool {
    exists|a2: int, b2: int, k2: int|
        0 <= a2 < input.len() && 0 <= b2 < input[a2].albums@.len() && 0 <= k2 < input[
            a2
        ].albums@[b2].album.tracks@.len() && (a2 < bound_a || (a2 == bound_a && b2 < bound_b) || (
        a2 == bound_a && b2 == bound_b && k2 < bound_k)) && #[trigger] track_from(
            input,
            a2,
            b2,
            k2,
            t,
        )
}

/// No two artist directories share an id.
pub open spec fn input_artists_unique(input: Seq<ArtistDir>) -> bool {
    forall|a: int, b: int| 0 <= a < b < input.len() ==> input[a].id@ != input[b].id@
}

/// No two album files share an id, across the whole input.
pub open spec fn input_albums_unique(input: Seq<ArtistDir>) -> bool {
    forall|a: int, b: int, a2: int, b2: int|
        0 <= a < input.len() && 0 <= b < input[a].albums@.len() && 0 <= a2 < input.len() && 0 <= b2
            < input[a2].albums@.len() && !(a == a2 && b == b2) ==> (#[trigger] input[a].albums@[
            b
        ]).id@ != (#[trigger] input[a2].albums@[b2]).id@
}

/// No two tracks of the whole input slugify to the same id.
pub open spec fn input_tracks_unique(input: Seq<ArtistDir>) -> bool {
    forall|a: int, b: int, k: int, a2: int, b2: int, k2: int|
        0 <= a < input.len() && 0 <= b < input[a].albums@.len() && 0 <= k < input[a].albums@[
            b
        ].album.tracks@.len() && 0 <= a2 < input.len() && 0 <= b2 < input[a2].albums@.len() && 0
            <= k2 < input[a2].albums@[b2].album.tracks@.len() && !(a == a2 && b == b2 && k == k2)
            ==> slug_of((#[trigger] input[a].albums@[b].album.tracks@[k]).1.name@) != slug_of(
            (#[trigger] input[a2].albums@[b2].album.tracks@[k2]).1.name@,
        )
}

/// Everything the whole input needs for a load to succeed: every record
/// resolves and no id collides.
pub open spec fn input_ok(input: Seq<ArtistDir>) -> bool {
    &&& forall|a: int|
        0 <= a < input.len() ==> !self_member((#[trigger] input[a]).id@, input[a].artist)
    &&& forall|a: int, b: int|
        0 <= a < input.len() && 0 <= b < input[a].albums@.len() ==> album_ok(
            (#[trigger] input[a].albums@[b]).album,
        )
    &&& input_artists_unique(input)
    &&& input_albums_unique(input)
    &&& input_tracks_unique(input)
}

/// Whether some loaded artist has the id.
fn contains_artist_id(artists: &Vec<Artist>, id: &str) -> (r: bool)
    ensures
        r == crate::catalog::has_artist(artists.deep_view(), id@),
{
    let ghost avs = artists.deep_view();
    let mut i: usize = 0;
    while i < artists.len()
        invariant
            avs == artists.deep_view(),
            avs.len() == artists.len(),
            forall|k: int| 0 <= k < avs.len() ==> #[trigger] avs[k] == artists@[k].deep_view(),
            i <= artists.len(),
            forall|k: int| 0 <= k < i ==> (#[trigger] avs[k]).id != id@,
        decreases artists.len() - i,
    {
        if str_eq(artists[i].id.as_str(), id) {
            assert(avs[i as int].id == id@);
            return true;
        }
        i = i + 1;
    }
    false
}

/// Whether some loaded album has the id.
fn contains_album_id(albums: &Vec<Album>, id: &str) -> (r: bool)
    ensures
        r == crate::catalog::has_album(albums.deep_view(), id@),
{
    let ghost bvs = albums.deep_view();
    let mut i: usize = 0;
    while i < albums.len()
        invariant
            bvs == albums.deep_view(),
            bvs.len() == albums.len(),
            forall|k: int| 0 <= k < bvs.len() ==> #[trigger] bvs[k] == albums@[k].deep_view(),
            i <= albums.len(),
            forall|k: int| 0 <= k < i ==> (#[trigger] bvs[k]).id != id@,
        decreases albums.len() - i,
    {
        if str_eq(albums[i].id.as_str(), id) {
            assert(bvs[i as int].id == id@);
            return true;
        }
        i = i + 1;
    }
    false
}

/// Whether some loaded track has the id.
fn contains_track_id(tracks: &Vec<Track>, id: &str) -> (r: bool)
    ensures
        r == crate::catalog::has_track(tracks.deep_view(), id@),
{
    let ghost tvs = tracks.deep_view();
    let mut i: usize = 0;
    while i < tracks.len()
        invariant
            tvs == tracks.deep_view(),
            tvs.len() == tracks.len(),
            forall|k: int| 0 <= k < tvs.len() ==> #[trigger] tvs[k] == tracks@[k].deep_view(),
            i <= tracks.len(),
            forall|k: int| 0 <= k < i ==> (#[trigger] tvs[k]).id != id@,
        decreases tracks.len() - i,
    {
        if str_eq(tracks[i].id.as_str(), id) {
            assert(tvs[i as int].id == id@);
            return true;
        }
        i = i + 1;
    }
    false
}

/// The album at `(a2, b2)` of the input stands resolved in `out`.
pub open spec fn album_loaded(input: Seq<ArtistDir>, a2: int, b2: int, out: Seq<Album>) -> bool {
    exists|x: int| 0 <= x < out.len() && #[trigger] album_from(input, a2, b2, out[x])
}

/// The track at `(a2, b2, k2)` of the input stands resolved in `out`.
pub open spec fn track_loaded(
    input: Seq<ArtistDir>,
    a2: int,
    b2: int,
    k2: int,
    out: Seq<Track>,
) -> bool {
    exists|y: int| 0 <= y < out.len() && #[trigger] track_from(input, a2, b2, k2, out[y])
}

/// Walks the parsed artist directories and builds the whole catalog: the
/// country set, every artist, every album with its tracks, all under
/// unique ids. The load is all-or-nothing: the first defect aborts it with
/// the entity's error, and a well-formed input always loads.
#[verifier::rlimit(100)]
pub fn read_data(input: &Vec<ArtistDir>, countries: &Vec<Country>) -> (r: Result<Data, LoadError>)
    ensures
        input_ok(input@) ==> r is Ok,
        r matches Ok(d) ==> {
            &&& d.wf()
            &&& forall|k: int|
                0 <= k < d.countries.list.deep_view().len() ==> latest_entry(
                    countries.deep_view(),
                    countries.deep_view().len() as int,
                    #[trigger] d.countries.list.deep_view()[k],
                )
            &&& forall|i: int|
                0 <= i < countries.deep_view().len() ==> has_country(
                    d.countries.list.deep_view(),
                    (#[trigger] countries.deep_view()[i]).code,
                )
            &&& d.artists@.len() == input@.len()
            &&& forall|a: int|
                0 <= a < input@.len() ==> artist_resolved(
                    input@[a].id@,
                    input@[a].artist,
                    #[trigger] d.artists@[a],
                )
            &&& forall|x: int|
                0 <= x < d.albums@.len() ==> album_src_lt(
                    input@,
                    input@.len() as int,
                    0,
                    #[trigger] d.albums@[x],
                )
            &&& forall|a: int, b: int|
                0 <= a < input@.len() && 0 <= b < input@[a].albums@.len()
                    ==> #[trigger] album_loaded(input@, a, b, d.albums@)
            &&& forall|y: int|
                0 <= y < d.tracks@.len() ==> track_src_lt(
                    input@,
                    input@.len() as int,
                    0,
                    0,
                    #[trigger] d.tracks@[y],
                )
            &&& forall|a: int, b: int, k: int|
                0 <= a < input@.len() && 0 <= b < input@[a].albums@.len() && 0 <= k < input@[
                    a
                ].albums@[b].album.tracks@.len() ==> #[trigger] track_loaded(
                    input@,
                    a,
                    b,
                    k,
                    d.tracks@,
                )
        },
{
    let cset = countries_to_hashmap(countries);
    let input_total: usize = input.len();
    assert(input_total as int == input@.len());
    assert(input@.len() <= usize::MAX);
    let mut artists: Vec<Artist> = Vec::new();
    let mut albums: Vec<Album> = Vec::new();
    let mut tracks: Vec<Track> = Vec::new();
    let mut a: usize = 0;
    while a < input.len()
        invariant
            cset.wf(),
            forall|k: int|
                0 <= k < cset.list.deep_view().len() ==> latest_entry(
                    countries.deep_view(),
                    countries.deep_view().len() as int,
                    #[trigger] cset.list.deep_view()[k],
                ),
            forall|i: int|
                0 <= i < countries.deep_view().len() ==> has_country(
                    cset.list.deep_view(),
                    (#[trigger] countries.deep_view()[i]).code,
                ),
            a <= input.len(),
            input@.len() <= usize::MAX,
            artists@.len() == a,
            forall|x: int|
                0 <= x < a ==> artist_resolved(
                    input@[x].id@,
                    input@[x].artist,
                    #[trigger] artists@[x],
                ),
            artist_ids_unique(artists.deep_view()),
            forall|x: int|
                0 <= x < albums@.len() ==> album_src_lt(input@, a as int, 0, #[trigger] albums@[x]),
            forall|a2: int, b2: int|
                0 <= a2 < a && 0 <= b2 < input@[a2].albums@.len() ==> #[trigger] album_loaded(
                    input@,
                    a2,
                    b2,
                    albums@,
                ),
            album_ids_unique(albums.deep_view()),
            forall|x: int|
                0 <= x < albums@.len() ==> crate::catalog::has_artist(
                    artists.deep_view(),
                    (#[trigger] albums.deep_view()[x]).artist_id,
                ),
            forall|y: int|
                0 <= y < tracks@.len() ==> track_src_lt(
                    input@,
                    a as int,
                    0,
                    0,
                    #[trigger] tracks@[y],
                ),
            forall|a2: int, b2: int, k2: int|
                0 <= a2 < a && 0 <= b2 < input@[a2].albums@.len() && 0 <= k2 < input@[a2].albums@[
                    b2
                ].album.tracks@.len() ==> #[trigger] track_loaded(input@, a2, b2, k2, tracks@),
            track_ids_unique(tracks.deep_view()),
            forall|y: int|
                0 <= y < tracks@.len() ==> crate::catalog::has_album(
                    albums.deep_view(),
                    (#[trigger] tracks.deep_view()[y]).album_id,
                ),
        decreases input.len() - a,
    {
        let dir = &input[a];
        if contains_artist_id(&artists, dir.id.as_str()) {
            proof {
                let w = choose|w: int|
                    0 <= w < artists.deep_view().len() && (#[trigger] artists.deep_view()[w]).id
                        == dir.id@;
                assert(artists@[w].id@ == input@[w].id@);
                assert(input@[w].id@ == input@[a as int].id@);
                assert(!input_artists_unique(input@));
            }
            return Err(LoadError::DuplicateArtist { id: dir.id.clone() });
        }
        let artist = match read_artist(dir.id.as_str(), &dir.artist) {
            Ok(x) => x,
            Err(e) => {
                assert(self_member(input@[a as int].id@, input@[a as int].artist));
                return Err(e);
            },
        };
        let ghost pre_artists = artists.deep_view();
        artists.push(artist);
        proof {
            assert(artists.deep_view() =~= pre_artists.push(artists@[a as int].deep_view()));
            assert(artist_ids_unique(artists.deep_view())) by {
                assert forall|x1: int, x2: int|
                    0 <= x1 < x2 < artists.deep_view().len() implies artists.deep_view()[x1].id
                    != artists.deep_view()[x2].id by {
                    if x2 == a {
                        if artists.deep_view()[x1].id == artists.deep_view()[x2].id {
                            assert(crate::catalog::has_artist(pre_artists, dir.id@));
                        }
                    }
                }
            }
            assert forall|x: int|
                0 <= x < albums@.len() implies crate::catalog::has_artist(
                artists.deep_view(),
                (#[trigger] albums.deep_view()[x]).artist_id,
            ) by {
                let w = choose|w: int|
                    0 <= w < pre_artists.len() && (#[trigger] pre_artists[w]).id
                        == albums.deep_view()[x].artist_id;
                assert(artists.deep_view()[w].id == albums.deep_view()[x].artist_id);
            }
        }

        let mut b: usize = 0;
        while b < dir.albums.len()
            invariant
                a < input.len(),
                input@.len() <= usize::MAX,
                dir == &input@[a as int],
                b <= dir.albums.len(),
                dir.albums@.len() == input@[a as int].albums@.len(),
                artists@.len() == a + 1,
                forall|x: int|
                    0 <= x < a + 1 ==> artist_resolved(
                        input@[x].id@,
                        input@[x].artist,
                        #[trigger] artists@[x],
                    ),
                artist_ids_unique(artists.deep_view()),
                forall|x: int|
                    0 <= x < albums@.len() ==> album_src_lt(
                        input@,
                        a as int,
                        b as int,
                        #[trigger] albums@[x],
                    ),
                forall|a2: int, b2: int|
                    (0 <= a2 < a && 0 <= b2 < input@[a2].albums@.len()) || (a2 == a && 0 <= b2 < b
                        && b2 < input@[a2].albums@.len()) ==> #[trigger] album_loaded(
                        input@,
                        a2,
                        b2,
                        albums@,
                    ),
                album_ids_unique(albums.deep_view()),
                forall|x: int|
                    0 <= x < albums@.len() ==> crate::catalog::has_artist(
                        artists.deep_view(),
                        (#[trigger] albums.deep_view()[x]).artist_id,
                    ),
                forall|y: int|
                    0 <= y < tracks@.len() ==> track_src_lt(
                        input@,
                        a as int,
                        b as int,
                        0,
                        #[trigger] tracks@[y],
                    ),
                forall|a2: int, b2: int, k2: int|
                    ((0 <= a2 < a && 0 <= b2 < input@[a2].albums@.len()) || (a2 == a && 0 <= b2 < b
                        && b2 < input@[a2].albums@.len())) && 0 <= k2 < input@[a2].albums@[
                        b2
                    ].album.tracks@.len() ==> #[trigger] track_loaded(input@, a2, b2, k2, tracks@),
                track_ids_unique(tracks.deep_view()),
                forall|y: int|
                    0 <= y < tracks@.len() ==> crate::catalog::has_album(
                        albums.deep_view(),
                        (#[trigger] tracks.deep_view()[y]).album_id,
                    ),
            decreases dir.albums.len() - b,
        {
            let file = &dir.albums[b];
            if contains_album_id(&albums, file.id.as_str()) {
                proof {
                    let x = choose|x: int|
                        0 <= x < albums.deep_view().len() && (#[trigger] albums.deep_view()[x]).id
                            == file.id@;
                    assert(album_src_lt(input@, a as int, b as int, albums@[x]));
                    let (a2, b2) = choose|a2: int, b2: int|
                        0 <= a2 < input@.len() && 0 <= b2 < input@[a2].albums@.len() && (a2
                            < a as int || (a2 == a as int && b2 < b as int))
                            && #[trigger] album_from(input@, a2, b2, albums@[x]);
                    assert(albums@[x].id@ == input@[a2].albums@[b2].id@);
                    assert(input@[a as int].albums@[b as int].id@ == file.id@);
                    assert(!input_albums_unique(input@));
                }
                return Err(LoadError::DuplicateAlbum { id: file.id.clone() });
            }
            let pair = match read_album(dir.id.as_str(), file.id.as_str(), &file.album) {
                Ok(p) => p,
                Err(e) => {
                    assert(!album_ok(input@[a as int].albums@[b as int].album));
                    return Err(e);
                },
            };
            let album = pair.0;
            let mut ts = pair.1;
            let ghost albv = album.deep_view();
            let ghost tsv = ts@;
            let ghost pre_albums = albums.deep_view();
            let ghost pre_albums_seq = albums@;
            albums.push(album);
            proof {
                assert(albums.deep_view() =~= pre_albums.push(albv));
                assert(album_from(input@, a as int, b as int, albums@[albums@.len() - 1]));
                assert(album_loaded(input@, a as int, b as int, albums@));
                assert forall|x: int|
                    0 <= x < albums@.len() implies album_src_lt(
                    input@,
                    a as int,
                    b + 1,
                    #[trigger] albums@[x],
                ) by {
                    if x < albums@.len() - 1 {
                        assert(album_src_lt(input@, a as int, b as int, albums@[x]));
                        let (a2, b2) = choose|a2: int, b2: int|
                            0 <= a2 < input@.len() && 0 <= b2 < input@[a2].albums@.len() && (a2
                                < a as int || (a2 == a as int && b2 < b as int))
                                && #[trigger] album_from(input@, a2, b2, albums@[x]);
                        assert(album_from(input@, a2, b2, albums@[x]));
                    } else {
                        assert(album_from(input@, a as int, b as int, albums@[x]));
                    }
                }
                assert forall|a2: int, b2: int|
                    (0 <= a2 < a && 0 <= b2 < input@[a2].albums@.len()) || (a2 == a && 0 <= b2 < b
                        + 1 && b2 < input@[a2].albums@.len()) implies #[trigger] album_loaded(
                    input@,
                    a2,
                    b2,
                    albums@,
                ) by {
                    if a2 == a && b2 == b {
                    } else {
                        assert(album_loaded(input@, a2, b2, pre_albums_seq));
                        let x = choose|x: int|
                            0 <= x < pre_albums_seq.len() && #[trigger] album_from(
                                input@,
                                a2,
                                b2,
                                pre_albums_seq[x],
                            );
                        assert(albums@[x] == pre_albums_seq[x]);
                        assert(album_from(input@, a2, b2, albums@[x]));
                    }
                }
                assert(album_ids_unique(albums.deep_view())) by {
                    assert forall|x1: int, x2: int|
                        0 <= x1 < x2 < albums.deep_view().len() implies albums.deep_view()[x1].id
                        != albums.deep_view()[x2].id by {
                        if x2 == albums.deep_view().len() - 1 {
                            if albums.deep_view()[x1].id == albums.deep_view()[x2].id {
                                assert(crate::catalog::has_album(pre_albums, file.id@));
                            }
                        }
                    }
                }
                assert(crate::catalog::has_artist(
                    artists.deep_view(),
                    albums.deep_view()[albums@.len() - 1].artist_id,
                )) by {
                    assert(artists.deep_view()[a as int].id == input@[a as int].id@);
                }
                assert forall|y: int|
                    0 <= y < tracks@.len() implies crate::catalog::has_album(
                    albums.deep_view(),
                    (#[trigger] tracks.deep_view()[y]).album_id,
                ) by {
                    let w = choose|w: int|
                        0 <= w < pre_albums.len() && (#[trigger] pre_albums[w]).id
                            == tracks.deep_view()[y].album_id;
                    assert(albums.deep_view()[w].id == tracks.deep_view()[y].album_id);
                }
            }

            let track_total: usize = ts.len();
            assert(track_total as int == tsv.len());
            assert(tsv.len() <= usize::MAX);
            let mut k: usize = 0;
            while ts.len() > 0
                invariant
                    a < input.len(),
                    b < dir.albums.len(),
                    input@.len() <= usize::MAX,
                    dir == &input@[a as int],
                    dir.albums@.len() == input@[a as int].albums@.len(),
                    k + ts@.len() == tsv.len(),
                    ts@ =~= tsv.skip(k as int),
                    k <= tsv.len(),
                    tsv.len() <= usize::MAX,
                    tsv.len() == input@[a as int].albums@[b as int].album.tracks@.len(),
                    forall|k2: int|
                        0 <= k2 < tsv.len() ==> track_from(
                            input@,
                            a as int,
                            b as int,
                            k2,
                            #[trigger] tsv[k2],
                        ),
                    albums@.len() > 0,
                    album_ids_unique(albums.deep_view()),
                    albums.deep_view()[albums@.len() - 1].id == input@[a as int].albums@[
                        b as int
                    ].id@,
                    forall|y: int|
                        0 <= y < tracks@.len() ==> track_src_lt(
                            input@,
                            a as int,
                            b as int,
                            k as int,
                            #[trigger] tracks@[y],
                        ),
                    forall|a2: int, b2: int, k2: int|
                        ((0 <= a2 < a && 0 <= b2 < input@[a2].albums@.len()) || (a2 == a && 0 <= b2
                            < b && b2 < input@[a2].albums@.len()) || (a2 == a && b2 == b && 0 <= k2
                            < k && b2 < input@[a2].albums@.len())) && 0 <= k2 < input@[a2].albums@[
                            b2
                        ].album.tracks@.len() ==> #[trigger] track_loaded(
                            input@,
                            a2,
                            b2,
                            k2,
                            tracks@,
                        ),
                    track_ids_unique(tracks.deep_view()),
                    forall|y: int|
                        0 <= y < tracks@.len() ==> crate::catalog::has_album(
                            albums.deep_view(),
                            (#[trigger] tracks.deep_view()[y]).album_id,
                        ),
                decreases ts.len(),
            {
                let t = ts.remove(0);
                proof {
                    assert(t == tsv[k as int]);
                    assert(ts@ =~= tsv.skip(k + 1));
                    assert(track_from(input@, a as int, b as int, k as int, tsv[k as int]));
                }
                if contains_track_id(&tracks, t.id.as_str()) {
                    proof {
                        let y = choose|y: int|
                            0 <= y < tracks.deep_view().len() && (#[trigger] tracks.deep_view()[
                                y
                            ]).id == t.id@;
                        assert(track_src_lt(input@, a as int, b as int, k as int, tracks@[y]));
                        let (a2, b2, k2) = choose|a2: int, b2: int, k2: int|
                            0 <= a2 < input@.len() && 0 <= b2 < input@[a2].albums@.len() && 0 <= k2
                                < input@[a2].albums@[b2].album.tracks@.len() && (a2 < a as int || (
                            a2 == a as int && b2 < b as int) || (a2 == a as int && b2 == b as int
                                && k2 < k as int)) && #[trigger] track_from(
                                input@,
                                a2,
                                b2,
                                k2,
                                tracks@[y],
                            );
                        assert(tracks@[y].id@ == slug_of(
                            input@[a2].albums@[b2].album.tracks@[k2].1.name@,
                        ));
                        assert(t.id@ == slug_of(
                            input@[a as int].albums@[b as int].album.tracks@[k as int].1.name@,
                        ));
                        assert(!input_tracks_unique(input@));
                    }
                    return Err(LoadError::DuplicateTrack { id: t.id.clone() });
                }
                let ghost pre_tracks = tracks.deep_view();
                let ghost pre_tracks_seq = tracks@;
                let ghost tval = t;
                tracks.push(t);
                proof {
                    assert(tracks.deep_view() =~= pre_tracks.push(tval.deep_view()));
                    assert(tracks@[tracks@.len() - 1] == tval);
                    assert(track_from(input@, a as int, b as int, k as int, tracks@[tracks@.len()
                        - 1]));
                    assert forall|y: int|
                        0 <= y < tracks@.len() implies track_src_lt(
                        input@,
                        a as int,
                        b as int,
                        k + 1,
                        #[trigger] tracks@[y],
                    ) by {
                        if y < tracks@.len() - 1 {
                            assert(track_src_lt(input@, a as int, b as int, k as int, tracks@[y]));
                            let (a2, b2, k2) = choose|a2: int, b2: int, k2: int|
                                0 <= a2 < input@.len() && 0 <= b2 < input@[a2].albums@.len() && 0
                                    <= k2 < input@[a2].albums@[b2].album.tracks@.len() && (a2
                                    < a as int || (a2 == a as int && b2 < b as int) || (a2
                                    == a as int && b2 == b as int && k2 < k as int))
                                    && #[trigger] track_from(input@, a2, b2, k2, tracks@[y]);
                            assert(track_from(input@, a2, b2, k2, tracks@[y]));
                        } else {
                            assert(track_from(input@, a as int, b as int, k as int, tracks@[y]));
                        }
                    }
                    assert forall|a2: int, b2: int, k2: int|
                        ((0 <= a2 < a && 0 <= b2 < input@[a2].albums@.len()) || (a2 == a && 0 <= b2
                            < b && b2 < input@[a2].albums@.len()) || (a2 == a && b2 == b && 0 <= k2
                            < k + 1 && b2 < input@[a2].albums@.len())) && 0 <= k2 < input@[
                            a2
                        ].albums@[b2].album.tracks@.len() implies #[trigger] track_loaded(
                        input@,
                        a2,
                        b2,
                        k2,
                        tracks@,
                    ) by {
                        if a2 == a && b2 == b && k2 == k {
                            assert(track_loaded(input@, a2, b2, k2, tracks@));
                        } else {
                            assert(track_loaded(input@, a2, b2, k2, pre_tracks_seq));
                            let y = choose|y: int|
                                0 <= y < pre_tracks_seq.len() && #[trigger] track_from(
                                    input@,
                                    a2,
                                    b2,
                                    k2,
                                    pre_tracks_seq[y],
                                );
                            assert(tracks@[y] == pre_tracks_seq[y]);
                            assert(track_from(input@, a2, b2, k2, tracks@[y]));
                        }
                    }
                    assert(track_ids_unique(tracks.deep_view())) by {
                        assert forall|y1: int, y2: int|
                            0 <= y1 < y2 < tracks.deep_view().len() implies tracks.deep_view()[
                            y1
                        ].id != tracks.deep_view()[y2].id by {
                            if y2 == tracks.deep_view().len() - 1 {
                                if tracks.deep_view()[y1].id == tracks.deep_view()[y2].id {
                                    assert(crate::catalog::has_track(pre_tracks, tval.id@));
                                }
                            }
                        }
                    }
                    assert forall|y: int|
                        0 <= y < tracks@.len() implies crate::catalog::has_album(
                        albums.deep_view(),
                        (#[trigger] tracks.deep_view()[y]).album_id,
                    ) by {
                        if y < tracks@.len() - 1 {
                            let w = choose|w: int|
                                0 <= w < albums.deep_view().len() && (#[trigger] albums.deep_view()[
                                    w
                                ]).id == pre_tracks[y].album_id;
                            assert(albums.deep_view()[w].id == tracks.deep_view()[y].album_id);
                        } else {
                            assert(tracks.deep_view()[y].album_id == albums.deep_view()[
                                albums@.len() - 1
                            ].id);
                        }
                    }
                }
                k = k + 1;
            }
            b = b + 1;
        }
        a = a + 1;
    }
    Ok(Data { artists, albums, tracks, countries: cset })
}

/// The album id carried by an album file name: everything before the
/// first dot.
pub open spec fn stem_of(s: Seq<char>) -> Seq<char>
    decreases s.len(),
{
    if s.len() == 0 {
        Seq::empty()
    } else if s[0] == '.' {
        Seq::empty()
    } else {
        seq![s[0]] + stem_of(s.skip(1))
    }
}

/// Whether a directory entry holds an album: entries whose names begin
/// with `.` (metadata) or `_` (reserved) are skipped.
pub fn is_album_file(name: &str) -> (r: bool)
    ensures
        r == (name@.len() > 0 && name@[0] != '.' && name@[0] != '_'),
{
    if name.unicode_len() == 0 {
        return false;
    }
    let c = name.get_char(0);
    c != '.' && c != '_'
}

/// The album id of an album file: the file name's stem before the first
/// dot.
pub fn album_stem(name: &str) -> (r: String)
    ensures
        r@ == stem_of(name@),
{
    let cs = chars_of(name);
    let n: usize = cs.len();
    let mut out: Vec<char> = Vec::new();
    let mut i: usize = 0;
    assert(name@.skip(0) =~= name@);
    assert(Seq::<char>::empty() + stem_of(name@) =~= stem_of(name@));
    while i < n
        invariant
            n == cs.len(),
            cs@ == name@,
            i <= n,
            stem_of(name@) == out@ + stem_of(name@.skip(i as int)),
            forall|j: int| 0 <= j < i ==> (#[trigger] name@[j]) != '.',
        decreases n - i,
    {
        let ghost rest = name@.skip(i as int);
        let c = cs[i];
        assert(rest[0] == c);
        if c == '.' {
            assert(stem_of(rest) =~= Seq::<char>::empty());
            assert(out@ + stem_of(rest) =~= out@);
            return crate::text::string_of(&out);
        }
        out.push(c);
        assert(rest.skip(1) =~= name@.skip(i + 1));
        assert(out@ + stem_of(name@.skip(i + 1)) =~= stem_of(name@));
        i = i + 1;
    }
    assert(name@.skip(n as int) =~= Seq::<char>::empty());
    assert(out@ + stem_of(name@.skip(n as int)) =~= out@);
    crate::text::string_of(&out)
}

} // verus!
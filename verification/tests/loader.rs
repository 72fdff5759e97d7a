//! Tests for the loader's resolution rules and the end-to-end load.

use yar::load::{read_album, read_artist, read_data, read_track, album_stem, is_album_file,
    AlbumFile, ArtistDir, LoadError, YamlAlbum, YamlArtist, YamlCollectiveMember, YamlLocation,
    YamlSample, YamlSampleOccurance, YamlTrack, YamlTrackArtist};
use yar::music::{Album, Country, Date};
use yar::duration::Duration;

fn yaml_track(name: &str, duration: Option<&str>) -> YamlTrack {
    YamlTrack {
        name: name.to_string(),
        duration: duration.map(|d| d.to_string()),
        artists: None,
        artist: None,
        location: vec![],
        sample: None,
        lyrics: None,
        wave: None,
    }
}

fn yaml_album(name: &str, tracks: Vec<(String, YamlTrack)>, urls: Option<Vec<String>>) -> YamlAlbum {
    YamlAlbum {
        name: name.to_string(),
        genre: String::from("electronic"),
        released: Date { year: 2021, month: 6, day: 15 },
        cover: String::from("cover.png"),
        track_count: tracks.len() as u8,
        tracks,
        urls,
    }
}

fn yaml_artist(name: &str, country: Option<&str>) -> YamlArtist {
    YamlArtist {
        name: name.to_string(),
        image: String::from("image.png"),
        logo: None,
        urls: vec![String::from("https://example.com")],
        description: None,
        country: country.map(|c| c.to_string()),
        collective_members: None,
    }
}

fn host_album() -> Album {
    Album {
        id: String::from("alb"),
        name: String::from("Alb"),
        artist_id: String::from("owner"),
        genres: vec![String::from("g")],
        released: Date { year: 2021, month: 1, day: 1 },
        duration: Duration { seconds: 0 },
        cover_url: String::from("c.png"),
        track_count: 1,
        urls: vec![],
    }
}

#[test]
fn track_defaults_to_album_owner() {
    let t = read_track(&host_album(), "1", &yaml_track("My Song", Some("3:00"))).unwrap();
    assert_eq!(t.id, "my-song");
    assert_eq!(t.position, 1);
    assert_eq!(t.duration, Duration { seconds: 180 });
    assert_eq!(t.artists.len(), 1);
    assert_eq!(t.artists[0].id, "owner");
    assert!(t.artists[0].credited_for.is_none());
}

#[test]
fn track_single_artist_field_wins() {
    let mut y = yaml_track("Song", Some("0:30"));
    y.artist = Some(String::from("guest"));
    y.artists = Some(vec![YamlTrackArtist { id: String::from("ignored"), credited_for: None }]);
    let t = read_track(&host_album(), "2", &y).unwrap();
    assert_eq!(t.artists.len(), 1);
    assert_eq!(t.artists[0].id, "guest");
}

#[test]
fn track_artist_list_is_kept_verbatim() {
    let mut y = yaml_track("Song", Some("0:30"));
    y.artists = Some(vec![
        YamlTrackArtist { id: String::from("a"), credited_for: Some(String::from("vocals")) },
        YamlTrackArtist { id: String::from("b"), credited_for: None },
    ]);
    let t = read_track(&host_album(), "1", &y).unwrap();
    assert_eq!(t.artists.len(), 2);
    assert_eq!(t.artists[0].id, "a");
    assert_eq!(t.artists[0].credited_for.as_deref(), Some("vocals"));
    assert_eq!(t.artists[1].id, "b");
}

#[test]
fn track_requires_duration() {
    let e = read_track(&host_album(), "1", &yaml_track("Song", None)).unwrap_err();
    assert!(matches!(e, LoadError::MissingDuration { .. }));
    let e2 = read_track(&host_album(), "1", &yaml_track("Song", Some("nope"))).unwrap_err();
    assert!(matches!(e2, LoadError::BadDuration { .. }));
}

#[test]
fn track_rejects_bad_position() {
    let e = read_track(&host_album(), "x", &yaml_track("Song", Some("1:00"))).unwrap_err();
    assert!(matches!(e, LoadError::BadPosition { .. }));
    let e2 = read_track(&host_album(), "256", &yaml_track("Song", Some("1:00"))).unwrap_err();
    assert!(matches!(e2, LoadError::BadPosition { .. }));
}

#[test]
fn track_resolves_end_token_and_offsets() {
    let mut y = yaml_track("Song", Some("5:00"));
    y.location = vec![YamlLocation {
        url: String::from("https://youtube.com/v"),
        at: Some(String::from("0:42")),
    }];
    y.sample = Some(vec![YamlSample {
        media: String::from("song"),
        artist: String::from("src"),
        name: String::from("hook"),
        kind: String::from("vocals"),
        occurs: vec![YamlSampleOccurance {
            from: String::from("1:00"),
            to: String::from("end"),
            at: String::from("0:10"),
        }],
    }]);
    let t = read_track(&host_album(), "1", &y).unwrap();
    assert_eq!(t.locations[0].at, Some(Duration { seconds: 42 }));
    let occ = &t.samples[0].occurances[0];
    assert_eq!(occ.from, Duration { seconds: 60 });
    assert_eq!(occ.to, Duration { seconds: 300 });
    assert_eq!(occ.at, Duration { seconds: 10 });
    assert_eq!(t.samples[0].id, "hook");
}

#[test]
fn track_rejects_bad_wave() {
    let mut y = yaml_track("Song", Some("1:00"));
    y.wave = Some(String::from("@@not-base64@@"));
    let e = read_track(&host_album(), "1", &y).unwrap_err();
    assert!(matches!(e, LoadError::BadWave { .. }));

    let mut ok = yaml_track("Song", Some("1:00"));
    ok.wave = Some(base64::encode([9u8, 8, 7]));
    let t = read_track(&host_album(), "1", &ok).unwrap();
    assert_eq!(t.wave.unwrap().points, vec![9u8, 8, 7]);
}

#[test]
fn album_urls_fall_back_to_single_track() {
    let mut t = yaml_track("Only", Some("2:00"));
    t.location = vec![YamlLocation { url: String::from("https://x/1"), at: None }];
    let y = yaml_album("A", vec![(String::from("1"), t)], None);
    let (album, tracks) = read_album("owner", "a", &y).unwrap();
    assert_eq!(album.urls, vec![String::from("https://x/1")]);
    assert_eq!(album.artist_id, "owner");
    assert_eq!(album.genres, vec![String::from("electronic")]);
    assert_eq!(tracks.len(), 1);
    assert_eq!(tracks[0].album_id, "a");
}

#[test]
fn album_with_many_tracks_requires_urls() {
    let y = yaml_album(
        "A",
        vec![
            (String::from("1"), yaml_track("One", Some("1:00"))),
            (String::from("2"), yaml_track("Two", Some("1:00"))),
        ],
        None,
    );
    let e = read_album("owner", "a", &y).unwrap_err();
    assert!(matches!(e, LoadError::MissingUrls { .. }));
}

#[test]
fn album_fallback_needs_first_track() {
    let y = yaml_album("A", vec![(String::from("2"), yaml_track("Two", Some("1:00")))], None);
    let e = read_album("owner", "a", &y).unwrap_err();
    assert!(matches!(e, LoadError::MissingFirstTrack { .. }));
}

#[test]
fn artist_resolves_member_years() {
    let mut y = yaml_artist("The Band", None);
    y.collective_members = Some(vec![YamlCollectiveMember {
        name: String::from("ada"),
        joined: Some(2001),
        left: None,
    }]);
    let a = read_artist("the-band", &y).unwrap();
    let members = a.collective_members.unwrap();
    assert_eq!(members[0].id, "ada");
    assert_eq!(members[0].joined, Some(Date { year: 2001, month: 1, day: 1 }));
    assert!(members[0].left.is_none());
}

#[test]
fn artist_rejects_self_membership() {
    let mut y = yaml_artist("The Band", None);
    y.collective_members = Some(vec![YamlCollectiveMember {
        name: String::from("the-band"),
        joined: None,
        left: None,
    }]);
    let e = read_artist("the-band", &y).unwrap_err();
    assert!(matches!(e, LoadError::SelfMember { .. }));
}

#[test]
fn file_name_helpers() {
    assert!(is_album_file("album.yml"));
    assert!(!is_album_file(".artist.yml"));
    assert!(!is_album_file("_draft.yml"));
    assert!(!is_album_file(""));
    assert_eq!(album_stem("first-album.yml"), "first-album");
    assert_eq!(album_stem("noext"), "noext");
}

fn end_to_end_input() -> (Vec<ArtistDir>, Vec<Country>) {
    let mut second = yaml_track("Second Song", Some("4:15"));
    second.artists = Some(vec![
        YamlTrackArtist { id: String::from("artist-one"), credited_for: None },
        YamlTrackArtist { id: String::from("x"), credited_for: None },
    ]);
    let album = yaml_album(
        "First Album",
        vec![
            (String::from("1"), yaml_track("First Song", Some("3:00"))),
            (String::from("2"), second),
        ],
        Some(vec![String::from("https://example.com/album")]),
    );
    let dir = ArtistDir {
        id: String::from("artist-one"),
        artist: yaml_artist("Artist One", Some("US")),
        albums: vec![AlbumFile { id: String::from("first-album"), album }],
    };
    let countries = vec![Country {
        name: String::from("United States"),
        code: String::from("US"),
        emoji: String::from("**"),
    }];
    (vec![dir], countries)
}

#[test]
fn end_to_end_scenario() {
    let (input, countries) = end_to_end_input();
    let data = read_data(&input, &countries).unwrap();

    let albums = data.get_albums_by("artist-one");
    assert_eq!(albums.len(), 1);
    assert_eq!(albums[0].id, "first-album");

    let by_x = data.get_tracks_by("x");
    assert_eq!(by_x.len(), 1);
    assert_eq!(by_x[0].0, "first-album");
    assert_eq!(by_x[0].1.len(), 1);
    assert_eq!(by_x[0].1[0].id, "second-song");
    assert_eq!(by_x[0].1[0].duration, Duration { seconds: 255 });

    let by_country = data.get_artists_by_country();
    let us = by_country.iter().find(|(code, _)| code == "US").unwrap();
    assert_eq!(us.1.len(), 1);
    assert_eq!(us.1[0].id, "artist-one");

    assert_eq!(data.countries.get("US").unwrap().name, "United States");
    assert_eq!(data.tracks.len(), 2);
    assert_eq!(data.get_tracks_in_album("first-album").len(), 2);
}

#[test]
fn read_data_rejects_duplicate_track_slugs() {
    let (mut input, countries) = end_to_end_input();
    // A second track whose name slugifies like the first.
    input[0].albums[0]
        .album
        .tracks
        .push((String::from("3"), yaml_track("First Song?", Some("1:00"))));
    let e = read_data(&input, &countries).unwrap_err();
    assert!(matches!(e, LoadError::DuplicateTrack { .. }));
}

#[test]
fn read_data_rejects_duplicate_artists() {
    let (mut input, countries) = end_to_end_input();
    input.push(ArtistDir {
        id: String::from("artist-one"),
        artist: yaml_artist("Clone", None),
        albums: vec![],
    });
    let e = read_data(&input, &countries).unwrap_err();
    assert!(matches!(e, LoadError::DuplicateArtist { .. }));
}

#[test]
fn read_data_rejects_duplicate_albums() {
    let (mut input, countries) = end_to_end_input();
    input.push(ArtistDir {
        id: String::from("artist-two"),
        artist: yaml_artist("Artist Two", None),
        albums: vec![AlbumFile {
            id: String::from("first-album"),
            album: yaml_album(
                "Other",
                vec![(String::from("1"), yaml_track("Other Song", Some("1:00")))],
                Some(vec![]),
            ),
        }],
    });
    let e = read_data(&input, &countries).unwrap_err();
    assert!(matches!(e, LoadError::DuplicateAlbum { .. }));
}

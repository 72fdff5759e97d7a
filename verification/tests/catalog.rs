//! Tests for the catalog queries over a hand-built data set.

use yar::catalog::{countries_to_hashmap, make_country, Countries, Data};
use yar::duration::Duration;
use yar::music::{Album, Artist, CollectiveMember, Country, Date, Track, TrackArtist};

fn artist(id: &str, country: Option<&str>) -> Artist {
    Artist {
        id: id.to_string(),
        name: id.to_uppercase(),
        image_url: format!("{}.png", id),
        country_code: country.map(|c| c.to_string()),
        description: None,
        collective_members: None,
        logo_url: None,
        urls: vec![],
    }
}

fn album(id: &str, artist_id: &str) -> Album {
    Album {
        id: id.to_string(),
        name: id.to_uppercase(),
        artist_id: artist_id.to_string(),
        genres: vec![String::from("genre")],
        released: Date { year: 2020, month: 1, day: 1 },
        duration: Duration { seconds: 0 },
        cover_url: String::from("cover.png"),
        track_count: 1,
        urls: vec![],
    }
}

fn track(id: &str, position: u8, album_id: &str, owner: &str, credited: &[&str]) -> Track {
    Track {
        id: id.to_string(),
        name: id.to_uppercase(),
        position,
        artist_id: owner.to_string(),
        album_id: album_id.to_string(),
        duration: Duration { seconds: 180 },
        artists: credited
            .iter()
            .map(|c| TrackArtist { id: c.to_string(), credited_for: None })
            .collect(),
        locations: vec![],
        samples: vec![],
        wave: None,
    }
}

fn country(code: &str, name: &str, emoji: &str) -> Country {
    Country { code: code.to_string(), name: name.to_string(), emoji: emoji.to_string() }
}

fn sample_data() -> Data {
    Data {
        artists: vec![artist("ada", Some("US")), artist("bob", Some("US")), artist("cleo", None)],
        albums: vec![album("one", "ada"), album("two", "ada"), album("three", "bob")],
        tracks: vec![
            track("t1", 1, "one", "ada", &["ada"]),
            track("t2", 2, "one", "ada", &["ada", "bob"]),
            track("t3", 1, "three", "bob", &["bob", "ada"]),
        ],
        countries: countries_to_hashmap(&vec![country("US", "United States", "US-flag")]),
    }
}

#[test]
fn get_album_and_artist_look_up_by_id() {
    let data = sample_data();
    assert_eq!(data.get_album("two").id, "two");
    assert_eq!(data.get_artist("bob").unwrap().name, "BOB");
    assert!(data.get_artist("nobody").is_none());
}

#[test]
fn albums_by_returns_exactly_the_owned_albums() {
    let data = sample_data();
    let mine = data.get_albums_by("ada");
    let ids: Vec<&str> = mine.iter().map(|a| a.id.as_str()).collect();
    assert_eq!(ids, vec!["one", "two"]);
    assert_eq!(data.get_albums_by("bob").len(), 1);
    assert_eq!(data.get_albums_by("nobody").len(), 0);
}

#[test]
fn tracks_by_groups_by_album() {
    let data = sample_data();
    let groups = data.get_tracks_by("bob");
    assert_eq!(groups.len(), 2);
    let one = groups.iter().find(|(k, _)| k == "one").unwrap();
    assert_eq!(one.1.len(), 1);
    assert_eq!(one.1[0].id, "t2");
    let three = groups.iter().find(|(k, _)| k == "three").unwrap();
    assert_eq!(three.1[0].id, "t3");
}

#[test]
fn features_exclude_own_albums() {
    let data = sample_data();
    // bob appears on ada's album "one" and his own "three".
    let features = data.get_features_by("bob");
    assert_eq!(features.len(), 1);
    assert_eq!(features[0].0, "one");
    assert_eq!(features[0].1[0].id, "t2");
    // ada appears as a contributing artist on bob's "three".
    let ada = data.get_features_by("ada");
    assert_eq!(ada.len(), 1);
    assert_eq!(ada[0].0, "three");
    // Nobody's features never include an album they own.
    for (album_id, _) in data.get_features_by("ada") {
        assert_ne!(data.get_album(&album_id).artist_id, "ada");
    }
}

#[test]
fn artists_by_country_groups_and_skips_codeless() {
    let data = sample_data();
    let groups = data.get_artists_by_country();
    assert_eq!(groups.len(), 1);
    assert_eq!(groups[0].0, "US");
    let names: Vec<&str> = groups[0].1.iter().map(|a| a.id.as_str()).collect();
    assert_eq!(names, vec!["ada", "bob"]);
}

#[test]
fn collectives_respect_left_dates() {
    let mut data = sample_data();
    data.artists.push(Artist {
        collective_members: Some(vec![CollectiveMember {
            id: String::from("ada"),
            joined: Some(Date { year: 2001, month: 1, day: 1 }),
            left: None,
        }]),
        ..artist("band", None)
    });
    assert_eq!(data.get_collectives("ada"), vec![String::from("band")]);
    assert_eq!(data.get_collectives_active("ada"), vec![String::from("band")]);

    // After a leave date is set, only the dateless query still lists it.
    let last = data.artists.len() - 1;
    data.artists[last].collective_members = Some(vec![CollectiveMember {
        id: String::from("ada"),
        joined: Some(Date { year: 2001, month: 1, day: 1 }),
        left: Some(Date { year: 2003, month: 1, day: 1 }),
    }]);
    assert_eq!(data.get_collectives("ada"), vec![String::from("band")]);
    assert!(data.get_collectives_active("ada").is_empty());
}

#[test]
fn album_artist_ids_dedupe() {
    let data = sample_data();
    let mut ids = data.get_album_artist_ids("one");
    ids.sort();
    assert_eq!(ids, vec![String::from("ada"), String::from("bob")]);
}

#[test]
fn tracks_in_album_have_all_positions() {
    let data = sample_data();
    let listing = data.get_tracks_in_album("one");
    assert_eq!(listing.len(), 2);
    let mut positions: Vec<u8> = listing.iter().map(|(p, _)| *p).collect();
    positions.sort();
    assert_eq!(positions, vec![1, 2]);
    for (p, t) in &listing {
        assert_eq!(*p, t.position);
        assert_eq!(t.album_id, "one");
    }
}

#[test]
fn tracks_in_album_keep_colliding_positions() {
    let mut data = sample_data();
    data.tracks.push(track("t4", 1, "one", "ada", &["ada"]));
    let listing = data.get_tracks_in_album("one");
    // A position collision must not silently drop an entry.
    assert_eq!(listing.len(), 3);
}

#[test]
fn get_sample_is_always_empty() {
    let data = sample_data();
    assert!(data.get_sample("anything").is_none());
}

#[test]
fn countries_map_is_last_wins() {
    let set: Countries = countries_to_hashmap(&vec![
        country("US", "United States", "u"),
        country("DE", "Germany", "d"),
        country("US", "USA", "u2"),
    ]);
    assert_eq!(set.list.len(), 2);
    assert_eq!(set.get("US").unwrap().name, "USA");
    assert_eq!(set.get("DE").unwrap().name, "Germany");
    assert!(set.get("FR").is_none());
}

#[test]
fn make_country_counts_artists() {
    let c = country("US", "United States", "**");
    let groups = vec![(String::from("US"), vec![artist("ada", Some("US")), artist("bob", Some("US"))])];
    assert_eq!(make_country(&c, &groups).unwrap(), "** United States (2)");
    let empty: Vec<(String, Vec<Artist>)> = vec![];
    assert!(make_country(&c, &empty).is_none());
    let zero = vec![(String::from("US"), Vec::<Artist>::new())];
    assert!(make_country(&c, &zero).is_none());
}

#[test]
fn url_lookups_find_first_match() {
    let mut a = artist("ada", None);
    a.urls = vec![
        String::from("https://ada.bandcamp.com/x"),
        String::from("https://soundcloud.com/ada"),
        String::from("https://example.bandcamp.com/y"),
    ];
    assert_eq!(a.url_bandcamp().unwrap(), "https://ada.bandcamp.com/x");
    assert_eq!(a.url_soundcloud().unwrap(), "https://soundcloud.com/ada");
    assert!(a.url_spotify().is_none());
    assert!(a.url_youtube().is_none());
    assert!(a.url_apple().is_none());
}

#[test]
fn location_lookups_find_first_match() {
    let mut t = track("t", 1, "one", "ada", &["ada"]);
    t.locations = vec![
        yar::music::Location { url: String::from("https://youtube.com/w"), at: None },
        yar::music::Location {
            url: String::from("https://open.spotify.com/x"),
            at: Some(Duration { seconds: 9 }),
        },
    ];
    assert_eq!(t.location_youtube().unwrap().url, "https://youtube.com/w");
    let sp = t.location_spotify().unwrap();
    assert_eq!(sp.url, "https://open.spotify.com/x");
    assert_eq!(sp.at, Some(Duration { seconds: 9 }));
    assert!(t.location_bandcamp().is_none());
}

#[test]
fn filter_is_collective_splits_both_ways() {
    let mut band = artist("band", None);
    band.collective_members = Some(vec![]);
    let all = vec![artist("ada", None), band];
    let solo = yar::music::artists_filter_is_collective(all, false);
    assert_eq!(solo.len(), 1);
    assert_eq!(solo[0].id, "ada");

    let mut band2 = artist("band", None);
    band2.collective_members = Some(vec![]);
    let all2 = vec![artist("ada", None), band2];
    let groups = yar::music::artists_filter_is_collective(all2, true);
    assert_eq!(groups.len(), 1);
    assert_eq!(groups[0].id, "band");
}

#[test]
fn sorted_queries_order_by_id() {
    let mut data = sample_data();
    let mut band = artist("zz-band", None);
    band.collective_members = Some(vec![]);
    data.artists.push(band);
    let solo = data.get_artists_sorted();
    let ids: Vec<&str> = solo.iter().map(|a| a.id.as_str()).collect();
    assert_eq!(ids, vec!["ada", "bob", "cleo"]);
    let groups = data.get_collectives_sorted();
    assert_eq!(groups.len(), 1);
    assert_eq!(groups[0].id, "zz-band");
}

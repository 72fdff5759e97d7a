//! Tests for the leaf components: slugs, durations, waveforms and colors.

use yar::color::{id_to_color, sample_to_colors, Color};
use yar::duration::{duration_format, duration_to_str, str_to_duration, Duration, ParseError};
use yar::music::{SampleOccurance, TrackSample, Wave};
use yar::slug::parse_name;
use yar::wave::{decode_waveform, encode_waveform, wave_to_str, DecodeError};

fn secs(n: u64) -> Duration {
    Duration { seconds: n }
}

#[test]
fn duration_parses_all_three_forms() {
    assert_eq!(str_to_duration("59").unwrap(), secs(59));
    assert_eq!(str_to_duration("0").unwrap(), secs(0));
    assert_eq!(str_to_duration("3:45").unwrap(), secs(225));
    assert_eq!(str_to_duration("1:02:03").unwrap(), secs(3723));
    assert_eq!(str_to_duration("0:75").unwrap(), secs(75));
}

#[test]
fn duration_rejects_bad_formats() {
    assert_eq!(str_to_duration(""), Err(ParseError::BadFormat));
    assert_eq!(str_to_duration("a:b"), Err(ParseError::BadFormat));
    assert_eq!(str_to_duration("1:2:3:4"), Err(ParseError::BadFormat));
    assert_eq!(str_to_duration(":10"), Err(ParseError::BadFormat));
    assert_eq!(str_to_duration("10:"), Err(ParseError::BadFormat));
    assert_eq!(str_to_duration("1: 2"), Err(ParseError::BadFormat));
    assert_eq!(str_to_duration("-1:02"), Err(ParseError::BadFormat));
}

#[test]
fn duration_rejects_overflow() {
    assert_eq!(
        str_to_duration("99999999999999999999"),
        Err(ParseError::Overflow)
    );
    assert_eq!(
        str_to_duration("18446744073709551615:00"),
        Err(ParseError::Overflow)
    );
}

#[test]
fn duration_round_trips_through_format() {
    let d = str_to_duration("3:45").unwrap();
    assert_eq!(duration_format(&d), "3:45");
    assert_eq!(duration_format(&secs(61)), "1:01");
    assert_eq!(duration_format(&secs(9)), "0:09");
    assert_eq!(duration_format(&secs(3723)), "62:03");
    assert_eq!(str_to_duration(&duration_format(&secs(54321))).unwrap(), secs(54321));
}

#[test]
fn duration_renders_url_fragment() {
    assert_eq!(duration_to_str(&secs(225)), "#t=3%3A45");
    assert_eq!(duration_to_str(&secs(5)), "#t=0%3A05");
}

#[test]
fn slugify_expands_ampersand() {
    assert_eq!(parse_name("Don't Play & The Gang"), "dont-play-and-the-gang");
}

#[test]
fn slugify_is_idempotent_and_safe() {
    let cases = [
        "Don't Play & The Gang",
        "  A  B  ",
        "Ümläute & Co.",
        "R&B",
        "The 2nd Act!",
        "--already-slug--",
        "",
    ];
    for name in cases {
        let once = parse_name(name);
        assert_eq!(parse_name(&once), once);
        assert!(once
            .chars()
            .all(|c| c.is_ascii_lowercase() || c.is_ascii_digit() || c == '-'));
    }
}

#[test]
fn slugify_keeps_bare_ampersand_out() {
    // Only the space-delimited ampersand becomes "and".
    assert_eq!(parse_name("R&B"), "rb");
    assert_eq!(parse_name("Salt & Pepper"), "salt-and-pepper");
}

#[test]
fn waveform_decodes_base64() {
    let text = base64::encode([0u8, 1, 127, 255]);
    let wave = decode_waveform(&text).unwrap();
    assert_eq!(wave.points, vec![0u8, 1, 127, 255]);
    assert_eq!(wave.length, 4);
}

#[test]
fn waveform_rejects_invalid_base64() {
    assert_eq!(
        decode_waveform("!!! not base64 !!!").err(),
        Some(DecodeError::InvalidBase64)
    );
}

#[test]
fn waveform_round_trips() {
    let wave = Wave { length: 5, points: vec![3u8, 0, 250, 17, 99] };
    let text = encode_waveform(&wave);
    let again = decode_waveform(&text).unwrap();
    assert_eq!(again.points, wave.points);
    assert_eq!(again.length, 5);
}

#[test]
fn waveform_renders_csv() {
    let wave = Wave { length: 3, points: vec![1u8, 22, 255] };
    assert_eq!(wave_to_str(&wave), "1,22,255");
    let empty = Wave { length: 0, points: vec![] };
    assert_eq!(wave_to_str(&empty), "");
}

#[test]
fn color_hex_renders_lowercase() {
    assert_eq!(Color::new(255, 0, 10).hex(), "#ff000a");
    assert_eq!(Color::new(0, 0, 0).hex(), "#000000");
}

#[test]
fn id_to_color_uses_digest_prefix() {
    let c = id_to_color("abc");
    let digest = md5::compute("abc".as_bytes());
    assert_eq!(c.r, digest.0[0]);
    assert_eq!(c.g, digest.0[1]);
    assert_eq!(c.b, digest.0[2]);
}

#[test]
fn sample_to_colors_renders_occurrences() {
    let sample = TrackSample {
        id: String::from("s"),
        media: String::from("m"),
        artist: String::from("a"),
        name: String::from("s"),
        kind: String::from("vocals"),
        occurances: vec![
            SampleOccurance { from: secs(1), to: secs(2), at: secs(0) },
            SampleOccurance { from: secs(10), to: secs(12), at: secs(3) },
        ],
    };
    let beat = TrackSample {
        id: String::from("b"),
        media: String::from("m"),
        artist: String::from("a"),
        name: String::from("b"),
        kind: String::from("beat"),
        occurances: vec![SampleOccurance { from: secs(4), to: secs(5), at: secs(0) }],
    };
    let out = sample_to_colors(&vec![sample, beat]);
    assert_eq!(
        out,
        "{from: 1, to: 2, color: [255,0,0]},{from: 10, to: 12, color: [255,0,0]},{from: 4, to: 5, color: [0,0,255]}"
    );
}

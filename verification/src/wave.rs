//! Waveform decoding: a track's amplitude preview arrives as a base64
//! string and becomes a [`Wave`] of raw bytes. The inverse encoding is kept
//! alongside so the round trip can be stated and exercised.

use vstd::prelude::*;
use crate::music::Wave;
use crate::text::{dec_of, join_comma, lemma_join_comma_push, push_char, push_dec_u64};

verus! {

/// Whether a character sequence is valid base64 under the standard
/// alphabet.
pub uninterp spec fn b64_valid(s: Seq<char>) -> bool;

/// The bytes that a valid base64 text encodes.
pub uninterp spec fn b64_bytes_of(s: Seq<char>) -> Seq<u8>;

/// The standard base64 rendering of a byte sequence.
pub uninterp spec fn b64_encode_of(b: Seq<u8>) -> Seq<char>;

/// Why a waveform text was rejected.
#[derive(Clone, Copy, Debug, PartialEq, Eq, Structural)]
pub enum DecodeError {
    /// The text is not valid base64.
    InvalidBase64,
    /// The decoded byte count does not fit the waveform's length field.
    TooLong,
}

/// Relies on `base64::decode` (standard alphabet): it returns `Ok` exactly
/// on valid base64 input, yielding the bytes the text encodes.
#[verifier::external_body]
fn b64_decode(s: &str) -> (r: Option<Vec<u8>>)
    ensures
        r matches Some(v) ==> b64_valid(s@) && v@ == b64_bytes_of(s@),
        r is None ==> !b64_valid(s@),
{
    match base64::decode(s) {
        Ok(v) => Some(v),
        Err(_) => None,
    }
}

/// Relies on `base64::encode` (standard alphabet): its output is the
/// base64 rendering of the input, which `base64::decode` accepts and maps
/// back to the input.
#[verifier::external_body]
fn b64_encode(b: &[u8]) -> (r: String)
    ensures
        r@ == b64_encode_of(b@),
        b64_valid(r@),
        b64_bytes_of(r@) == b@,
{
    base64::encode(b)
}

/// Decodes a base64 amplitude string into a waveform.
///
/// Returns `DecodeError::InvalidBase64` when the text is not base64, and
/// `DecodeError::TooLong` when the decoded byte count cannot be recorded.
pub fn decode_waveform(text: &str) -> (r: Result<Wave, DecodeError>)
    ensures
        r matches Ok(w) ==> b64_valid(text@) && w.points@ == b64_bytes_of(text@) && w.length
            == w.points@.len() && w.points@.len() <= i32::MAX,
        (!b64_valid(text@) <==> r == Err::<Wave, DecodeError>(DecodeError::InvalidBase64)),
        (b64_valid(text@) && b64_bytes_of(text@).len() > i32::MAX <==> r == Err::<
            Wave,
            DecodeError,
        >(DecodeError::TooLong)),
{
    let points = match b64_decode(text) {
        Some(v) => v,
        None => {
            return Err(DecodeError::InvalidBase64);
        },
    };
    if points.len() > (i32::MAX as usize) {
        return Err(DecodeError::TooLong);
    }
    let length = points.len() as i32;
    Ok(Wave { length, points })
}

/// Encodes a waveform's points back to base64 text; decoding that text
/// yields the points again.
pub fn encode_waveform(wave: &Wave) -> (r: String)
    ensures
        r@ == b64_encode_of(wave.points@),
        b64_valid(r@),
        b64_bytes_of(r@) == wave.points@,
{
    b64_encode(wave.points.as_slice())
}

/// Law: encoding a waveform's points and decoding the text again yields
/// exactly the original points.
pub fn waveform_round_trip(wave: &Wave) -> (r: Result<Wave, DecodeError>)
    requires
        wave.points@.len() <= i32::MAX,
    ensures
        r is Ok,
        r matches Ok(w) ==> w.points@ == wave.points@ && w.length == wave.points@.len(),
{
    let text = encode_waveform(wave);
    let d = decode_waveform(text.as_str());
    proof {
        match d {
            Ok(_) => {},
            Err(e) => {
                match e {
                    DecodeError::InvalidBase64 => {
                        assert(d == Err::<Wave, DecodeError>(DecodeError::InvalidBase64));
                    },
                    DecodeError::TooLong => {
                        assert(d == Err::<Wave, DecodeError>(DecodeError::TooLong));
                    },
                }
            },
        }
    }
    d
}

/// Comma-separated decimal rendering of a waveform's points.
pub open spec fn wave_csv(points: Seq<u8>) -> Seq<char> {
    join_comma(points.map_values(|p: u8| dec_of(p as nat)))
}

/// Turns a waveform into the flat numeric list a rendering context embeds.
pub fn wave_to_str(wave: &Wave) -> (r: String)
    ensures
        r@ == wave_csv(wave.points@),
{
    let ghost parts = wave.points@.map_values(|p: u8| dec_of(p as nat));
    let mut out = String::new();
    let mut i: usize = 0;
    assert(wave.points@.take(0).map_values(|p: u8| dec_of(p as nat)) =~= parts.take(0));
    while i < wave.points.len()
        invariant
            parts == wave.points@.map_values(|p: u8| dec_of(p as nat)),
            parts.len() == wave.points@.len(),
            i <= wave.points.len(),
            out@ == join_comma(parts.take(i as int)),
        decreases wave.points.len() - i,
    {
        if i > 0 {
            push_char(&mut out, ',');
        }
        push_dec_u64(&mut out, wave.points[i] as u64);
        proof {
            assert(parts.take(i + 1) =~= parts.take(i as int).push(parts[i as int]));
            lemma_join_comma_push(parts.take(i as int), parts[i as int]);
            assert(parts[i as int] == dec_of(wave.points@[i as int] as nat));
            assert(out@ =~= join_comma(parts.take(i + 1)));
        }
        i = i + 1;
    }
    assert(parts.take(parts.len() as int) =~= parts);
    out
}

} // verus!

//! Deterministic visual tagging: an id maps to an RGB color through its
//! MD5 digest, sample kinds map to fixed colors, and a track's samples
//! render to the inline occurrence list the player overlays on a waveform.

use vstd::prelude::*;
use crate::music::{SampleOccurance, TrackSample, TrackSampleView};
use crate::text::{dec_of, hex_of_byte, join_comma, lemma_join_comma_push, push_char,
    push_dec_u64, push_hex_byte, str_eq};

verus! {

/// An RGB color.
#[derive(Clone, Copy, Debug, PartialEq, Eq, Structural)]
pub struct Color {
    pub r: u8,
    pub g: u8,
    pub b: u8,
}

impl Color {
    /// Bundles three channel values.
    pub fn new(r: u8, g: u8, b: u8) -> (c: Self)
        ensures
            c == (Color { r, g, b }),
    {
        Color { r, g, b }
    }

    /// `#rrggbb` rendering with lowercase hex digits.
    pub fn hex(&self) -> (s: String)
        ensures
            s@ == seq!['#'] + hex_of_byte(self.r as nat) + hex_of_byte(self.g as nat)
                + hex_of_byte(self.b as nat),
    {
        let mut out = String::new();
        push_char(&mut out, '#');
        push_hex_byte(&mut out, self.r);
        push_hex_byte(&mut out, self.g);
        push_hex_byte(&mut out, self.b);
        assert(out@ =~= seq!['#'] + hex_of_byte(self.r as nat) + hex_of_byte(self.g as nat)
            + hex_of_byte(self.b as nat));
        out
    }
}

/// The 16-byte MD5 digest of a string's UTF-8 bytes.
pub uninterp spec fn md5_of(s: Seq<char>) -> Seq<u8>;

/// Relies on `md5::compute`: the digest depends on the input bytes alone
/// and is always 16 bytes long.
#[verifier::external_body]
fn md5_digest(s: &str) -> (r: Vec<u8>)
    ensures
        r@ == md5_of(s@),
        r@.len() == 16,
{
    md5::compute(s.as_bytes()).0.to_vec()
}

/// Maps an id to its display color: the first three bytes of its digest.
pub fn id_to_color(id: &str) -> (c: Color)
    ensures
        c.r == md5_of(id@)[0],
        c.g == md5_of(id@)[1],
        c.b == md5_of(id@)[2],
{
    let hash = md5_digest(id);
    let r = hash[0];
    let g = hash[1];
    let b = hash[2];
    Color { r, g, b }
}

/// The fixed color of a sample kind: red for vocals, blue for beats,
/// black otherwise.
pub open spec fn sample_color_spec(kind: Seq<char>) -> Color {
    if kind == "vocals"@ {
        Color { r: 255, g: 0, b: 0 }
    } else if kind == "beat"@ {
        Color { r: 0, g: 0, b: 255 }
    } else {
        Color { r: 0, g: 0, b: 0 }
    }
}

fn get_sample_color(sample: &TrackSample) -> (c: Color)
    ensures
        c == sample_color_spec(sample.kind@),
{
    if str_eq(sample.kind.as_str(), "vocals") {
        Color { r: 255, g: 0, b: 0 }
    } else if str_eq(sample.kind.as_str(), "beat") {
        Color { r: 0, g: 0, b: 255 }
    } else {
        Color { r: 0, g: 0, b: 0 }
    }
}

/// One occurrence entry of the inline list: its time range and the color
/// of the sample's kind.
pub open spec fn occ_text(kind: Seq<char>, o: SampleOccurance) -> Seq<char> {
    let c = sample_color_spec(kind);
    seq!['{', 'f', 'r', 'o', 'm', ':', ' '] + dec_of(o.from.seconds as nat) + seq![
        ',',
        ' ',
        't',
        'o',
        ':',
        ' ',
    ] + dec_of(o.to.seconds as nat) + seq![',', ' ', 'c', 'o', 'l', 'o', 'r', ':', ' ', '[']
        + dec_of(c.r as nat) + seq![','] + dec_of(c.g as nat) + seq![','] + dec_of(c.b as nat)
        + seq![']', '}']
}

/// Appends one occurrence entry for a sample of the given kind.
#[verifier::rlimit(60)]
fn push_occ_text(out: &mut String, color: Color, o: &SampleOccurance, kind: Ghost<Seq<char>>)
    requires
        color == sample_color_spec(kind@),
    ensures
        final(out)@ == old(out)@ + occ_text(kind@, *o),
{
    push_char(out, '{');
    push_char(out, 'f');
    push_char(out, 'r');
    push_char(out, 'o');
    push_char(out, 'm');
    push_char(out, ':');
    push_char(out, ' ');
    push_dec_u64(out, o.from.seconds);
    push_char(out, ',');
    push_char(out, ' ');
    push_char(out, 't');
    push_char(out, 'o');
    push_char(out, ':');
    push_char(out, ' ');
    push_dec_u64(out, o.to.seconds);
    push_char(out, ',');
    push_char(out, ' ');
    push_char(out, 'c');
    push_char(out, 'o');
    push_char(out, 'l');
    push_char(out, 'o');
    push_char(out, 'r');
    push_char(out, ':');
    push_char(out, ' ');
    push_char(out, '[');
    push_dec_u64(out, color.r as u64);
    push_char(out, ',');
    push_dec_u64(out, color.g as u64);
    push_char(out, ',');
    push_dec_u64(out, color.b as u64);
    push_char(out, ']');
    push_char(out, '}');
    assert(final(out)@ =~= old(out)@ + occ_text(kind@, *o));
}

/// All occurrence entries of a sample list, in order.
pub open spec fn sample_entries(samples: Seq<TrackSampleView>) -> Seq<Seq<char>>
    decreases samples.len(),
{
    if samples.len() == 0 {
        Seq::empty()
    } else {
        sample_entries(samples.drop_last()) + samples.last().occurances.map_values(
            |o: SampleOccurance| occ_text(samples.last().kind, o),
        )
    }
}

/// Renders a track's sample occurrences as the comma-joined inline list
/// the player consumes.
#[verifier::loop_isolation(false)]
#[verifier::rlimit(60)]
pub fn sample_to_colors(samples: &Vec<TrackSample>) -> (r: String)
    ensures
        r@ == join_comma(sample_entries(samples.deep_view())),
{
    let ghost svs = samples.deep_view();
    let mut out = String::new();
    let mut first: bool = true;
    let ghost mut parts: Seq<Seq<char>> = Seq::empty();
    let mut i: usize = 0;
    assert(sample_entries(svs.take(0)) =~= Seq::<Seq<char>>::empty());
    while i < samples.len()
        invariant
            svs == samples.deep_view(),
            svs.len() == samples.len(),
            forall|k: int| 0 <= k < svs.len() ==> #[trigger] svs[k] == samples@[k].deep_view(),
            i <= samples.len(),
            parts == sample_entries(svs.take(i as int)),
            out@ == join_comma(parts),
            first == (parts.len() == 0),
        decreases samples.len() - i,
    {
        let sample = &samples[i];
        let color = get_sample_color(sample);
        let ghost kind = svs[i as int].kind;
        assert(kind == sample.kind@);
        let ghost occs = svs[i as int].occurances;
        assert(occs == sample.occurances@.map_values(|o: SampleOccurance| o));
        let mut j: usize = 0;
        assert(occs.take(0).map_values(|o: SampleOccurance| occ_text(kind, o))
            =~= Seq::<Seq<char>>::empty());
        while j < sample.occurances.len()
            invariant
                occs.len() == sample.occurances.len(),
                forall|t: int| 0 <= t < occs.len() ==> #[trigger] occs[t] == sample.occurances@[t],
                color == sample_color_spec(kind),
                j <= sample.occurances.len(),
                parts == sample_entries(svs.take(i as int)) + occs.take(j as int).map_values(
                    |o: SampleOccurance| occ_text(kind, o),
                ),
                out@ == join_comma(parts),
                first == (parts.len() == 0),
            decreases sample.occurances.len() - j,
        {
            let o = sample.occurances[j];
            let ghost prev = parts;
            if first {
                first = false;
            } else {
                push_char(&mut out, ',');
            }
            push_occ_text(&mut out, color, &o, Ghost(kind));
            proof {
                parts = prev.push(occ_text(kind, o));
                lemma_join_comma_push(prev, occ_text(kind, o));
                assert(out@ =~= join_comma(parts));
                assert(occs.take(j + 1).map_values(|o2: SampleOccurance| occ_text(kind, o2))
                    =~= occs.take(j as int).map_values(
                    |o2: SampleOccurance| occ_text(kind, o2),
                ).push(occ_text(kind, occs[j as int])));
                assert(parts =~= sample_entries(svs.take(i as int)) + occs.take(j + 1).map_values(
                    |o2: SampleOccurance| occ_text(kind, o2),
                ));
            }
            j = j + 1;
        }
        proof {
            assert(occs.take(occs.len() as int) =~= occs);
            assert(svs.take(i + 1).drop_last() =~= svs.take(i as int));
            assert(svs.take(i + 1).last() == svs[i as int]);
            assert(sample_entries(svs.take(i + 1)) == sample_entries(svs.take(i as int))
                + svs[i as int].occurances.map_values(|o2: SampleOccurance| occ_text(kind, o2)));
            assert(parts =~= sample_entries(svs.take(i + 1)));
        }
        i = i + 1;
    }
    assert(svs.take(svs.len() as int) =~= svs);
    out
}

} // verus!

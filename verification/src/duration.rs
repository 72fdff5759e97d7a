//! Durations as whole non-negative seconds, parsed from the colon-separated
//! forms `"SS"`, `"MM:SS"` and `"HH:MM:SS"`, and rendered back as `"M:SS"`
//! for inline display or `"#t=M%3ASS"` for media URL fragments.

use vstd::prelude::*;
use crate::text::{all_digits, chars_of, dec_of, digit_char, digit_val, digits_val, is_digit_char,
    push_char, push_dec_u64};

verus! {

/// A non-negative duration in whole seconds.
#[derive(Clone, Copy, Debug, PartialEq, Eq, Structural)]
pub struct Duration {
    pub seconds: u64,
}

/// Why a duration text was rejected.
#[derive(Clone, Copy, Debug, PartialEq, Eq, Structural)]
pub enum ParseError {
    /// Not one to three colon-separated runs of ASCII digits.
    BadFormat,
    /// Well-formed, but the total seconds exceed the representable range.
    Overflow,
}

/// Splits a character sequence at every colon; a sequence without colons is
/// a single segment, and each colon opens a new one.
pub open spec fn split_colons(s: Seq<char>) -> Seq<Seq<char>>
    decreases s.len(),
{
    if s.len() == 0 {
        seq![Seq::<char>::empty()]
    } else {
        let rest = split_colons(s.skip(1));
        if s[0] == ':' {
            seq![Seq::<char>::empty()] + rest
        } else {
            seq![seq![s[0]] + rest[0]] + rest.skip(1)
        }
    }
}

/// A duration text is one to three nonempty, all-digit segments.
pub open spec fn duration_text_valid(s: Seq<char>) -> bool {
    let parts = split_colons(s);
    1 <= parts.len() <= 3 && forall|i: int|
        0 <= i < parts.len() ==> (#[trigger] parts[i]).len() > 0 && all_digits(parts[i])
}

/// Total seconds denoted by a valid duration text: the rightmost segment is
/// seconds, the one before it minutes, the one before that hours.
pub open spec fn duration_secs(s: Seq<char>) -> nat {
    let parts = split_colons(s);
    if parts.len() == 1 {
        digits_val(parts[0])
    } else if parts.len() == 2 {
        digits_val(parts[0]) * 60 + digits_val(parts[1])
    } else {
        digits_val(parts[0]) * 3600 + digits_val(parts[1]) * 60 + digits_val(parts[2])
    }
}

proof fn lemma_split_no_colon(s: Seq<char>)
    requires
        forall|j: int| 0 <= j < s.len() ==> (#[trigger] s[j]) != ':',
    ensures
        split_colons(s) =~~= seq![s],
    decreases s.len(),
{
    if s.len() > 0 {
        lemma_split_no_colon(s.skip(1));
        assert(seq![s[0]] + s.skip(1) =~= s);
    }
}

proof fn lemma_split_first_colon(s: Seq<char>, i: int)
    requires
        0 <= i < s.len(),
        s[i] == ':',
        forall|j: int| 0 <= j < i ==> (#[trigger] s[j]) != ':',
    ensures
        split_colons(s) =~~= seq![s.take(i)] + split_colons(s.skip(i + 1)),
    decreases i,
{
    if i == 0 {
        assert(s.take(0) =~= Seq::<char>::empty());
    } else {
        let t = s.skip(1);
        lemma_split_first_colon(t, i - 1);
        assert(t.skip(i) =~= s.skip(i + 1));
        assert(seq![s[0]] + t.take(i - 1) =~= s.take(i));
        assert(split_colons(s) =~~= seq![s.take(i)] + split_colons(s.skip(i + 1)));
    }
}

pub(crate) proof fn lemma_digits_val_take_le(s: Seq<char>, k: int)
    requires
        0 <= k <= s.len(),
    ensures
        digits_val(s.take(k)) <= digits_val(s),
    decreases s.len() - k,
{
    if k < s.len() {
        lemma_digits_val_take_le(s, k + 1);
        assert(s.take(k + 1).drop_last() =~= s.take(k));
        assert(digits_val(s.take(k + 1)) == digits_val(s.take(k)) * 10 + digit_val(
            s.take(k + 1).last(),
        ));
    } else {
        assert(s.take(k) =~= s);
    }
}

proof fn lemma_mul_ge(a: nat, b: nat)
    requires
        1 <= b,
    ensures
        a <= a * b,
{
    assert(a <= a * b) by (nonlinear_arith)
        requires
            1 <= b,
    ;
}

/// Whether the segment of `cs` between `from` and `to` is nonempty and made
/// of ASCII digits only.
fn segment_ok(cs: &Vec<char>, from: usize, to: usize) -> (r: bool)
    requires
        from <= to <= cs.len(),
    ensures
        r == ({
            let seg = cs@.subrange(from as int, to as int);
            seg.len() > 0 && all_digits(seg)
        }),
{
    let ghost seg = cs@.subrange(from as int, to as int);
    if from == to {
        return false;
    }
    let mut i: usize = from;
    while i < to
        invariant
            from <= i <= to <= cs.len(),
            seg == cs@.subrange(from as int, to as int),
            forall|j: int| 0 <= j < i - from ==> is_digit_char(#[trigger] seg[j]),
        decreases to - i,
    {
        let c = cs[i];
        let v: u32 = c as u32;
        assert(seg[i - from] == cs@[i as int]);
        if !(48 <= v && v <= 57) {
            assert(!all_digits(seg));
            return false;
        }
        i = i + 1;
    }
    assert(all_digits(seg));
    true
}

/// Base-10 value of an all-digit segment, or `None` when it does not fit.
fn segment_val(cs: &Vec<char>, from: usize, to: usize) -> (r: Option<u64>)
    requires
        from <= to <= cs.len(),
        cs@.subrange(from as int, to as int).len() > 0,
        all_digits(cs@.subrange(from as int, to as int)),
    ensures
        ({
            let seg = cs@.subrange(from as int, to as int);
            &&& (r matches Some(v) ==> v == digits_val(seg))
            &&& (r is None <==> digits_val(seg) > u64::MAX)
        }),
{
    let ghost seg = cs@.subrange(from as int, to as int);
    let mut acc: u64 = 0;
    let mut k: usize = from;
    assert(seg.take(0) =~= Seq::<char>::empty());
    while k < to
        invariant
            from <= k <= to <= cs.len(),
            seg == cs@.subrange(from as int, to as int),
            all_digits(seg),
            acc == digits_val(seg.take(k - from)),
        decreases to - k,
    {
        let c = cs[k];
        assert(seg[k - from] == cs@[k as int]);
        assert(is_digit_char(c));
        let d: u64 = (c as u32 - 48) as u64;
        assert(seg.take(k - from + 1).drop_last() =~= seg.take(k - from));
        assert(digits_val(seg.take(k - from + 1)) == digits_val(seg.take(k - from)) * 10
            + digit_val(seg[k - from]));
        let m = match acc.checked_mul(10) {
            Some(m) => m,
            None => {
                proof {
                    lemma_digits_val_take_le(seg, k - from + 1);
                }
                return None;
            },
        };
        let a = match m.checked_add(d) {
            Some(a) => a,
            None => {
                proof {
                    lemma_digits_val_take_le(seg, k - from + 1);
                }
                return None;
            },
        };
        acc = a;
        k = k + 1;
    }
    assert(seg.take(to - from) =~= seg);
    Some(acc)
}

/// Parses `"SS"`, `"MM:SS"` or `"HH:MM:SS"` into a [`Duration`].
///
/// Returns `ParseError::BadFormat` when the text is not one to three
/// nonempty all-digit segments, and `ParseError::Overflow` when the denoted
/// seconds do not fit the representable range.
#[verifier::rlimit(100)]
pub fn str_to_duration(time: &str) -> (r: Result<Duration, ParseError>)
    ensures
        (r matches Ok(d) ==> duration_text_valid(time@) && d.seconds == duration_secs(time@)),
        (!duration_text_valid(time@) <==> r == Err::<Duration, ParseError>(ParseError::BadFormat)),
        (duration_text_valid(time@) && duration_secs(time@) > u64::MAX <==> r == Err::<
            Duration,
            ParseError,
        >(ParseError::Overflow)),
{
    let cs = chars_of(time);
    let n: usize = cs.len();

    let mut colons: Vec<usize> = Vec::new();
    let mut i: usize = 0;
    while i < n
        invariant
            n == cs.len(),
            i <= n,
            forall|a: int|
                0 <= a < colons@.len() ==> 0 <= #[trigger] colons@[a] < i && cs@[colons@[a] as int]
                    == ':',
            forall|a: int, b: int| 0 <= a < b < colons@.len() ==> colons@[a] < colons@[b],
            forall|j: int| 0 <= j < i && cs@[j] == ':' ==> colons@.contains(j as usize),
        decreases n - i,
    {
        let ghost prev = colons@;
        if cs[i] == ':' {
            colons.push(i);
        }
        proof {
            assert forall|j: int| 0 <= j <= i && cs@[j] == ':' implies colons@.contains(
                j as usize,
            ) by {
                if j < i {
                    assert(prev.contains(j as usize));
                    let q = choose|q: int| 0 <= q < prev.len() && prev[q] == j as usize;
                    assert(colons@[q] == j as usize);
                } else {
                    assert(colons@[colons@.len() - 1] == i as usize);
                }
            }
        }
        i = i + 1;
    }

    if colons.len() > 2 {
        proof {
            let c1 = colons@[0] as int;
            let c2 = colons@[1] as int;
            let c3 = colons@[2] as int;
            assert(c1 < c2 < c3);
            assert forall|j: int| 0 <= j < c1 implies (#[trigger] cs@[j]) != ':' by {
                if cs@[j] == ':' {
                    assert(colons@.contains(j as usize));
                    let q = choose|q: int| 0 <= q < colons@.len() && colons@[q] == j as usize;
                    if q > 0 {
                        assert(colons@[0] < colons@[q]);
                    }
                }
            }
            lemma_split_first_colon(cs@, c1);
            let t = cs@.skip(c1 + 1);
            assert(t[c2 - c1 - 1] == cs@[c2]);
            assert forall|j: int| 0 <= j < c2 - c1 - 1 implies (#[trigger] t[j]) != ':' by {
                assert(t[j] == cs@[j + c1 + 1]);
                if cs@[j + c1 + 1] == ':' {
                    assert(colons@.contains((j + c1 + 1) as usize));
                    let q = choose|q: int|
                        0 <= q < colons@.len() && colons@[q] == (j + c1 + 1) as usize;
                    if q > 1 {
                        assert(colons@[1] < colons@[q]);
                    }
                }
            }
            lemma_split_first_colon(t, c2 - c1 - 1);
            let u = t.skip(c2 - c1);
            assert(u =~= cs@.skip(c2 + 1));
            assert(u[c3 - c2 - 1] == cs@[c3]);
            assert forall|j: int| 0 <= j < c3 - c2 - 1 implies (#[trigger] u[j]) != ':' by {
                assert(u[j] == cs@[j + c2 + 1]);
                if cs@[j + c2 + 1] == ':' {
                    assert(colons@.contains((j + c2 + 1) as usize));
                    let q = choose|q: int|
                        0 <= q < colons@.len() && colons@[q] == (j + c2 + 1) as usize;
                    if q > 2 {
                        assert(colons@[2] < colons@[q]);
                    }
                    if q < 2 {
                        assert(colons@[q] < colons@[2]) by {
                            if q < 1 {
                                assert(colons@[q] == colons@[0]);
                            }
                        }
                    }
                }
            }
            lemma_split_first_colon(u, c3 - c2 - 1);
            assert(split_colons(cs@).len() >= 4);
        }
        return Err(ParseError::BadFormat);
    }

    if colons.len() == 0 {
        proof {
            assert forall|j: int| 0 <= j < n implies (#[trigger] cs@[j]) != ':' by {
                if cs@[j] == ':' {
                    assert(colons@.contains(j as usize));
                }
            }
            lemma_split_no_colon(cs@);
            assert(cs@.subrange(0, n as int) =~= cs@);
            let parts = split_colons(cs@);
            assert(parts.len() == 1 && parts[0] == cs@);
            if cs@.len() > 0 && all_digits(cs@) {
                assert forall|i2: int|
                    0 <= i2 < parts.len() implies (#[trigger] parts[i2]).len() > 0 && all_digits(
                    parts[i2],
                ) by {
                    assert(parts[i2] == cs@);
                }
                assert(duration_text_valid(cs@));
            }
        }
        if !segment_ok(&cs, 0, n) {
            return Err(ParseError::BadFormat);
        }
        let v = match segment_val(&cs, 0, n) {
            Some(v) => v,
            None => {
                return Err(ParseError::Overflow);
            },
        };
        return Ok(Duration { seconds: v });
    }

    if colons.len() == 1 {
        let c1 = colons[0];
        let ghost seg0 = cs@.subrange(0, c1 as int);
        let ghost seg1 = cs@.subrange(c1 + 1, n as int);
        proof {
            assert forall|j: int| 0 <= j < c1 implies (#[trigger] cs@[j]) != ':' by {
                if cs@[j] == ':' {
                    assert(colons@.contains(j as usize));
                    let q = choose|q: int| 0 <= q < colons@.len() && colons@[q] == j as usize;
                    assert(q == 0);
                }
            }
            lemma_split_first_colon(cs@, c1 as int);
            assert forall|j: int| 0 <= j < cs@.skip(c1 + 1).len() implies (#[trigger] cs@.skip(
                c1 + 1,
            )[j]) != ':' by {
                assert(cs@.skip(c1 + 1)[j] == cs@[j + c1 + 1]);
                if cs@[j + c1 + 1] == ':' {
                    assert(colons@.contains((j + c1 + 1) as usize));
                    let q = choose|q: int|
                        0 <= q < colons@.len() && colons@[q] == (j + c1 + 1) as usize;
                    assert(q == 0);
                }
            }
            lemma_split_no_colon(cs@.skip(c1 + 1));
            assert(split_colons(cs@) =~~= seq![cs@.take(c1 as int), cs@.skip(c1 + 1)]);
            assert(cs@.take(c1 as int) =~= seg0);
            assert(cs@.skip(c1 + 1) =~= seg1);
            let parts = split_colons(cs@);
            assert(parts.len() == 2 && parts[0] == seg0 && parts[1] == seg1);
            if seg0.len() > 0 && all_digits(seg0) && seg1.len() > 0 && all_digits(seg1) {
                assert forall|i2: int|
                    0 <= i2 < parts.len() implies (#[trigger] parts[i2]).len() > 0 && all_digits(
                    parts[i2],
                ) by {
                    if i2 == 0 {
                        assert(parts[i2] == seg0);
                    } else {
                        assert(parts[i2] == seg1);
                    }
                }
                assert(duration_text_valid(cs@));
            }
            assert(duration_text_valid(cs@) ==> duration_secs(cs@) == digits_val(seg0) * 60
                + digits_val(seg1));
        }
        if !segment_ok(&cs, 0, c1) || !segment_ok(&cs, c1 + 1, n) {
            return Err(ParseError::BadFormat);
        }
        let m = match segment_val(&cs, 0, c1) {
            Some(v) => v,
            None => {
                proof {
                    lemma_mul_ge(digits_val(seg0), 60);
                }
                return Err(ParseError::Overflow);
            },
        };
        let s = match segment_val(&cs, c1 + 1, n) {
            Some(v) => v,
            None => {
                return Err(ParseError::Overflow);
            },
        };
        let t1 = match m.checked_mul(60) {
            Some(t) => t,
            None => {
                return Err(ParseError::Overflow);
            },
        };
        let total = match t1.checked_add(s) {
            Some(t) => t,
            None => {
                return Err(ParseError::Overflow);
            },
        };
        return Ok(Duration { seconds: total });
    }

    // Exactly two colons: HH:MM:SS.
    let c1 = colons[0];
    let c2 = colons[1];
    assert(c1 < c2);
    let ghost seg0 = cs@.subrange(0, c1 as int);
    let ghost seg1 = cs@.subrange(c1 + 1, c2 as int);
    let ghost seg2 = cs@.subrange(c2 + 1, n as int);
    proof {
        assert forall|j: int| 0 <= j < c1 implies (#[trigger] cs@[j]) != ':' by {
            if cs@[j] == ':' {
                assert(colons@.contains(j as usize));
                let q = choose|q: int| 0 <= q < colons@.len() && colons@[q] == j as usize;
                if q > 0 {
                    assert(colons@[0] < colons@[q]);
                }
            }
        }
        lemma_split_first_colon(cs@, c1 as int);
        let t = cs@.skip(c1 + 1);
        assert(t[c2 - c1 - 1] == cs@[c2 as int]);
        assert forall|j: int| 0 <= j < c2 - c1 - 1 implies (#[trigger] t[j]) != ':' by {
            assert(t[j] == cs@[j + c1 + 1]);
            if cs@[j + c1 + 1] == ':' {
                assert(colons@.contains((j + c1 + 1) as usize));
                let q = choose|q: int| 0 <= q < colons@.len() && colons@[q] == (j + c1 + 1) as usize;
                if q == 0 {
                    assert(colons@[0] == c1);
                } else {
                    assert(colons@[q] == c2);
                }
            }
        }
        lemma_split_first_colon(t, c2 - c1 - 1);
        let u = t.skip(c2 - c1);
        assert forall|j: int| 0 <= j < u.len() implies (#[trigger] u[j]) != ':' by {
            assert(u[j] == cs@[j + c2 + 1]);
            if cs@[j + c2 + 1] == ':' {
                assert(colons@.contains((j + c2 + 1) as usize));
                let q = choose|q: int| 0 <= q < colons@.len() && colons@[q] == (j + c2 + 1) as usize;
                assert(q == 0 || q == 1);
            }
        }
        lemma_split_no_colon(u);
        assert(t.take(c2 - c1 - 1) =~= seg1);
        assert(u =~= seg2);
        assert(cs@.take(c1 as int) =~= seg0);
        assert(split_colons(cs@) =~~= seq![seg0, seg1, seg2]);
        let parts = split_colons(cs@);
        assert(parts.len() == 3 && parts[0] == seg0 && parts[1] == seg1 && parts[2] == seg2);
        if seg0.len() > 0 && all_digits(seg0) && seg1.len() > 0 && all_digits(seg1) && seg2.len()
            > 0 && all_digits(seg2) {
            assert forall|i2: int|
                0 <= i2 < parts.len() implies (#[trigger] parts[i2]).len() > 0 && all_digits(
                parts[i2],
            ) by {
                if i2 == 0 {
                    assert(parts[i2] == seg0);
                } else if i2 == 1 {
                    assert(parts[i2] == seg1);
                } else {
                    assert(parts[i2] == seg2);
                }
            }
            assert(duration_text_valid(cs@));
        }
        assert(duration_text_valid(cs@) ==> duration_secs(cs@) == digits_val(seg0) * 3600
            + digits_val(seg1) * 60 + digits_val(seg2));
    }
    if !segment_ok(&cs, 0, c1) || !segment_ok(&cs, c1 + 1, c2) || !segment_ok(&cs, c2 + 1, n) {
        return Err(ParseError::BadFormat);
    }
    let h = match segment_val(&cs, 0, c1) {
        Some(v) => v,
        None => {
            proof {
                lemma_mul_ge(digits_val(seg0), 3600);
            }
            return Err(ParseError::Overflow);
        },
    };
    let m = match segment_val(&cs, c1 + 1, c2) {
        Some(v) => v,
        None => {
            proof {
                lemma_mul_ge(digits_val(seg1), 60);
            }
            return Err(ParseError::Overflow);
        },
    };
    let s = match segment_val(&cs, c2 + 1, n) {
        Some(v) => v,
        None => {
            return Err(ParseError::Overflow);
        },
    };
    let hp = match h.checked_mul(3600) {
        Some(t) => t,
        None => {
            return Err(ParseError::Overflow);
        },
    };
    let mp = match m.checked_mul(60) {
        Some(t) => t,
        None => {
            return Err(ParseError::Overflow);
        },
    };
    let total = match hp.checked_add(mp) {
        Some(t) => t,
        None => {
            return Err(ParseError::Overflow);
        },
    };
    let total = match total.checked_add(s) {
        Some(t) => t,
        None => {
            return Err(ParseError::Overflow);
        },
    };
    Ok(Duration { seconds: total })
}

/// `"M:SS"` rendering of a second count: total minutes, a colon, and the
/// remaining seconds zero-padded to two digits.
pub open spec fn fmt_duration(secs: nat) -> Seq<char> {
    dec_of(secs / 60) + seq![':'] + pad2(secs % 60)
}

/// Two-digit zero-padded rendering of a value below 100.
pub open spec fn pad2(n: nat) -> Seq<char> {
    if n < 10 {
        seq!['0', digit_char(n)]
    } else {
        dec_of(n)
    }
}

/// `"#t=M%3ASS"` rendering: the `"M:SS"` form with the colon URL-escaped,
/// behind a media-fragment prefix.
pub open spec fn fmt_fragment(secs: nat) -> Seq<char> {
    seq!['#', 't', '='] + dec_of(secs / 60) + seq!['%', '3', 'A'] + pad2(secs % 60)
}

proof fn lemma_dec_of_digits(n: nat)
    ensures
        dec_of(n).len() >= 1,
        all_digits(dec_of(n)),
        digits_val(dec_of(n)) == n,
    decreases n,
{
    if n < 10 {
        assert(dec_of(n) =~= seq![digit_char(n)]);
        assert(dec_of(n).drop_last() =~= Seq::<char>::empty());
        assert(digits_val(Seq::<char>::empty()) == 0);
        assert(dec_of(n).last() == digit_char(n));
        assert(digit_val(digit_char(n)) == n);
    } else {
        lemma_dec_of_digits(n / 10);
        let d = dec_of(n / 10);
        assert(dec_of(n) == d.push(digit_char(n % 10)));
        assert(dec_of(n).drop_last() =~= d);
        assert(digits_val(dec_of(n)) == digits_val(d) * 10 + digit_val(digit_char(n % 10)));
        assert forall|i: int| 0 <= i < dec_of(n).len() implies is_digit_char(
            #[trigger] dec_of(n)[i],
        ) by {
            if i < d.len() {
                assert(dec_of(n)[i] == d[i]);
            }
        }
    }
}

proof fn lemma_pad2_digits(n: nat)
    requires
        n < 100,
    ensures
        pad2(n).len() >= 1,
        all_digits(pad2(n)),
        digits_val(pad2(n)) == n,
{
    if n < 10 {
        assert(pad2(n) =~= seq!['0', digit_char(n)]);
        assert(pad2(n).drop_last() =~= seq!['0']);
        assert(seq!['0'].drop_last() =~= Seq::<char>::empty());
        assert(digits_val(Seq::<char>::empty()) == 0);
        assert(digits_val(seq!['0']) == digits_val(seq!['0'].drop_last()) * 10 + digit_val(
            seq!['0'].last(),
        ));
        assert(digits_val(seq!['0']) == digit_val('0'));
        assert(digit_val('0') == 0);
        assert(digit_val(digit_char(n)) == n);
    } else {
        lemma_dec_of_digits(n);
    }
}

/// Law: the inline display form of any duration is itself a valid duration
/// text, and parses back to the same number of seconds.
pub proof fn lemma_duration_format_round_trip(d: Duration)
    ensures
        duration_text_valid(fmt_duration(d.seconds as nat)),
        duration_secs(fmt_duration(d.seconds as nat)) == d.seconds,
{
    let secs = d.seconds as nat;
    let a = dec_of(secs / 60);
    let b = pad2(secs % 60);
    let f = fmt_duration(secs);
    lemma_dec_of_digits(secs / 60);
    lemma_pad2_digits(secs % 60);
    assert(f.len() == a.len() + 1 + b.len());
    assert(f[a.len() as int] == ':');
    assert forall|j: int| 0 <= j < a.len() implies (#[trigger] f[j]) != ':' by {
        assert(f[j] == a[j]);
        assert(is_digit_char(a[j]));
    }
    lemma_split_first_colon(f, a.len() as int);
    assert(f.take(a.len() as int) =~= a);
    assert(f.skip(a.len() as int + 1) =~= b);
    assert forall|j: int| 0 <= j < b.len() implies (#[trigger] b[j]) != ':' by {
        assert(is_digit_char(b[j]));
    }
    lemma_split_no_colon(b);
    let parts = split_colons(f);
    assert(parts =~~= seq![a, b]);
    assert forall|i2: int|
        0 <= i2 < parts.len() implies (#[trigger] parts[i2]).len() > 0 && all_digits(
        parts[i2],
    ) by {
        if i2 == 0 {
            assert(parts[i2] == a);
        } else {
            assert(parts[i2] == b);
        }
    }
    assert(duration_text_valid(f));
    assert(duration_secs(f) == digits_val(a) * 60 + digits_val(b));
    assert((secs / 60) * 60 + secs % 60 == secs) by (nonlinear_arith);
}

/// Appends the remaining-seconds part, zero-padded to two digits.
fn push_pad2(out: &mut String, n: u64)
    requires
        n < 100,
    ensures
        final(out)@ == old(out)@ + pad2(n as nat),
{
    if n < 10 {
        push_char(out, '0');
        push_char(out, (n as u8 + 48) as char);
        assert(final(out)@ =~= old(out)@ + pad2(n as nat));
    } else {
        push_dec_u64(out, n);
    }
}

/// Renders a duration for inline display, e.g. `"3:45"`.
pub fn duration_format(duration: &Duration) -> (r: String)
    ensures
        r@ == fmt_duration(duration.seconds as nat),
{
    let min: u64 = duration.seconds / 60;
    let sec: u64 = duration.seconds % 60;
    let mut out = String::new();
    push_dec_u64(&mut out, min);
    push_char(&mut out, ':');
    push_pad2(&mut out, sec);
    assert(out@ =~= fmt_duration(duration.seconds as nat));
    out
}

/// Renders a duration as a URL time fragment, e.g. `"#t=3%3A45"`.
pub fn duration_to_str(duration: &Duration) -> (r: String)
    ensures
        r@ == fmt_fragment(duration.seconds as nat),
{
    let min: u64 = duration.seconds / 60;
    let sec: u64 = duration.seconds % 60;
    let mut out = String::new();
    push_char(&mut out, '#');
    push_char(&mut out, 't');
    push_char(&mut out, '=');
    push_dec_u64(&mut out, min);
    push_char(&mut out, '%');
    push_char(&mut out, '3');
    push_char(&mut out, 'A');
    push_pad2(&mut out, sec);
    assert(out@ =~= fmt_fragment(duration.seconds as nat));
    out
}

} // verus!

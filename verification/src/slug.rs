//! Identifier normalization: display names become URL- and filesystem-safe
//! slugs. A slug is built in four passes: ASCII lowercasing, expansion of the
//! space-delimited ampersand `" & "` to `" and "`, removal of every character
//! that is not an ASCII alphanumeric, a space or a hyphen, and replacement of
//! spaces with hyphens.

use vstd::prelude::*;
use crate::text::{chars_of, string_of};

verus! {

/// ASCII lowercasing of one character; all others pass through.
pub open spec fn lower_char(c: char) -> char {
    if 65 <= c as u32 <= 90 {
        ((c as u32 + 32) as u8) as char
    } else {
        c
    }
}

/// ASCII lowercasing of a character sequence.
pub open spec fn lower_of(s: Seq<char>) -> Seq<char> {
    s.map_values(|c: char| lower_char(c))
}

/// Left-to-right, non-overlapping replacement of `" & "` with `" and "`.
pub open spec fn amp_of(s: Seq<char>) -> Seq<char>
    decreases s.len(),
{
    if s.len() >= 3 && s[0] == ' ' && s[1] == '&' && s[2] == ' ' {
        seq![' ', 'a', 'n', 'd', ' '] + amp_of(s.skip(3))
    } else if s.len() > 0 {
        seq![s[0]] + amp_of(s.skip(1))
    } else {
        Seq::empty()
    }
}

/// True for ASCII alphanumerics.
pub open spec fn is_ascii_alnum(c: char) -> bool {
    (48 <= c as u32 <= 57) || (65 <= c as u32 <= 90) || (97 <= c as u32 <= 122)
}

/// Characters that survive the stripping pass.
pub open spec fn is_kept_char(c: char) -> bool {
    is_ascii_alnum(c) || c == ' ' || c == '-'
}

/// Removal of every character that is not kept.
pub open spec fn strip_of(s: Seq<char>) -> Seq<char>
    decreases s.len(),
{
    if s.len() == 0 {
        Seq::empty()
    } else if is_kept_char(s[0]) {
        seq![s[0]] + strip_of(s.skip(1))
    } else {
        strip_of(s.skip(1))
    }
}

/// Replacement of each space with a hyphen.
pub open spec fn dash_of(s: Seq<char>) -> Seq<char> {
    s.map_values(|c: char| if c == ' ' { '-' } else { c })
}

/// The full normalization pipeline.
pub open spec fn slug_of(s: Seq<char>) -> Seq<char> {
    dash_of(strip_of(amp_of(lower_of(s))))
}

/// Characters a finished slug may contain: lowercase ASCII alphanumerics and
/// hyphens.
pub open spec fn is_slug_char(c: char) -> bool {
    (48 <= c as u32 <= 57) || (97 <= c as u32 <= 122) || c == '-'
}

/// No character of `s` is an ASCII uppercase letter.
pub open spec fn no_upper(s: Seq<char>) -> bool {
    forall|i: int| 0 <= i < s.len() ==> !(65 <= (#[trigger] s[i]) as u32 <= 90)
}

proof fn lemma_amp_preserves(s: Seq<char>, p: spec_fn(char) -> bool)
    requires
        forall|i: int| 0 <= i < s.len() ==> p(#[trigger] s[i]),
        p(' '),
        p('a'),
        p('n'),
        p('d'),
    ensures
        forall|i: int| 0 <= i < amp_of(s).len() ==> p(#[trigger] amp_of(s)[i]),
    decreases s.len(),
{
    if s.len() >= 3 && s[0] == ' ' && s[1] == '&' && s[2] == ' ' {
        lemma_amp_preserves(s.skip(3), p);
        let pre = seq![' ', 'a', 'n', 'd', ' '];
        assert forall|i: int| 0 <= i < amp_of(s).len() implies p(#[trigger] amp_of(s)[i]) by {
            if i < 5 {
                assert(amp_of(s)[i] == pre[i]);
            } else {
                assert(amp_of(s)[i] == amp_of(s.skip(3))[i - 5]);
            }
        }
    } else if s.len() > 0 {
        lemma_amp_preserves(s.skip(1), p);
        assert forall|i: int| 0 <= i < amp_of(s).len() implies p(#[trigger] amp_of(s)[i]) by {
            if i == 0 {
                assert(amp_of(s)[0] == s[0]);
            } else {
                assert(amp_of(s)[i] == amp_of(s.skip(1))[i - 1]);
            }
        }
    }
}

proof fn lemma_strip_chars(s: Seq<char>, p: spec_fn(char) -> bool)
    requires
        forall|i: int| 0 <= i < s.len() ==> p(#[trigger] s[i]),
    ensures
        forall|i: int|
            0 <= i < strip_of(s).len() ==> p(#[trigger] strip_of(s)[i]) && is_kept_char(
                strip_of(s)[i],
            ),
    decreases s.len(),
{
    if s.len() > 0 {
        lemma_strip_chars(s.skip(1), p);
        assert forall|i: int|
            0 <= i < strip_of(s).len() implies p(#[trigger] strip_of(s)[i]) && is_kept_char(
            strip_of(s)[i],
        ) by {
            if is_kept_char(s[0]) {
                if i == 0 {
                    assert(strip_of(s)[0] == s[0]);
                } else {
                    assert(strip_of(s)[i] == strip_of(s.skip(1))[i - 1]);
                }
            } else {
                assert(strip_of(s)[i] == strip_of(s.skip(1))[i]);
            }
        }
    }
}

/// Law: a slug contains only lowercase ASCII alphanumerics and hyphens.
pub proof fn lemma_slug_chars(s: Seq<char>)
    ensures
        forall|i: int| 0 <= i < slug_of(s).len() ==> is_slug_char(#[trigger] slug_of(s)[i]),
{
    let l = lower_of(s);
    let nu = |c: char| !(65 <= c as u32 <= 90);
    assert(forall|i: int| 0 <= i < l.len() ==> nu(#[trigger] l[i]));
    lemma_amp_preserves(l, nu);
    lemma_strip_chars(amp_of(l), nu);
    let st = strip_of(amp_of(l));
    assert forall|i: int| 0 <= i < slug_of(s).len() implies is_slug_char(
        #[trigger] slug_of(s)[i],
    ) by {
        assert(nu(st[i]) && is_kept_char(st[i]));
        assert(slug_of(s)[i] == if st[i] == ' ' {
            '-'
        } else {
            st[i]
        });
    }
}

proof fn lemma_amp_id(s: Seq<char>)
    requires
        forall|i: int| 0 <= i < s.len() ==> (#[trigger] s[i]) != '&',
    ensures
        amp_of(s) == s,
    decreases s.len(),
{
    if s.len() >= 3 && s[0] == ' ' && s[1] == '&' && s[2] == ' ' {
        assert(false);
    } else if s.len() > 0 {
        lemma_amp_id(s.skip(1));
        assert(amp_of(s) =~= s);
    } else {
        assert(amp_of(s) =~= s);
    }
}

proof fn lemma_strip_id(s: Seq<char>)
    requires
        forall|i: int| 0 <= i < s.len() ==> is_kept_char(#[trigger] s[i]),
    ensures
        strip_of(s) == s,
    decreases s.len(),
{
    if s.len() > 0 {
        lemma_strip_id(s.skip(1));
        assert(strip_of(s) =~= s);
    } else {
        assert(strip_of(s) =~= s);
    }
}

/// Law: normalization is idempotent; a finished slug passes through
/// unchanged.
pub proof fn lemma_slug_idempotent(s: Seq<char>)
    ensures
        slug_of(slug_of(s)) == slug_of(s),
{
    let t = slug_of(s);
    lemma_slug_chars(s);
    assert(lower_of(t) =~= t);
    lemma_amp_id(t);
    lemma_strip_id(t);
    assert(dash_of(t) =~= t);
}

/// Parses a name (artist, album or track) for use as an identifier in URLs
/// and file paths.
pub fn parse_name(name: &str) -> (r: String)
    ensures
        r@ == slug_of(name@),
{
    let cs = chars_of(name);
    let n: usize = cs.len();

    let mut low: Vec<char> = Vec::new();
    let mut i: usize = 0;
    while i < n
        invariant
            n == cs.len(),
            i <= n,
            low@ == lower_of(cs@.take(i as int)),
        decreases n - i,
    {
        let c = cs[i];
        let v: u32 = c as u32;
        let lc: char = if 65 <= v && v <= 90 { ((v + 32) as u8) as char } else { c };
        low.push(lc);
        assert(low@ =~= lower_of(cs@.take(i + 1)));
        i = i + 1;
    }
    assert(cs@.take(n as int) =~= cs@);

    let m: usize = low.len();
    let mut amp: Vec<char> = Vec::new();
    let mut j: usize = 0;
    assert(low@.skip(0) =~= low@);
    assert(Seq::<char>::empty() + amp_of(low@) =~= amp_of(low@));
    while j < m
        invariant
            m == low.len(),
            j <= m,
            amp_of(low@) == amp@ + amp_of(low@.skip(j as int)),
        decreases m - j,
    {
        let ghost rest = low@.skip(j as int);
        if 2 < m - j && low[j] == ' ' && low[j + 1] == '&' && low[j + 2] == ' ' {
            assert(rest.len() >= 3 && rest[0] == ' ' && rest[1] == '&' && rest[2] == ' ');
            amp.push(' ');
            amp.push('a');
            amp.push('n');
            amp.push('d');
            amp.push(' ');
            assert(rest.skip(3) =~= low@.skip(j + 3));
            assert(amp@ + amp_of(low@.skip(j + 3)) =~= amp_of(low@));
            j = j + 3;
        } else {
            assert(!(rest.len() >= 3 && rest[0] == ' ' && rest[1] == '&' && rest[2] == ' '));
            amp.push(low[j]);
            assert(rest.skip(1) =~= low@.skip(j + 1));
            assert(amp@ + amp_of(low@.skip(j + 1)) =~= amp_of(low@));
            j = j + 1;
        }
    }
    assert(low@.skip(m as int) =~= Seq::<char>::empty());
    assert(amp@ + amp_of(low@.skip(m as int)) =~= amp@);

    let k: usize = amp.len();
    let mut kept: Vec<char> = Vec::new();
    let mut p: usize = 0;
    assert(amp@.skip(0) =~= amp@);
    assert(Seq::<char>::empty() + strip_of(amp@) =~= strip_of(amp@));
    while p < k
        invariant
            k == amp.len(),
            p <= k,
            strip_of(amp@) == kept@ + strip_of(amp@.skip(p as int)),
        decreases k - p,
    {
        let ghost rest = amp@.skip(p as int);
        let c = amp[p];
        let v: u32 = c as u32;
        assert(rest[0] == c);
        if (48 <= v && v <= 57) || (65 <= v && v <= 90) || (97 <= v && v <= 122) || c == ' '
            || c == '-' {
            kept.push(c);
        }
        assert(rest.skip(1) =~= amp@.skip(p + 1));
        assert(kept@ + strip_of(amp@.skip(p + 1)) =~= strip_of(amp@));
        p = p + 1;
    }
    assert(amp@.skip(k as int) =~= Seq::<char>::empty());
    assert(kept@ + strip_of(amp@.skip(k as int)) =~= kept@);

    let q: usize = kept.len();
    let mut out: Vec<char> = Vec::new();
    let mut t: usize = 0;
    while t < q
        invariant
            q == kept.len(),
            t <= q,
            out@ == dash_of(kept@.take(t as int)),
        decreases q - t,
    {
        let c = kept[t];
        out.push(if c == ' ' { '-' } else { c });
        assert(out@ =~= dash_of(kept@.take(t + 1)));
        t = t + 1;
    }
    assert(kept@.take(q as int) =~= kept@);

    string_of(&out)
}

} // verus!

//! Colors written as text: the hexadecimal forms a theme names its colors
//! in. A host turns the four 8-bit channels into whatever its renderer
//! needs; the textual forms with fractional components are float work and
//! stay with the host.

use vstd::prelude::*;

use crate::emu::Rgba;

verus! {

/// An ASCII hexadecimal digit.
pub open spec fn is_hex_digit(b: u8) -> bool {
    ('0' as u8 <= b && b <= '9' as u8) || ('a' as u8 <= b && b <= 'f' as u8) || ('A' as u8 <= b
        && b <= 'F' as u8)
}

/// The value of one hexadecimal digit.
pub open spec fn hex_val(b: u8) -> u8 {
    if '0' as u8 <= b && b <= '9' as u8 {
        (b - 0x30) as u8
    } else if 'a' as u8 <= b && b <= 'f' as u8 {
        (b - 0x61 + 10) as u8
    } else {
        (b - 0x41 + 10) as u8
    }
}

/// One channel from two hexadecimal digits; anything unreadable is read as
/// the channel's fallback rather than refused, so one bad channel does not
/// lose the color: color channels fall back to zero, the opacity channel to
/// fully opaque.
pub open spec fn hex_pair_v(hi: u8, lo: u8, dflt: u8) -> u8 {
    if is_hex_digit(hi) && is_hex_digit(lo) {
        (hex_val(hi) * 16 + hex_val(lo)) as u8
    } else {
        dflt
    }
}

/// Whitespace at a color string's edges.
pub open spec fn is_space(b: u8) -> bool {
    b == 0x20 || b == 0x09 || b == 0x0A || b == 0x0D || b == 0x0C || b == 0x0B
}

/// The first index at or after `i` that is not whitespace.
pub open spec fn trim_from_v(s: Seq<u8>, i: int) -> int
    decreases s.len() - i,
{
    if i < 0 || i >= s.len() {
        i
    } else if is_space(s[i]) {
        trim_from_v(s, i + 1)
    } else {
        i
    }
}

/// The last index before `j` whose suffix is all whitespace.
pub open spec fn trim_upto_v(s: Seq<u8>, j: int) -> int
    decreases j,
{
    if j <= 0 || j > s.len() {
        j
    } else if is_space(s[j - 1]) {
        trim_upto_v(s, j - 1)
    } else {
        j
    }
}

/// The string with surrounding whitespace removed.
pub open spec fn trimmed_v(s: Seq<u8>) -> Seq<u8> {
    let a = trim_from_v(s, 0);
    let b = trim_upto_v(s, s.len() as int);
    if a <= b {
        s.subrange(a, b)
    } else {
        Seq::empty()
    }
}

/// The color a `#`-prefixed text names, after trimming: six digits are
/// red, green and blue with full opacity, eight add the opacity (an
/// unreadable opacity pair means fully opaque), and a `#` of any other
/// length is plain black; text without the `#` prefix is left to the
/// host's other color forms.
pub open spec fn hex_color_v(s: Seq<u8>) -> Option<Rgba> {
    let t = trimmed_v(s);
    if t.len() == 0 || t[0] != '#' as u8 {
        None
    } else {
        let h = t.drop_first();
        if h.len() == 6 {
            Some(
                Rgba(
                    hex_pair_v(h[0], h[1], 0),
                    hex_pair_v(h[2], h[3], 0),
                    hex_pair_v(h[4], h[5], 0),
                    0xFF,
                ),
            )
        } else if h.len() == 8 {
            Some(
                Rgba(
                    hex_pair_v(h[0], h[1], 0),
                    hex_pair_v(h[2], h[3], 0),
                    hex_pair_v(h[4], h[5], 0),
                    hex_pair_v(h[6], h[7], 0xFF),
                ),
            )
        } else {
            Some(Rgba(0, 0, 0, 0xFF))
        }
    }
}

/// Trimming from the right never moves the boundary rightwards.
proof fn lemma_trim_upto_le(s: Seq<u8>, j: int)
    requires
        j >= 0,
    ensures
        trim_upto_v(s, j) <= j,
    decreases j,
{
    if 0 < j <= s.len() && is_space(s[j - 1]) {
        lemma_trim_upto_le(s, j - 1);
    }
}

/// One channel from two hexadecimal digits, as `hex_pair_v` states.
fn hex_pair(hi: u8, lo: u8, dflt: u8) -> (r: u8)
    ensures
        r == hex_pair_v(hi, lo, dflt),
{
    let h: u8 = if 0x30 <= hi && hi <= 0x39 {
        hi - 0x30
    } else if 0x61 <= hi && hi <= 0x66 {
        hi - 0x61 + 10
    } else if 0x41 <= hi && hi <= 0x46 {
        hi - 0x41 + 10
    } else {
        return dflt;
    };
    let l: u8 = if 0x30 <= lo && lo <= 0x39 {
        lo - 0x30
    } else if 0x61 <= lo && lo <= 0x66 {
        lo - 0x61 + 10
    } else if 0x41 <= lo && lo <= 0x46 {
        lo - 0x41 + 10
    } else {
        return dflt;
    };
    h * 16 + l
}

/// Parse a `#`-prefixed hexadecimal color, as `hex_color_v` states.
pub fn parse_hex_color(s: &[u8]) -> (r: Option<Rgba>)
    ensures
        r == hex_color_v(s@),
{
    let n = s.len();
    let mut a: usize = 0;
    while a < n && (s[a] == 0x20 || s[a] == 0x09 || s[a] == 0x0A || s[a] == 0x0D || s[a] == 0x0C
        || s[a] == 0x0B)
        invariant
            a <= n,
            n == s@.len(),
            trim_from_v(s@, 0) == trim_from_v(s@, a as int),
        decreases n - a,
    {
        proof {
            assert(trim_from_v(s@, a as int) == trim_from_v(s@, a as int + 1));
        }
        a = a + 1;
    }
    let mut b: usize = n;
    while b > a && (s[b - 1] == 0x20 || s[b - 1] == 0x09 || s[b - 1] == 0x0A || s[b - 1] == 0x0D
        || s[b - 1] == 0x0C || s[b - 1] == 0x0B)
        invariant
            a <= b <= n,
            n == s@.len(),
            trim_from_v(s@, 0) == a as int,
            a < n ==> !is_space(s@[a as int]),
            trim_upto_v(s@, n as int) == trim_upto_v(s@, b as int),
        decreases b,
    {
        proof {
            assert(trim_upto_v(s@, b as int) == trim_upto_v(s@, b as int - 1));
        }
        b = b - 1;
    }
    proof {
        if b > a {
            assert(!is_space(s@[b as int - 1]));
            assert(trim_upto_v(s@, b as int) == b as int);
            assert(trimmed_v(s@) =~= s@.subrange(a as int, b as int));
        } else {
            lemma_trim_upto_le(s@, b as int);
            assert(trimmed_v(s@) =~= s@.subrange(a as int, b as int));
        }
    }
    let t = vstd::slice::slice_subrange(s, a, b);
    if t.len() == 0 || t[0] != 0x23 {
        return None;
    }
    let m = t.len() - 1;
    let ghost h = t@.drop_first();
    proof {
        assert(h.len() == m);
        assert(forall|k: int| 0 <= k < m ==> h[k] == t@[k + 1]);
    }
    if m == 6 {
        Some(
            Rgba(
                hex_pair(t[1], t[2], 0),
                hex_pair(t[3], t[4], 0),
                hex_pair(t[5], t[6], 0),
                0xFF,
            ),
        )
    } else if m == 8 {
        Some(
            Rgba(
                hex_pair(t[1], t[2], 0),
                hex_pair(t[3], t[4], 0),
                hex_pair(t[5], t[6], 0),
                hex_pair(t[7], t[8], 0xFF),
            ),
        )
    } else {
        Some(Rgba(0, 0, 0, 0xFF))
    }
}

} // verus!

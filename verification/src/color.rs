//! Colours with eight bits per channel.

use vstd::prelude::*;
use vstd::string::*;

verus! {

/// A colour: red, green, blue and opacity, each from 0 to 255.
#[derive(Debug, Clone, Copy, PartialEq, Eq, Structural)]
pub struct RGBA {
    pub r: u8,
    pub g: u8,
    pub b: u8,
    pub a: u8,
}

impl RGBA {
    /// An opaque colour.
    pub fn rgb(r: u8, g: u8, b: u8) -> (c: RGBA)
        ensures
            c == (RGBA { r, g, b, a: 255 }),
    {
        RGBA { r, g, b, a: 255 }
    }

    /// A colour with the given opacity.
    pub fn rgba(r: u8, g: u8, b: u8, a: u8) -> (c: RGBA)
        ensures
            c == (RGBA { r, g, b, a }),
    {
        RGBA { r, g, b, a }
    }

    /// The colour that a hex code names: `rrggbb` or `rrggbbaa`, behind any
    /// number of `#`. The channels are taken as they are written.
    pub fn hex(hex: &str) -> (c: Option<RGBA>)
        ensures
            c == parse_hex(hex.spec_bytes()),
    {
        let bytes = hex.as_bytes();
        let n: usize = bytes.len();
        let mut start: usize = 0;
        proof {
            assert(bytes@.skip(0) =~= bytes@);
        }
        while start < n && bytes[start] == 35
            invariant
                n == bytes@.len(),
                start <= n,
                strip_hashes(bytes@) == strip_hashes(bytes@.skip(start as int)),
            decreases n - start,
        {
            proof {
                assert(bytes@.skip(start as int).skip(1) =~= bytes@.skip(start as int + 1));
            }
            start = start + 1;
        }
        let ghost digits = bytes@.skip(start as int);
        proof {
            assert(strip_hashes(digits) == digits);
            assert(forall|k: int| 0 <= k < digits.len() ==> digits[k] == bytes@[start + k]);
        }
        let count: usize = n - start;
        if count != 6 && count != 8 {
            return None;
        }
        let r = match hex_pair(bytes[start], bytes[start + 1]) {
            Some(v) => v,
            None => {
                return None;
            },
        };
        let g = match hex_pair(bytes[start + 2], bytes[start + 3]) {
            Some(v) => v,
            None => {
                return None;
            },
        };
        let b = match hex_pair(bytes[start + 4], bytes[start + 5]) {
            Some(v) => v,
            None => {
                return None;
            },
        };
        if count == 6 {
            return Some(RGBA { r, g, b, a: 255 });
        }
        match hex_pair(bytes[start + 6], bytes[start + 7]) {
            Some(a) => Some(RGBA { r, g, b, a }),
            None => None,
        }
    }
}

/// The value of a hex digit, in either case.
pub open spec fn spec_hex_digit(b: u8) -> Option<u8> {
    if 48 <= b <= 57 {
        Some((b - 48) as u8)
    } else if 97 <= b <= 102 {
        Some((b - 87) as u8)
    } else if 65 <= b <= 70 {
        Some((b - 55) as u8)
    } else {
        None
    }
}

/// The value of a hex digit, in either case.
#[verifier::when_used_as_spec(spec_hex_digit)]
pub fn hex_digit(b: u8) -> (v: Option<u8>)
    ensures
        v == spec_hex_digit(b),
        v matches Some(d) ==> d < 16,
{
    if 48 <= b && b <= 57 {
        Some(b - 48)
    } else if 97 <= b && b <= 102 {
        Some(b - 87)
    } else if 65 <= b && b <= 70 {
        Some(b - 55)
    } else {
        None
    }
}

/// The byte that two characters of a hex code stand for: two hex digits,
/// or a plus sign and one hex digit.
pub open spec fn spec_hex_pair(hi: u8, lo: u8) -> Option<u8> {
    match spec_hex_digit(lo) {
        Some(l) => if hi == 43 {
            Some(l)
        } else {
            match spec_hex_digit(hi) {
                Some(h) => Some((16 * h + l) as u8),
                None => None,
            }
        },
        None => None,
    }
}

/// The byte that two characters of a hex code stand for.
#[verifier::when_used_as_spec(spec_hex_pair)]
pub fn hex_pair(hi: u8, lo: u8) -> (v: Option<u8>)
    ensures
        v == spec_hex_pair(hi, lo),
{
    match hex_digit(lo) {
        Some(l) => if hi == 43 {
            Some(l)
        } else {
            match hex_digit(hi) {
                Some(h) => Some(16 * h + l),
                None => None,
            }
        },
        None => None,
    }
}

/// The bytes behind every leading `#`.
pub open spec fn strip_hashes(s: Seq<u8>) -> Seq<u8>
    decreases s.len(),
{
    if s.len() > 0 && s[0] == 35 {
        strip_hashes(s.skip(1))
    } else {
        s
    }
}

/// The colour that the bytes of a hex code name: behind the leading `#`
/// three pairs for an opaque colour, or four pairs with the opacity last.
/// Anything else names no colour.
pub open spec fn parse_hex(bytes: Seq<u8>) -> Option<RGBA> {
    let d = strip_hashes(bytes);
    if d.len() == 6 || d.len() == 8 {
        match (spec_hex_pair(d[0], d[1]), spec_hex_pair(d[2], d[3]), spec_hex_pair(d[4], d[5])) {
            (Some(r), Some(g), Some(b)) => if d.len() == 6 {
                Some(RGBA { r, g, b, a: 255 })
            } else {
                match spec_hex_pair(d[6], d[7]) {
                    Some(a) => Some(RGBA { r, g, b, a }),
                    None => None,
                }
            },
            _ => None,
        }
    } else {
        None
    }
}

} // verus!

use vstd::prelude::*;
use rustc_hex::FromHex;
use crate::error::{HexError, SkeletonError};

verus! {

/// `c` is a hexadecimal digit, in either case.
pub open spec fn is_hex_digit(c: char) -> bool {
    ('0' <= c && c <= '9') || ('a' <= c && c <= 'f') || ('A' <= c && c <= 'F')
}

/// `c` is one of the blanks that a hex decoder skips.
pub open spec fn is_hex_blank(c: char) -> bool {
    c == ' ' || c == '\r' || c == '\n' || c == '\t'
}

/// Value of a hexadecimal digit.
pub open spec fn hex_value(c: char) -> nat {
    if '0' <= c && c <= '9' {
        (c as nat - '0' as nat) as nat
    } else if 'a' <= c && c <= 'f' {
        (c as nat - 'a' as nat + 10) as nat
    } else {
        (c as nat - 'A' as nat + 10) as nat
    }
}

/// Position of the first character that is neither a digit nor a blank.
pub open spec fn first_invalid_hex(s: Seq<char>) -> Option<nat>
    decreases s.len(),
{
    if s.len() == 0 {
        None
    } else if !is_hex_digit(s[0]) && !is_hex_blank(s[0]) {
        Some(0)
    } else {
        match first_invalid_hex(s.drop_first()) {
            Some(i) => Some(i + 1),
            None => None,
        }
    }
}

/// The hex digits of `s`, blanks left out.
pub open spec fn hex_digits(s: Seq<char>) -> Seq<char> {
    s.filter(|c: char| is_hex_digit(c))
}

/// Bytes encoded by a sequence of digits, two digits per byte, high first.
pub open spec fn hex_bytes(d: Seq<char>) -> Seq<u8>
    decreases d.len(),
{
    if d.len() < 2 {
        Seq::empty()
    } else {
        seq![(16 * hex_value(d[0]) + hex_value(d[1])) as u8] + hex_bytes(d.skip(2))
    }
}

/// What decoding `s` as hexadecimal gives.
pub open spec fn hex_decode(s: Seq<char>) -> Result<Seq<u8>, HexError> {
    match first_invalid_hex(s) {
        Some(i) => Err(HexError::InvalidHexCharacter(s[i as int], i as usize)),
        None => if hex_digits(s).len() % 2 == 1 {
            Err(HexError::InvalidHexLength)
        } else {
            Ok(hex_bytes(hex_digits(s)))
        },
    }
}

/// Relies on rustc_hex's `FromHex::from_hex` for `str`: it skips spaces, tabs and
/// line breaks, pairs the remaining hex digits into bytes, reports the first
/// other character with its byte offset (all characters before it are ASCII),
/// and reports an odd digit count once the input is read.
#[verifier::external_body]
fn decode_hex(s: &str) -> (r: Result<Vec<u8>, HexError>)
    ensures
        match r {
            Ok(v) => hex_decode(s@) == Ok::<Seq<u8>, HexError>(v@),
            Err(e) => hex_decode(s@) == Err::<Seq<u8>, HexError>(e),
        },
{
    match s.from_hex::<Vec<u8>>() {
        Ok(v) => Ok(v),
        Err(rustc_hex::FromHexError::InvalidHexCharacter(c, i)) => Err(HexError::InvalidHexCharacter(c, i)),
        Err(rustc_hex::FromHexError::InvalidHexLength) => Err(HexError::InvalidHexLength),
    }
}

/// The RGBA color written by `s`, or the reason it is not one.
pub open spec fn color_of(s: Seq<char>) -> Result<[u8; 4], HexError> {
    match hex_decode(s) {
        Ok(b) => if b.len() == 4 {
            Ok([b[0], b[1], b[2], b[3]])
        } else {
            Err(HexError::InvalidHexLength)
        },
        Err(e) => Err(e),
    }
}

/// Reads an `RRGGBBAA` hexadecimal color.
pub fn parse_color(s: &str) -> (r: Result<[u8; 4], SkeletonError>)
    ensures
        match color_of(s@) {
            Ok(c) => r == Ok::<[u8; 4], SkeletonError>(c),
            Err(e) => r == Err::<[u8; 4], SkeletonError>(SkeletonError::InvalidColor(e)),
        },
{
    match decode_hex(s) {
        Ok(v) => {
            if v.len() != 4 {
                Err(SkeletonError::InvalidColor(HexError::InvalidHexLength))
            } else {
                let c = [v[0], v[1], v[2], v[3]];
                assert(c@ == v@);
                Ok(c)
            }
        },
        Err(e) => Err(SkeletonError::InvalidColor(e)),
    }
}

/// Opaque white, the color of a slot that gives none.
pub fn white() -> (r: [u8; 4])
    ensures
        r@ == seq![255u8, 255u8, 255u8, 255u8],
{
    [255, 255, 255, 255]
}

} // verus!

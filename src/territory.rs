//! The colour a guild's territories are drawn in on the map.
use vstd::prelude::*;
use vstd::string::*;

verus! {

/// The CRC-32 checksum of a byte sequence.
pub uninterp spec fn crc32_of(bytes: Seq<u8>) -> u32;

/// Relies on `crc32fast::hash`: the CRC-32 checksum of the buffer, which
/// depends on the bytes alone.
#[verifier::external_body]
fn crc32(bytes: &[u8]) -> (r: u32)
    ensures
        r == crc32_of(bytes@),
{
    crc32fast::hash(bytes)
}

/// Whether `c` is a hexadecimal digit, in either case.
pub open spec fn is_hex_digit(c: char) -> bool {
    ('0' <= c <= '9') || ('a' <= c <= 'f') || ('A' <= c <= 'F')
}

/// The value of a hexadecimal digit.
pub open spec fn hex_val(c: char) -> int {
    if '0' <= c <= '9' {
        c as int - '0' as int
    } else if 'a' <= c <= 'f' {
        c as int - 'a' as int + 10
    } else {
        c as int - 'A' as int + 10
    }
}

/// Whether `s` is a whole number of hexadecimal byte pairs.
pub open spec fn is_hex(s: Seq<char>) -> bool {
    s.len() % 2 == 0 && forall|i: int| 0 <= i < s.len() ==> is_hex_digit(#[trigger] s[i])
}

/// The bytes that the hexadecimal pairs of `s` spell.
pub open spec fn hex_bytes(s: Seq<char>) -> Seq<u8> {
    Seq::new(s.len() / 2, |i: int| (16 * hex_val(s[2 * i]) + hex_val(s[2 * i + 1])) as u8)
}

/// Relies on `hex::decode`: it decodes a string of an even number of
/// hexadecimal digits, two digits to a byte with the first the high one, and
/// fails on any other string.
#[verifier::external_body]
fn hex_decode(s: &str) -> (r: Option<Vec<u8>>)
    ensures
        r is Some <==> is_hex(s@),
        r matches Some(v) ==> v@ == hex_bytes(s@),
{
    hex::decode(s).ok()
}

/// The colour of a guild with no colour of its own, from the checksum of its
/// name: the low three bytes, high to low.
pub open spec fn hash_color(h: u32) -> (u8, u8, u8) {
    (((h / 0x1_0000) % 0x100) as u8, ((h / 0x100) % 0x100) as u8, (h % 0x100) as u8)
}

/// The colour of a guild with no colour of its own, from the checksum of its
/// name.
pub fn color_from_hash(h: u32) -> (r: (u8, u8, u8))
    ensures
        r == hash_color(h),
{
    (((h / 0x1_0000) % 0x100) as u8, ((h / 0x100) % 0x100) as u8, (h % 0x100) as u8)
}

/// The colour of a guild with no colour of its own.
pub fn guild_color(name: &str) -> (r: (u8, u8, u8))
    ensures
        r == hash_color(crc32_of(name.spec_bytes())),
{
    color_from_hash(crc32(name.as_bytes()))
}

/// Why a territory's colour could not be read.
#[derive(Debug, PartialEq, Eq, Structural, Clone, Copy)]
pub enum ColorError {
    /// The colour after its leading `#` is not hexadecimal.
    InvalidHex,
    /// The colour holds fewer than three bytes.
    TooShort,
}

/// The colour that a territory's colour text `#rrggbb` gives, its first
/// character skipped.
pub open spec fn color_text_spec(text: Seq<char>) -> Result<(u8, u8, u8), ColorError> {
    let digits = text.drop_first();
    if !is_hex(digits) {
        Err(ColorError::InvalidHex)
    } else if hex_bytes(digits).len() < 3 {
        Err(ColorError::TooShort)
    } else {
        let b = hex_bytes(digits);
        Ok((b[0], b[1], b[2]))
    }
}

/// The colour a guild's territories are drawn in: the guild's own colour
/// when the territory names one, else the colour from its name's checksum.
pub open spec fn territory_color_spec(color: Option<Seq<char>>, name: &str) -> Result<
    (u8, u8, u8),
    ColorError,
> {
    match color {
        Some(text) => if text.len() > 0 {
            color_text_spec(text)
        } else {
            Ok(hash_color(crc32_of(name.spec_bytes())))
        },
        None => Ok(hash_color(crc32_of(name.spec_bytes()))),
    }
}

/// The colour a guild's territories are drawn in.
pub fn territory_color(color: &Option<String>, guild: &str) -> (r: Result<(u8, u8, u8), ColorError>)
    ensures
        r == territory_color_spec(
            match color {
                Some(c) => Some(c@),
                None => None,
            },
            guild,
        ),
{
    match color {
        Some(text) => {
            let n = text.as_str().unicode_len();
            if n == 0 {
                return Ok(guild_color(guild));
            }
            let digits = text.as_str().substring_char(1, n);
            assert(digits@ =~= text@.drop_first());
            match hex_decode(digits) {
                None => Err(ColorError::InvalidHex),
                Some(bytes) => {
                    if bytes.len() < 3 {
                        Err(ColorError::TooShort)
                    } else {
                        Ok((bytes[0], bytes[1], bytes[2]))
                    }
                },
            }
        },
        None => Ok(guild_color(guild)),
    }
}

} // verus!

//! Compact field codecs for a narrow-band digital messaging protocol.
//!
//! Each field of a message (a callsign, a locator or report, a short free
//! text) is packed into one unsigned integer by a mixed-radix scheme, and
//! unpacked back to its text. Every codec is a pure function.
use vstd::prelude::*;

pub mod callsigns;
pub mod freetext;
pub mod grid;
pub mod radix;
pub mod text;

verus! {

/// Why an encode or decode call failed.
#[derive(Debug, Clone, Copy, PartialEq, Eq, Structural)]
pub enum CodecError {
    /// A callsign is not 3 to 6 characters long.
    InvalidLength,
    /// A character is not in the alphabet of its position.
    InvalidCharacter,
    /// A locator matches none of the accepted forms.
    InvalidGridFormat,
    /// A signal report has no valid number after its sign.
    InvalidReport,
    /// A callsign code lies below the callsign band.
    TooSmall,
    /// A callsign code lies above the callsign band.
    TooLarge,
    /// A value does not fit the field's integer range.
    OutOfRange,
    /// A free-text value does not fit in 13 positions or in 128 bits.
    Overflow,
}

/// The character sequence carried by a decoding result.
pub open spec fn string_result(r: Result<String, CodecError>) -> Result<Seq<char>, CodecError> {
    match r {
        Ok(t) => Ok(t@),
        Err(e) => Err(e),
    }
}

} // verus!

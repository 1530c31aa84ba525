//! The ways in which reading a timezone file fails.

use vstd::prelude::*;

verus! {

/// Why reading a timezone file failed.
///
/// `UnexpectedEof` is the failure of the byte source itself: it ran out of
/// bytes. Every other variant reports bytes that were read but do not form a
/// valid file.
#[derive(Clone, Copy, Debug, PartialEq, Eq, Structural)]
pub enum ReadError {
    /// The byte source ended before a read could be served.
    UnexpectedEof,
    /// The four tag bytes are not `TZif`.
    InvalidMagic,
    /// The version byte is not NUL, `'2'` or `'3'`, or the second header
    /// carries another version than the first.
    InvalidVersion,
    /// The counts of the header contradict each other.
    InvalidHeader,
    /// A transition or a leap entry is not later than the entry before it.
    UnsortedEntries,
    /// The abbreviation pool is not UTF-8.
    InvalidAbbreviationPool,
    /// A type record points outside the pool, at a name without a
    /// terminating NUL, or into the middle of a character.
    InvalidAbbreviationIndex,
    /// A daylight-saving flag is neither 0 nor 1.
    InvalidDstFlag,
    /// A transition names a type record that the file does not hold.
    InvalidTypeIndex,
    /// The newline that opens the TZ string is missing.
    MissingTzString,
    /// The TZ string is not UTF-8.
    InvalidTzString,
}

impl ReadError {
    /// True for every variant but `UnexpectedEof`.
    pub open spec fn is_invalid_data(self) -> bool {
        self != ReadError::UnexpectedEof
    }

    /// The fixed, human-readable tag of this error.
    pub open spec fn tag(self) -> Seq<char> {
        match self {
            ReadError::UnexpectedEof => "unexpected end of input"@,
            ReadError::InvalidMagic => "invalid magic"@,
            ReadError::InvalidVersion => "invalid version"@,
            ReadError::InvalidHeader => "invalid header"@,
            ReadError::UnsortedEntries => "unsorted entries"@,
            ReadError::InvalidAbbreviationPool => "invalid abbreviation pool"@,
            ReadError::InvalidAbbreviationIndex => "invalid abbreviation index"@,
            ReadError::InvalidDstFlag => "invalid dst flag"@,
            ReadError::InvalidTypeIndex => "invalid type index"@,
            ReadError::MissingTzString => "missing TZ string"@,
            ReadError::InvalidTzString => "invalid TZ string"@,
        }
    }

    /// Whether the bytes were at fault rather than the byte source.
    pub fn is_invalid(&self) -> (b: bool)
        ensures
            b == self.is_invalid_data(),
    {
        match self {
            ReadError::UnexpectedEof => false,
            _ => true,
        }
    }

    /// The tag of this error as text.
    pub fn description(&self) -> (text: &'static str)
        ensures
            text@ == self.tag(),
    {
        match self {
            ReadError::UnexpectedEof => "unexpected end of input",
            ReadError::InvalidMagic => "invalid magic",
            ReadError::InvalidVersion => "invalid version",
            ReadError::InvalidHeader => "invalid header",
            ReadError::UnsortedEntries => "unsorted entries",
            ReadError::InvalidAbbreviationPool => "invalid abbreviation pool",
            ReadError::InvalidAbbreviationIndex => "invalid abbreviation index",
            ReadError::InvalidDstFlag => "invalid dst flag",
            ReadError::InvalidTypeIndex => "invalid type index",
            ReadError::MissingTzString => "missing TZ string",
            ReadError::InvalidTzString => "invalid TZ string",
        }
    }
}

} // verus!

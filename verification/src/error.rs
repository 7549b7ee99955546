//! Errors raised while parsing a byte stream.

use vstd::prelude::*;
use vstd::string::StringExecFns;

verus! {

/// What went wrong, with a short reason where one helps.
#[derive(Debug, Clone)]
pub enum Error {
    /// The first bit of a NAL header is set, or there is no header byte.
    InvalidNalHeader,
    /// A sequence parameter set with a value out of range, or cut off.
    MalformedSps(String),
    /// A picture parameter set with a value out of range, or cut off.
    MalformedPps(String),
    /// A slice header that names a parameter set id above 255.
    SliceParseError(String),
    /// A slice names a picture parameter set that was not seen.
    MissingPps(u8),
    /// A picture parameter set names a sequence parameter set that was not seen.
    MissingSps(u8),
    /// A read went past the end of the data.
    UnexpectedEof,
    /// Kept for writers of byte streams; reading never gives it.
    InvalidStartCode,
    /// Bits that are no valid code, or a read of more than 32 bits.
    BitstreamError(String),
}

/// An error without its reason: what contracts speak of.
pub enum ErrorKind {
    InvalidNalHeader,
    MalformedSps,
    MalformedPps,
    SliceParseError,
    MissingPps(u8),
    MissingSps(u8),
    UnexpectedEof,
    InvalidStartCode,
    BitstreamError,
}

/// The character for a decimal digit.
pub open spec fn digit(d: nat) -> char {
    if d == 0 {
        '0'
    } else if d == 1 {
        '1'
    } else if d == 2 {
        '2'
    } else if d == 3 {
        '3'
    } else if d == 4 {
        '4'
    } else if d == 5 {
        '5'
    } else if d == 6 {
        '6'
    } else if d == 7 {
        '7'
    } else if d == 8 {
        '8'
    } else {
        '9'
    }
}

/// A number in decimal digits, without leading zeros.
pub open spec fn decimal(n: nat) -> Seq<char>
    decreases n,
{
    if n < 10 {
        seq![digit(n)]
    } else {
        decimal(n / 10).push(digit(n % 10))
    }
}

impl Error {
    /// The variant of this error, and the id it carries if any.
    pub open spec fn kind(&self) -> ErrorKind {
        match *self {
            Error::InvalidNalHeader => ErrorKind::InvalidNalHeader,
            Error::MalformedSps(_) => ErrorKind::MalformedSps,
            Error::MalformedPps(_) => ErrorKind::MalformedPps,
            Error::SliceParseError(_) => ErrorKind::SliceParseError,
            Error::MissingPps(id) => ErrorKind::MissingPps(id),
            Error::MissingSps(id) => ErrorKind::MissingSps(id),
            Error::UnexpectedEof => ErrorKind::UnexpectedEof,
            Error::InvalidStartCode => ErrorKind::InvalidStartCode,
            Error::BitstreamError(_) => ErrorKind::BitstreamError,
        }
    }

    /// This error in words.
    pub open spec fn text(&self) -> Seq<char> {
        match *self {
            Error::InvalidNalHeader => "Invalid NAL header"@,
            Error::MalformedSps(reason) => "Malformed SPS: "@ + reason@,
            Error::MalformedPps(reason) => "Malformed PPS: "@ + reason@,
            Error::SliceParseError(reason) => "Slice parse error: "@ + reason@,
            Error::MissingPps(id) => "Missing PPS with id "@ + decimal(id as nat),
            Error::MissingSps(id) => "Missing SPS with id "@ + decimal(id as nat),
            Error::UnexpectedEof => "Unexpected end of file"@,
            Error::InvalidStartCode => "Invalid start code"@,
            Error::BitstreamError(reason) => "Bitstream error: "@ + reason@,
        }
    }

    /// This error in words, for people.
    pub fn message(&self) -> (text: String)
        ensures
            text@ == self.text(),
    {
        match self {
            Error::InvalidNalHeader => String::from_str("Invalid NAL header"),
            Error::MalformedSps(reason) => String::from_str("Malformed SPS: ").concat(
                reason.as_str(),
            ),
            Error::MalformedPps(reason) => String::from_str("Malformed PPS: ").concat(
                reason.as_str(),
            ),
            Error::SliceParseError(reason) => String::from_str("Slice parse error: ").concat(
                reason.as_str(),
            ),
            Error::MissingPps(id) => String::from_str("Missing PPS with id ").concat(
                decimal_string(*id).as_str(),
            ),
            Error::MissingSps(id) => String::from_str("Missing SPS with id ").concat(
                decimal_string(*id).as_str(),
            ),
            Error::UnexpectedEof => String::from_str("Unexpected end of file"),
            Error::InvalidStartCode => String::from_str("Invalid start code"),
            Error::BitstreamError(reason) => String::from_str("Bitstream error: ").concat(
                reason.as_str(),
            ),
        }
    }
}

fn digit_str(d: u8) -> (s: &'static str)
    requires
        d < 10,
    ensures
        s@ == seq![digit(d as nat)],
{
    proof {
        reveal_strlit("0");
        reveal_strlit("1");
        reveal_strlit("2");
        reveal_strlit("3");
        reveal_strlit("4");
        reveal_strlit("5");
        reveal_strlit("6");
        reveal_strlit("7");
        reveal_strlit("8");
        reveal_strlit("9");
    }
    let s = match d {
        0 => "0",
        1 => "1",
        2 => "2",
        3 => "3",
        4 => "4",
        5 => "5",
        6 => "6",
        7 => "7",
        8 => "8",
        _ => "9",
    };
    assert(s@ =~= seq![digit(d as nat)]);
    s
}

/// A byte in decimal digits.
fn decimal_string(n: u8) -> (s: String)
    ensures
        s@ == decimal(n as nat),
{
    let mut s = String::new();
    if n >= 100 {
        s.append(digit_str(n / 100));
    }
    if n >= 10 {
        s.append(digit_str((n / 10) % 10));
    }
    s.append(digit_str(n % 10));
    proof {
        let v = n as nat;
        if v >= 100 {
            assert(decimal(v / 100) == seq![digit(v / 100)]);
            assert(decimal(v / 10) == decimal(v / 100).push(digit((v / 10) % 10)));
            assert(s@ =~= decimal(v));
        } else if v >= 10 {
            assert(decimal(v / 10) == seq![digit(v / 10)]);
            assert(s@ =~= decimal(v));
        } else {
            assert(s@ =~= decimal(v));
        }
    }
    s
}

} // verus!

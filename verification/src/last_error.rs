//! Last-error telemetry of the EPS: parsing of the error-code response.
//!
//! The response carries the motherboard's last error code in its first two
//! bytes and, when a daughterboard is present, the daughterboard's in the
//! following two. Any other length is a parsing failure.

use vstd::prelude::*;

use crate::eps::{EpsError, EpsResult};

verus! {

/// Possible error codes that can be returned by the EPS.
#[derive(Clone, Debug, Eq, PartialEq)]
pub enum ErrorCode {
    /// No error was encountered.
    NoError,
    /// Unknown command received.
    UnknownCommand,
    /// Supplied data incorrect when processing command.
    CommandDataIncorrect,
    /// Selected channel does not exist.
    ChannelDoesNotExist,
    /// Selected channel is currently inactive.
    ChannelInactive,
    /// CRC code does not match data.
    BadCRC,
    /// A reset had to occur.
    ResetOccurred,
    /// There was an error with the ADC acquisition.
    BadADCAcquisition,
    /// Reading from EEPROM generated an error.
    FailReadingEEPROM,
    /// Generic warning about an error on the internal SPI bus.
    InternalSPIError,
    /// The command to fetch the last error failed.
    CommandError,
    /// Catch-all for future error values.
    UnknownError,
}

/// The error code a raw byte stands for.
pub open spec fn spec_error_code(value: u8) -> ErrorCode {
    if value == 0x00 {
        ErrorCode::NoError
    } else if value == 0x01 {
        ErrorCode::UnknownCommand
    } else if value == 0x02 {
        ErrorCode::CommandDataIncorrect
    } else if value == 0x03 {
        ErrorCode::ChannelDoesNotExist
    } else if value == 0x04 {
        ErrorCode::ChannelInactive
    } else if value == 0x10 {
        ErrorCode::BadCRC
    } else if value == 0x13 {
        ErrorCode::ResetOccurred
    } else if value == 0x14 {
        ErrorCode::BadADCAcquisition
    } else if value == 0x20 {
        ErrorCode::FailReadingEEPROM
    } else if value == 0x30 {
        ErrorCode::InternalSPIError
    } else if value == 0xFF {
        ErrorCode::CommandError
    } else {
        ErrorCode::UnknownError
    }
}

impl ErrorCode {
    /// Decodes one raw error-code byte.
    fn from_u8(value: u8) -> (r: ErrorCode)
        ensures
            r == spec_error_code(value),
    {
        match value {
            0x00 => ErrorCode::NoError,
            0x01 => ErrorCode::UnknownCommand,
            0x02 => ErrorCode::CommandDataIncorrect,
            0x03 => ErrorCode::ChannelDoesNotExist,
            0x04 => ErrorCode::ChannelInactive,
            0x10 => ErrorCode::BadCRC,
            0x13 => ErrorCode::ResetOccurred,
            0x14 => ErrorCode::BadADCAcquisition,
            0x20 => ErrorCode::FailReadingEEPROM,
            0x30 => ErrorCode::InternalSPIError,
            0xFF => ErrorCode::CommandError,
            _ => ErrorCode::UnknownError,
        }
    }
}

/// Struct holding EPS last-error information.
#[derive(Clone, Debug, Eq, PartialEq)]
pub struct LastError {
    /// Last error reported by the motherboard.
    pub motherboard: ErrorCode,
    /// Last error reported by the daughterboard.
    pub daughterboard: Option<ErrorCode>,
}

/// Parses a last-error response: two bytes give the motherboard code alone,
/// four add the daughterboard's, and any other length is rejected.
pub fn parse(data: &[u8]) -> (r: EpsResult<LastError>)
    ensures
        match r {
            Ok(last) => (data@.len() == 2 && last == (LastError {
                motherboard: spec_error_code(data@[1]),
                daughterboard: None::<ErrorCode>,
            })) || (data@.len() == 4 && last == (LastError {
                motherboard: spec_error_code(data@[1]),
                daughterboard: Some(spec_error_code(data@[3])),
            })),
            Err(e) => data@.len() != 2 && data@.len() != 4 && (
            e matches EpsError::ParsingFailure { source_description } && source_description@
                == "Last Error"@),
        },
{
    if data.len() == 2 {
        Ok(LastError { motherboard: ErrorCode::from_u8(data[1]), daughterboard: None })
    } else if data.len() == 4 {
        Ok(
            LastError {
                motherboard: ErrorCode::from_u8(data[1]),
                daughterboard: Some(ErrorCode::from_u8(data[3])),
            },
        )
    } else {
        Err(EpsError::parsing_failure("Last Error"))
    }
}

} // verus!

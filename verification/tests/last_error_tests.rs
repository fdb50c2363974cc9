//! Tests of the EPS last-error response parsing.

use mram_service::eps::EpsError;
use mram_service::last_error::{parse, ErrorCode, LastError};

#[test]
fn test_parse_motherboard() {
    assert_eq!(
        LastError {
            motherboard: ErrorCode::BadCRC,
            daughterboard: None,
        },
        parse(&[0x00, 0x10]).unwrap()
    );
}

#[test]
fn test_parse_motherboard_daughterboard() {
    assert_eq!(
        LastError {
            motherboard: ErrorCode::CommandDataIncorrect,
            daughterboard: Some(ErrorCode::ChannelInactive),
        },
        parse(&[0x00, 0x02, 0x00, 0x04]).unwrap()
    );
}

#[test]
fn test_parse_bad_data_len() {
    assert_eq!(
        EpsError::parsing_failure("Last Error"),
        parse(&[]).err().unwrap()
    );
}

#[test]
fn test_parse_unknown_code() {
    let last = parse(&[0x00, 0x77]).unwrap();
    assert_eq!(last.motherboard, ErrorCode::UnknownError);
}

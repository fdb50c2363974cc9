//! Tests of the byte-range cursor: clamping at the capacity boundary and
//! seek validity.

use mram_service::io::{IoError, MramCursor, SeekFrom};
use mram_service::protocol::CAPACITY_BYTES;

#[test]
fn cursor_clamps_reads_and_writes() {
    let mut cursor = MramCursor::at::<()>(CAPACITY_BYTES - 10).unwrap();

    // A request for more bytes than remain is shortened, never an error.
    let (start, len) = cursor.read_span(100);
    assert_eq!(start, CAPACITY_BYTES - 10);
    assert_eq!(len, 10);
    assert_eq!(cursor.position(), CAPACITY_BYTES);

    // At the end of the range the span is empty.
    let (_, len) = cursor.read_span(100);
    assert_eq!(len, 0);
    assert_eq!(cursor.position(), CAPACITY_BYTES);

    let mut cursor = MramCursor::at::<()>(CAPACITY_BYTES - 3).unwrap();
    let (start, len) = cursor.write_span(8);
    assert_eq!((start, len), (CAPACITY_BYTES - 3, 3));
    assert_eq!(cursor.position(), CAPACITY_BYTES);
}

#[test]
fn cursor_spans_advance_position() {
    let mut cursor = MramCursor::new();
    assert_eq!(cursor.position(), 0);
    let (start, len) = cursor.read_span(16);
    assert_eq!((start, len), (0, 16));
    let (start, len) = cursor.write_span(4);
    assert_eq!((start, len), (16, 4));
    assert_eq!(cursor.position(), 20);
    cursor.flush();
    assert_eq!(cursor.position(), 20);
}

#[test]
fn seek_validity() {
    let mut cursor = MramCursor::new();

    // Seeking exactly to the capacity succeeds.
    assert_eq!(
        cursor.seek::<()>(SeekFrom::Start(CAPACITY_BYTES as u64)),
        Ok(CAPACITY_BYTES as u64)
    );
    assert_eq!(cursor.position(), CAPACITY_BYTES);

    // One byte further fails and leaves the position unchanged.
    assert_eq!(
        cursor.seek::<()>(SeekFrom::Start(CAPACITY_BYTES as u64 + 1)),
        Err(IoError::InvalidSeek)
    );
    assert_eq!(cursor.position(), CAPACITY_BYTES);

    // A negative-resulting target fails identically.
    let mut cursor = MramCursor::at::<()>(5).unwrap();
    assert_eq!(cursor.seek::<()>(SeekFrom::Current(-6)), Err(IoError::InvalidSeek));
    assert_eq!(cursor.position(), 5);
    assert_eq!(
        cursor.seek::<()>(SeekFrom::End(-(CAPACITY_BYTES as i64) - 1)),
        Err(IoError::InvalidSeek)
    );
    assert_eq!(cursor.position(), 5);

    // Valid relative seeks land where they should.
    assert_eq!(cursor.seek::<()>(SeekFrom::Current(7)), Ok(12));
    assert_eq!(cursor.seek::<()>(SeekFrom::End(-8)), Ok((CAPACITY_BYTES - 8) as u64));

    // A starting position past the capacity is rejected.
    assert!(MramCursor::at::<()>(CAPACITY_BYTES + 1).is_err());
}

//! Tests of the metadata attribute codec and the little-endian helpers.

use mram_service::codec::{push_i64_le, push_u32_le, read_i64_le, read_u32_le};
use mram_service::meta::FileMeta;

#[test]
fn meta_round_trip() {
    let meta = FileMeta {
        mime_type: "text/plain".to_owned(),
        compressed: true,
        created_at: 1_700_000_000,
        updated_at: 1_700_000_600,
    };
    let blob = meta.encode();
    assert_eq!(blob.len(), 19 + "text/plain".len());
    assert_eq!(blob[0], 1);
    assert_eq!(blob[1], 1);
    assert_eq!(blob[18], 10);

    let decoded = FileMeta::decode(&blob).unwrap();
    assert_eq!(decoded.mime_type, "text/plain");
    assert!(decoded.compressed);
    assert_eq!(decoded.created_at, 1_700_000_000);
    assert_eq!(decoded.updated_at, 1_700_000_600);
}

#[test]
fn meta_decode_rejects_short_or_unversioned_blobs() {
    assert!(FileMeta::decode(&[1, 0, 0]).is_none());
    let meta = FileMeta::default();
    let mut blob = meta.encode();
    blob[0] = 9;
    assert!(FileMeta::decode(&blob).is_none());
}

#[test]
fn meta_default_values() {
    let meta = FileMeta::default();
    assert_eq!(meta.mime_type, "application/octet-stream");
    assert!(!meta.compressed);
    assert_eq!(meta.created_at, 0);
    assert_eq!(meta.updated_at, 0);
}

#[test]
fn meta_encode_truncates_long_mime() {
    let meta = FileMeta {
        mime_type: std::iter::repeat('m').take(40).collect(),
        compressed: false,
        created_at: 0,
        updated_at: 0,
    };
    let blob = meta.encode();
    assert_eq!(blob[18], 32);
    assert_eq!(blob.len(), 19 + 32);
}

#[test]
fn little_endian_round_trips() {
    let mut out = Vec::new();
    push_u32_le(&mut out, 0x0403_0201);
    assert_eq!(out, vec![0x01, 0x02, 0x03, 0x04]);
    assert_eq!(read_u32_le(out[0], out[1], out[2], out[3]), 0x0403_0201);

    let mut out = Vec::new();
    push_i64_le(&mut out, -2);
    assert_eq!(out.len(), 8);
    assert_eq!(
        read_i64_le(out[0], out[1], out[2], out[3], out[4], out[5], out[6], out[7]),
        -2
    );
}

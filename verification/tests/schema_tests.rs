//! Tests of the service data shapes: record mapping and the base64
//! transport form.

use mram_service::backend::MemoryBackend;
use mram_service::fs::TinyMramFs;
use mram_service::protocol::CAPACITY_BYTES;
use mram_service::schema::{
    decode_write_data, file_data, format_denied_response, map_record, storage_info,
    WriteFileInput,
};

#[test]
fn file_data_encodes_base64() {
    let backend = MemoryBackend::new(CAPACITY_BYTES).unwrap();
    let mut fs = TinyMramFs::mount(backend).unwrap();
    fs.write_file("blob", None, false, &[1, 2, 3]).unwrap();

    let payload = fs.read_file("blob", 0, None).unwrap();
    let data = file_data(payload);
    assert_eq!(data.name, "blob");
    assert_eq!(data.total_size, 3);
    assert_eq!(data.offset, 0);
    assert_eq!(data.length, 3);
    assert_eq!(data.data_base64, "AQID");
}

#[test]
fn write_input_decodes_base64() {
    let input = WriteFileInput {
        name: "blob".to_owned(),
        data_base64: "AQID".to_owned(),
        mime_type: None,
        compressed: None,
    };
    assert_eq!(decode_write_data(&input), Some(vec![1, 2, 3]));

    let bad = WriteFileInput {
        name: "blob".to_owned(),
        data_base64: "!!not base64!!".to_owned(),
        mime_type: None,
        compressed: None,
    };
    assert_eq!(decode_write_data(&bad), None);
}

#[test]
fn record_maps_to_listing_entry() {
    let backend = MemoryBackend::new(CAPACITY_BYTES).unwrap();
    let mut fs = TinyMramFs::mount(backend).unwrap();
    let rec = fs
        .write_file_at("blob", Some("text/plain"), true, &[1, 2], 77)
        .unwrap();

    let info = map_record(rec);
    assert_eq!(info.name, "blob");
    assert_eq!(info.mime_type, "text/plain");
    assert!(info.compressed);
    assert_eq!(info.offset, 0);
    assert_eq!(info.size, 2);
    assert_eq!(info.created_at, 77);
    assert_eq!(info.updated_at, 77);
}

#[test]
fn stats_map_to_storage_info() {
    let backend = MemoryBackend::new(CAPACITY_BYTES).unwrap();
    let mut fs = TinyMramFs::mount(backend).unwrap();
    let stats = fs.stats().unwrap();
    let info = storage_info(&stats, "file");
    assert_eq!(info.backend, "file");
    assert_eq!(info.capacity_bytes, CAPACITY_BYTES as i64);
    assert_eq!(info.file_count, 0);
    assert_eq!(info.reclaimable_bytes, 0);
}

#[test]
fn unconfirmed_format_is_denied() {
    let denied = format_denied_response();
    assert!(!denied.success);
    assert_eq!(denied.errors, "format is destructive: pass confirm=true");
}

//! Tests of the tiny file store over the in-memory backend.

use mram_service::backend::{BackendError, ByteStorage, MemoryBackend};
use mram_service::fs::{FsError, TinyMramFs};
use mram_service::protocol::CAPACITY_BYTES;

fn fresh_fs() -> TinyMramFs<MemoryBackend> {
    let backend = MemoryBackend::new(CAPACITY_BYTES).unwrap();
    TinyMramFs::mount(backend).unwrap()
}

#[test]
fn write_read_list_delete_cycle() {
    let mut fs = fresh_fs();

    let rec = fs
        .write_file(
            "image.bin",
            Some("application/octet-stream"),
            true,
            &[1, 2, 3, 4],
        )
        .unwrap();
    assert_eq!(rec.size, 4);
    assert!(rec.compressed);

    let files = fs.list_files().unwrap();
    assert_eq!(files.len(), 1);
    assert_eq!(files[0].name, "image.bin");

    let payload = fs.read_file("image.bin", 1, Some(2)).unwrap();
    assert_eq!(payload.data, vec![2, 3]);

    assert!(fs.delete_file("image.bin").unwrap());
    assert!(fs.list_files().unwrap().is_empty());
}

#[test]
fn format_clears_entries() {
    let mut fs = fresh_fs();

    fs.write_file("a", None, false, &[9, 9, 9]).unwrap();
    assert_eq!(fs.list_files().unwrap().len(), 1);

    fs.format().unwrap();
    assert!(fs.list_files().unwrap().is_empty());

    let stats = fs.stats().unwrap();
    assert_eq!(stats.file_count, 0);
}

#[test]
fn metadata_persists_on_overwrite() {
    let mut fs = fresh_fs();

    let first = fs
        .write_file_at("payload.bin", Some("text/plain"), true, &[1, 2, 3], 100)
        .unwrap();
    assert_eq!(first.created_at, 100);
    assert_eq!(first.updated_at, 100);
    assert_eq!(first.size, 3);

    let second = fs
        .write_file_at("payload.bin", Some("text/plain"), false, &[9, 8, 7, 6, 5], 200)
        .unwrap();
    assert_eq!(second.created_at, 100);
    assert_eq!(second.updated_at, 200);
    assert_eq!(second.size, 5);
    assert!(!second.compressed);

    let payload = fs.read_file("payload.bin", 0, None).unwrap();
    assert_eq!(payload.data, vec![9, 8, 7, 6, 5]);
    assert_eq!(payload.record.created_at, 100);
}

#[test]
fn capacity_mismatch_is_fatal() {
    let backend = MemoryBackend::new(1024).unwrap();
    match TinyMramFs::mount(backend) {
        Err(FsError::CapacityMismatch { actual, expected }) => {
            assert_eq!(actual, 1024);
            assert_eq!(expected, CAPACITY_BYTES);
        }
        other => panic!("expected a capacity mismatch, got {:?}", other.err()),
    }
}

#[test]
fn store_survives_remount() {
    let backend = MemoryBackend::new(CAPACITY_BYTES).unwrap();
    let mut fs = TinyMramFs::mount(backend).unwrap();
    fs.write_file_at("keep.bin", None, false, &[5, 6], 42).unwrap();

    // Mounting again over the same device bytes finds the file untouched.
    let mut fs = TinyMramFs::mount(fs.into_backend()).unwrap();
    let rec = fs.file("keep.bin").unwrap().unwrap();
    assert_eq!(rec.size, 2);
    assert_eq!(rec.created_at, 42);
}

#[test]
fn get_absent_file_is_not_an_error() {
    let mut fs = fresh_fs();
    assert!(fs.file("missing.bin").unwrap().is_none());
    assert!(!fs.delete_file("missing.bin").unwrap());
}

#[test]
fn name_and_mime_validation() {
    let mut fs = fresh_fs();

    assert!(matches!(
        fs.write_file("", None, false, &[1]),
        Err(FsError::InvalidName(0))
    ));
    assert!(matches!(
        fs.write_file("a/b", None, false, &[1]),
        Err(FsError::InvalidName(3))
    ));
    let long_name: String = std::iter::repeat('x').take(65).collect();
    assert!(matches!(
        fs.write_file(&long_name, None, false, &[1]),
        Err(FsError::InvalidName(65))
    ));
    let long_name: String = std::iter::repeat('x').take(64).collect();
    assert!(fs.write_file(&long_name, None, false, &[1]).is_ok());

    let long_mime: String = std::iter::repeat('m').take(33).collect();
    assert!(matches!(
        fs.write_file("ok.bin", Some(&long_mime), false, &[1]),
        Err(FsError::InvalidMime(33))
    ));

    // Validation fails fast: none of the rejected writes touched storage.
    let names: Vec<String> = fs.list_files().unwrap().into_iter().map(|r| r.name).collect();
    let expected: String = std::iter::repeat('x').take(64).collect();
    assert_eq!(names, vec![expected]);
    assert!(matches!(
        fs.delete_file("a/b"),
        Err(FsError::InvalidName(3))
    ));
    assert_eq!(fs.list_files().unwrap().len(), 1);
}

#[test]
fn read_range_edges() {
    let mut fs = fresh_fs();
    fs.write_file("r.bin", None, false, &[10, 20, 30]).unwrap();

    // Requesting past the end yields the available bytes.
    assert_eq!(fs.read_file("r.bin", 1, Some(99)).unwrap().data, vec![20, 30]);
    // An offset at the size is valid and yields zero bytes.
    assert!(fs.read_file("r.bin", 3, None).unwrap().data.is_empty());
    // An offset past the size is an invalid range.
    assert!(matches!(
        fs.read_file("r.bin", 4, None),
        Err(FsError::InvalidRange)
    ));
    // An absent file is reported as such.
    assert!(matches!(
        fs.read_file("nope.bin", 0, None),
        Err(FsError::FileNotFound(_))
    ));
}

#[test]
fn list_is_sorted_by_name() {
    let mut fs = fresh_fs();
    fs.write_file("bravo", None, false, &[2]).unwrap();
    fs.write_file("alpha", None, false, &[1]).unwrap();
    fs.write_file("charlie", None, false, &[3]).unwrap();

    let names: Vec<String> = fs.list_files().unwrap().into_iter().map(|r| r.name).collect();
    assert_eq!(names, vec!["alpha", "bravo", "charlie"]);
}

#[test]
fn stats_track_live_bytes_and_count() {
    let mut fs = fresh_fs();
    fs.write_file("a", None, false, &[0; 10]).unwrap();
    fs.write_file("b", None, false, &[0; 30]).unwrap();

    let stats = fs.stats().unwrap();
    assert_eq!(stats.capacity_bytes, CAPACITY_BYTES);
    assert_eq!(stats.live_bytes, 40);
    assert_eq!(stats.file_count, 2);
    assert_eq!(stats.reclaimable_bytes, 0);
    assert_eq!(stats.free_bytes, CAPACITY_BYTES - stats.allocated_bytes);
    assert!(stats.allocated_bytes >= stats.live_bytes);
}

#[test]
fn default_mime_type_applies() {
    let mut fs = fresh_fs();
    let rec = fs.write_file("plain", None, false, &[1]).unwrap();
    assert_eq!(rec.mime_type, "application/octet-stream");
    let rec = fs.write_file("typed", Some("text/plain"), false, &[1]).unwrap();
    assert_eq!(rec.mime_type, "text/plain");
}

#[test]
fn backend_round_trip_and_bounds() {
    let mut backend = MemoryBackend::new(CAPACITY_BYTES).unwrap();
    backend.write(100, &[7, 8, 9]).unwrap();
    assert_eq!(backend.read(100, 3).unwrap(), vec![7, 8, 9]);

    // Out-of-range accesses are rejected, never truncated.
    assert_eq!(
        backend.write(CAPACITY_BYTES - 1, &[1, 2]),
        Err(BackendError::OutOfBounds {
            offset: CAPACITY_BYTES - 1,
            len: 2,
            capacity: CAPACITY_BYTES
        })
    );
    assert!(backend.read(CAPACITY_BYTES, 1).is_err());
    // A zero capacity is rejected at construction.
    assert!(matches!(
        MemoryBackend::new(0),
        Err(BackendError::InvalidConfig(_))
    ));
}

//! Tiny flat-namespace file store with per-file metadata over a byte-storage
//! backend.
//!
//! The store keeps no state in memory between calls: every operation reads
//! the device image afresh, works on the decoded file table and, when it
//! changes anything, writes the image back — so the lifetime of any decoded
//! state is bounded by a single call, and what survives a power cycle is
//! exactly the image on the backend. Construction verifies the backend
//! capacity against the chip's and then ensures a formatted image, once
//! formatting the device when it holds none — the only recovery path for an
//! unformatted or corrupted device.

use vstd::prelude::*;
use vstd::utf8::{decode_utf8, encode_utf8, valid_utf8};

use crate::backend::{BackendError, ByteStorage};
use crate::image::{
    decode_store, encode_store, entries_model, live_bytes, sorted_entries, spec_store_decode,
    spec_store_encode, valid_name_bytes, wf_entries, wf_entry, EntryModel, StoreEntry,
    MAX_NAME_LEN,
};
use crate::meta::{default_mime_bytes, FileMeta, MetaModel, META_MAX_MIME_LEN};
use crate::order::{bytes_eq, bytes_lt, lex_lt};
use crate::protocol::CAPACITY_BYTES;
use crate::table::{entry_of, has_name, spec_insert, spec_remove};
use crate::text::string_from_utf8;

verus! {

/// Numeric code reported when the image on the device does not decode.
pub const ERR_CORRUPT: i32 = -84;

/// Numeric code reported when the image would not fit the device.
pub const ERR_NO_SPACE: i32 = -28;

/// File-store error taxonomy: a wrapped backend error, a filesystem-level
/// failure with its numeric code, the validation and lookup failures, the
/// capacity check at mount, and the fatal initialization failure when both
/// the mount and the format-then-mount retry failed.
#[derive(Debug, Clone, PartialEq, Eq)]
pub enum FsError {
    /// The backend failed.
    Backend(BackendError),
    /// The filesystem structure failed: the image is corrupt or space ran
    /// out. The code preserves the failure kind for diagnostics.
    Filesystem {
        /// Numeric failure code.
        code: i32,
    },
    /// The file name is empty, too long or holds a path separator; carries
    /// the rejected name's length in bytes.
    InvalidName(usize),
    /// The MIME type is longer than the stored bound; carries the rejected
    /// type's length in bytes.
    InvalidMime(usize),
    /// No file of this name exists.
    FileNotFound(String),
    /// The requested range starts beyond the end of the file.
    InvalidRange,
    /// The backend's capacity is not the chip capacity the store expects.
    CapacityMismatch {
        /// Capacity the backend reported.
        actual: u32,
        /// Capacity the store expects.
        expected: u32,
    },
    /// Both the mount and the format-then-mount retry failed.
    Initialization(String),
}

impl FsError {
    /// A short description of the failure.
    pub fn message(&self) -> String {
        let mut m = String::new();
        match self {
            FsError::Backend(e) => {
                m.append("backend error: ");
                let inner = e.message();
                m.append(inner.as_str());
            },
            FsError::Filesystem { .. } => {
                m.append("filesystem error");
            },
            FsError::InvalidName(_) => {
                m.append("invalid file name length (max 64, no separator)");
            },
            FsError::InvalidMime(_) => {
                m.append("invalid mime type length (max 32)");
            },
            FsError::FileNotFound(name) => {
                m.append("file not found: ");
                m.append(name.as_str());
            },
            FsError::InvalidRange => {
                m.append("invalid read range");
            },
            FsError::CapacityMismatch { .. } => {
                m.append("storage capacity mismatch");
            },
            FsError::Initialization(detail) => {
                m.append("filesystem initialization failed: ");
                m.append(detail.as_str());
            },
        }
        m
    }
}

/// One file's record: its name, metadata and current size. The `offset`
/// field is carried for the record layout but is always zero — records do
/// not describe sub-ranges of a larger blob.
#[derive(Debug, Clone)]
pub struct FileRecord {
    /// File name.
    pub name: String,
    /// MIME type of the content.
    pub mime_type: String,
    /// Whether the caller declared the content compressed.
    pub compressed: bool,
    /// Always zero.
    pub offset: u32,
    /// Current content length in bytes.
    pub size: u32,
    /// Creation time in Unix seconds, fixed at first write.
    pub created_at: i64,
    /// Time of the latest write in Unix seconds.
    pub updated_at: i64,
}

/// Storage accounting as of one call.
#[derive(Debug, Clone)]
pub struct StorageStats {
    /// Total capacity in bytes.
    pub capacity_bytes: u32,
    /// Bytes the filesystem structure currently occupies.
    pub allocated_bytes: u32,
    /// Sum of the current file sizes.
    pub live_bytes: u32,
    /// Reserved; always zero.
    pub reclaimable_bytes: u32,
    /// Bytes still free for growth.
    pub free_bytes: u32,
    /// Number of stored files.
    pub file_count: u32,
}

/// A read range's result: the file's record, the offset the range started
/// at, and the bytes delivered.
#[derive(Debug, Clone)]
pub struct FilePayload {
    /// The file's record.
    pub record: FileRecord,
    /// Offset the returned bytes start at.
    pub range_offset: u32,
    /// The bytes delivered.
    pub data: Vec<u8>,
}

/// A record describes a stored entry: its name and MIME type encode to the
/// entry's bytes and the remaining fields match outright.
pub open spec fn record_matches(r: FileRecord, e: EntryModel) -> bool {
    &&& encode_utf8(r.name@) == e.name
    &&& encode_utf8(r.mime_type@) == e.meta.mime
    &&& r.compressed == e.meta.compressed
    &&& r.offset == 0
    &&& r.size == e.data.len()
    &&& r.created_at == e.meta.created_at
    &&& r.updated_at == e.meta.updated_at
}

/// The MIME bytes a write stores: the given type's UTF-8 bytes, or the
/// default when none is given.
pub open spec fn mime_bytes_of(mime_type: Option<&str>) -> Seq<u8> {
    match mime_type {
        Some(m) => encode_utf8(m@),
        None => default_mime_bytes(),
    }
}

/// The entry a write of these arguments stores: `created_at` is preserved
/// from an existing file of the same name and set to `now` otherwise, while
/// `updated_at` always becomes `now`.
pub open spec fn new_entry_model(
    es: Seq<EntryModel>,
    nb: Seq<u8>,
    mb: Seq<u8>,
    compressed: bool,
    data: Seq<u8>,
    now: i64,
) -> EntryModel {
    EntryModel {
        name: nb,
        meta: MetaModel {
            mime: mb,
            compressed,
            created_at: if has_name(es, nb) {
                entry_of(es, nb).meta.created_at
            } else {
                now
            },
            updated_at: now,
        },
        data,
    }
}

/// The file table after a write: the new entry replaces a same-named one or
/// is inserted in name order.
pub open spec fn spec_write(
    es: Seq<EntryModel>,
    nb: Seq<u8>,
    mb: Seq<u8>,
    compressed: bool,
    data: Seq<u8>,
    now: i64,
) -> Seq<EntryModel> {
    spec_insert(es, new_entry_model(es, nb, mb, compressed, data, now))
}

/// Relies on `std::time::SystemTime::now` and `duration_since` against the
/// Unix epoch: the current time in whole seconds, `0` when the clock reads
/// before the epoch. The value depends on the wall clock; nothing is
/// promised of it.
#[verifier::external_body]
pub fn unix_now() -> i64 {
    std::time::SystemTime::now()
        .duration_since(std::time::UNIX_EPOCH)
        .map(|d| d.as_secs() as i64)
        .unwrap_or(0)
}

/// Checks a file name: one to [`MAX_NAME_LEN`] bytes, no path separator.
#[verifier::loop_isolation(false)]
pub fn validate_name(name: &str) -> (r: Result<Vec<u8>, FsError>)
    ensures
        match r {
            Ok(v) => v@ == encode_utf8(name@) && valid_name_bytes(v@),
            Err(e) => !valid_name_bytes(encode_utf8(name@)) && (e matches FsError::InvalidName(
                l,
            ) && l == encode_utf8(name@).len()),
        },
{
    let bytes = name.as_bytes_vec();
    if bytes.len() < 1 || bytes.len() > MAX_NAME_LEN {
        return Err(FsError::InvalidName(bytes.len()));
    }
    let n = bytes.len();
    let mut i: usize = 0;
    while i < n
        invariant
            i <= n,
            n == bytes@.len(),
            forall|j: int| 0 <= j < i ==> bytes@[j] != crate::image::SLASH_BYTE,
        decreases n - i,
    {
        if bytes[i] == crate::image::SLASH_BYTE {
            return Err(FsError::InvalidName(bytes.len()));
        }
        i = i + 1;
    }
    Ok(bytes)
}

/// The tiny file store over a byte-storage backend.
pub struct TinyMramFs<B> {
    backend: B,
}

impl<B: ByteStorage> TinyMramFs<B> {
    /// The backend the store owns.
    pub closed spec fn backend(&self) -> B {
        self.backend
    }

    /// The store's invariant: a healthy backend of exactly the chip
    /// capacity.
    pub open spec fn inv(&self) -> bool {
        &&& self.backend().inv()
        &&& self.backend().capacity_spec() == CAPACITY_BYTES
    }

    /// The file table the device currently holds, when its image decodes.
    pub open spec fn entries(&self) -> Option<Seq<EntryModel>> {
        spec_store_decode(self.backend().contents())
    }

    /// Mounts the store on a backend.
    ///
    /// The backend's reported capacity must equal the chip capacity — a
    /// mismatch is fatal and is detected before any further I/O. Then the
    /// device image is read; if it does not decode, the device is formatted
    /// once and read again, and a second failure is fatal.
    pub fn mount(backend: B) -> (r: Result<Self, FsError>)
        requires
            backend.inv(),
        ensures
            match r {
                Ok(fs) => {
                    &&& backend.capacity_spec() == CAPACITY_BYTES
                    &&& fs.inv()
                    &&& match spec_store_decode(backend.contents()) {
                        Some(es) => fs.entries() == Some(es),
                        None => fs.entries() == Some(Seq::<EntryModel>::empty()),
                    }
                },
                Err(FsError::CapacityMismatch { actual, expected }) => actual
                    == backend.capacity_spec() && expected == CAPACITY_BYTES && actual != expected,
                Err(e) => backend.capacity_spec() == CAPACITY_BYTES && (e matches FsError::Backend(
                    _,
                ) || e matches FsError::Initialization(_)),
            },
            (r matches Err(FsError::CapacityMismatch { .. })) <==> backend.capacity_spec()
                != CAPACITY_BYTES,
    {
        let actual = backend.capacity();
        if actual != CAPACITY_BYTES {
            return Err(FsError::CapacityMismatch { actual, expected: CAPACITY_BYTES });
        }
        let mut fs = TinyMramFs { backend };
        match fs.ensure_filesystem() {
            Ok(_) => Ok(fs),
            Err(e) => Err(e),
        }
    }

    /// Releases the backend — the store keeps no other state, so a later
    /// mount on the same backend finds exactly the files written before.
    pub fn into_backend(self) -> (r: B)
        ensures
            r == self.backend(),
    {
        self.backend
    }

    /// A view of the backend, for persisting its image.
    pub fn backend_ref(&self) -> (r: &B)
        ensures
            r == self.backend(),
    {
        &self.backend
    }

    /// Reads the whole device image and decodes the file table.
    fn load_entries(&mut self) -> (r: Result<Vec<StoreEntry>, FsError>)
        requires
            old(self).inv(),
        ensures
            final(self).inv(),
            final(self).backend().contents() == old(self).backend().contents(),
            final(self).backend().capacity_spec() == old(self).backend().capacity_spec(),
            match r {
                Ok(es) => old(self).entries() == Some(entries_model(es@)) && wf_entries(
                    entries_model(es@),
                ) && 7 * entries_model(es@).len() + 8 <= CAPACITY_BYTES && spec_store_encode(
                    entries_model(es@),
                ).len() <= CAPACITY_BYTES + 51 * entries_model(es@).len(),
                Err(FsError::Filesystem { code }) => code == ERR_CORRUPT && old(self).entries()
                    is None,
                Err(e) => e matches FsError::Backend(_),
            },
    {
        proof {
            self.backend.contents_match_capacity();
        }
        let bytes = match self.backend.read(0, CAPACITY_BYTES as usize) {
            Ok(bytes) => bytes,
            Err(e) => {
                return Err(FsError::Backend(e));
            },
        };
        proof {
            assert(bytes@ =~= old(self).backend().contents());
        }
        match decode_store(&bytes) {
            Some(entries) => {
                proof {
                    let b = bytes@;
                    let count = crate::codec::u32_from_le_bytes(b[4], b[5], b[6], b[7]) as int;
                    crate::image::lemma_entries_decode_size(b.skip(8), count);
                }
                Ok(entries)
            },
            None => Err(FsError::Filesystem { code: ERR_CORRUPT }),
        }
    }

    /// Encodes the file table and writes it to the device, rejecting a
    /// table whose image would not fit the capacity.
    fn store_entries(&mut self, entries: &Vec<StoreEntry>) -> (r: Result<(), FsError>)
        requires
            old(self).inv(),
            wf_entries(entries_model(entries@)),
            entries@.len() <= u32::MAX,
        ensures
            final(self).inv(),
            final(self).backend().capacity_spec() == old(self).backend().capacity_spec(),
            match r {
                Ok(_) => spec_store_encode(entries_model(entries@)).len() <= CAPACITY_BYTES
                    && final(self).entries() == Some(entries_model(entries@)),
                Err(FsError::Filesystem { code }) => code == ERR_NO_SPACE && spec_store_encode(
                    entries_model(entries@),
                ).len() > CAPACITY_BYTES && final(self).backend().contents() == old(
                    self,
                ).backend().contents(),
                Err(e) => e matches FsError::Backend(_),
            },
    {
        proof {
            let models = entries_model(entries@);
            assert forall|i: int|
                0 <= i < entries@.len() implies (#[trigger] entries@[i])@.name.len()
                <= MAX_NAME_LEN && entries@[i]@.data.len() <= u32::MAX by {
                assert(models[i] == entries@[i]@);
                assert(wf_entry(models[i]));
            }
        }
        let encoded = encode_store(entries);
        if encoded.len() > CAPACITY_BYTES as usize {
            return Err(FsError::Filesystem { code: ERR_NO_SPACE });
        }
        proof {
            self.backend.contents_match_capacity();
        }
        match self.backend.write(0, encoded.as_slice()) {
            Ok(_) => {
                proof {
                    let contents = self.backend().contents();
                    let enc = encoded@;
                    let tail = contents.subrange(enc.len() as int, contents.len() as int);
                    assert(contents =~= enc + tail);
                    crate::image::lemma_store_roundtrip(entries_model(entries@), tail);
                }
                Ok(())
            },
            Err(e) => Err(FsError::Backend(e)),
        }
    }

    /// Reinitializes the device to an empty file store. Destructive and
    /// irrecoverable: callers gate it behind explicit confirmation.
    pub fn format(&mut self) -> (r: Result<(), FsError>)
        requires
            old(self).inv(),
        ensures
            final(self).inv(),
            final(self).backend().capacity_spec() == old(self).backend().capacity_spec(),
            match r {
                Ok(_) => final(self).entries() == Some(Seq::<EntryModel>::empty()),
                Err(e) => e matches FsError::Backend(_),
            },
    {
        let empty: Vec<StoreEntry> = Vec::new();
        proof {
            assert(entries_model(empty@) =~= Seq::<EntryModel>::empty());
            assert(spec_store_encode(Seq::<EntryModel>::empty()).len() == 8);
        }
        match self.store_entries(&empty) {
            Ok(_) => Ok(()),
            Err(FsError::Filesystem { .. }) => {
                proof {
                    assert(false);
                }
                Ok(())
            },
            Err(e) => Err(e),
        }
    }

    /// Ensures the device holds a decodable image: reads it, and when that
    /// fails formats the device once and reads again; a second failure is
    /// the fatal initialization error.
    fn ensure_filesystem(&mut self) -> (r: Result<(), FsError>)
        requires
            old(self).inv(),
        ensures
            final(self).inv(),
            final(self).backend().capacity_spec() == old(self).backend().capacity_spec(),
            match r {
                Ok(_) => match spec_store_decode(old(self).backend().contents()) {
                    Some(es) => final(self).entries() == Some(es),
                    None => final(self).entries() == Some(Seq::<EntryModel>::empty()),
                },
                Err(e) => e matches FsError::Backend(_) || e matches FsError::Initialization(_),
            },
    {
        match self.load_entries() {
            Ok(_) => {
                return Ok(());
            },
            Err(FsError::Backend(e)) => {
                return Err(FsError::Backend(e));
            },
            Err(_) => {},
        }

        if self.format().is_err() {
            let mut detail = String::new();
            detail.append("device image did not decode and formatting it failed");
            return Err(FsError::Initialization(detail));
        }

        match self.load_entries() {
            Ok(_) => Ok(()),
            Err(_) => {
                let mut detail = String::new();
                detail.append("device image did not decode after formatting");
                Err(FsError::Initialization(detail))
            },
        }
    }

    /// Lists every stored file's record, in name order.
    pub fn list_files(&mut self) -> (r: Result<Vec<FileRecord>, FsError>)
        requires
            old(self).inv(),
        ensures
            final(self).inv(),
            final(self).backend().contents() == old(self).backend().contents(),
            final(self).backend().capacity_spec() == old(self).backend().capacity_spec(),
            match r {
                Ok(records) => old(self).entries() matches Some(es) && records@.len() == es.len()
                    && forall|i: int|
                    0 <= i < es.len() ==> record_matches(#[trigger] records@[i], es[i]),
                Err(FsError::Filesystem { code }) => code == ERR_CORRUPT && old(self).entries()
                    is None,
                Err(e) => e matches FsError::Backend(_),
            },
    {
        let entries = match self.load_entries() {
            Ok(entries) => entries,
            Err(e) => {
                return Err(e);
            },
        };
        let ghost models = entries_model(entries@);
        let n = entries.len();
        let mut records: Vec<FileRecord> = Vec::new();
        let mut k: usize = 0;
        while k < n
            invariant
                k <= n,
                n == entries@.len(),
                wf_entries(models),
                models == entries_model(entries@),
                records@.len() == k,
                forall|i: int| 0 <= i < k ==> record_matches(#[trigger] records@[i], models[i]),
            decreases n - k,
        {
            proof {
                assert(models[k as int] == entries@[k as int]@);
            }
            let record = record_of(&entries[k]);
            records.push(record);
            k = k + 1;
        }
        Ok(records)
    }

    /// Returns the record of the named file, or nothing when no such file
    /// exists — absence is not an error.
    pub fn file(&mut self, name: &str) -> (r: Result<Option<FileRecord>, FsError>)
        requires
            old(self).inv(),
        ensures
            final(self).inv(),
            final(self).backend().contents() == old(self).backend().contents(),
            final(self).backend().capacity_spec() == old(self).backend().capacity_spec(),
            match r {
                Ok(found) => valid_name_bytes(encode_utf8(name@)) && (match old(
                    self,
                ).entries() {
                    Some(es) => match found {
                        Some(rec) => has_name(es, encode_utf8(name@)) && record_matches(
                            rec,
                            entry_of(es, encode_utf8(name@)),
                        ),
                        None => !has_name(es, encode_utf8(name@)),
                    },
                    None => false,
                }),
                Err(FsError::InvalidName(l)) => !valid_name_bytes(encode_utf8(name@)) && l
                    == encode_utf8(name@).len(),
                Err(FsError::Filesystem { code }) => code == ERR_CORRUPT && old(self).entries()
                    is None && valid_name_bytes(encode_utf8(name@)),
                Err(e) => e matches FsError::Backend(_) && valid_name_bytes(encode_utf8(name@)),
            },
    {
        let name_bytes = match validate_name(name) {
            Ok(b) => b,
            Err(e) => {
                return Err(e);
            },
        };
        let entries = match self.load_entries() {
            Ok(entries) => entries,
            Err(e) => {
                return Err(e);
            },
        };
        let ghost models = entries_model(entries@);
        match find_entry(&entries, &name_bytes) {
            Some(i) => {
                proof {
                    assert(models[i as int] == entries@[i as int]@);
                    crate::table::lemma_entry_at_index(models, i as int);
                }
                Ok(Some(record_of(&entries[i])))
            },
            None => Ok(None),
        }
    }

    /// Writes a file: creates it or replaces its whole content, stamping
    /// the metadata with the current time. `created_at` is preserved when a
    /// file of the name already exists.
    pub fn write_file(
        &mut self,
        name: &str,
        mime_type: Option<&str>,
        compressed: bool,
        data: &[u8],
    ) -> (r: Result<FileRecord, FsError>)
        requires
            old(self).inv(),
        ensures
            final(self).inv(),
            final(self).backend().capacity_spec() == old(self).backend().capacity_spec(),
            match r {
                Ok(rec) => exists|now: i64|
                    write_ok_post(
                        old(self).entries(),
                        final(self).entries(),
                        rec,
                        name@,
                        mime_type,
                        compressed,
                        data@,
                        now,
                    ),
                Err(e) => write_err_post(
                    old(self).entries(),
                    old(self).backend().contents(),
                    final(self).backend().contents(),
                    e,
                    name@,
                    mime_type,
                    compressed,
                    data@,
                ),
            },
    {
        let now = unix_now();
        self.write_file_at(name, mime_type, compressed, data, now)
    }

    /// Writes a file as [`Self::write_file`] does, with the write time
    /// given by the caller.
    #[verifier::loop_isolation(false)]
    #[verifier::rlimit(100)]
    #[verifier::spinoff_prover]
    pub fn write_file_at(
        &mut self,
        name: &str,
        mime_type: Option<&str>,
        compressed: bool,
        data: &[u8],
        now: i64,
    ) -> (r: Result<FileRecord, FsError>)
        requires
            old(self).inv(),
        ensures
            final(self).inv(),
            final(self).backend().capacity_spec() == old(self).backend().capacity_spec(),
            match r {
                Ok(rec) => write_ok_post(
                    old(self).entries(),
                    final(self).entries(),
                    rec,
                    name@,
                    mime_type,
                    compressed,
                    data@,
                    now,
                ),
                Err(e) => write_err_post(
                    old(self).entries(),
                    old(self).backend().contents(),
                    final(self).backend().contents(),
                    e,
                    name@,
                    mime_type,
                    compressed,
                    data@,
                ),
            },
    {
        let ghost nb = encode_utf8(name@);
        let ghost mb = mime_bytes_of(mime_type);

        let name_bytes = match validate_name(name) {
            Ok(b) => b,
            Err(e) => {
                return Err(e);
            },
        };
        proof {
            vstd::utf8::encode_utf8_valid_utf8(name@);
        }

        let mime_string = match mime_type {
            Some(m) => String::from_str(m),
            None => default_mime_string(),
        };
        let mime_bytes = mime_string.as_str().as_bytes_vec();
        if mime_bytes.len() > META_MAX_MIME_LEN {
            return Err(FsError::InvalidMime(mime_bytes.len()));
        }
        proof {
            vstd::utf8::encode_utf8_valid_utf8(mime_string@);
        }

        let entries = match self.load_entries() {
            Ok(entries) => entries,
            Err(e) => {
                return Err(e);
            },
        };
        let ghost models = entries_model(entries@);
        let ghost orig = entries@;
        let n = entries.len();

        // Find the insert position: the first entry whose name is not
        // below the new one. Everything before it stays in place.
        let mut pos: usize = 0;
        #[verifier::loop_isolation(true)]
        while pos < n
            invariant
                pos <= n,
                n == entries@.len(),
                models == entries_model(entries@),
                nb == name_bytes@,
                forall|j: int| 0 <= j < pos ==> lex_lt((#[trigger] models[j]).name, nb),
            ensures
                pos <= n,
                forall|j: int| 0 <= j < pos ==> lex_lt((#[trigger] models[j]).name, nb),
                pos < n ==> !lex_lt(models[pos as int].name, nb),
            decreases n - pos,
        {
            proof {
                assert(models[pos as int] == entries@[pos as int]@);
            }
            if !bytes_lt(&entries[pos].name, &name_bytes) {
                break;
            }
            pos = pos + 1;
        }

        let replaces = if pos < n {
            bytes_eq(&entries[pos].name, &name_bytes)
        } else {
            false
        };
        proof {
            if pos < n {
                assert(models[pos as int] == entries@[pos as int]@);
            }
            if !replaces && pos < n {
                if !lex_lt(nb, models[pos as int].name) {
                    crate::order::lemma_lex_trichotomy(models[pos as int].name, nb);
                    assert(false);
                }
            }
        }

        let created_at = if replaces {
            proof {
                crate::table::lemma_entry_at_index(models, pos as int);
            }
            entries[pos].meta.created_at
        } else {
            proof {
                lemma_not_found_at_pos(models, nb, pos as int);
            }
            now
        };

        let entry = StoreEntry {
            name: name_bytes,
            meta: FileMeta { mime_type: mime_string, compressed, created_at, updated_at: now },
            data: vstd::slice::slice_to_vec(data),
        };
        proof {
            assert(entry@.meta == new_entry_model(models, nb, mb, compressed, data@, now).meta);
            assert(entry@ == new_entry_model(models, nb, mb, compressed, data@, now));
        }

        if data.len() >= u32::MAX as usize {
            proof {
                lemma_oversized_write(models, entry@, pos as int, replaces);
                assert(spec_write(models, nb, mb, compressed, data@, now) == spec_insert(
                    models,
                    entry@,
                ));
                assert(spec_store_encode(
                    spec_write(models, nb, mb, compressed, data@, now),
                ).len() > CAPACITY_BYTES);
            }
            return Err(FsError::Filesystem { code: ERR_NO_SPACE });
        }
        proof {
            assert(wf_entry(entry@));
            crate::table::lemma_insert_at_pos(models, entry@, pos as int, replaces);
            crate::table::lemma_insert_wf(models, entry@);
        }

        let record = record_of(&entry);

        let mut result: Vec<StoreEntry> = Vec::new();
        let mut rest = entries;
        let mut moved: usize = 0;
        while moved < pos
            invariant
                moved <= pos <= n,
                n == orig.len(),
                result@ == orig.take(moved as int),
                rest@ == orig.skip(moved as int),
            decreases pos - moved,
        {
            let head = rest.remove(0);
            result.push(head);
            proof {
                assert(orig.take(moved + 1) =~= orig.take(moved as int).push(
                    orig[moved as int],
                ));
                assert(orig.skip(moved as int).remove(0) =~= orig.skip(moved + 1));
            }
            moved = moved + 1;
        }
        if replaces {
            rest.remove(0);
            proof {
                assert(orig.skip(pos as int).remove(0) =~= orig.skip(pos + 1));
            }
        }
        result.push(entry);

        let ghost tail_start = if replaces {
            pos + 1int
        } else {
            pos as int
        };
        let mut k: usize = 0;
        let total = rest.len();
        proof {
            assert(result@ =~= orig.take(pos as int).push(entry) + orig.subrange(
                tail_start,
                tail_start,
            ));
        }
        while k < total
            invariant
                k <= total,
                n == orig.len(),
                total == orig.len() - tail_start,
                rest@ == orig.skip(tail_start + k),
                result@ == orig.take(pos as int).push(entry) + orig.subrange(
                    tail_start,
                    tail_start + k,
                ),
            decreases total - k,
        {
            let head = rest.remove(0);
            result.push(head);
            proof {
                assert(orig.skip(tail_start + k).remove(0) =~= orig.skip(tail_start + k + 1));
                assert(orig.subrange(tail_start, tail_start + k + 1) =~= orig.subrange(
                    tail_start,
                    tail_start + k,
                ).push(orig[tail_start + k]));
                assert(result@ =~= orig.take(pos as int).push(entry) + orig.subrange(
                    tail_start,
                    tail_start + k + 1,
                ));
            }
            k = k + 1;
        }

        proof {
            assert(result@ =~= orig.take(pos as int).push(entry) + orig.skip(tail_start));
            assert(entries_model(result@) =~= models.subrange(0, pos as int) + seq![entry@]
                + models.skip(tail_start));
            assert(entries_model(result@) == spec_insert(models, entry@));
        }

        proof {
            assert(spec_write(models, nb, mb, compressed, data@, now) == entries_model(
                result@,
            ));
        }
        match self.store_entries(&result) {
            Ok(_) => Ok(record),
            Err(e) => Err(e),
        }
    }

    /// Reads a byte range of the named file.
    ///
    /// The delivered bytes are the intersection of the requested window and
    /// the file's extent: requesting beyond the end yields fewer (possibly
    /// zero) bytes, while an offset strictly beyond the size is an invalid
    /// range.
    pub fn read_file(&mut self, name: &str, offset: u32, length: Option<u32>) -> (r: Result<
        FilePayload,
        FsError,
    >)
        requires
            old(self).inv(),
        ensures
            final(self).inv(),
            final(self).backend().contents() == old(self).backend().contents(),
            final(self).backend().capacity_spec() == old(self).backend().capacity_spec(),
            match r {
                Ok(p) => valid_name_bytes(encode_utf8(name@)) && (match old(self).entries() {
                    Some(es) => has_name(es, encode_utf8(name@)) && ({
                    let e = entry_of(es, encode_utf8(name@));
                    let available = e.data.len() - offset;
                    let requested = match length {
                        Some(l) => l as int,
                        None => available,
                    };
                    let read_len = if requested <= available {
                        requested
                    } else {
                        available
                    };
                    &&& offset <= e.data.len()
                    &&& record_matches(p.record, e)
                    &&& p.range_offset == offset
                    &&& p.data@ == e.data.subrange(offset as int, offset + read_len)
                }),
                    None => false,
                }),
                Err(FsError::InvalidName(l)) => !valid_name_bytes(encode_utf8(name@)) && l
                    == encode_utf8(name@).len(),
                Err(FsError::FileNotFound(s)) => valid_name_bytes(encode_utf8(name@)) && s@
                    == name@ && (match old(self).entries() {
                    Some(es) => !has_name(es, encode_utf8(name@)),
                    None => false,
                }),
                Err(FsError::InvalidRange) => valid_name_bytes(encode_utf8(name@)) && (
                match old(self).entries() {
                    Some(es) => has_name(es, encode_utf8(name@)) && offset > entry_of(
                        es,
                        encode_utf8(name@),
                    ).data.len(),
                    None => false,
                }),
                Err(FsError::Filesystem { code }) => code == ERR_CORRUPT && old(self).entries()
                    is None && valid_name_bytes(encode_utf8(name@)),
                Err(e) => e matches FsError::Backend(_) && valid_name_bytes(encode_utf8(name@)),
            },
    {
        let name_bytes = match validate_name(name) {
            Ok(b) => b,
            Err(e) => {
                return Err(e);
            },
        };
        let entries = match self.load_entries() {
            Ok(entries) => entries,
            Err(e) => {
                return Err(e);
            },
        };
        let ghost models = entries_model(entries@);
        let i = match find_entry(&entries, &name_bytes) {
            Some(i) => i,
            None => {
                return Err(FsError::FileNotFound(String::from_str(name)));
            },
        };
        proof {
            assert(models[i as int] == entries@[i as int]@);
            crate::table::lemma_entry_at_index(models, i as int);
        }

        let size = entries[i].data.len();
        if (offset as usize) > size {
            return Err(FsError::InvalidRange);
        }
        let available = size - offset as usize;
        let requested = match length {
            Some(l) => l as usize,
            None => available,
        };
        let read_len = if requested <= available {
            requested
        } else {
            available
        };

        let start = offset as usize;
        let mut slice: Vec<u8> = Vec::new();
        let mut j: usize = 0;
        while j < read_len
            invariant
                j <= read_len,
                start + read_len <= size,
                size == entries@[i as int].data@.len(),
                i < entries@.len(),
                slice@ =~= entries@[i as int].data@.subrange(start as int, start + j),
            decreases read_len - j,
        {
            slice.push(entries[i].data[start + j]);
            j = j + 1;
        }
        assert(slice@ =~= entries@[i as int].data@.subrange(start as int, start + read_len));

        let record = record_of(&entries[i]);
        Ok(FilePayload { record, range_offset: offset, data: slice })
    }

    /// Deletes the named file, reporting whether it existed — deleting an
    /// absent name is not an error.
    pub fn delete_file(&mut self, name: &str) -> (r: Result<bool, FsError>)
        requires
            old(self).inv(),
        ensures
            final(self).inv(),
            final(self).backend().capacity_spec() == old(self).backend().capacity_spec(),
            match r {
                Ok(removed) => valid_name_bytes(encode_utf8(name@)) && (match old(
                    self,
                ).entries() {
                    Some(es) => if removed {
                        has_name(es, encode_utf8(name@)) && final(self).entries() == Some(
                            spec_remove(es, encode_utf8(name@)),
                        )
                    } else {
                        !has_name(es, encode_utf8(name@)) && final(self).backend().contents()
                            == old(self).backend().contents()
                    },
                    None => false,
                }),
                Err(FsError::InvalidName(l)) => !valid_name_bytes(encode_utf8(name@)) && l
                    == encode_utf8(name@).len() && final(self).backend().contents() == old(
                    self,
                ).backend().contents(),
                Err(FsError::Filesystem { code }) => valid_name_bytes(encode_utf8(name@))
                    && final(self).backend().contents() == old(self).backend().contents() && ((
                code == ERR_CORRUPT && old(self).entries() is None) || (code == ERR_NO_SPACE && (
                match old(self).entries() {
                    Some(es) => spec_store_encode(spec_remove(es, encode_utf8(name@))).len()
                        > CAPACITY_BYTES,
                    None => false,
                }))),
                Err(e) => e matches FsError::Backend(_) && valid_name_bytes(encode_utf8(name@)),
            },
    {
        let name_bytes = match validate_name(name) {
            Ok(b) => b,
            Err(e) => {
                return Err(e);
            },
        };
        let mut entries = match self.load_entries() {
            Ok(entries) => entries,
            Err(e) => {
                return Err(e);
            },
        };
        let ghost models = entries_model(entries@);
        let i = match find_entry(&entries, &name_bytes) {
            Some(i) => i,
            None => {
                return Ok(false);
            },
        };
        proof {
            assert(models[i as int] == entries@[i as int]@);
            crate::table::lemma_entry_at_index(models, i as int);
            crate::table::lemma_remove_at_index(models, i as int);
            crate::table::lemma_remove_wf(models, name_bytes@);
        }
        entries.remove(i);
        proof {
            assert(entries_model(entries@) =~= models.subrange(0, i as int) + models.skip(
                i + 1,
            ));
            assert(entries_model(entries@) == spec_remove(models, name_bytes@));
        }
        match self.store_entries(&entries) {
            Ok(_) => Ok(true),
            Err(e) => Err(e),
        }
    }

    /// Reports the storage accounting: total capacity, bytes the image
    /// occupies, live content bytes, free bytes and the file count,
    /// recomputed on every call. `reclaimable_bytes` is reserved and always
    /// zero.
    pub fn stats(&mut self) -> (r: Result<StorageStats, FsError>)
        requires
            old(self).inv(),
        ensures
            final(self).inv(),
            final(self).backend().contents() == old(self).backend().contents(),
            final(self).backend().capacity_spec() == old(self).backend().capacity_spec(),
            match r {
                Ok(s) => old(self).entries() matches Some(es) && {
                    let allocated = spec_store_encode(es).len();
                    &&& s.capacity_bytes == CAPACITY_BYTES
                    &&& s.allocated_bytes == allocated
                    &&& s.live_bytes == live_bytes(es)
                    &&& s.reclaimable_bytes == 0
                    &&& s.free_bytes == if allocated <= CAPACITY_BYTES {
                        CAPACITY_BYTES - allocated
                    } else {
                        0int
                    }
                    &&& s.file_count == es.len()
                },
                Err(FsError::Filesystem { code }) => code == ERR_CORRUPT && old(self).entries()
                    is None,
                Err(e) => e matches FsError::Backend(_),
            },
    {
        let entries = match self.load_entries() {
            Ok(entries) => entries,
            Err(e) => {
                return Err(e);
            },
        };
        let ghost models = entries_model(entries@);
        proof {
            assert forall|i: int|
                0 <= i < entries@.len() implies (#[trigger] entries@[i])@.name.len()
                <= MAX_NAME_LEN && entries@[i]@.data.len() <= u32::MAX by {
                assert(models[i] == entries@[i]@);
                assert(wf_entry(models[i]));
            }
        }
        let encoded = encode_store(&entries);
        proof {
            crate::image::lemma_live_le_encoded(models);
        }
        let allocated = encoded.len() as u32;

        let n = entries.len();
        let mut live: u64 = 0;
        let mut k: usize = 0;
        proof {
            assert(live_bytes(models.take(0)) == 0);
        }
        while k < n
            invariant
                k <= n,
                n == entries@.len(),
                models == entries_model(entries@),
                wf_entries(models),
                7 * models.len() + 8 <= CAPACITY_BYTES,
                spec_store_encode(models).len() <= CAPACITY_BYTES + 51 * models.len(),
                live == live_bytes(models.take(k as int)),
                live <= spec_store_encode(models).len(),
            decreases n - k,
        {
            proof {
                assert(models[k as int] == entries@[k as int]@);
                crate::image::lemma_live_take_step(models, k as int);
                lemma_live_take_le(models, k as int);
            }
            live = live + entries[k].data.len() as u64;
            k = k + 1;
        }
        proof {
            crate::image::lemma_live_take_all(models);
        }

        let free = if allocated > CAPACITY_BYTES {
            0
        } else {
            CAPACITY_BYTES - allocated
        };

        Ok(
            StorageStats {
                capacity_bytes: CAPACITY_BYTES,
                allocated_bytes: allocated,
                live_bytes: live as u32,
                reclaimable_bytes: 0,
                free_bytes: free,
                file_count: entries.len() as u32,
            },
        )
    }
}

/// Everything a successful write promises: the arguments were valid, the
/// device's table became the written table, and the returned record
/// describes the written entry.
pub open spec fn write_ok_post(
    old_entries: Option<Seq<EntryModel>>,
    new_entries: Option<Seq<EntryModel>>,
    rec: FileRecord,
    name: Seq<char>,
    mime_type: Option<&str>,
    compressed: bool,
    data: Seq<u8>,
    now: i64,
) -> bool {
    let nb = encode_utf8(name);
    let mb = mime_bytes_of(mime_type);
    &&& valid_name_bytes(nb)
    &&& mb.len() <= META_MAX_MIME_LEN
    &&& old_entries matches Some(es) && new_entries == Some(
        spec_write(es, nb, mb, compressed, data, now),
    ) && record_matches(rec, new_entry_model(es, nb, mb, compressed, data, now))
}

/// Everything a failed write promises: each error comes exactly from its
/// own cause. An invalid name or MIME type is rejected before any storage
/// I/O — the device image is untouched — and validation precedes every
/// other failure, so a backend error can only arise on a validated input.
/// A corrupt or too-large image also leaves the device bytes unchanged.
pub open spec fn write_err_post(
    old_entries: Option<Seq<EntryModel>>,
    old_contents: Seq<u8>,
    new_contents: Seq<u8>,
    e: FsError,
    name: Seq<char>,
    mime_type: Option<&str>,
    compressed: bool,
    data: Seq<u8>,
) -> bool {
    let nb = encode_utf8(name);
    let mb = mime_bytes_of(mime_type);
    match e {
        FsError::InvalidName(l) => !valid_name_bytes(nb) && l == nb.len() && new_contents
            == old_contents,
        FsError::InvalidMime(l) => valid_name_bytes(nb) && mb.len() > META_MAX_MIME_LEN && l
            == mb.len() && new_contents == old_contents,
        FsError::Filesystem { code } => valid_name_bytes(nb) && mb.len() <= META_MAX_MIME_LEN
            && new_contents == old_contents && ((code == ERR_CORRUPT && old_entries is None) || (
        code == ERR_NO_SPACE && (match old_entries {
            Some(es) => exists|now: i64|
                spec_store_encode(spec_write(es, nb, mb, compressed, data, now)).len()
                    > CAPACITY_BYTES,
            None => false,
        }))),
        FsError::Backend(_) => valid_name_bytes(nb) && mb.len() <= META_MAX_MIME_LEN,
        _ => false,
    }
}

/// Live bytes of a prefix never exceed the encoded image size.
proof fn lemma_live_take_le(es: Seq<EntryModel>, k: int)
    requires
        0 <= k < es.len(),
    ensures
        live_bytes(es.take(k + 1)) <= spec_store_encode(es).len(),
{
    lemma_live_prefix_le(es, k + 1);
    crate::image::lemma_live_le_encoded(es);
}

/// Live bytes grow with the prefix and stay within the whole table's.
proof fn lemma_live_prefix_le(es: Seq<EntryModel>, k: int)
    requires
        0 <= k <= es.len(),
    ensures
        live_bytes(es.take(k)) <= live_bytes(es),
    decreases k, es.len(),
{
    if k == 0 {
        crate::image::lemma_live_le_encoded(es);
        assert(live_bytes(es.take(0)) == 0);
    } else if es.len() == 0 {
    } else {
        assert(es.take(k)[0] == es[0]);
        assert(es.take(k).drop_first() =~= es.drop_first().take(k - 1));
        lemma_live_prefix_le(es.drop_first(), k - 1);
        crate::image::lemma_live_le_encoded(es);
    }
}

/// The write of content too large for any image cannot fit the device.
proof fn lemma_oversized_write(models: Seq<EntryModel>, e: EntryModel, pos: int, replaces: bool)
    requires
        wf_entries(models),
        0 <= pos <= models.len(),
        forall|j: int| 0 <= j < pos ==> lex_lt((#[trigger] models[j]).name, e.name),
        replaces ==> pos < models.len() && models[pos].name == e.name,
        !replaces ==> (pos < models.len() ==> lex_lt(e.name, models[pos].name)),
        e.data.len() >= u32::MAX,
    ensures
        spec_store_encode(spec_insert(models, e)).len() > CAPACITY_BYTES,
{
    crate::table::lemma_insert_at_pos(models, e, pos, replaces);
    let new_es = spec_insert(models, e);
    assert(new_es[pos] == e);
    crate::image::lemma_encode_ge_entry(new_es, pos);
    crate::image::lemma_entry_encode_len(e);
}

/// Finds the index of the entry of this name, if the table holds one.
fn find_entry(entries: &Vec<StoreEntry>, name: &Vec<u8>) -> (r: Option<usize>)
    ensures
        match r {
            Some(i) => i < entries@.len() && entries@[i as int]@.name == name@,
            None => !has_name(entries_model(entries@), name@),
        },
{
    let n = entries.len();
    let mut i: usize = 0;
    while i < n
        invariant
            i <= n,
            n == entries@.len(),
            forall|j: int| 0 <= j < i ==> (#[trigger] entries@[j])@.name != name@,
        decreases n - i,
    {
        if bytes_eq(&entries[i].name, name) {
            return Some(i);
        }
        i = i + 1;
    }
    proof {
        if has_name(entries_model(entries@), name@) {
            let j = choose|j: int|
                0 <= j < entries_model(entries@).len() && (#[trigger] entries_model(entries@)[j])
                    .name == name@;
            assert(entries_model(entries@)[j] == entries@[j]@);
            assert(false);
        }
    }
    None
}

/// When the sorted scan stopped at `pos` without an equal name, the table
/// holds no entry of that name at all.
proof fn lemma_not_found_at_pos(models: Seq<EntryModel>, nb: Seq<u8>, pos: int)
    requires
        sorted_entries(models),
        0 <= pos <= models.len(),
        forall|j: int| 0 <= j < pos ==> lex_lt((#[trigger] models[j]).name, nb),
        pos < models.len() ==> !lex_lt(models[pos].name, nb) && models[pos].name != nb,
    ensures
        !has_name(models, nb),
{
    if has_name(models, nb) {
        let i = choose|i: int| 0 <= i < models.len() && (#[trigger] models[i]).name == nb;
        if i < pos {
            crate::order::lemma_lex_irrefl(nb);
        } else if i == pos {
        } else {
            crate::image::lemma_sorted_pairwise(models, pos, i);
        }
    }
}

/// The default MIME type as a string.
fn default_mime_string() -> (r: String)
    ensures
        r@ == "application/octet-stream"@,
{
    String::from_str("application/octet-stream")
}

/// Builds the record describing a stored entry.
fn record_of(e: &StoreEntry) -> (r: FileRecord)
    requires
        wf_entry(e@),
    ensures
        record_matches(r, e@),
{
    let name = match string_from_utf8(e.name.as_slice()) {
        Some(s) => s,
        None => {
            proof {
                assert(false);
            }
            String::new()
        },
    };
    proof {
        vstd::utf8::decode_utf8_encode_utf8(e@.name);
    }
    FileRecord {
        name,
        mime_type: e.meta.mime_type.clone(),
        compressed: e.meta.compressed,
        offset: 0,
        size: e.data.len() as u32,
        created_at: e.meta.created_at,
        updated_at: e.meta.updated_at,
    }
}

} // verus!

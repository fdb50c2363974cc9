//! Data shapes of the storage service's query surface, and the pure
//! computations behind its resolvers: mapping records and stats to response
//! objects and converting file content to and from its base64 transport
//! form. The network-facing resolver layer itself lives with the unverified
//! service code and hands plain values in and out.

use vstd::prelude::*;

use base64::Engine;

use crate::fs::{FilePayload, FileRecord, StorageStats};

verus! {

/// One file's listing entry as the service reports it.
#[derive(Debug, Clone)]
pub struct FileInfo {
    /// File name.
    pub name: String,
    /// MIME type of the content.
    pub mime_type: String,
    /// Whether the caller declared the content compressed.
    pub compressed: bool,
    /// Always zero.
    pub offset: i64,
    /// Current content length in bytes.
    pub size: i64,
    /// Creation time in Unix seconds.
    pub created_at: i64,
    /// Time of the latest write in Unix seconds.
    pub updated_at: i64,
}

/// Storage accounting as the service reports it.
#[derive(Debug, Clone)]
pub struct StorageInfo {
    /// Name of the configured backend.
    pub backend: String,
    /// Total capacity in bytes.
    pub capacity_bytes: i64,
    /// Bytes the filesystem structure occupies.
    pub allocated_bytes: i64,
    /// Sum of the current file sizes.
    pub live_bytes: i64,
    /// Reserved; always zero.
    pub reclaimable_bytes: i64,
    /// Bytes still free for growth.
    pub free_bytes: i64,
    /// Number of stored files.
    pub file_count: i64,
}

/// A read range's result as the service reports it, the bytes in base64.
#[derive(Debug, Clone)]
pub struct FileData {
    /// File name.
    pub name: String,
    /// MIME type of the content.
    pub mime_type: String,
    /// Whether the caller declared the content compressed.
    pub compressed: bool,
    /// The file's full size in bytes.
    pub total_size: i64,
    /// Offset the returned bytes start at.
    pub offset: i64,
    /// Number of bytes returned.
    pub length: i64,
    /// The returned bytes, base64-encoded.
    pub data_base64: String,
}

/// Outcome of a mutation.
#[derive(Debug, Clone)]
pub struct MutationResponse {
    /// Whether the mutation succeeded.
    pub success: bool,
    /// Error description, empty on success.
    pub errors: String,
}

/// Outcome of a write mutation.
#[derive(Debug, Clone)]
pub struct WriteFileResponse {
    /// Whether the write succeeded.
    pub success: bool,
    /// Error description, empty on success.
    pub errors: String,
    /// The written file's record, on success.
    pub file: Option<FileInfo>,
}

/// Outcome of a delete mutation.
#[derive(Debug, Clone)]
pub struct DeleteFileResponse {
    /// Whether the operation succeeded.
    pub success: bool,
    /// Error description, empty on success.
    pub errors: String,
    /// Whether a file existed and was removed.
    pub deleted: bool,
}

/// Input of a write mutation.
#[derive(Debug, Clone)]
pub struct WriteFileInput {
    /// File name.
    pub name: String,
    /// Content bytes, base64-encoded.
    pub data_base64: String,
    /// MIME type to store, defaulted when absent.
    pub mime_type: Option<String>,
    /// Compression flag to store, defaulted to false when absent.
    pub compressed: Option<bool>,
}

/// What the standard base64 engine encodes the given bytes to. The result
/// depends on the bytes alone.
pub uninterp spec fn base64_of(bytes: Seq<u8>) -> Seq<char>;

/// What the standard base64 engine decodes the given text to, if anything.
/// The result depends on the text alone.
pub uninterp spec fn base64_bytes_of(text: Seq<char>) -> Option<Seq<u8>>;

/// Relies on base64's `Engine::encode` with the standard padded alphabet:
/// four output characters for every three input bytes, and `decode` inverts
/// it.
#[verifier::external_body]
fn base64_encode(bytes: &[u8]) -> (r: String)
    ensures
        r@ == base64_of(bytes@),
        r@.len() == 4 * ((bytes@.len() + 2) / 3),
        base64_bytes_of(r@) == Some(bytes@),
{
    base64::engine::general_purpose::STANDARD.encode(bytes)
}

/// Relies on base64's `Engine::decode` with the standard padded alphabet:
/// it succeeds exactly on well-formed base64 text and returns the encoded
/// bytes.
#[verifier::external_body]
fn base64_decode(text: &str) -> (r: Option<Vec<u8>>)
    ensures
        match r {
            Some(v) => base64_bytes_of(text@) == Some(v@),
            None => base64_bytes_of(text@) is None,
        },
{
    match base64::engine::general_purpose::STANDARD.decode(text.as_bytes()) {
        Ok(v) => Some(v),
        Err(_) => None,
    }
}

/// Maps a file record to its listing entry.
pub fn map_record(record: FileRecord) -> (r: FileInfo)
    ensures
        r.name == record.name,
        r.mime_type == record.mime_type,
        r.compressed == record.compressed,
        r.offset == record.offset,
        r.size == record.size,
        r.created_at == record.created_at,
        r.updated_at == record.updated_at,
{
    FileInfo {
        name: record.name,
        mime_type: record.mime_type,
        compressed: record.compressed,
        offset: record.offset as i64,
        size: record.size as i64,
        created_at: record.created_at,
        updated_at: record.updated_at,
    }
}

/// Maps storage stats and the backend's name to the reported accounting.
pub fn storage_info(stats: &StorageStats, backend_name: &str) -> (r: StorageInfo)
    ensures
        r.backend@ == backend_name@,
        r.capacity_bytes == stats.capacity_bytes,
        r.allocated_bytes == stats.allocated_bytes,
        r.live_bytes == stats.live_bytes,
        r.reclaimable_bytes == stats.reclaimable_bytes,
        r.free_bytes == stats.free_bytes,
        r.file_count == stats.file_count,
{
    StorageInfo {
        backend: String::from_str(backend_name),
        capacity_bytes: stats.capacity_bytes as i64,
        allocated_bytes: stats.allocated_bytes as i64,
        live_bytes: stats.live_bytes as i64,
        reclaimable_bytes: stats.reclaimable_bytes as i64,
        free_bytes: stats.free_bytes as i64,
        file_count: stats.file_count as i64,
    }
}

/// Maps a read range's payload to its reported form, the bytes base64
/// encoded.
pub fn file_data(payload: FilePayload) -> (r: FileData)
    requires
        payload.data@.len() <= u32::MAX,
    ensures
        r.name == payload.record.name,
        r.mime_type == payload.record.mime_type,
        r.compressed == payload.record.compressed,
        r.total_size == payload.record.size,
        r.offset == payload.range_offset,
        r.length == payload.data@.len(),
        r.data_base64@ == base64_of(payload.data@),
{
    let encoded = base64_encode(payload.data.as_slice());
    FileData {
        name: payload.record.name,
        mime_type: payload.record.mime_type,
        compressed: payload.record.compressed,
        total_size: payload.record.size as i64,
        offset: payload.range_offset as i64,
        length: payload.data.len() as i64,
        data_base64: encoded,
    }
}

/// Decodes a write input's base64 content into the bytes to store.
pub fn decode_write_data(input: &WriteFileInput) -> (r: Option<Vec<u8>>)
    ensures
        match r {
            Some(v) => base64_bytes_of(input.data_base64@) == Some(v@),
            None => base64_bytes_of(input.data_base64@) is None,
        },
{
    base64_decode(input.data_base64.as_str())
}

/// The response denying an unconfirmed format request: the mutation is
/// destructive and requires explicit confirmation.
pub fn format_denied_response() -> (r: MutationResponse)
    ensures
        r.success == false,
        r.errors@ == "format is destructive: pass confirm=true"@,
{
    MutationResponse {
        success: false,
        errors: String::from_str("format is destructive: pass confirm=true"),
    }
}

} // verus!

//! Per-file metadata attribute: a small fixed-layout binary blob holding a
//! version tag, the compression flag, the two timestamps and the MIME type.
//!
//! A blob with an unrecognized version tag or an insufficient length decodes
//! to nothing and the reader falls back to defaults: corrupt metadata
//! degrades the feature, it does not fail the read.

use vstd::prelude::*;
use vstd::utf8::{decode_utf8, encode_utf8, is_ascii_chars, valid_utf8};

use crate::codec::{i64_from_le_bytes, i64_le_bytes, push_i64_le, read_i64_le};
use crate::text::{lossy_of, string_from_utf8, string_from_utf8_lossy};

verus! {

/// Version tag of the metadata attribute layout.
pub const ATTR_META_VERSION: u8 = 1;

/// Longest MIME type stored, in bytes; longer ones are truncated.
pub const META_MAX_MIME_LEN: usize = 32;

/// Mathematical model of a metadata attribute: the MIME type as its stored
/// bytes, the compression flag and the two timestamps (Unix seconds).
pub struct MetaModel {
    /// Stored MIME type bytes.
    pub mime: Seq<u8>,
    /// Whether the caller declared the content compressed.
    pub compressed: bool,
    /// Creation time, fixed at first write.
    pub created_at: i64,
    /// Time of the latest write.
    pub updated_at: i64,
}

/// The stored MIME bytes of the default metadata.
pub open spec fn default_mime_bytes() -> Seq<u8> {
    encode_utf8("application/octet-stream"@)
}

/// The metadata a reader falls back to when the attribute is absent or
/// corrupt.
pub open spec fn default_meta_model() -> MetaModel {
    MetaModel { mime: default_mime_bytes(), compressed: false, created_at: 0, updated_at: 0 }
}

/// The default MIME type is short ASCII text: its stored bytes are valid
/// UTF-8 and fit the stored bound.
pub proof fn lemma_default_mime_facts()
    ensures
        default_mime_bytes().len() == 24,
        valid_utf8(default_mime_bytes()),
        decode_utf8(default_mime_bytes()) == "application/octet-stream"@,
{
    reveal_strlit("application/octet-stream");
    let s = "application/octet-stream"@;
    assert(s.len() == 24);
    assert(is_ascii_chars(s)) by {
        assert forall|i: int| 0 <= i < s.len() implies '\0' <= #[trigger] s[i] <= '\u{7f}' by {
            assert(s[i] == s[i]);
        }
    }
    vstd::utf8::is_ascii_chars_encode_utf8(s);
    vstd::utf8::encode_utf8_valid_utf8(s);
    vstd::utf8::encode_utf8_decode_utf8(s);
}

/// The encoded form of a metadata attribute: version, flag, the two
/// timestamps little-endian, then the MIME length and the MIME bytes
/// truncated to [`META_MAX_MIME_LEN`].
pub open spec fn spec_meta_encode(m: MetaModel) -> Seq<u8> {
    let mime_len = if m.mime.len() <= META_MAX_MIME_LEN {
        m.mime.len() as int
    } else {
        META_MAX_MIME_LEN as int
    };
    seq![ATTR_META_VERSION, (if m.compressed { 1u8 } else { 0u8 })] + i64_le_bytes(m.created_at)
        + i64_le_bytes(m.updated_at) + seq![mime_len as u8] + m.mime.take(mime_len)
}

/// What a metadata blob decodes to, if anything: the exact inverse of
/// [`spec_meta_encode`] on well-formed blobs, tolerant of trailing bytes.
pub open spec fn spec_meta_decode(raw: Seq<u8>) -> Option<MetaModel> {
    if raw.len() < 19 {
        None
    } else if raw[0] != ATTR_META_VERSION {
        None
    } else {
        let mime_len = if raw[18] <= META_MAX_MIME_LEN as u8 {
            raw[18] as int
        } else {
            META_MAX_MIME_LEN as int
        };
        if raw.len() < 19 + mime_len {
            None
        } else {
            Some(
                MetaModel {
                    mime: raw.subrange(19, 19 + mime_len),
                    compressed: raw[1] != 0,
                    created_at: i64_from_le_bytes(
                        raw[2],
                        raw[3],
                        raw[4],
                        raw[5],
                        raw[6],
                        raw[7],
                        raw[8],
                        raw[9],
                    ),
                    updated_at: i64_from_le_bytes(
                        raw[10],
                        raw[11],
                        raw[12],
                        raw[13],
                        raw[14],
                        raw[15],
                        raw[16],
                        raw[17],
                    ),
                },
            )
        }
    }
}

/// Decoding an encoded metadata attribute returns it unchanged, provided
/// its MIME type was within the stored bound.
pub proof fn lemma_meta_roundtrip(m: MetaModel)
    requires
        m.mime.len() <= META_MAX_MIME_LEN,
    ensures
        spec_meta_encode(m).len() == 19 + m.mime.len(),
        spec_meta_decode(spec_meta_encode(m)) == Some(m),
{
    let enc = spec_meta_encode(m);
    let mime_len = m.mime.len() as int;
    assert(m.mime.take(mime_len) =~= m.mime);
    assert(enc.len() == 19 + mime_len);
    assert(enc[0] == ATTR_META_VERSION);
    assert(enc[18] == mime_len as u8);
    crate::codec::lemma_i64_le_roundtrip(m.created_at);
    crate::codec::lemma_i64_le_roundtrip(m.updated_at);
    assert(enc.subrange(2, 10) =~= i64_le_bytes(m.created_at));
    assert(enc.subrange(10, 18) =~= i64_le_bytes(m.updated_at));
    assert(enc[2] == i64_le_bytes(m.created_at)[0]);
    assert(enc[9] == i64_le_bytes(m.created_at)[7]);
    let d = spec_meta_decode(enc);
    assert(d is Some);
    assert(d.unwrap().mime =~= m.mime);
    assert(d.unwrap().compressed == m.compressed);
    assert(d.unwrap().created_at == m.created_at);
    assert(d.unwrap().updated_at == m.updated_at);
    assert(d.unwrap() == m);
}

/// A file's metadata as the store handles it.
#[derive(Debug, Clone)]
pub struct FileMeta {
    /// MIME type of the content.
    pub mime_type: String,
    /// Whether the caller declared the content compressed.
    pub compressed: bool,
    /// Creation time in Unix seconds, fixed at first write.
    pub created_at: i64,
    /// Time of the latest write in Unix seconds.
    pub updated_at: i64,
}

impl View for FileMeta {
    type V = MetaModel;

    open spec fn view(&self) -> MetaModel {
        MetaModel {
            mime: encode_utf8(self.mime_type@),
            compressed: self.compressed,
            created_at: self.created_at,
            updated_at: self.updated_at,
        }
    }
}

impl Default for FileMeta {
    /// The defaults a reader uses when the attribute is absent or corrupt.
    fn default() -> (r: Self)
        ensures
            r.mime_type@ == "application/octet-stream"@,
            r.compressed == false,
            r.created_at == 0,
            r.updated_at == 0,
            r@ == default_meta_model(),
    {
        FileMeta {
            mime_type: String::from_str("application/octet-stream"),
            compressed: false,
            created_at: 0,
            updated_at: 0,
        }
    }
}

impl FileMeta {
    /// Encodes the attribute blob for this metadata.
    pub fn encode(&self) -> (r: Vec<u8>)
        ensures
            r@ == spec_meta_encode(self@),
    {
        let mime = self.mime_type.as_str().as_bytes_vec();
        let mime_len = if mime.len() <= META_MAX_MIME_LEN {
            mime.len()
        } else {
            META_MAX_MIME_LEN
        };

        let mut out: Vec<u8> = Vec::new();
        out.push(ATTR_META_VERSION);
        out.push(if self.compressed { 1 } else { 0 });
        push_i64_le(&mut out, self.created_at);
        push_i64_le(&mut out, self.updated_at);
        out.push(mime_len as u8);
        let mut i: usize = 0;
        while i < mime_len
            invariant
                i <= mime_len,
                mime_len <= mime@.len(),
                out@ =~= seq![ATTR_META_VERSION, (if self.compressed { 1u8 } else { 0u8 })]
                    + i64_le_bytes(self.created_at) + i64_le_bytes(self.updated_at)
                    + seq![mime_len as u8] + mime@.take(i as int),
            decreases mime_len - i,
        {
            out.push(mime[i]);
            assert(mime@.take(i + 1) =~= mime@.take(i as int).push(mime@[i as int]));
            i = i + 1;
        }
        assert(out@ =~= spec_meta_encode(self@));
        out
    }

    /// Decodes a metadata attribute blob.
    ///
    /// Returns nothing when the blob is too short or carries an unknown
    /// version tag; the MIME bytes are taken as text, with invalid UTF-8
    /// replaced, exactly as [`spec_meta_decode`] describes the raw fields.
    pub fn decode(raw: &[u8]) -> (r: Option<FileMeta>)
        ensures
            match r {
                Some(m) => spec_meta_decode(raw@) matches Some(model) && m.compressed
                    == model.compressed && m.created_at == model.created_at && m.updated_at
                    == model.updated_at && m.mime_type@ == lossy_of(model.mime),
                None => spec_meta_decode(raw@) is None,
            },
    {
        if raw.len() < 19 {
            return None;
        }
        if raw[0] != ATTR_META_VERSION {
            return None;
        }

        let compressed = raw[1] != 0;
        let created_at = read_i64_le(
            raw[2],
            raw[3],
            raw[4],
            raw[5],
            raw[6],
            raw[7],
            raw[8],
            raw[9],
        );
        let updated_at = read_i64_le(
            raw[10],
            raw[11],
            raw[12],
            raw[13],
            raw[14],
            raw[15],
            raw[16],
            raw[17],
        );
        let mime_len = if raw[18] as usize <= META_MAX_MIME_LEN {
            raw[18] as usize
        } else {
            META_MAX_MIME_LEN
        };
        if raw.len() < 19 + mime_len {
            return None;
        }

        let n = raw.len();
        let mut mime_bytes: Vec<u8> = Vec::new();
        let mut i: usize = 0;
        while i < mime_len
            invariant
                i <= mime_len,
                19 + mime_len <= n,
                n == raw@.len(),
                mime_bytes@ =~= raw@.subrange(19, 19 + i),
            decreases mime_len - i,
        {
            mime_bytes.push(raw[19 + i]);
            i = i + 1;
        }
        assert(mime_bytes@ =~= raw@.subrange(19, 19 + mime_len));

        let mime_type = string_from_utf8_lossy(mime_bytes.as_slice());

        Some(FileMeta { mime_type, compressed, created_at, updated_at })
    }

    /// Decodes a metadata attribute blob, accepting only MIME bytes that
    /// are valid UTF-8 — the form every blob the store itself writes has.
    /// The store image reader uses this and falls back to defaults when it
    /// returns nothing.
    pub fn decode_exact(raw: &[u8]) -> (r: Option<FileMeta>)
        ensures
            match r {
                Some(m) => match spec_meta_decode(raw@) {
                    Some(model) => valid_utf8(model.mime) && m@ == model,
                    None => false,
                },
                None => match spec_meta_decode(raw@) {
                    Some(model) => !valid_utf8(model.mime),
                    None => true,
                },
            },
    {
        if raw.len() < 19 {
            return None;
        }
        if raw[0] != ATTR_META_VERSION {
            return None;
        }

        let compressed = raw[1] != 0;
        let created_at = read_i64_le(
            raw[2],
            raw[3],
            raw[4],
            raw[5],
            raw[6],
            raw[7],
            raw[8],
            raw[9],
        );
        let updated_at = read_i64_le(
            raw[10],
            raw[11],
            raw[12],
            raw[13],
            raw[14],
            raw[15],
            raw[16],
            raw[17],
        );
        let mime_len = if raw[18] as usize <= META_MAX_MIME_LEN {
            raw[18] as usize
        } else {
            META_MAX_MIME_LEN
        };
        if raw.len() < 19 + mime_len {
            return None;
        }

        let n = raw.len();
        let mut mime_bytes: Vec<u8> = Vec::new();
        let mut i: usize = 0;
        while i < mime_len
            invariant
                i <= mime_len,
                19 + mime_len <= n,
                n == raw@.len(),
                mime_bytes@ =~= raw@.subrange(19, 19 + i),
            decreases mime_len - i,
        {
            mime_bytes.push(raw[19 + i]);
            i = i + 1;
        }
        assert(mime_bytes@ =~= raw@.subrange(19, 19 + mime_len));

        let ghost mime_model = mime_bytes@;
        let mime_type = match string_from_utf8(mime_bytes.as_slice()) {
            Some(s) => s,
            None => {
                return None;
            },
        };
        proof {
            vstd::utf8::decode_utf8_encode_utf8(mime_model);
        }

        Some(FileMeta { mime_type, compressed, created_at, updated_at })
    }
}

} // verus!

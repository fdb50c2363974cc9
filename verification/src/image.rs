//! On-device image of the tiny file store.
//!
//! The image is a header — a four-byte tag and the entry count — followed by
//! the entries in strictly increasing name order. Each entry carries its
//! name, its metadata attribute blob and its content bytes, every field
//! length-prefixed so that the image is a self-delimiting prefix of the
//! device: whatever lies beyond it is ignored. Decoding accepts exactly the
//! well-formed images, so a successfully decoded table is always sorted,
//! duplicate-free and within every field bound.

use vstd::prelude::*;
use vstd::utf8::{decode_utf8, encode_utf8, valid_utf8};

use crate::codec::{push_u32_le, read_u32_le, u32_from_le_bytes, u32_le_bytes};
use crate::meta::{
    default_meta_model, lemma_default_mime_facts, lemma_meta_roundtrip, spec_meta_decode,
    spec_meta_encode, FileMeta, MetaModel, META_MAX_MIME_LEN,
};
use crate::order::{bytes_lt, lemma_lex_trans, lex_lt};

verus! {

/// Longest file name stored, in bytes.
pub const MAX_NAME_LEN: usize = 64;

/// The path separator byte, forbidden in names.
pub const SLASH_BYTE: u8 = 0x2F;

/// First tag byte of a formatted image.
pub const MAGIC_0: u8 = 0x4D;

/// Second tag byte of a formatted image.
pub const MAGIC_1: u8 = 0x52;

/// Third tag byte of a formatted image.
pub const MAGIC_2: u8 = 0x46;

/// Fourth tag byte of a formatted image.
pub const MAGIC_3: u8 = 0x53;

/// Mathematical model of one stored file: its name bytes, its metadata and
/// its content bytes.
pub struct EntryModel {
    /// File name bytes (UTF-8).
    pub name: Seq<u8>,
    /// The file's metadata attribute.
    pub meta: MetaModel,
    /// The file's content.
    pub data: Seq<u8>,
}

/// A name the store accepts: one to [`MAX_NAME_LEN`] bytes, no path
/// separator.
pub open spec fn valid_name_bytes(name: Seq<u8>) -> bool {
    &&& 1 <= name.len() <= MAX_NAME_LEN
    &&& forall|i: int| 0 <= i < name.len() ==> name[i] != SLASH_BYTE
}

/// A well-formed stored entry: a valid UTF-8 name the store accepts, MIME
/// bytes within bound and valid UTF-8, and content that fits the length
/// field.
pub open spec fn wf_entry(e: EntryModel) -> bool {
    &&& valid_name_bytes(e.name)
    &&& valid_utf8(e.name)
    &&& e.meta.mime.len() <= META_MAX_MIME_LEN
    &&& valid_utf8(e.meta.mime)
    &&& e.data.len() <= u32::MAX
}

/// Adjacent names strictly increase: the table is sorted and duplicate-free.
pub open spec fn sorted_entries(es: Seq<EntryModel>) -> bool {
    forall|i: int| 0 <= i && i + 1 < es.len() ==> lex_lt(es[i].name, #[trigger] es[i + 1].name)
}

/// A well-formed file table.
pub open spec fn wf_entries(es: Seq<EntryModel>) -> bool {
    &&& forall|i: int| 0 <= i < es.len() ==> wf_entry(#[trigger] es[i])
    &&& sorted_entries(es)
}

/// In a sorted table every earlier name comes before every later one.
pub proof fn lemma_sorted_pairwise(es: Seq<EntryModel>, i: int, j: int)
    requires
        sorted_entries(es),
        0 <= i < j < es.len(),
    ensures
        lex_lt(es[i].name, es[j].name),
    decreases j - i,
{
    if i + 1 == j {
    } else {
        lemma_sorted_pairwise(es, i + 1, j);
        lemma_lex_trans(es[i].name, es[i + 1].name, es[j].name);
    }
}

/// The four-byte tag that opens a formatted image.
pub open spec fn spec_magic() -> Seq<u8> {
    seq![MAGIC_0, MAGIC_1, MAGIC_2, MAGIC_3]
}

/// The metadata an entry reader settles on: the decoded blob when it parses
/// and carries valid UTF-8 MIME bytes, the defaults otherwise — corrupt
/// metadata degrades, it does not fail the read.
pub open spec fn sanitize_meta(m: Option<MetaModel>) -> MetaModel {
    match m {
        Some(meta) => if valid_utf8(meta.mime) {
            meta
        } else {
            default_meta_model()
        },
        None => default_meta_model(),
    }
}

/// The encoded form of one entry: length-prefixed name, length-prefixed
/// metadata blob, then the content behind a four-byte length.
pub open spec fn spec_entry_encode(e: EntryModel) -> Seq<u8> {
    seq![e.name.len() as u8] + e.name + seq![spec_meta_encode(e.meta).len() as u8]
        + spec_meta_encode(e.meta) + u32_le_bytes(e.data.len() as u32) + e.data
}

/// Parses one entry from the front of `b`: the entry and the number of
/// bytes it occupies, or nothing if no well-formed entry starts here.
pub open spec fn spec_entry_decode(b: Seq<u8>) -> Option<(EntryModel, int)> {
    if b.len() < 1 {
        None
    } else {
        let name_len = b[0] as int;
        if !(1 <= name_len <= MAX_NAME_LEN) {
            None
        } else if b.len() < name_len + 2 {
            None
        } else {
            let name = b.subrange(1, 1 + name_len);
            if !valid_name_bytes(name) || !valid_utf8(name) {
                None
            } else {
                let meta_len = b[1 + name_len] as int;
                if b.len() < name_len + 2 + meta_len + 4 {
                    None
                } else {
                    let meta_blob = b.subrange(2 + name_len, 2 + name_len + meta_len);
                    let meta = sanitize_meta(spec_meta_decode(meta_blob));
                    let dl_off = 2 + name_len + meta_len;
                    let data_len = u32_from_le_bytes(
                        b[dl_off],
                        b[dl_off + 1],
                        b[dl_off + 2],
                        b[dl_off + 3],
                    ) as int;
                    if b.len() < dl_off + 4 + data_len {
                        None
                    } else {
                        Some(
                            (
                                EntryModel {
                                    name,
                                    meta,
                                    data: b.subrange(dl_off + 4, dl_off + 4 + data_len),
                                },
                                dl_off + 4 + data_len,
                            ),
                        )
                    }
                }
            }
        }
    }
}

/// Parses `count` entries from the front of `b`, ignoring what follows.
pub open spec fn spec_entries_decode(b: Seq<u8>, count: int) -> Option<Seq<EntryModel>>
    decreases count,
{
    if count <= 0 {
        Some(Seq::<EntryModel>::empty())
    } else {
        match spec_entry_decode(b) {
            None => None,
            Some((e, used)) => match spec_entries_decode(b.skip(used), count - 1) {
                None => None,
                Some(rest) => Some(seq![e] + rest),
            },
        }
    }
}

/// The encoded form of a file table: the entries in order.
pub open spec fn spec_entries_encode(es: Seq<EntryModel>) -> Seq<u8>
    decreases es.len(),
{
    if es.len() == 0 {
        Seq::<u8>::empty()
    } else {
        spec_entry_encode(es[0]) + spec_entries_encode(es.drop_first())
    }
}

/// The encoded form of the whole image: tag, entry count, entries.
pub open spec fn spec_store_encode(es: Seq<EntryModel>) -> Seq<u8> {
    spec_magic() + u32_le_bytes(es.len() as u32) + spec_entries_encode(es)
}

/// What a device image decodes to, if anything: the well-formed file table
/// whose encoding is a prefix of the image.
pub open spec fn spec_store_decode(b: Seq<u8>) -> Option<Seq<EntryModel>> {
    if b.len() < 8 {
        None
    } else if b.subrange(0, 4) != spec_magic() {
        None
    } else {
        let count = u32_from_le_bytes(b[4], b[5], b[6], b[7]) as int;
        match spec_entries_decode(b.skip(8), count) {
            None => None,
            Some(es) => if wf_entries(es) {
                Some(es)
            } else {
                None
            },
        }
    }
}

/// One stored file as the store manipulates it.
#[derive(Debug, Clone)]
pub struct StoreEntry {
    /// File name bytes (UTF-8).
    pub name: Vec<u8>,
    /// The file's metadata attribute.
    pub meta: FileMeta,
    /// The file's content.
    pub data: Vec<u8>,
}

impl View for StoreEntry {
    type V = EntryModel;

    open spec fn view(&self) -> EntryModel {
        EntryModel { name: self.name@, meta: self.meta@, data: self.data@ }
    }
}

/// The model of a file table held in memory.
pub open spec fn entries_model(es: Seq<StoreEntry>) -> Seq<EntryModel> {
    es.map_values(|e: StoreEntry| e@)
}

/// Appends the bytes of `src`.
pub fn push_bytes(out: &mut Vec<u8>, src: &Vec<u8>)
    ensures
        final(out)@ == old(out)@ + src@,
{
    let n = src.len();
    let mut i: usize = 0;
    while i < n
        invariant
            i <= n,
            n == src@.len(),
            out@ =~= old(out)@ + src@.take(i as int),
        decreases n - i,
    {
        out.push(src[i]);
        assert(src@.take(i + 1) =~= src@.take(i as int).push(src@[i as int]));
        i = i + 1;
    }
    assert(out@ =~= old(out)@ + src@);
}

/// Encodes one entry.
pub fn encode_entry(e: &StoreEntry) -> (r: Vec<u8>)
    requires
        e@.name.len() <= MAX_NAME_LEN,
        e@.data.len() <= u32::MAX,
    ensures
        r@ == spec_entry_encode(e@),
{
    let mut out: Vec<u8> = Vec::new();
    out.push(e.name.len() as u8);
    push_bytes(&mut out, &e.name);

    let meta_bytes = e.meta.encode();
    proof {
        lemma_meta_encode_len(e.meta@);
    }
    out.push(meta_bytes.len() as u8);
    push_bytes(&mut out, &meta_bytes);

    push_u32_le(&mut out, e.data.len() as u32);
    push_bytes(&mut out, &e.data);
    assert(out@ =~= spec_entry_encode(e@));
    out
}

/// The metadata blob is short: at most 19 bytes of fixed fields plus the
/// bounded MIME bytes.
pub proof fn lemma_meta_encode_len(m: MetaModel)
    ensures
        19 <= spec_meta_encode(m).len() <= 19 + META_MAX_MIME_LEN,
{
}

/// Each encoded entry is at least as long as its content plus its framing.
pub proof fn lemma_entry_encode_len(e: EntryModel)
    ensures
        spec_entry_encode(e).len() == 6 + e.name.len() + spec_meta_encode(e.meta).len()
            + e.data.len(),
{
}

/// Encoding distributes over appending one entry at the back.
pub proof fn lemma_entries_encode_push(es: Seq<EntryModel>, e: EntryModel)
    ensures
        spec_entries_encode(es.push(e)) == spec_entries_encode(es) + spec_entry_encode(e),
    decreases es.len(),
{
    if es.len() == 0 {
        let p = es.push(e);
        assert(p[0] == e);
        assert(p.drop_first().len() == 0);
        assert(spec_entries_encode(p.drop_first()) == Seq::<u8>::empty());
        assert(spec_entries_encode(p) =~= spec_entries_encode(es) + spec_entry_encode(e));
    } else {
        assert(es.push(e).drop_first() =~= es.drop_first().push(e));
        lemma_entries_encode_push(es.drop_first(), e);
        assert(es.push(e)[0] == es[0]);
        assert(spec_entries_encode(es.push(e)) == spec_entry_encode(es[0])
            + spec_entries_encode(es.drop_first().push(e)));
        assert(spec_entries_encode(es.push(e)) =~= spec_entries_encode(es)
            + spec_entry_encode(e));
    }
}

/// Encodes the whole image for a file table.
pub fn encode_store(entries: &Vec<StoreEntry>) -> (r: Vec<u8>)
    requires
        entries@.len() <= u32::MAX,
        forall|i: int|
            0 <= i < entries@.len() ==> (#[trigger] entries@[i])@.name.len() <= MAX_NAME_LEN
                && entries@[i]@.data.len() <= u32::MAX,
    ensures
        r@ == spec_store_encode(entries_model(entries@)),
{
    let mut out: Vec<u8> = Vec::new();
    out.push(MAGIC_0);
    out.push(MAGIC_1);
    out.push(MAGIC_2);
    out.push(MAGIC_3);
    assert(out@ =~= spec_magic());
    push_u32_le(&mut out, entries.len() as u32);

    let n = entries.len();
    let mut k: usize = 0;
    proof {
        assert(entries_model(entries@).take(0) =~= Seq::<EntryModel>::empty());
        assert(out@ =~= spec_magic() + u32_le_bytes(entries@.len() as u32) + spec_entries_encode(
            entries_model(entries@).take(0),
        ));
    }
    while k < n
        invariant
            k <= n,
            n == entries@.len(),
            n <= u32::MAX,
            forall|i: int|
                0 <= i < entries@.len() ==> (#[trigger] entries@[i])@.name.len() <= MAX_NAME_LEN
                    && entries@[i]@.data.len() <= u32::MAX,
            out@ =~= spec_magic() + u32_le_bytes(entries@.len() as u32) + spec_entries_encode(
                entries_model(entries@).take(k as int),
            ),
        decreases n - k,
    {
        let enc = encode_entry(&entries[k]);
        push_bytes(&mut out, &enc);
        proof {
            let models = entries_model(entries@);
            assert(models.take(k + 1) =~= models.take(k as int).push(models[k as int]));
            lemma_entries_encode_push(models.take(k as int), models[k as int]);
        }
        k = k + 1;
    }
    proof {
        assert(entries_model(entries@).take(n as int) =~= entries_model(entries@));
    }
    out
}

/// Copies `len` bytes starting at `start`.
fn copy_range(bytes: &Vec<u8>, start: usize, len: usize) -> (r: Vec<u8>)
    requires
        start + len <= bytes@.len(),
    ensures
        r@ == bytes@.subrange(start as int, start + len),
{
    let mut out: Vec<u8> = Vec::new();
    let n = bytes.len();
    let mut i: usize = 0;
    while i < len
        invariant
            i <= len,
            start + len <= n,
            n == bytes@.len(),
            out@ =~= bytes@.subrange(start as int, start + i),
        decreases len - i,
    {
        out.push(bytes[start + i]);
        i = i + 1;
    }
    assert(out@ =~= bytes@.subrange(start as int, start + len));
    out
}

/// Whether the name holds the forbidden path-separator byte.
fn has_slash(name: &Vec<u8>) -> (r: bool)
    ensures
        r == exists|i: int| 0 <= i < name@.len() && name@[i] == SLASH_BYTE,
{
    let n = name.len();
    let mut i: usize = 0;
    while i < n
        invariant
            i <= n,
            n == name@.len(),
            forall|j: int| 0 <= j < i ==> name@[j] != SLASH_BYTE,
        decreases n - i,
    {
        if name[i] == SLASH_BYTE {
            return true;
        }
        i = i + 1;
    }
    false
}

/// Parses one entry starting at `pos`, returning it together with the
/// position just past it — the exact executable counterpart of
/// [`spec_entry_decode`] on the bytes from `pos` on.
pub fn parse_entry(bytes: &Vec<u8>, pos: usize) -> (r: Option<(StoreEntry, usize)>)
    requires
        pos <= bytes@.len(),
    ensures
        match r {
            Some(p) => {
                &&& spec_entry_decode(bytes@.skip(pos as int)) == Some((p.0@, p.1 - pos))
                &&& pos < p.1 <= bytes@.len()
                &&& wf_entry(p.0@)
            },
            None => spec_entry_decode(bytes@.skip(pos as int)) is None,
        },
{
    let ghost s = bytes@.skip(pos as int);
    proof {
        assert forall|k: int| 0 <= k < s.len() implies s[k] == bytes@[pos + k] by {}
    }
    let n = bytes.len();
    let avail = n - pos;
    if avail < 1 {
        return None;
    }
    let name_len = bytes[pos] as usize;
    if name_len < 1 || name_len > MAX_NAME_LEN {
        return None;
    }
    if avail < name_len + 2 {
        return None;
    }
    let name = copy_range(bytes, pos + 1, name_len);
    assert(name@ =~= s.subrange(1, 1 + name_len));
    if has_slash(&name) {
        assert(!valid_name_bytes(s.subrange(1, 1 + name_len as int)));
        return None;
    }
    let name_string = crate::text::string_from_utf8(name.as_slice());
    if name_string.is_none() {
        return None;
    }

    let meta_len = bytes[pos + 1 + name_len] as usize;
    if avail < name_len + 2 + meta_len + 4 {
        return None;
    }
    let meta_blob = copy_range(bytes, pos + 2 + name_len, meta_len);
    assert(meta_blob@ =~= s.subrange(2 + name_len, 2 + name_len + meta_len));
    let meta = match FileMeta::decode_exact(meta_blob.as_slice()) {
        Some(m) => m,
        None => FileMeta::default(),
    };
    proof {
        lemma_default_mime_facts();
        assert(meta@ == sanitize_meta(
            spec_meta_decode(s.subrange(2 + name_len, 2 + name_len + meta_len)),
        ));
    }

    let dl_off = pos + 2 + name_len + meta_len;
    let data_len = read_u32_le(
        bytes[dl_off],
        bytes[dl_off + 1],
        bytes[dl_off + 2],
        bytes[dl_off + 3],
    ) as usize;
    if avail - (name_len + 2 + meta_len + 4) < data_len {
        return None;
    }
    let data = copy_range(bytes, dl_off + 4, data_len);
    assert(data@ =~= s.subrange(
        2 + name_len + meta_len + 4,
        2 + name_len + meta_len + 4 + data_len,
    ));

    let end = dl_off + 4 + data_len;
    let entry = StoreEntry { name, meta, data };
    proof {
        assert(meta@.mime.len() <= META_MAX_MIME_LEN && valid_utf8(meta@.mime));
        assert(wf_entry(entry@));
        assert(spec_entry_decode(s) == Some((entry@, end - pos)));
    }
    Some((entry, end))
}

/// Decodes a device image into its file table — the exact executable
/// counterpart of [`spec_store_decode`].
#[verifier::loop_isolation(false)]
pub fn decode_store(bytes: &Vec<u8>) -> (r: Option<Vec<StoreEntry>>)
    ensures
        match r {
            Some(es) => spec_store_decode(bytes@) == Some(entries_model(es@)) && wf_entries(
                entries_model(es@),
            ),
            None => spec_store_decode(bytes@) is None,
        },
{
    if bytes.len() < 8 {
        return None;
    }
    if bytes[0] != MAGIC_0 || bytes[1] != MAGIC_1 || bytes[2] != MAGIC_2 || bytes[3] != MAGIC_3 {
        assert(bytes@.subrange(0, 4) != spec_magic());
        return None;
    }
    assert(bytes@.subrange(0, 4) =~= spec_magic());
    let count = read_u32_le(bytes[4], bytes[5], bytes[6], bytes[7]);

    let mut entries: Vec<StoreEntry> = Vec::new();
    let mut pos: usize = 8;
    let mut k: u32 = 0;
    proof {
        assert(bytes@.skip(8).skip(0) =~= bytes@.skip(8));
    }
    while k < count
        invariant
            k <= count,
            8 <= pos <= bytes@.len(),
            entries@.len() == k,
            wf_entries(entries_model(entries@)),
            spec_entries_decode(bytes@.skip(8), count as int) == (match spec_entries_decode(
                bytes@.skip(pos as int),
                count - k,
            ) {
                Some(rest) => Some(entries_model(entries@) + rest),
                None => None::<Seq<EntryModel>>,
            }),
        decreases count - k,
    {
        let parsed = match parse_entry(bytes, pos) {
            Some(p) => p,
            None => {
                return None;
            },
        };
        let entry = parsed.0;
        let end = parsed.1;
        proof {
            assert(bytes@.skip(pos as int).skip((end - pos) as int) =~= bytes@.skip(end as int));
        }
        if entries.len() > 0 {
            let last = entries.len() - 1;
            if !bytes_lt(&entries[last].name, &entry.name) {
                proof {
                    lemma_decode_unsorted(
                        bytes@,
                        count as int,
                        entries_model(entries@),
                        entry@,
                        pos as int,
                        end as int,
                        k as int,
                    );
                }
                return None;
            }
        }
        proof {
            let models = entries_model(entries@);
            assert(entries_model(entries@.push(entry)) =~= models.push(entry@));
            assert forall|i: int|
                0 <= i < models.push(entry@).len() implies wf_entry(
                #[trigger] models.push(entry@)[i],
            ) by {}
            assert(sorted_entries(models.push(entry@))) by {
                let p = models.push(entry@);
                assert forall|i: int| 0 <= i && i + 1 < p.len() implies lex_lt(
                    p[i].name,
                    #[trigger] p[i + 1].name,
                ) by {
                    if i + 1 < models.len() {
                        assert(lex_lt(models[i].name, models[i + 1].name));
                    }
                }
            }
            assert(seq![entry@] + spec_entries_decode(
                bytes@.skip(end as int),
                count - k - 1,
            ).unwrap_or(Seq::<EntryModel>::empty()) == seq![entry@]
                + spec_entries_decode(bytes@.skip(end as int), count - k - 1).unwrap_or(
                Seq::<EntryModel>::empty(),
            ));
            if spec_entries_decode(bytes@.skip(end as int), count - k - 1) is Some {
                let rest = spec_entries_decode(bytes@.skip(end as int), count - k - 1).unwrap();
                assert(entries_model(entries@) + (seq![entry@] + rest) =~= entries_model(
                    entries@.push(entry),
                ) + rest);
            }
        }
        entries.push(entry);
        pos = end;
        k = k + 1;
    }
    proof {
        assert(spec_entries_decode(bytes@.skip(pos as int), 0) == Some(Seq::<EntryModel>::empty()));
        assert(entries_model(entries@) + Seq::<EntryModel>::empty() =~= entries_model(entries@));
    }
    Some(entries)
}

/// When the next parsed entry does not come after the previous one, the
/// full parse — if it parses at all — is unsorted, so the image decodes to
/// nothing.
proof fn lemma_decode_unsorted(
    bytes: Seq<u8>,
    count: int,
    models: Seq<EntryModel>,
    entry: EntryModel,
    pos: int,
    end: int,
    k: int,
)
    requires
        0 < k,
        models.len() == k,
        k < count,
        spec_entry_decode(bytes.skip(pos)) == Some((entry, end - pos)),
        bytes.skip(pos).skip(end - pos) == bytes.skip(end),
        spec_entries_decode(bytes.skip(8), count) == (match spec_entries_decode(
            bytes.skip(pos),
            count - k,
        ) {
            Some(rest) => Some(models + rest),
            None => None::<Seq<EntryModel>>,
        }),
        !lex_lt(models[k - 1].name, entry.name),
    ensures
        match spec_entries_decode(bytes.skip(8), count) {
            Some(es) => !sorted_entries(es),
            None => true,
        },
{
    if spec_entries_decode(bytes.skip(8), count) is Some {
        let tail = spec_entries_decode(bytes.skip(pos), count - k);
        assert(tail is Some);
        let rest2 = spec_entries_decode(bytes.skip(end), count - k - 1);
        assert(rest2 is Some);
        let es = spec_entries_decode(bytes.skip(8), count).unwrap();
        assert(es == models + (seq![entry] + rest2.unwrap()));
        assert(es[k - 1] == models[k - 1]);
        assert(es[k] == entry);
        assert(es[k - 1].name == models[k - 1].name);
        assert(es[k].name == entry.name);
        assert(0 <= k - 1 && (k - 1) + 1 < es.len());
        assert(!lex_lt(es[k - 1].name, es[(k - 1) + 1].name));
        assert(!sorted_entries(es));
    }
}

/// Decoding an encoded entry, with anything behind it, returns the entry
/// and its encoded length.
pub proof fn lemma_entry_roundtrip(e: EntryModel, rest: Seq<u8>)
    requires
        wf_entry(e),
    ensures
        spec_entry_decode(spec_entry_encode(e) + rest) == Some(
            (e, spec_entry_encode(e).len() as int),
        ),
{
    let enc = spec_entry_encode(e);
    let b = enc + rest;
    let name_len = e.name.len() as int;
    let meta = spec_meta_encode(e.meta);
    let meta_len = meta.len() as int;
    lemma_meta_roundtrip(e.meta);
    let dlen = e.data.len() as int;
    let dl_off = 2 + name_len + meta_len;

    assert(b[0] == name_len as u8);
    assert(b.subrange(1, 1 + name_len) =~= e.name);
    assert(b[1 + name_len] == meta_len as u8);
    assert(b.subrange(2 + name_len, 2 + name_len + meta_len) =~= meta);
    assert(sanitize_meta(spec_meta_decode(meta)) == e.meta);

    let dbytes = u32_le_bytes(e.data.len() as u32);
    assert(b[dl_off] == dbytes[0]);
    assert(b[dl_off + 1] == dbytes[1]);
    assert(b[dl_off + 2] == dbytes[2]);
    assert(b[dl_off + 3] == dbytes[3]);
    crate::codec::lemma_u32_le_roundtrip(e.data.len() as u32);
    assert(u32_from_le_bytes(b[dl_off], b[dl_off + 1], b[dl_off + 2], b[dl_off + 3]) as int
        == dlen);
    assert(b.subrange(dl_off + 4, dl_off + 4 + dlen) =~= e.data);
    assert(enc.len() == dl_off + 4 + dlen);

    let decoded = spec_entry_decode(b);
    assert(decoded is Some);
    assert(decoded.unwrap().0.name =~= e.name);
    assert(decoded.unwrap().0.data =~= e.data);
    assert(decoded.unwrap().0 == e);
    assert(decoded.unwrap().1 == enc.len() as int);
}

/// Decoding an encoded table, with anything behind it, returns the table.
#[verifier::rlimit(100)]
pub proof fn lemma_entries_roundtrip(es: Seq<EntryModel>, rest: Seq<u8>)
    requires
        forall|i: int| 0 <= i < es.len() ==> wf_entry(#[trigger] es[i]),
    ensures
        spec_entries_decode(spec_entries_encode(es) + rest, es.len() as int) == Some(es),
    decreases es.len(),
{
    if es.len() == 0 {
        assert(spec_entries_decode(spec_entries_encode(es) + rest, 0) == Some(
            Seq::<EntryModel>::empty(),
        ));
        assert(Seq::<EntryModel>::empty() =~= es);
    } else {
        let e0 = es[0];
        let tail = es.drop_first();
        let enc0 = spec_entry_encode(e0);
        let rest2 = spec_entries_encode(tail) + rest;
        let b = spec_entries_encode(es) + rest;
        assert(b == enc0 + rest2) by {
            assert(spec_entries_encode(es) == enc0 + spec_entries_encode(tail));
            assert(b =~= enc0 + rest2);
        }
        assert(spec_entry_decode(b) == Some((e0, enc0.len() as int))) by {
            lemma_entry_roundtrip(e0, rest2);
        }
        assert(b.skip(enc0.len() as int) == rest2) by {
            assert(b.skip(enc0.len() as int) =~= rest2);
        }
        assert forall|i: int| 0 <= i < tail.len() implies wf_entry(#[trigger] tail[i]) by {
            assert(tail[i] == es[i + 1]);
        }
        lemma_entries_roundtrip(tail, rest);
        assert(spec_entries_decode(b.skip(enc0.len() as int), tail.len() as int) == Some(tail));
        assert(seq![e0] + tail == es) by {
            assert(seq![e0] + tail =~= es);
        }
    }
}

/// Decoding an encoded image, with anything behind it on the device,
/// returns the file table that was encoded: the store's round trip.
#[verifier::rlimit(100)]
#[verifier::spinoff_prover]
pub proof fn lemma_store_roundtrip(es: Seq<EntryModel>, rest: Seq<u8>)
    requires
        wf_entries(es),
        es.len() <= u32::MAX,
    ensures
        spec_store_decode(spec_store_encode(es) + rest) == Some(es),
{
    let enc = spec_store_encode(es);
    let b = enc + rest;
    assert(b.len() >= 8);
    assert(b.subrange(0, 4) == spec_magic()) by {
        assert(b.subrange(0, 4) =~= spec_magic());
    }
    let cbytes = u32_le_bytes(es.len() as u32);
    assert(b[4] == cbytes[0]);
    assert(b[5] == cbytes[1]);
    assert(b[6] == cbytes[2]);
    assert(b[7] == cbytes[3]);
    crate::codec::lemma_u32_le_roundtrip(es.len() as u32);
    assert(u32_from_le_bytes(b[4], b[5], b[6], b[7]) as int == es.len() as int);
    assert(b.skip(8) == spec_entries_encode(es) + rest) by {
        assert(b.skip(8) =~= spec_entries_encode(es) + rest);
    }
    lemma_entries_roundtrip(es, rest);
}

/// Total content bytes held by a table's files.
pub open spec fn live_bytes(es: Seq<EntryModel>) -> int
    decreases es.len(),
{
    if es.len() == 0 {
        0
    } else {
        es[0].data.len() + live_bytes(es.drop_first())
    }
}

/// What decoding guarantees about sizes: the count is the table length,
/// each parsed entry occupies at least seven bytes of the image, and
/// re-encoding the table costs at most the bytes parsed plus a bounded
/// metadata blob per entry.
pub proof fn lemma_entries_decode_size(b: Seq<u8>, count: int)
    requires
        spec_entries_decode(b, count) is Some,
    ensures
        spec_entries_decode(b, count).unwrap().len() == if count <= 0 {
            0
        } else {
            count
        },
        count >= 0 ==> 7 * count <= b.len(),
        spec_entries_encode(spec_entries_decode(b, count).unwrap()).len() <= b.len() + 51
            * (if count <= 0 {
            0
        } else {
            count
        }),
    decreases count,
{
    if count <= 0 {
    } else {
        let (e, used) = spec_entry_decode(b).unwrap();
        let name_len = e.name.len() as int;
        let meta_len = b[1 + name_len] as int;
        let data_len = e.data.len() as int;
        assert(used == 2 + name_len + meta_len + 4 + data_len);
        assert(used <= b.len());
        lemma_entries_decode_size(b.skip(used), count - 1);
        let rest = spec_entries_decode(b.skip(used), count - 1).unwrap();
        let es = spec_entries_decode(b, count).unwrap();
        assert(es == seq![e] + rest);
        assert(es[0] == e);
        assert(es.drop_first() =~= rest);
        lemma_meta_encode_len(e.meta);
        assert(spec_entry_encode(e).len() <= used + 51);
        assert(spec_entries_encode(es) == spec_entry_encode(e) + spec_entries_encode(rest));
    }
}

/// The files' content bytes never exceed the bytes of the encoded table.
pub proof fn lemma_live_le_encoded(es: Seq<EntryModel>)
    ensures
        0 <= live_bytes(es) <= spec_entries_encode(es).len(),
    decreases es.len(),
{
    if es.len() == 0 {
    } else {
        lemma_live_le_encoded(es.drop_first());
    }
}

/// An encoded table is at least as long as any one of its encoded entries.
pub proof fn lemma_encode_ge_entry(es: Seq<EntryModel>, i: int)
    requires
        0 <= i < es.len(),
    ensures
        spec_entry_encode(es[i]).len() <= spec_entries_encode(es).len(),
    decreases es.len(),
{
    if i == 0 {
    } else {
        lemma_encode_ge_entry(es.drop_first(), i - 1);
        assert(es.drop_first()[i - 1] == es[i]);
    }
}

/// Content bytes of one more entry at the front.
pub proof fn lemma_live_take_step(es: Seq<EntryModel>, k: int)
    requires
        0 <= k < es.len(),
    ensures
        live_bytes(es.take(k + 1)) == live_bytes(es.take(k)) + es[k].data.len(),
    decreases k,
{
    if k == 0 {
        assert(es.take(1)[0] == es[0]);
        assert(es.take(1).drop_first().len() == 0);
        assert(es.take(0).len() == 0);
        assert(live_bytes(es.take(1).drop_first()) == 0);
        assert(live_bytes(es.take(0)) == 0);
        assert(live_bytes(es.take(1)) == es[0].data.len());
    } else {
        lemma_live_take_step(es.drop_first(), k - 1);
        assert(es.take(k + 1)[0] == es[0]);
        assert(es.take(k)[0] == es[0]);
        assert(es.take(k + 1).drop_first() =~= es.drop_first().take(k));
        assert(es.take(k).drop_first() =~= es.drop_first().take(k - 1));
        assert(es.drop_first()[k - 1] == es[k]);
    }
}

/// The whole table's content bytes, reached stepwise.
pub proof fn lemma_live_take_all(es: Seq<EntryModel>)
    ensures
        live_bytes(es.take(es.len() as int)) == live_bytes(es),
{
    assert(es.take(es.len() as int) =~= es);
}

} // verus!


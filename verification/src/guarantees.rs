//! Guarantees that span several layers of the stack, stated and proved
//! once: bounds safety, the write-then-read round trip of the file store,
//! and the persistence of a file's creation time across overwrites.

use vstd::prelude::*;
use vstd::utf8::valid_utf8;

use crate::backend::range_in_capacity;
use crate::driver::in_bounds;
use crate::fs::{new_entry_model, spec_write};
use crate::image::{valid_name_bytes, wf_entries, wf_entry, EntryModel};
use crate::io::{seek_valid, SeekFrom};
use crate::meta::META_MAX_MIME_LEN;
use crate::protocol::CAPACITY_BYTES;
use crate::table::{entry_of, has_name, lemma_insert_lookup, lemma_insert_wf};

verus! {

/// Bounds safety: an access whose end lies past the chip capacity is
/// rejected at every layer — by the driver's bounds check before any bus
/// transaction is planned, by the backend's range check before any
/// transfer, and at the cursor's seek boundary — and a seek to any target
/// past the capacity fails from every position.
pub proof fn lemma_bounds_safety(offset: u32, len: nat, target: u64)
    requires
        offset + len > CAPACITY_BYTES,
        target > CAPACITY_BYTES,
    ensures
        !in_bounds(offset, len),
        !range_in_capacity(offset, len, CAPACITY_BYTES),
        forall|position: u32| !seek_valid(position, SeekFrom::Start(target)),
{
}

/// Round trip of the file store: after writing a file, the table holds an
/// entry of that name whose content is exactly the written bytes — so
/// reading the file back returns them.
pub proof fn lemma_write_then_read(
    es: Seq<EntryModel>,
    nb: Seq<u8>,
    mb: Seq<u8>,
    compressed: bool,
    data: Seq<u8>,
    now: i64,
)
    requires
        wf_entries(es),
        valid_name_bytes(nb),
        valid_utf8(nb),
        mb.len() <= META_MAX_MIME_LEN,
        valid_utf8(mb),
        data.len() <= u32::MAX,
    ensures
        ({
            let es1 = spec_write(es, nb, mb, compressed, data, now);
            &&& wf_entries(es1)
            &&& has_name(es1, nb)
            &&& entry_of(es1, nb).data == data
            &&& entry_of(es1, nb).meta.updated_at == now
        }),
{
    let e = new_entry_model(es, nb, mb, compressed, data, now);
    lemma_insert_wf(es, e);
    lemma_insert_lookup(es, e, nb);
}

/// Metadata persistence on overwrite: writing a file again, whatever its
/// new type, flag, content or time, keeps the creation time the first write
/// fixed, while the update time and the content follow the latest write.
pub proof fn lemma_created_at_preserved(
    es: Seq<EntryModel>,
    nb: Seq<u8>,
    mb1: Seq<u8>,
    compressed1: bool,
    data1: Seq<u8>,
    t1: i64,
    mb2: Seq<u8>,
    compressed2: bool,
    data2: Seq<u8>,
    t2: i64,
)
    requires
        wf_entries(es),
        valid_name_bytes(nb),
        valid_utf8(nb),
        mb1.len() <= META_MAX_MIME_LEN,
        valid_utf8(mb1),
        mb2.len() <= META_MAX_MIME_LEN,
        valid_utf8(mb2),
        data1.len() <= u32::MAX,
        data2.len() <= u32::MAX,
    ensures
        ({
            let es1 = spec_write(es, nb, mb1, compressed1, data1, t1);
            let es2 = spec_write(es1, nb, mb2, compressed2, data2, t2);
            &&& has_name(es2, nb)
            &&& entry_of(es2, nb).meta.created_at == entry_of(es1, nb).meta.created_at
            &&& entry_of(es2, nb).meta.updated_at == t2
            &&& entry_of(es2, nb).data == data2
            &&& (!has_name(es, nb) ==> entry_of(es1, nb).meta.created_at == t1)
        }),
{
    let e1 = new_entry_model(es, nb, mb1, compressed1, data1, t1);
    lemma_insert_wf(es, e1);
    lemma_insert_lookup(es, e1, nb);
    let es1 = spec_write(es, nb, mb1, compressed1, data1, t1);
    let e2 = new_entry_model(es1, nb, mb2, compressed2, data2, t2);
    lemma_insert_wf(es1, e2);
    lemma_insert_lookup(es1, e2, nb);
}

} // verus!

//! Byte-storage backend abstraction.
//!
//! A backend exposes the chip as a flat array of bytes: a capacity, bounded
//! reads and bounded writes. Implementations must reject — never silently
//! truncate — any access that would run past the capacity. The in-memory
//! backend below is verified against that contract and can be loaded from
//! and exported as a raw chip image, which is how the platform code backs
//! it with a host file or with the physical chip.

use vstd::prelude::*;

verus! {

/// Backend failure: an I/O error of the host, a configuration the backend
/// cannot be built from, a hardware-driver failure, or an out-of-bounds
/// access rejected before any transfer.
#[derive(Debug, Clone, PartialEq, Eq)]
pub enum BackendError {
    /// I/O failure reported by the host, rendered as text.
    Io(String),
    /// The backend was configured with invalid parameters.
    InvalidConfig(String),
    /// Failure reported by the memory-chip driver, rendered as text.
    Driver(String),
    /// The access would run past the backend capacity.
    OutOfBounds {
        /// Starting offset requested.
        offset: u32,
        /// Requested length in bytes.
        len: usize,
        /// Backend capacity in bytes.
        capacity: u32,
    },
}

impl BackendError {
    /// A short description of the failure.
    pub fn message(&self) -> String {
        match self {
            BackendError::Io(s) => {
                let mut m = String::new();
                m.append("I/O error: ");
                m.append(s.as_str());
                m
            },
            BackendError::InvalidConfig(s) => {
                let mut m = String::new();
                m.append("invalid backend config: ");
                m.append(s.as_str());
                m
            },
            BackendError::Driver(s) => {
                let mut m = String::new();
                m.append("MRAM driver error: ");
                m.append(s.as_str());
                m
            },
            BackendError::OutOfBounds { .. } => {
                let mut m = String::new();
                m.append("operation out of bounds");
                m
            },
        }
    }
}

/// A range of `len` bytes at `offset` fits a backend of the given capacity.
pub open spec fn range_in_capacity(offset: u32, len: nat, capacity: u32) -> bool {
    len <= u32::MAX && offset + len <= capacity
}

/// Rejects any access whose range does not fit the capacity, reporting the
/// offending offset, length and capacity. Shared by every backend.
pub fn check_range(offset: u32, len: usize, capacity: u32) -> (r: Result<(), BackendError>)
    ensures
        r.is_ok() <==> range_in_capacity(offset, len as nat, capacity),
        r.is_err() ==> r == Err::<(), BackendError>(
            BackendError::OutOfBounds { offset, len, capacity },
        ),
{
    if len > u32::MAX as usize {
        return Err(BackendError::OutOfBounds { offset, len, capacity });
    }
    let len_u32: u32 = len as u32;
    let end = match offset.checked_add(len_u32) {
        Some(end) => end,
        None => {
            return Err(BackendError::OutOfBounds { offset, len, capacity });
        },
    };
    if end > capacity {
        return Err(BackendError::OutOfBounds { offset, len, capacity });
    }
    Ok(())
}

/// Capacity plus bounded byte reads and writes over a non-volatile store.
///
/// The model of a backend is the byte string it currently holds. A read
/// never changes it; a successful write replaces exactly the addressed
/// range; an out-of-range access of either kind is rejected with the store
/// left unchanged. A failed in-range write may leave the store in an
/// unspecified state of the same size — recovery from such corruption
/// belongs to the file-store layer above.
pub trait ByteStorage: Sized {
    /// The bytes the backend currently holds.
    spec fn contents(&self) -> Seq<u8>;

    /// The capacity the backend reports.
    spec fn capacity_spec(&self) -> u32;

    /// The backend's internal invariant.
    spec fn inv(&self) -> bool;

    /// A well-formed backend holds exactly as many bytes as its capacity.
    proof fn contents_match_capacity(&self)
        requires
            self.inv(),
        ensures
            self.contents().len() == self.capacity_spec(),
    ;

    /// Reports the backend capacity in bytes.
    fn capacity(&self) -> (r: u32)
        ensures
            r == self.capacity_spec(),
    ;

    /// Reads `len` bytes starting at `offset`.
    fn read(&mut self, offset: u32, len: usize) -> (r: Result<Vec<u8>, BackendError>)
        requires
            old(self).inv(),
        ensures
            final(self).inv(),
            final(self).contents() == old(self).contents(),
            final(self).capacity_spec() == old(self).capacity_spec(),
            match r {
                Ok(data) => range_in_capacity(offset, len as nat, old(self).capacity_spec())
                    && data@ == old(self).contents().subrange(
                    offset as int,
                    offset + len,
                ),
                Err(_) => true,
            },
            !range_in_capacity(offset, len as nat, old(self).capacity_spec()) ==> r
                == Err::<Vec<u8>, BackendError>(
                BackendError::OutOfBounds {
                    offset,
                    len,
                    capacity: old(self).capacity_spec(),
                },
            ),
    ;

    /// Writes `data` starting at `offset`.
    fn write(&mut self, offset: u32, data: &[u8]) -> (r: Result<(), BackendError>)
        requires
            old(self).inv(),
        ensures
            final(self).inv(),
            final(self).capacity_spec() == old(self).capacity_spec(),
            final(self).contents().len() == old(self).contents().len(),
            match r {
                Ok(_) => range_in_capacity(offset, data@.len(), old(self).capacity_spec())
                    && final(self).contents() == write_range(
                    old(self).contents(),
                    offset as int,
                    data@,
                ),
                Err(_) => true,
            },
            !range_in_capacity(offset, data@.len(), old(self).capacity_spec()) ==> r
                == Err::<(), BackendError>(
                BackendError::OutOfBounds {
                    offset,
                    len: data@.len() as usize,
                    capacity: old(self).capacity_spec(),
                },
            ) && final(self).contents() == old(self).contents(),
    ;
}

/// The byte string after overwriting `contents` with `data` at `offset`,
/// all other bytes unchanged.
pub open spec fn write_range(contents: Seq<u8>, offset: int, data: Seq<u8>) -> Seq<u8> {
    contents.subrange(0, offset) + data + contents.subrange(
        offset + data.len(),
        contents.len() as int,
    )
}

/// Writing bytes and then reading the same range returns exactly those
/// bytes: the round trip over any backend that meets the [`ByteStorage`]
/// contract.
pub proof fn lemma_write_read_roundtrip(contents: Seq<u8>, offset: int, data: Seq<u8>)
    requires
        0 <= offset,
        offset + data.len() <= contents.len(),
    ensures
        write_range(contents, offset, data).subrange(offset, offset + data.len()) == data,
        write_range(contents, offset, data).len() == contents.len(),
{
    assert(write_range(contents, offset, data).subrange(offset, offset + data.len()) =~= data);
}

/// Verified in-memory backend: the chip simulated as a byte vector. Used by
/// tests and by environments without the physical chip or a host file.
pub struct MemoryBackend {
    data: Vec<u8>,
}

impl MemoryBackend {
    /// Creates a backend of `capacity` bytes, each initially `0xFF` as on an
    /// unprogrammed chip. A zero capacity is rejected as misconfiguration.
    pub fn new(capacity: u32) -> (r: Result<Self, BackendError>)
        ensures
            match r {
                Ok(b) => capacity != 0 && b.inv() && b.capacity_spec() == capacity
                    && b.contents() == Seq::<u8>::new(capacity as nat, |i: int| 0xFFu8),
                Err(e) => capacity == 0 && matches!(e, BackendError::InvalidConfig(_)),
            },
    {
        if capacity == 0 {
            let mut m = String::new();
            m.append("capacity must be > 0");
            return Err(BackendError::InvalidConfig(m));
        }
        let mut data: Vec<u8> = Vec::new();
        let mut i: u32 = 0;
        while i < capacity
            invariant
                i <= capacity,
                data@ =~= Seq::<u8>::new(i as nat, |j: int| 0xFFu8),
            decreases capacity - i,
        {
            data.push(0xFF);
            i = i + 1;
        }
        assert(data@ =~= Seq::<u8>::new(capacity as nat, |i: int| 0xFFu8));
        Ok(MemoryBackend { data })
    }

    /// Creates a backend over an existing chip image, for example one read
    /// back from a host file or from the physical chip. An empty image, or
    /// one too large to address, is rejected as misconfiguration.
    pub fn from_contents(data: Vec<u8>) -> (r: Result<Self, BackendError>)
        ensures
            match r {
                Ok(b) => 0 < data@.len() <= u32::MAX && b.inv() && b.capacity_spec()
                    == data@.len() && b.contents() == data@,
                Err(e) => (data@.len() == 0 || data@.len() > u32::MAX) && matches!(
                    e,
                    BackendError::InvalidConfig(_),
                ),
            },
    {
        if data.len() == 0 || data.len() > u32::MAX as usize {
            let mut m = String::new();
            m.append("image must hold between 1 and 4294967295 bytes");
            return Err(BackendError::InvalidConfig(m));
        }
        Ok(MemoryBackend { data })
    }

    /// The bytes the backend currently holds, for persisting the image.
    pub fn contents_vec(&self) -> (r: &Vec<u8>)
        ensures
            r@ == self.contents(),
    {
        &self.data
    }
}

impl ByteStorage for MemoryBackend {
    closed spec fn contents(&self) -> Seq<u8> {
        self.data@
    }

    closed spec fn capacity_spec(&self) -> u32 {
        self.data@.len() as u32
    }

    closed spec fn inv(&self) -> bool {
        self.data@.len() <= u32::MAX
    }

    proof fn contents_match_capacity(&self) {
    }

    fn capacity(&self) -> (r: u32) {
        self.data.len() as u32
    }

    fn read(&mut self, offset: u32, len: usize) -> (r: Result<Vec<u8>, BackendError>) {
        let capacity = self.data.len() as u32;
        check_range(offset, len, capacity)?;
        let mut out: Vec<u8> = Vec::new();
        let start = offset as usize;
        let n = self.data.len();
        let mut i: usize = 0;
        while i < len
            invariant
                i <= len,
                start + len <= n,
                n == self.data@.len(),
                out@ =~= self.data@.subrange(start as int, start + i),
                self == old(self),
            decreases len - i,
        {
            out.push(self.data[start + i]);
            i = i + 1;
        }
        assert(out@ =~= self.data@.subrange(offset as int, offset + len));
        Ok(out)
    }

    fn write(&mut self, offset: u32, data: &[u8]) -> (r: Result<(), BackendError>) {
        let capacity = self.data.len() as u32;
        check_range(offset, data.len(), capacity)?;
        let start = offset as usize;
        let n = self.data.len();
        let mut i: usize = 0;
        while i < data.len()
            invariant
                i <= data@.len(),
                start + data@.len() <= n,
                n == self.data@.len(),
                self.data@.len() == old(self).data@.len(),
                self.data@ =~= old(self).data@.subrange(0, start as int) + data@.subrange(
                    0,
                    i as int,
                ) + old(self).data@.subrange(start + i, old(self).data@.len() as int),
            decreases data@.len() - i,
        {
            let idx = start + i;
            self.data[idx] = data[i];
            i = i + 1;
        }
        assert(self.data@ =~= write_range(old(self).data@, offset as int, data@));
        Ok(())
    }
}

} // verus!

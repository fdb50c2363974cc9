//! Command driver for the MR2xH40 MRAM chip.
//!
//! Each chip operation is a short sequence of atomic bus transactions. The
//! functions here validate the request and produce that sequence as data,
//! together with the rules the chip requires: a write-enable transaction
//! before every modifying command, and a double read of the status register
//! (only the second value may be trusted). An unverified transport layer
//! executes the transactions and hands the bytes read back to
//! [`status_from_responses`] and friends.

use vstd::prelude::*;

use crate::error::Error;
use crate::protocol::{
    spec_command_address_header, command_address_header, CAPACITY_BYTES, CMD_RDSR, CMD_READ,
    CMD_SLEEP, CMD_WAKE, CMD_WRDI, CMD_WREN, CMD_WRITE, CMD_WRSR, STATUS_WEL,
};

verus! {

/// One operation within an atomic bus transaction: write these bytes to the
/// bus, or read this many bytes from it.
#[derive(Debug, Clone, PartialEq, Eq)]
pub enum BusOp {
    /// Write the given bytes.
    Write(Vec<u8>),
    /// Read the given number of bytes.
    Read(usize),
}

/// Mathematical model of a bus operation.
pub enum BusOpModel {
    /// Write these bytes.
    Write(Seq<u8>),
    /// Read this many bytes.
    Read(int),
}

impl View for BusOp {
    type V = BusOpModel;

    open spec fn view(&self) -> BusOpModel {
        match self {
            BusOp::Write(bytes) => BusOpModel::Write(bytes@),
            BusOp::Read(n) => BusOpModel::Read(*n as int),
        }
    }
}

/// One atomic bus transaction: the chip select is held over all its
/// operations.
#[derive(Debug, Clone, PartialEq, Eq)]
pub struct BusTransaction {
    /// The operations performed while the chip is selected.
    pub ops: Vec<BusOp>,
}

impl View for BusTransaction {
    type V = Seq<BusOpModel>;

    open spec fn view(&self) -> Seq<BusOpModel> {
        self.ops@.map_values(|op: BusOp| op@)
    }
}

/// The model of a whole command plan: the transactions in issue order.
pub open spec fn plan_model(plan: Seq<BusTransaction>) -> Seq<Seq<BusOpModel>> {
    plan.map_values(|t: BusTransaction| t@)
}

/// A transaction carrying a single one-byte command.
pub open spec fn spec_simple_command_transaction(command: u8) -> Seq<BusOpModel> {
    seq![BusOpModel::Write(seq![command])]
}

/// The transaction of one status-register read: the RDSR opcode followed by
/// a one-byte read.
pub open spec fn spec_status_read_transaction() -> Seq<BusOpModel> {
    seq![BusOpModel::Write(seq![CMD_RDSR]), BusOpModel::Read(1)]
}

/// The transaction of a memory read: the READ header followed by the data
/// read.
pub open spec fn spec_read_transaction(offset: u32, len: int) -> Seq<BusOpModel> {
    seq![
        BusOpModel::Write(spec_command_address_header(CMD_READ, offset)),
        BusOpModel::Read(len),
    ]
}

/// The transaction of a memory write: the WRITE header followed by the
/// payload bytes.
pub open spec fn spec_write_transaction(offset: u32, data: Seq<u8>) -> Seq<BusOpModel> {
    seq![
        BusOpModel::Write(spec_command_address_header(CMD_WRITE, offset)),
        BusOpModel::Write(data),
    ]
}

/// The transaction of a status-register write: the WRSR opcode and the new
/// status byte in one bus write.
pub open spec fn spec_write_status_transaction(status: u8) -> Seq<BusOpModel> {
    seq![BusOpModel::Write(seq![CMD_WRSR, status])]
}

/// An access of `len` bytes at `offset` lies within the chip. A zero-length
/// access is valid anywhere up to and including the capacity.
pub open spec fn in_bounds(offset: u32, len: nat) -> bool {
    if len == 0 {
        offset <= CAPACITY_BYTES
    } else {
        len <= u32::MAX && offset + len <= CAPACITY_BYTES
    }
}

/// Rejects any access whose range does not lie within the chip capacity,
/// reporting the offending offset, length and capacity.
pub fn ensure_in_bounds<E>(offset: u32, len: usize) -> (r: Result<(), Error<E>>)
    ensures
        r.is_ok() <==> in_bounds(offset, len as nat),
        r.is_err() ==> r == Err::<(), Error<E>>(
            Error::OutOfBounds { offset, len, capacity: CAPACITY_BYTES },
        ),
{
    if len == 0 {
        if offset <= CAPACITY_BYTES {
            return Ok(());
        }
        return Err(Error::out_of_bounds(offset, len, CAPACITY_BYTES));
    }

    if len > u32::MAX as usize {
        return Err(Error::out_of_bounds(offset, len, CAPACITY_BYTES));
    }
    let len_u32: u32 = len as u32;
    let end = match offset.checked_add(len_u32) {
        Some(end) => end,
        None => {
            return Err(Error::out_of_bounds(offset, len, CAPACITY_BYTES));
        },
    };

    if end > CAPACITY_BYTES {
        return Err(Error::out_of_bounds(offset, len, CAPACITY_BYTES));
    }

    Ok(())
}

/// Builds the single transaction carrying a one-byte command (write-enable,
/// write-disable, sleep, wake).
pub fn simple_command_transactions(command: u8) -> (plan: Vec<BusTransaction>)
    ensures
        plan_model(plan@) =~= seq![spec_simple_command_transaction(command)],
{
    let mut ops: Vec<BusOp> = Vec::new();
    let mut payload: Vec<u8> = Vec::new();
    payload.push(command);
    assert(payload@ =~= seq![command]);
    ops.push(BusOp::Write(payload));
    let txn = BusTransaction { ops };
    assert(txn@ =~= spec_simple_command_transaction(command));
    let mut plan: Vec<BusTransaction> = Vec::new();
    plan.push(txn);
    plan
}

/// Plans a read of `len` bytes from `offset`.
///
/// The bounds check happens before any transaction is planned; an empty
/// request produces no bus traffic at all. A valid non-empty request is one
/// read-header-plus-data transaction.
pub fn read_transactions<E>(offset: u32, len: usize) -> (r: Result<
    Vec<BusTransaction>,
    Error<E>,
>)
    ensures
        match r {
            Ok(plan) => in_bounds(offset, len as nat) && plan_model(plan@) == if len == 0 {
                Seq::<Seq<BusOpModel>>::empty()
            } else {
                seq![spec_read_transaction(offset, len as int)]
            },
            Err(e) => !in_bounds(offset, len as nat) && e == (Error::<E>::OutOfBounds {
                offset,
                len,
                capacity: CAPACITY_BYTES,
            }),
        },
{
    ensure_in_bounds::<E>(offset, len)?;
    let mut plan: Vec<BusTransaction> = Vec::new();
    if len == 0 {
        assert(plan_model(plan@) =~= Seq::<Seq<BusOpModel>>::empty());
        return Ok(plan);
    }

    let header = command_address_header(CMD_READ, offset);
    let mut header_bytes: Vec<u8> = Vec::new();
    header_bytes.push(header[0]);
    header_bytes.push(header[1]);
    header_bytes.push(header[2]);
    header_bytes.push(header[3]);
    assert(header_bytes@ =~= spec_command_address_header(CMD_READ, offset));

    let mut ops: Vec<BusOp> = Vec::new();
    ops.push(BusOp::Write(header_bytes));
    ops.push(BusOp::Read(len));
    let txn = BusTransaction { ops };
    assert(txn@ =~= spec_read_transaction(offset, len as int));
    plan.push(txn);
    assert(plan_model(plan@) =~= seq![spec_read_transaction(offset, len as int)]);
    Ok(plan)
}

/// Plans a write of `data` at `offset`.
///
/// The write-enable latch self-clears after every modifying command, so every
/// planned write is preceded by exactly one write-enable transaction. The
/// bounds check happens before any transaction is planned, and an empty write
/// produces no bus traffic.
pub fn write_transactions<E>(offset: u32, data: &[u8]) -> (r: Result<
    Vec<BusTransaction>,
    Error<E>,
>)
    ensures
        match r {
            Ok(plan) => in_bounds(offset, data@.len()) && plan_model(plan@)
                == if data@.len() == 0 {
                Seq::<Seq<BusOpModel>>::empty()
            } else {
                seq![
                    spec_simple_command_transaction(CMD_WREN),
                    spec_write_transaction(offset, data@),
                ]
            },
            Err(e) => !in_bounds(offset, data@.len()) && e == (Error::<E>::OutOfBounds {
                offset,
                len: data@.len() as usize,
                capacity: CAPACITY_BYTES,
            }),
        },
{
    ensure_in_bounds::<E>(offset, data.len())?;
    let mut plan: Vec<BusTransaction> = Vec::new();
    if data.len() == 0 {
        assert(plan_model(plan@) =~= Seq::<Seq<BusOpModel>>::empty());
        return Ok(plan);
    }

    let mut enable_payload: Vec<u8> = Vec::new();
    enable_payload.push(CMD_WREN);
    assert(enable_payload@ =~= seq![CMD_WREN]);
    let mut enable_ops: Vec<BusOp> = Vec::new();
    enable_ops.push(BusOp::Write(enable_payload));
    let enable_txn = BusTransaction { ops: enable_ops };
    assert(enable_txn@ =~= spec_simple_command_transaction(CMD_WREN));

    let header = command_address_header(CMD_WRITE, offset);
    let mut header_bytes: Vec<u8> = Vec::new();
    header_bytes.push(header[0]);
    header_bytes.push(header[1]);
    header_bytes.push(header[2]);
    header_bytes.push(header[3]);
    assert(header_bytes@ =~= spec_command_address_header(CMD_WRITE, offset));

    let mut payload: Vec<u8> = Vec::new();
    let mut i: usize = 0;
    while i < data.len()
        invariant
            i <= data@.len(),
            payload@ =~= data@.subrange(0, i as int),
        decreases data@.len() - i,
    {
        payload.push(data[i]);
        i = i + 1;
    }
    assert(payload@ =~= data@);

    let mut write_ops: Vec<BusOp> = Vec::new();
    write_ops.push(BusOp::Write(header_bytes));
    write_ops.push(BusOp::Write(payload));
    let write_txn = BusTransaction { ops: write_ops };
    assert(write_txn@ =~= spec_write_transaction(offset, data@));

    plan.push(enable_txn);
    plan.push(write_txn);
    assert(plan_model(plan@) =~= seq![
        spec_simple_command_transaction(CMD_WREN),
        spec_write_transaction(offset, data@),
    ]);
    Ok(plan)
}

/// Plans a status-register read.
///
/// A status read immediately after a memory read may return stale data on
/// the first attempt, so the plan always holds exactly two consecutive
/// status-read transactions; only the second byte read is valid.
pub fn status_read_transactions() -> (plan: Vec<BusTransaction>)
    ensures
        plan_model(plan@) =~= seq![
            spec_status_read_transaction(),
            spec_status_read_transaction(),
        ],
{
    let mut plan: Vec<BusTransaction> = Vec::new();
    plan.push(status_read_transaction_once());
    plan.push(status_read_transaction_once());
    plan
}

/// Builds one status-read transaction: the RDSR opcode then a one-byte read.
fn status_read_transaction_once() -> (txn: BusTransaction)
    ensures
        txn@ =~= spec_status_read_transaction(),
{
    let mut payload: Vec<u8> = Vec::new();
    payload.push(CMD_RDSR);
    assert(payload@ =~= seq![CMD_RDSR]);
    let mut ops: Vec<BusOp> = Vec::new();
    ops.push(BusOp::Write(payload));
    ops.push(BusOp::Read(1));
    let txn = BusTransaction { ops };
    assert(txn@ =~= spec_status_read_transaction());
    txn
}

/// Plans a status-register write: exactly one write-enable transaction
/// followed by the WRSR transaction.
pub fn write_status_transactions(status: u8) -> (plan: Vec<BusTransaction>)
    ensures
        plan_model(plan@) =~= seq![
            spec_simple_command_transaction(CMD_WREN),
            spec_write_status_transaction(status),
        ],
{
    let mut enable_payload: Vec<u8> = Vec::new();
    enable_payload.push(CMD_WREN);
    assert(enable_payload@ =~= seq![CMD_WREN]);
    let mut enable_ops: Vec<BusOp> = Vec::new();
    enable_ops.push(BusOp::Write(enable_payload));
    let enable_txn = BusTransaction { ops: enable_ops };
    assert(enable_txn@ =~= spec_simple_command_transaction(CMD_WREN));

    let mut payload: Vec<u8> = Vec::new();
    payload.push(CMD_WRSR);
    payload.push(status);
    assert(payload@ =~= seq![CMD_WRSR, status]);
    let mut ops: Vec<BusOp> = Vec::new();
    ops.push(BusOp::Write(payload));
    let txn = BusTransaction { ops };
    assert(txn@ =~= spec_write_status_transaction(status));
    let mut plan: Vec<BusTransaction> = Vec::new();
    plan.push(enable_txn);
    plan.push(txn);
    assert(plan_model(plan@) =~= seq![
        spec_simple_command_transaction(CMD_WREN),
        spec_write_status_transaction(status),
    ]);
    plan
}

/// The status value of a completed status-register read: the byte of the
/// second read, never the first.
pub fn status_from_responses(responses: &Vec<Vec<u8>>) -> (r: Option<u8>)
    ensures
        match r {
            Some(status) => responses@.len() == 2 && responses@[0].len() == 1
                && responses@[1].len() == 1 && status == responses@[1][0],
            None => !(responses@.len() == 2 && responses@[0].len() == 1
                && responses@[1].len() == 1),
        },
{
    if responses.len() != 2 {
        return None;
    }
    if responses[0].len() != 1 || responses[1].len() != 1 {
        return None;
    }
    Some(responses[1][0])
}

/// Whether a status byte has the write-enable latch bit set.
pub fn is_write_enabled_from_status(status: u8) -> (r: bool)
    ensures
        r == ((status & STATUS_WEL) != 0),
{
    (status & STATUS_WEL) != 0
}

/// Async driver handle for the Everspin MR2xH40 MRAM: owns the configured
/// serial bus device the transactions are executed on.
pub struct Mr2xH40<SPI> {
    spi: SPI,
}

impl<SPI> Mr2xH40<SPI> {
    /// The SPI device the driver owns.
    pub closed spec fn device(&self) -> SPI {
        self.spi
    }

    /// Creates a new driver from a configured SPI device.
    pub fn new(spi: SPI) -> (r: Self)
        ensures
            r.device() == spi,
    {
        Mr2xH40 { spi }
    }

    /// Returns ownership of the underlying SPI device.
    pub fn release(self) -> (r: SPI)
        ensures
            r == self.device(),
    {
        self.spi
    }

    /// Mutable access to the underlying SPI device.
    pub fn device_mut(&mut self) -> (r: &mut SPI)
        ensures
            *r == old(self).device(),
            final(self).device() == *final(r),
    {
        &mut self.spi
    }

    /// Returns memory capacity in bytes.
    pub fn capacity_bytes() -> (r: u32)
        ensures
            r == CAPACITY_BYTES,
    {
        CAPACITY_BYTES
    }
}

} // verus!

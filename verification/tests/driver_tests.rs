//! Tests of the command driver: the exact bus transactions each chip
//! operation issues, and the interpretation of what comes back.

use mram_service::driver::{
    is_write_enabled_from_status, read_transactions, simple_command_transactions,
    status_from_responses, status_read_transactions, write_status_transactions,
    write_transactions, BusOp, BusTransaction, Mr2xH40,
};
use mram_service::error::Error;
use mram_service::protocol::{
    command_address_header, CAPACITY_BYTES, CMD_RDSR, CMD_READ, CMD_SLEEP, CMD_WREN, CMD_WRITE,
    CMD_WRSR,
};

fn writes_of(plan: &[BusTransaction]) -> Vec<Vec<u8>> {
    let mut writes = Vec::new();
    for txn in plan {
        for op in &txn.ops {
            if let BusOp::Write(bytes) = op {
                writes.push(bytes.clone());
            }
        }
    }
    writes
}

#[test]
fn read_sends_read_header_and_returns_bytes() {
    let plan = read_transactions::<()>(0x1234, 3).unwrap();

    assert_eq!(plan.len(), 1);
    assert_eq!(writes_of(&plan), vec![vec![CMD_READ, 0x00, 0x12, 0x34]]);
    assert_eq!(plan[0].ops[1], BusOp::Read(3));
}

#[test]
fn write_sends_wren_then_write_header_and_payload() {
    let plan = write_transactions::<()>(0x0002, &[0x11, 0x22]).unwrap();

    assert_eq!(plan.len(), 2);
    assert_eq!(
        writes_of(&plan),
        vec![
            vec![CMD_WREN],
            vec![CMD_WRITE, 0x00, 0x00, 0x02],
            vec![0x11, 0x22]
        ]
    );
}

#[test]
fn read_out_of_bounds_is_rejected() {
    let error = read_transactions::<()>(CAPACITY_BYTES - 1, 2).unwrap_err();

    assert_eq!(
        error,
        Error::OutOfBounds {
            offset: CAPACITY_BYTES - 1,
            len: 2,
            capacity: CAPACITY_BYTES
        }
    );
}

#[test]
fn read_status_uses_command_then_read() {
    let plan = status_read_transactions();

    assert_eq!(plan.len(), 2);
    assert_eq!(writes_of(&plan), vec![vec![CMD_RDSR], vec![CMD_RDSR]]);
    assert_eq!(plan[0].ops[1], BusOp::Read(1));
    assert_eq!(plan[1].ops[1], BusOp::Read(1));

    let status = status_from_responses(&vec![vec![0b0000_0000], vec![0b0000_0010]]).unwrap();
    assert_eq!(status, 0b0000_0010);
}

#[test]
fn is_write_enabled_checks_wel_bit() {
    let status = status_from_responses(&vec![vec![0b0000_0000], vec![0b0000_0010]]).unwrap();
    assert!(is_write_enabled_from_status(status));
    assert!(!is_write_enabled_from_status(0b0000_0000));
}

#[test]
fn write_status_sends_wren_then_wrsr() {
    let plan = write_status_transactions(0b0000_0010);
    assert_eq!(
        writes_of(&plan),
        vec![vec![CMD_WREN], vec![CMD_WRSR, 0b0000_0010]]
    );
}

#[test]
fn empty_read_and_write_issue_no_transactions() {
    assert!(read_transactions::<()>(100, 0).unwrap().is_empty());
    assert!(write_transactions::<()>(100, &[]).unwrap().is_empty());
    assert!(read_transactions::<()>(CAPACITY_BYTES, 0).unwrap().is_empty());
    assert!(read_transactions::<()>(CAPACITY_BYTES + 1, 0).is_err());
}

#[test]
fn simple_commands_are_single_byte_transactions() {
    let plan = simple_command_transactions(CMD_SLEEP);
    assert_eq!(writes_of(&plan), vec![vec![CMD_SLEEP]]);
}

#[test]
fn header_packs_big_endian_address() {
    assert_eq!(
        command_address_header(CMD_READ, 0x0004_5623),
        [CMD_READ, 0x04, 0x56, 0x23]
    );
}

#[test]
fn driver_owns_its_device() {
    let driver = Mr2xH40::new(7u32);
    assert_eq!(Mr2xH40::<u32>::capacity_bytes(), CAPACITY_BYTES);
    assert_eq!(driver.release(), 7);
}

//! Tests of the `/proc/<pid>/stat` record parsing.

use mram_service::procstat::ProcStat;

fn proc_raw() -> Vec<u8> {
    b"12345 (bash) S 12344 12345 12345 34820 12345 4202496 17434 782422 62 28 15 16 103 60 \
      20 0 1 0 287033 56205312 10492 18446744073709551615 94073079275520 94073079994797 \
      140724981622432 0 0 0 65536 3670020 1266777851 0 0 0 17 2 0 0 2 0 0 94073080100768 \
      94073080116368 94073105047552 140724981633650 140724981633657 140724981633657 \
      140724981638583 0"
        .to_vec()
}

#[test]
fn procstat_parse() {
    let raw = proc_raw();
    let ps = ProcStat::parse(&raw[..]);

    assert!(ps.is_ok());
    assert_eq!(
        ps.unwrap(),
        ProcStat {
            pid: 12345,
            comm: "bash".to_owned(),
            state: 'S',
            ppid: 12344,
            pgrp: 12345,
            session: 12345,
            tty_nr: 34820,
            tpgid: 12345,
            flags: 4202496,
            minflt: 17434,
            cminflt: 782422,
            majflt: 62,
            cmajflt: 28,
            utime: 15,
            stime: 16,
            cutime: 103,
            cstime: 60,
            priority: 20,
            nice: 0,
            num_threads: 1,
            itrealvalue: 0,
            starttime: 287033,
            vsize: 56205312,
            rss: 10492,
            rsslim: 18446744073709551615,
            startcode: 94073079275520,
            endcode: 94073079994797,
            startstack: 140724981622432,
            kstkesp: 0,
            kstkeip: 0,
            signal: 0,
            blocked: 65536,
            sigignore: 3670020,
            sigcatch: 1266777851,
            wchan: 0,
            nswap: 0,
            cnswap: 0,
            exit_signal: 17,
            processor: 2,
            rt_priority: 0,
            policy: 0,
            delayacct_blkio_ticks: 2,
            guest_time: 0,
            cguest_time: 0,
            start_data: 94073080100768,
            end_data: 94073080116368,
            start_brk: 94073105047552,
            arg_start: 140724981633650,
            arg_end: 140724981633657,
            env_start: 140724981633657,
            env_end: 140724981638583,
            exit_code: 0,
        }
    );
}

#[test]
fn procstat_parse_comm_with_spaces() {
    let raw = b"717 (systemd journal (x)) S 1 717".to_vec();
    let ps = ProcStat::parse(&raw[..]).unwrap();
    assert_eq!(ps.pid, 717);
    assert_eq!(ps.comm, "systemd journal (x)");
    assert_eq!(ps.state(), 'S');
    assert_eq!(ps.parent_pid(), 1);
}

#[test]
fn procstat_parse_bad_format() {
    assert!(ProcStat::parse(&b"no parens here"[..]).is_err());
    assert!(ProcStat::parse(&b""[..]).is_err());
    assert!(ProcStat::parse(&b"abc (x) y"[..]).is_err());
}

#[test]
fn procstat_getters() {
    let raw = proc_raw();
    let ps = ProcStat::parse(&raw[..]).unwrap();
    assert_eq!(ps.state(), 'S');
    assert_eq!(ps.parent_pid(), 12344);
    assert_eq!(ps.mem_usage(), 56205312);
    assert_eq!(ps.rss(), 10492);
    assert_eq!(ps.num_threads(), 1);
}

//! Parsing of the Linux `/proc/<pid>/stat` record.
//!
//! The record is the process id as decimal digits, a space, the command name
//! in parentheses, a space, and the remaining fields separated by
//! whitespace. The command name may itself hold spaces and parentheses, so
//! it extends to the last closing parenthesis that is followed by a space
//! and at least one further byte. Numeric fields that are absent or fail to
//! parse fall back to zero, matching the tolerant field handling the record
//! has always had.

use vstd::prelude::*;
use vstd::utf8::{decode_utf8, valid_utf8};

use crate::sched::{all_digits, digits_value};
use crate::text::{lossy_of, string_from_utf8_lossy};

verus! {

/// Errors of the process-monitoring helpers.
#[derive(Debug)]
pub enum Error {
    /// Error when accessing files in the proc filesystem.
    ProcAccess(String),
    /// I/O error, rendered as text.
    Io(String),
    /// UTF-8 conversion error, rendered as text.
    Utf8(String),
    /// Format error.
    Format(String),
}

/// Stats provided by the Linux `/proc/<pid>/stat` file format.
#[derive(Clone, Debug, Default, PartialEq, Eq)]
pub struct ProcStat {
    /// Process id.
    pub pid: i32,
    /// Command name.
    pub comm: String,
    /// Process state character.
    pub state: char,
    /// Parent process id.
    pub ppid: i32,
    /// Process group id.
    pub pgrp: i32,
    /// Session id.
    pub session: i32,
    /// Controlling terminal.
    pub tty_nr: i32,
    /// Foreground process group id of the controlling terminal.
    pub tpgid: i32,
    /// Kernel flags word.
    pub flags: u32,
    /// Minor faults.
    pub minflt: u64,
    /// Minor faults of waited-for children.
    pub cminflt: u64,
    /// Major faults.
    pub majflt: u64,
    /// Major faults of waited-for children.
    pub cmajflt: u64,
    /// Time scheduled in user mode.
    pub utime: u64,
    /// Time scheduled in kernel mode.
    pub stime: u64,
    /// Children's time scheduled in user mode.
    pub cutime: i64,
    /// Children's time scheduled in kernel mode.
    pub cstime: i64,
    /// Priority.
    pub priority: i64,
    /// Nice value.
    pub nice: i64,
    /// Number of threads.
    pub num_threads: i64,
    /// Obsolete interval-timer field.
    pub itrealvalue: i64,
    /// Time the process started after boot.
    pub starttime: u64,
    /// Virtual memory size in bytes.
    pub vsize: u64,
    /// Resident set size in pages.
    pub rss: i64,
    /// Resident set size soft limit.
    pub rsslim: u64,
    /// Address above which program text can run.
    pub startcode: u64,
    /// Address below which program text can run.
    pub endcode: u64,
    /// Address of the start of the stack.
    pub startstack: u64,
    /// Current stack pointer.
    pub kstkesp: u64,
    /// Current instruction pointer.
    pub kstkeip: u64,
    /// Pending signals bitmap (obsolete).
    pub signal: u64,
    /// Blocked signals bitmap (obsolete).
    pub blocked: u64,
    /// Ignored signals bitmap (obsolete).
    pub sigignore: u64,
    /// Caught signals bitmap (obsolete).
    pub sigcatch: u64,
    /// Wait channel.
    pub wchan: u64,
    /// Pages swapped (not maintained).
    pub nswap: u64,
    /// Children's pages swapped (not maintained).
    pub cnswap: u64,
    /// Signal sent to the parent on death.
    pub exit_signal: i32,
    /// CPU number last executed on.
    pub processor: i32,
    /// Real-time scheduling priority.
    pub rt_priority: u32,
    /// Scheduling policy.
    pub policy: u32,
    /// Aggregated block I/O delay.
    pub delayacct_blkio_ticks: u64,
    /// Guest time.
    pub guest_time: u64,
    /// Children's guest time.
    pub cguest_time: i64,
    /// Address above which initialized and uninitialized data sit.
    pub start_data: u64,
    /// Address below which they sit.
    pub end_data: u64,
    /// Address above which the heap can expand.
    pub start_brk: u64,
    /// Address above which command-line arguments sit.
    pub arg_start: u64,
    /// Address below which they sit.
    pub arg_end: u64,
    /// Address above which the environment sits.
    pub env_start: u64,
    /// Address below which it sits.
    pub env_end: u64,
    /// Exit status as reported to the parent.
    pub exit_code: i32,
}

/// A whitespace byte, as the field separator understands it.
pub open spec fn is_ws(b: u8) -> bool {
    b == 0x20 || b == 0x09 || b == 0x0A || b == 0x0D || b == 0x0B || b == 0x0C
}

/// Index of the first opening parenthesis, or `-1` when there is none.
pub open spec fn first_lparen(s: Seq<u8>) -> int
    decreases s.len(),
{
    if s.len() == 0 {
        -1
    } else if s[0] == 0x28 {
        0
    } else {
        let t = first_lparen(s.drop_first());
        if t == -1 {
            -1
        } else {
            1 + t
        }
    }
}

/// The largest index at most `k` holding a closing parenthesis followed by
/// a space and at least one further byte, or `-1` when there is none.
pub open spec fn last_sep_at_most(s: Seq<u8>, k: int) -> int
    decreases k + 1,
{
    if k < 0 {
        -1
    } else if k + 2 < s.len() && s[k] == 0x29 && s[k + 1] == 0x20 {
        k
    } else {
        last_sep_at_most(s, k - 1)
    }
}

/// The record splits into process id, command name and the rest.
pub open spec fn grammar_ok(s: Seq<u8>) -> bool {
    let lp = first_lparen(s);
    let rp = last_sep_at_most(s, s.len() - 1);
    &&& lp >= 2
    &&& s[lp - 1] == 0x20
    &&& all_digits(s.take(lp - 1))
    &&& rp >= lp + 2
}

/// The signed value a decimal token stands for: an optional sign then at
/// least one digit.
pub open spec fn spec_signed_value(s: Seq<u8>) -> Option<int> {
    let body = if s.len() > 0 && (s[0] == 0x2D || s[0] == 0x2B) {
        s.drop_first()
    } else {
        s
    };
    let neg = s.len() > 0 && s[0] == 0x2D;
    if body.len() == 0 || !all_digits(body) {
        None
    } else if neg {
        Some(-digits_value(body))
    } else {
        Some(digits_value(body))
    }
}

/// The unsigned value a decimal token stands for: an optional plus sign
/// then at least one digit — a minus sign does not parse.
pub open spec fn spec_unsigned_value(s: Seq<u8>) -> Option<int> {
    if s.len() > 0 && s[0] == 0x2D {
        None
    } else {
        spec_signed_value(s)
    }
}

/// The token at an index, the empty token when the index is past the end —
/// a missing field parses like an empty one and falls back to the default.
pub open spec fn token_at(tokens: Seq<Seq<u8>>, k: int) -> Seq<u8> {
    if 0 <= k < tokens.len() {
        tokens[k]
    } else {
        Seq::<u8>::empty()
    }
}

/// A signed field's value within the given bounds, zero otherwise.
pub open spec fn signed_field(tokens: Seq<Seq<u8>>, k: int, lo: int, hi: int) -> int {
    match spec_signed_value(token_at(tokens, k)) {
        Some(v) => if lo <= v <= hi {
            v
        } else {
            0
        },
        None => 0,
    }
}

/// An unsigned field's value within the given bound, zero otherwise.
pub open spec fn unsigned_field(tokens: Seq<Seq<u8>>, k: int, hi: int) -> int {
    match spec_unsigned_value(token_at(tokens, k)) {
        Some(v) => if 0 <= v <= hi {
            v
        } else {
            0
        },
        None => 0,
    }
}

/// A state field's character: the token decoded as UTF-8 when it holds
/// exactly one character, the zero character otherwise.
pub open spec fn char_field(tokens: Seq<Seq<u8>>, k: int) -> char {
    let tok = token_at(tokens, k);
    if valid_utf8(tok) && decode_utf8(tok).len() == 1 {
        decode_utf8(tok)[0]
    } else {
        '\u{0}'
    }
}

/// Bytes of the leading whitespace-free run.
pub open spec fn token_len(s: Seq<u8>) -> int
    decreases s.len(),
{
    if s.len() == 0 {
        0
    } else if is_ws(s[0]) {
        0
    } else {
        1 + token_len(s.drop_first())
    }
}

/// The run is never longer than the string.
pub proof fn lemma_token_len_bound(s: Seq<u8>)
    ensures
        0 <= token_len(s) <= s.len(),
    decreases s.len(),
{
    if s.len() > 0 && !is_ws(s[0]) {
        lemma_token_len_bound(s.drop_first());
    }
}

/// The whitespace-separated tokens of a byte string, in order.
pub open spec fn spec_tokens(s: Seq<u8>) -> Seq<Seq<u8>>
    decreases s.len(),
    via spec_tokens_decreases
{
    if s.len() == 0 {
        Seq::<Seq<u8>>::empty()
    } else if is_ws(s[0]) {
        spec_tokens(s.drop_first())
    } else {
        let n = token_len(s);
        seq![s.take(n)] + spec_tokens(s.skip(n))
    }
}

#[via_fn]
proof fn spec_tokens_decreases(s: Seq<u8>) {
    lemma_token_len_bound(s);
    if s.len() > 0 && !is_ws(s[0]) {
        lemma_token_len_bound(s.drop_first());
        assert(token_len(s) == 1 + token_len(s.drop_first()));
    }
}

/// The field tokens of a record: the rest of the record, after the command
/// name's closing parenthesis and the following space, split on whitespace.
pub open spec fn spec_fields(s: Seq<u8>) -> Seq<Seq<u8>> {
    let rp = last_sep_at_most(s, s.len() - 1);
    spec_tokens(s.skip(rp + 2))
}

/// Every field of a parsed record, stated against the raw bytes.
pub open spec fn parse_matches(s: Seq<u8>, ps: ProcStat) -> bool {
    let lp = first_lparen(s);
    let rp = last_sep_at_most(s, s.len() - 1);
    let toks = spec_fields(s);
    &&& ps.pid == signed_field(seq![s.take(lp - 1)], 0, i32::MIN as int, i32::MAX as int)
    &&& ps.comm@ == lossy_of(s.subrange(lp + 1, rp))
    &&& ps.state == char_field(toks, 0)
    &&& ps.ppid == signed_field(toks, 1, i32::MIN as int, i32::MAX as int)
    &&& ps.pgrp == signed_field(toks, 2, i32::MIN as int, i32::MAX as int)
    &&& ps.session == signed_field(toks, 3, i32::MIN as int, i32::MAX as int)
    &&& ps.tty_nr == signed_field(toks, 4, i32::MIN as int, i32::MAX as int)
    &&& ps.tpgid == signed_field(toks, 5, i32::MIN as int, i32::MAX as int)
    &&& ps.flags == unsigned_field(toks, 6, u32::MAX as int)
    &&& ps.minflt == unsigned_field(toks, 7, u64::MAX as int)
    &&& ps.cminflt == unsigned_field(toks, 8, u64::MAX as int)
    &&& ps.majflt == unsigned_field(toks, 9, u64::MAX as int)
    &&& ps.cmajflt == unsigned_field(toks, 10, u64::MAX as int)
    &&& ps.utime == unsigned_field(toks, 11, u64::MAX as int)
    &&& ps.stime == unsigned_field(toks, 12, u64::MAX as int)
    &&& ps.cutime == signed_field(toks, 13, i64::MIN as int, i64::MAX as int)
    &&& ps.cstime == signed_field(toks, 14, i64::MIN as int, i64::MAX as int)
    &&& ps.priority == signed_field(toks, 15, i64::MIN as int, i64::MAX as int)
    &&& ps.nice == signed_field(toks, 16, i64::MIN as int, i64::MAX as int)
    &&& ps.num_threads == signed_field(toks, 17, i64::MIN as int, i64::MAX as int)
    &&& ps.itrealvalue == signed_field(toks, 18, i64::MIN as int, i64::MAX as int)
    &&& ps.starttime == unsigned_field(toks, 19, u64::MAX as int)
    &&& ps.vsize == unsigned_field(toks, 20, u64::MAX as int)
    &&& ps.rss == signed_field(toks, 21, i64::MIN as int, i64::MAX as int)
    &&& ps.rsslim == unsigned_field(toks, 22, u64::MAX as int)
    &&& ps.startcode == unsigned_field(toks, 23, u64::MAX as int)
    &&& ps.endcode == unsigned_field(toks, 24, u64::MAX as int)
    &&& ps.startstack == unsigned_field(toks, 25, u64::MAX as int)
    &&& ps.kstkesp == unsigned_field(toks, 26, u64::MAX as int)
    &&& ps.kstkeip == unsigned_field(toks, 27, u64::MAX as int)
    &&& ps.signal == unsigned_field(toks, 28, u64::MAX as int)
    &&& ps.blocked == unsigned_field(toks, 29, u64::MAX as int)
    &&& ps.sigignore == unsigned_field(toks, 30, u64::MAX as int)
    &&& ps.sigcatch == unsigned_field(toks, 31, u64::MAX as int)
    &&& ps.wchan == unsigned_field(toks, 32, u64::MAX as int)
    &&& ps.nswap == unsigned_field(toks, 33, u64::MAX as int)
    &&& ps.cnswap == unsigned_field(toks, 34, u64::MAX as int)
    &&& ps.exit_signal == signed_field(toks, 35, i32::MIN as int, i32::MAX as int)
    &&& ps.processor == signed_field(toks, 36, i32::MIN as int, i32::MAX as int)
    &&& ps.rt_priority == unsigned_field(toks, 37, u32::MAX as int)
    &&& ps.policy == unsigned_field(toks, 38, u32::MAX as int)
    &&& ps.delayacct_blkio_ticks == unsigned_field(toks, 39, u64::MAX as int)
    &&& ps.guest_time == unsigned_field(toks, 40, u64::MAX as int)
    &&& ps.cguest_time == signed_field(toks, 41, i64::MIN as int, i64::MAX as int)
    &&& ps.start_data == unsigned_field(toks, 42, u64::MAX as int)
    &&& ps.end_data == unsigned_field(toks, 43, u64::MAX as int)
    &&& ps.start_brk == unsigned_field(toks, 44, u64::MAX as int)
    &&& ps.arg_start == unsigned_field(toks, 45, u64::MAX as int)
    &&& ps.arg_end == unsigned_field(toks, 46, u64::MAX as int)
    &&& ps.env_start == unsigned_field(toks, 47, u64::MAX as int)
    &&& ps.env_end == unsigned_field(toks, 48, u64::MAX as int)
    &&& ps.exit_code == signed_field(toks, 49, i32::MIN as int, i32::MAX as int)
}

impl ProcStat {
    /// Parses the byte content of a `/proc/<pid>/stat` file.
    #[verifier::loop_isolation(false)]
    #[verifier::rlimit(100)]
    pub fn parse(stat: &[u8]) -> (r: Result<Self, Error>)
        ensures
            match r {
                Ok(ps) => grammar_ok(stat@) && parse_matches(stat@, ps),
                Err(e) => !grammar_ok(stat@) && e matches Error::Format(_),
            },
    {
        let bytes = vstd::slice::slice_to_vec(stat);
        let n = bytes.len();

        // The process id ends at the space before the first parenthesis.
        let mut lp: usize = 0;
        #[verifier::loop_isolation(true)]
        while lp < n
            invariant
                lp <= n,
                n == bytes@.len(),
                forall|j: int| 0 <= j < lp ==> bytes@[j] != 0x28,
            ensures
                lp <= n,
                forall|j: int| 0 <= j < lp ==> bytes@[j] != 0x28,
                lp < n ==> bytes@[lp as int] == 0x28,
            decreases n - lp,
        {
            if bytes[lp] == 0x28 {
                break;
            }
            lp = lp + 1;
        }
        proof {
            lemma_first_lparen(bytes@, lp as int);
        }
        if lp >= n || lp < 2 || bytes[lp - 1] != 0x20 {
            return Err(format_error());
        }
        let mut d: usize = 0;
        while d < lp - 1
            invariant
                d <= lp - 1 < bytes@.len(),
                forall|j: int| 0 <= j < d ==> 0x30 <= #[trigger] bytes@[j] <= 0x39,
            decreases lp - 1 - d,
        {
            if bytes[d] < 0x30 || bytes[d] > 0x39 {
                proof {
                    assert(bytes@.take(lp - 1)[d as int] == bytes@[d as int]);
                }
                return Err(format_error());
            }
            d = d + 1;
        }
        proof {
            assert forall|j: int| 0 <= j < bytes@.take(lp - 1).len() implies 0x30
                <= #[trigger] bytes@.take(lp - 1)[j] <= 0x39 by {
                assert(bytes@.take(lp - 1)[j] == bytes@[j]);
            }
        }
        // The command name ends at the last closing parenthesis that is
        // followed by a space and at least one further byte.
        let mut rp: usize = n;
        let mut found = false;
        let mut scan: usize = n;
        #[verifier::loop_isolation(true)]
        while scan > 0
            invariant_except_break
                !found,
                last_sep_at_most(bytes@, n - 1) == last_sep_at_most(bytes@, scan - 1),
            invariant
                scan <= n,
                n == bytes@.len(),
            ensures
                found ==> rp + 2 < n && last_sep_at_most(bytes@, n - 1) == rp,
                !found ==> last_sep_at_most(bytes@, n - 1) == -1,
            decreases scan,
        {
            let k = scan - 1;
            if n > 2 && k < n - 2 && bytes[k] == 0x29 && bytes[k + 1] == 0x20 {
                proof {
                    assert(last_sep_at_most(bytes@, k as int) == k as int);
                }
                rp = k;
                found = true;
                break;
            }
            proof {
                assert(last_sep_at_most(bytes@, k as int) == last_sep_at_most(
                    bytes@,
                    k - 1,
                ));
            }
            scan = k;
        }
        if !found {
            return Err(format_error());
        }
        if rp <= lp || rp - lp < 2 {
            return Err(format_error());
        }

        let comm_bytes = copy_bytes(&bytes, lp + 1, rp);
        let comm = string_from_utf8_lossy(comm_bytes.as_slice());

        let tokens = tokenize(&bytes, rp + 2);
        let ghost toks = spec_fields(bytes@);
        proof {
            assert(bytes@.skip(rp + 2) =~= bytes@.skip(
                last_sep_at_most(bytes@, bytes@.len() - 1) + 2,
            ));
        }

        let ghost pid_tokens = seq![bytes@.take(lp - 1)];
        let pid_digits = copy_bytes(&bytes, 0, lp - 1);
        let mut pid_vec: Vec<Vec<u8>> = Vec::new();
        pid_vec.push(pid_digits);
        proof {
            assert(pid_vec@.map_values(|t: Vec<u8>| t@) =~= pid_tokens);
            assert(token_at(pid_tokens, 0) == bytes@.take(lp - 1));
        }
        let pid = i32_field(&pid_vec, 0);

        let ps = ProcStat {
            pid,
            comm,
            state: char_field_exec(&tokens, 0),
            ppid: i32_field(&tokens, 1),
            pgrp: i32_field(&tokens, 2),
            session: i32_field(&tokens, 3),
            tty_nr: i32_field(&tokens, 4),
            tpgid: i32_field(&tokens, 5),
            flags: u32_field(&tokens, 6),
            minflt: u64_field(&tokens, 7),
            cminflt: u64_field(&tokens, 8),
            majflt: u64_field(&tokens, 9),
            cmajflt: u64_field(&tokens, 10),
            utime: u64_field(&tokens, 11),
            stime: u64_field(&tokens, 12),
            cutime: i64_field(&tokens, 13),
            cstime: i64_field(&tokens, 14),
            priority: i64_field(&tokens, 15),
            nice: i64_field(&tokens, 16),
            num_threads: i64_field(&tokens, 17),
            itrealvalue: i64_field(&tokens, 18),
            starttime: u64_field(&tokens, 19),
            vsize: u64_field(&tokens, 20),
            rss: i64_field(&tokens, 21),
            rsslim: u64_field(&tokens, 22),
            startcode: u64_field(&tokens, 23),
            endcode: u64_field(&tokens, 24),
            startstack: u64_field(&tokens, 25),
            kstkesp: u64_field(&tokens, 26),
            kstkeip: u64_field(&tokens, 27),
            signal: u64_field(&tokens, 28),
            blocked: u64_field(&tokens, 29),
            sigignore: u64_field(&tokens, 30),
            sigcatch: u64_field(&tokens, 31),
            wchan: u64_field(&tokens, 32),
            nswap: u64_field(&tokens, 33),
            cnswap: u64_field(&tokens, 34),
            exit_signal: i32_field(&tokens, 35),
            processor: i32_field(&tokens, 36),
            rt_priority: u32_field(&tokens, 37),
            policy: u32_field(&tokens, 38),
            delayacct_blkio_ticks: u64_field(&tokens, 39),
            guest_time: u64_field(&tokens, 40),
            cguest_time: i64_field(&tokens, 41),
            start_data: u64_field(&tokens, 42),
            end_data: u64_field(&tokens, 43),
            start_brk: u64_field(&tokens, 44),
            arg_start: u64_field(&tokens, 45),
            arg_end: u64_field(&tokens, 46),
            env_start: u64_field(&tokens, 47),
            env_end: u64_field(&tokens, 48),
            exit_code: i32_field(&tokens, 49),
        };
        Ok(ps)
    }

    /// The process state character.
    pub fn state(&self) -> (r: char)
        ensures
            r == self.state,
    {
        self.state
    }

    /// The process id of this process's parent.
    pub fn parent_pid(&self) -> (r: i32)
        ensures
            r == self.ppid,
    {
        self.ppid
    }

    /// Virtual memory size in bytes.
    pub fn mem_usage(&self) -> (r: u64)
        ensures
            r == self.vsize,
    {
        self.vsize
    }

    /// Resident set size: pages of the process in real memory, narrowed to
    /// the 32-bit range callers expect.
    pub fn rss(&self) -> (r: i32)
        ensures
            r == self.rss as i32,
    {
        #[verifier::truncate] (self.rss as i32)
    }

    /// Number of threads in this process, narrowed to the 32-bit range
    /// callers expect.
    pub fn num_threads(&self) -> (r: i32)
        ensures
            r == self.num_threads as i32,
    {
        #[verifier::truncate] (self.num_threads as i32)
    }
}

/// The record-format error.
fn format_error() -> (r: Error)
    ensures
        r matches Error::Format(_),
{
    Error::Format(String::from_str("Invalid procstat format"))
}

/// The scan that stops at the first opening parenthesis measures exactly
/// the index the specification defines.
proof fn lemma_first_lparen(s: Seq<u8>, k: int)
    requires
        0 <= k <= s.len(),
        forall|j: int| 0 <= j < k ==> s[j] != 0x28,
        k < s.len() ==> s[k] == 0x28,
    ensures
        first_lparen(s) == if k < s.len() {
            k
        } else {
            -1int
        },
    decreases k, s.len(),
{
    if k == 0 {
        if s.len() > 0 {
        } else {
        }
    } else {
        assert(s[0] != 0x28);
        lemma_first_lparen(s.drop_first(), k - 1);
    }
}

/// Copies the byte range `start..end`.
fn copy_bytes(bytes: &Vec<u8>, start: usize, end: usize) -> (r: Vec<u8>)
    requires
        start <= end <= bytes@.len(),
    ensures
        r@ == bytes@.subrange(start as int, end as int),
{
    let mut out: Vec<u8> = Vec::new();
    let mut i = start;
    while i < end
        invariant
            start <= i <= end <= bytes@.len(),
            out@ =~= bytes@.subrange(start as int, i as int),
        decreases end - i,
    {
        out.push(bytes[i]);
        i = i + 1;
    }
    assert(out@ =~= bytes@.subrange(start as int, end as int));
    out
}

/// Whether the byte is whitespace.
fn is_ws_exec(b: u8) -> (r: bool)
    ensures
        r == is_ws(b),
{
    b == 0x20 || b == 0x09 || b == 0x0A || b == 0x0D || b == 0x0B || b == 0x0C
}

/// Splits the bytes from `from` on into whitespace-separated tokens — the
/// executable counterpart of [`spec_tokens`] on the remaining bytes.
fn tokenize(bytes: &Vec<u8>, from: usize) -> (r: Vec<Vec<u8>>)
    requires
        from <= bytes@.len(),
    ensures
        r@.map_values(|t: Vec<u8>| t@) == spec_tokens(bytes@.skip(from as int)),
    decreases bytes@.len() - from,
{
    let ghost tail = bytes@.skip(from as int);
    let n = bytes.len();
    if from == n {
        let empty: Vec<Vec<u8>> = Vec::new();
        proof {
            assert(empty@.map_values(|t: Vec<u8>| t@) =~= spec_tokens(tail));
        }
        return empty;
    }
    if is_ws_exec(bytes[from]) {
        proof {
            assert(tail[0] == bytes@[from as int]);
            assert(tail.drop_first() =~= bytes@.skip(from + 1));
        }
        return tokenize(bytes, from + 1);
    }

    let mut end = from;
    while end < n
        invariant
            from <= end <= n,
            n == bytes@.len(),
            forall|j: int| from <= j < end ==> !is_ws(bytes@[j]),
        ensures
            from <= end <= n,
            forall|j: int| from <= j < end ==> !is_ws(bytes@[j]),
            end < n ==> is_ws(bytes@[end as int]),
        decreases n - end,
    {
        if is_ws_exec(bytes[end]) {
            break;
        }
        end = end + 1;
    }
    proof {
        assert forall|j: int| 0 <= j < end - from implies !is_ws(tail[j]) by {
            assert(tail[j] == bytes@[from + j]);
        }
        if end < n {
            assert(tail[end - from] == bytes@[end as int]);
        }
        lemma_token_len_at(tail, end - from);
        assert(tail.take(end - from) =~= bytes@.subrange(from as int, end as int));
        assert(tail.skip(end - from) =~= bytes@.skip(end as int));
    }
    let token = copy_bytes(bytes, from, end);
    let mut rest = tokenize(bytes, end);
    rest.insert(0, token);
    proof {
        assert(rest@.map_values(|t: Vec<u8>| t@) =~= spec_tokens(tail));
    }
    rest
}

/// The scan that stops at the first whitespace measures exactly the token
/// length the specification defines.
proof fn lemma_token_len_at(s: Seq<u8>, k: int)
    requires
        0 <= k <= s.len(),
        forall|j: int| 0 <= j < k ==> !is_ws(s[j]),
        k < s.len() ==> is_ws(s[k]),
    ensures
        token_len(s) == k,
    decreases k,
{
    if k > 0 {
        lemma_token_len_at(s.drop_first(), k - 1);
    }
}

/// Parses a decimal token: its sign and magnitude, or nothing when the
/// token is malformed or its magnitude exceeds the unsigned 64-bit range —
/// in either case every integer field falls back to zero.
fn parse_decimal(tok: &Vec<u8>) -> (r: Option<(bool, u64)>)
    ensures
        match r {
            Some(p) => p.0 == (tok@.len() > 0 && tok@[0] == 0x2D) && spec_signed_value(tok@)
                == Some(
                if p.0 {
                    -(p.1 as int)
                } else {
                    p.1 as int
                },
            ),
            None => (match spec_signed_value(tok@) {
                Some(v) => v > u64::MAX || v < -(u64::MAX as int),
                None => true,
            }),
        },
{
    let n = tok.len();
    let mut i: usize = 0;
    let mut neg = false;
    if n > 0 && tok[0] == 0x2D {
        neg = true;
        i = 1;
        proof {
            assert(tok@.drop_first() =~= tok@.subrange(1, n as int));
        }
    } else if n > 0 && tok[0] == 0x2B {
        i = 1;
        proof {
            assert(tok@.drop_first() =~= tok@.subrange(1, n as int));
        }
    }
    let ghost body = tok@.subrange(i as int, n as int);
    proof {
        let sbody = if tok@.len() > 0 && (tok@[0] == 0x2D || tok@[0] == 0x2B) {
            tok@.drop_first()
        } else {
            tok@
        };
        assert(sbody =~= body);
    }
    if i == n {
        return None;
    }

    let mut value: u64 = 0;
    let mut j = i;
    while j < n
        invariant
            i <= j <= n,
            n == tok@.len(),
            body == tok@.subrange(i as int, n as int),
            body == (if tok@.len() > 0 && (tok@[0] == 0x2D || tok@[0] == 0x2B) {
                tok@.drop_first()
            } else {
                tok@
            }),
            body.len() > 0,
            all_digits(tok@.subrange(i as int, j as int)),
            value == digits_value(tok@.subrange(i as int, j as int)),
            digits_value(tok@.subrange(i as int, j as int)) <= u64::MAX,
        ensures
            i <= j <= n,
            j < n ==> (!(0x30 <= tok@[j as int] <= 0x39) && all_digits(
                tok@.subrange(i as int, j as int),
            )) || (all_digits(body) ==> digits_value(body) > u64::MAX),
            j == n ==> all_digits(body) && value == digits_value(body),
        decreases n - j,
    {
        let b = tok[j];
        if b < 0x30 || b > 0x39 {
            break;
        }
        let digit = (b - 0x30) as u64;
        let next = match value.checked_mul(10) {
            Some(v10) => v10.checked_add(digit),
            None => None,
        };
        proof {
            assert(tok@.subrange(i as int, j + 1).drop_last() =~= tok@.subrange(
                i as int,
                j as int,
            ));
            assert(tok@.subrange(i as int, j + 1).last() == tok@[j as int]);
        }
        match next {
            Some(v) => {
                value = v;
            },
            None => {
                proof {
                    assert(digits_value(tok@.subrange(i as int, j as int)) * 10 + (
                    tok@[j as int] - 0x30) > u64::MAX);
                    lemma_digit_overflow(tok@, i as int, j as int, n as int);
                }
                return None;
            },
        }
        j = j + 1;
    }
    if j < n {
        proof {
            assert(body[j - i] == tok@[j as int]);
            if 0x30 <= tok@[j as int] <= 0x39 {
            } else {
                assert(!all_digits(body));
            }
        }
        return None;
    }
    Some((neg, value))
}

/// When a digit prefix already exceeds the 64-bit range, the whole digit
/// string does too.
proof fn lemma_digit_overflow(tok: Seq<u8>, i: int, j: int, n: int)
    requires
        0 <= i <= j < n <= tok.len(),
        digits_value(tok.subrange(i, j)) * 10 + (tok[j] - 0x30) > u64::MAX,
        0x30 <= tok[j] <= 0x39,
    ensures
        all_digits(tok.subrange(i, n)) ==> digits_value(tok.subrange(i, n)) > u64::MAX,
{
    if all_digits(tok.subrange(i, n)) {
        crate::sched::lemma_digits_monotone(tok, i, j + 1, n);
        assert(tok.subrange(i, j + 1).drop_last() =~= tok.subrange(i, j));
        assert(tok.subrange(i, j + 1).last() == tok[j]);
    }
}

/// The empty token when the index is past the end, else the token there.
fn token_ref<'a>(tokens: &'a Vec<Vec<u8>>, k: usize, empty: &'a Vec<u8>) -> (r: &'a Vec<u8>)
    requires
        empty@.len() == 0,
    ensures
        r@ == token_at(tokens@.map_values(|t: Vec<u8>| t@), k as int),
{
    if k < tokens.len() {
        proof {
            assert(tokens@.map_values(|t: Vec<u8>| t@)[k as int] == tokens@[k as int]@);
        }
        &tokens[k]
    } else {
        proof {
            assert(empty@ =~= Seq::<u8>::empty());
        }
        empty
    }
}

/// A signed 32-bit field: the token's value when it parses and fits, zero
/// otherwise.
fn i32_field(tokens: &Vec<Vec<u8>>, k: usize) -> (r: i32)
    ensures
        r == signed_field(tokens@.map_values(|t: Vec<u8>| t@), k as int, i32::MIN as int, i32::MAX as int),
{
    let empty: Vec<u8> = Vec::new();
    let tok = token_ref(tokens, k, &empty);
    match parse_decimal(tok) {
        Some((neg, mag)) => {
            if !neg && mag <= i32::MAX as u64 {
                mag as i32
            } else if neg && mag <= 2147483648u64 {
                proof {
                    assert(-(mag as int) >= i32::MIN);
                }
                (-(mag as i64)) as i32
            } else {
                0
            }
        },
        None => 0,
    }
}

/// A signed 64-bit field: the token's value when it parses and fits, zero
/// otherwise.
fn i64_field(tokens: &Vec<Vec<u8>>, k: usize) -> (r: i64)
    ensures
        r == signed_field(tokens@.map_values(|t: Vec<u8>| t@), k as int, i64::MIN as int, i64::MAX as int),
{
    let empty: Vec<u8> = Vec::new();
    let tok = token_ref(tokens, k, &empty);
    match parse_decimal(tok) {
        Some((neg, mag)) => {
            if !neg && mag <= i64::MAX as u64 {
                mag as i64
            } else if neg && mag <= 9223372036854775808u64 {
                proof {
                    assert(-(mag as int) >= i64::MIN);
                }
                if mag == 9223372036854775808u64 {
                    i64::MIN
                } else {
                    -(mag as i64)
                }
            } else {
                0
            }
        },
        None => 0,
    }
}

/// An unsigned 32-bit field: the token's value when it parses and fits,
/// zero otherwise.
fn u32_field(tokens: &Vec<Vec<u8>>, k: usize) -> (r: u32)
    ensures
        r == unsigned_field(tokens@.map_values(|t: Vec<u8>| t@), k as int, u32::MAX as int),
{
    let empty: Vec<u8> = Vec::new();
    let tok = token_ref(tokens, k, &empty);
    match parse_decimal(tok) {
        Some((neg, mag)) => {
            if !neg && mag <= u32::MAX as u64 {
                mag as u32
            } else {
                0
            }
        },
        None => 0,
    }
}

/// An unsigned 64-bit field: the token's value when it parses and fits,
/// zero otherwise.
fn u64_field(tokens: &Vec<Vec<u8>>, k: usize) -> (r: u64)
    ensures
        r == unsigned_field(tokens@.map_values(|t: Vec<u8>| t@), k as int, u64::MAX as int),
{
    let empty: Vec<u8> = Vec::new();
    let tok = token_ref(tokens, k, &empty);
    match parse_decimal(tok) {
        Some((neg, mag)) => {
            if !neg {
                mag
            } else {
                0
            }
        },
        None => 0,
    }
}

/// The state character of the token at an index.
fn char_field_exec(tokens: &Vec<Vec<u8>>, k: usize) -> (r: char)
    ensures
        r == char_field(tokens@.map_values(|t: Vec<u8>| t@), k as int),
{
    let empty: Vec<u8> = Vec::new();
    let tok = token_ref(tokens, k, &empty);
    match crate::text::string_from_utf8(tok.as_slice()) {
        Some(s) => {
            if s.as_str().unicode_len() == 1 {
                s.as_str().get_char(0)
            } else {
                '\u{0}'
            }
        },
        None => '\u{0}',
    }
}

} // verus!

//! Task definitions for scheduled app execution: the task record, the
//! duration fields in `Xh Ym Zs` form, and the absolute start times they
//! are checked against.

use vstd::prelude::*;
use vstd::utf8::encode_utf8;

use core::time::Duration;

verus! {

/// Errors which occur when using the scheduler.
#[derive(Debug, Eq, PartialEq)]
pub enum SchedulerError {
    /// An error was raised while activating a mode.
    ActivateError {
        /// The specific error encountered.
        err: String,
        /// Mode which failed activation.
        name: String,
    },
    /// An error was raised when creating a file or directory.
    CreateError {
        /// The specific error encountered.
        err: String,
        /// Path of the file or directory which failed to create.
        path: String,
    },
    /// An error was raised when parsing an hours-minutes-seconds field.
    HmsParseError {
        /// Error encountered.
        err: String,
        /// Delay or time field parsed.
        field: String,
    },
    /// An error was raised and the scheduler switched to safe mode.
    FailoverError {
        /// Error which caused failover.
        err: String,
    },
    /// A generic scheduler error.
    GenericError {
        /// Generic error encountered.
        err: String,
    },
    /// An error was raised while importing a task list.
    ImportError {
        /// The specific import error.
        err: String,
        /// Name of the task list which failed to import.
        name: String,
    },
    /// An error was raised when loading a mode.
    LoadModeError {
        /// The specific error encountered.
        err: String,
        /// The path of the mode that failed to load.
        path: String,
    },
    /// An error was raised when sending a service query.
    QueryError {
        /// The error encountered.
        err: String,
    },
    /// An error was raised when removing a mode or task file.
    RemoveError {
        /// Specific removal error.
        err: String,
        /// Name of the task or mode removed.
        name: String,
    },
    /// An error was raised when starting up the scheduler.
    StartError {
        /// The error encountered.
        err: String,
    },
    /// An error was raised when parsing a task list.
    TaskListParseError {
        /// The specific parsing error.
        err: String,
        /// The name of the task list that failed to parse.
        name: String,
    },
    /// An error was raised when parsing a task.
    TaskParseError {
        /// The specific parsing error.
        err: String,
        /// The description of the task that failed to parse.
        description: String,
    },
    /// An out-of-bounds time was found when parsing a task.
    TaskTimeError {
        /// The specific error.
        err: String,
        /// The description of the task.
        description: String,
    },
}

/// Configuration used for execution of an app.
#[derive(Debug, Clone)]
pub struct App {
    /// Registered name of the app.
    pub name: String,
    /// Arguments handed to the app.
    pub args: Option<Vec<String>>,
    /// Configuration file handed to the app.
    pub config: Option<String>,
}

/// Configuration used to schedule app execution.
#[derive(Debug, Clone)]
pub struct Task {
    /// Description of the task.
    pub description: String,
    /// Start delay in `Xh Ym Zs` form, used by init and recurring tasks.
    pub delay: Option<String>,
    /// Start time in `yyyy-mm-dd hh:mm:ss` form, used by onetime tasks.
    pub time: Option<String>,
    /// Period of recurrence in `Xh Ym Zs` form, used by recurring tasks.
    pub period: Option<String>,
    /// Details of the app to be executed.
    pub app: App,
}

/// What `core::time::Duration::from_secs` returns: a duration determined by
/// the seconds alone.
pub uninterp spec fn spec_duration_from_secs(secs: u64) -> Duration;

/// Relies on `core::time::Duration::from_secs`: the result is a pure
/// function of its argument.
#[verifier::external_body]
fn duration_from_secs(secs: u64) -> (r: Duration)
    ensures
        r == spec_duration_from_secs(secs),
{
    Duration::from_secs(secs)
}

/// What chrono parses the text to under the `%Y-%m-%d %H:%M:%S` format, as
/// seconds since the Unix epoch taken as UTC; nothing when the text does
/// not match the format. The result depends on the text alone.
pub uninterp spec fn datetime_seconds_of(text: Seq<char>) -> Option<i64>;

/// Relies on chrono's `NaiveDateTime::parse_from_str` with the
/// `%Y-%m-%d %H:%M:%S` format, the result converted to Unix seconds with
/// `and_utc().timestamp()`: a pure function of the text.
#[verifier::external_body]
fn parse_datetime_seconds(text: &str) -> (r: Option<i64>)
    ensures
        r == datetime_seconds_of(text@),
{
    chrono::NaiveDateTime::parse_from_str(text, "%Y-%m-%d %H:%M:%S")
        .ok()
        .map(|dt| dt.and_utc().timestamp())
}

/// The numeric value of a decimal digit string, most significant first.
pub open spec fn digits_value(s: Seq<u8>) -> int
    decreases s.len(),
{
    if s.len() == 0 {
        0
    } else {
        digits_value(s.drop_last()) * 10 + (s.last() - 0x30)
    }
}

/// Every byte is a decimal digit.
pub open spec fn all_digits(s: Seq<u8>) -> bool {
    forall|i: int| 0 <= i < s.len() ==> 0x30 <= #[trigger] s[i] <= 0x39
}

/// What parsing an unsigned decimal number accepts: an optional plus sign
/// then at least one digit, the value within the 64-bit range.
pub open spec fn spec_parse_u64(s: Seq<u8>) -> Option<int> {
    let body = if s.len() > 0 && s[0] == 0x2B {
        s.drop_first()
    } else {
        s
    };
    if body.len() == 0 || !all_digits(body) {
        None
    } else if digits_value(body) > u64::MAX {
        None
    } else {
        Some(digits_value(body))
    }
}

/// Seconds one `<number><unit>` part stands for: the unit is `s`, `m` or
/// `h`, and the number parses as an unsigned decimal.
pub open spec fn part_seconds(part: Seq<u8>) -> Option<int> {
    if part.len() == 0 {
        None
    } else {
        let unit = part.last();
        match spec_parse_u64(part.drop_last()) {
            None => None,
            Some(v) => if unit == 0x73 {
                Some(v)
            } else if unit == 0x6D {
                Some(v * 60)
            } else if unit == 0x68 {
                Some(v * 60 * 60)
            } else {
                None
            },
        }
    }
}

/// Bytes before the first space.
pub open spec fn prefix_len(s: Seq<u8>) -> int
    decreases s.len(),
{
    if s.len() == 0 {
        0
    } else if s[0] == 0x20 {
        0
    } else {
        1 + prefix_len(s.drop_first())
    }
}

/// The prefix is never longer than the string.
pub proof fn lemma_prefix_len_bound(s: Seq<u8>)
    ensures
        0 <= prefix_len(s) <= s.len(),
    decreases s.len(),
{
    if s.len() > 0 && s[0] != 0x20 {
        lemma_prefix_len_bound(s.drop_first());
    }
}

/// Total seconds an `Xh Ym Zs` field stands for: the sum of its
/// space-separated parts, or nothing when any part does not parse.
pub open spec fn spec_hms_seconds(s: Seq<u8>) -> Option<int>
    decreases s.len(),
    via spec_hms_seconds_decreases
{
    let n = prefix_len(s);
    let part = part_seconds(s.take(n));
    if n == s.len() {
        part
    } else {
        match (part, spec_hms_seconds(s.skip(n + 1))) {
            (Some(a), Some(b)) => Some(a + b),
            _ => None,
        }
    }
}

#[via_fn]
proof fn spec_hms_seconds_decreases(s: Seq<u8>) {
    lemma_prefix_len_bound(s);
}

/// Parses a timer field in `Xh Ym Zs` form into a duration.
///
/// Each space-separated part is an unsigned decimal number followed by the
/// unit `h`, `m` or `s`; the parts' seconds are summed. A part that does
/// not parse, or a sum beyond the 64-bit range, is rejected with the field
/// carried in the error.
pub fn parse_hms_field(field: String) -> (r: Result<Duration, SchedulerError>)
    ensures
        match r {
            Ok(d) => (match spec_hms_seconds(encode_utf8(field@)) {
                Some(total) => 0 <= total <= u64::MAX && d == spec_duration_from_secs(
                    total as u64,
                ),
                None => false,
            }),
            Err(e) => (e matches SchedulerError::HmsParseError { err, field: f } && f@ == field@)
                && (match spec_hms_seconds(encode_utf8(field@)) {
                Some(total) => total > u64::MAX,
                None => true,
            }),
        },
{
    let bytes = field.as_str().as_bytes_vec();
    proof {
        assert(bytes@.skip(0) =~= encode_utf8(field@));
    }
    match hms_seconds_from(&bytes, 0) {
        Some(total) => {
            proof {
                lemma_hms_nonneg(bytes@.skip(0));
            }
            Ok(duration_from_secs(total))
        },
        None => {
            let mut err = String::new();
            err.append("field does not parse as hours, minutes and seconds");
            Err(SchedulerError::HmsParseError { err, field })
        },
    }
}

/// Sums the space-separated parts from `start` on — the executable
/// counterpart of [`spec_hms_seconds`] on the remaining bytes, with all
/// out-of-range sums reported as absent.
fn hms_seconds_from(bytes: &Vec<u8>, start: usize) -> (r: Option<u64>)
    requires
        start <= bytes@.len(),
    ensures
        match r {
            Some(v) => spec_hms_seconds(bytes@.skip(start as int)) == Some(v as int),
            None => (match spec_hms_seconds(bytes@.skip(start as int)) {
                Some(t) => t > u64::MAX,
                None => true,
            }),
        },
    decreases bytes@.len() - start,
{
    let ghost tail = bytes@.skip(start as int);
    let n = bytes.len();
    let mut end = start;
    while end < n
        invariant
            start <= end <= n,
            n == bytes@.len(),
            forall|j: int| start <= j < end ==> bytes@[j] != 0x20,
        ensures
            start <= end <= n,
            forall|j: int| start <= j < end ==> bytes@[j] != 0x20,
            end < n ==> bytes@[end as int] == 0x20,
        decreases n - end,
    {
        if bytes[end] == 0x20 {
            break;
        }
        end = end + 1;
    }
    proof {
        assert forall|j: int| 0 <= j < end - start implies tail[j] != 0x20 by {
            assert(tail[j] == bytes@[start + j]);
        }
        if end < n {
            assert(tail[end - start] == bytes@[end as int]);
        }
        lemma_prefix_len(tail, end - start);
        assert(tail.take(end - start) =~= bytes@.subrange(start as int, end as int));
    }

    let part = parse_part(bytes, start, end);
    proof {
        lemma_part_nonneg(bytes@.subrange(start as int, end as int));
    }
    if end == n {
        return part;
    }
    proof {
        assert(tail.skip((end - start) + 1) =~= bytes@.skip(end + 1));
    }
    let rest = hms_seconds_from(bytes, end + 1);
    proof {
        lemma_hms_nonneg(bytes@.skip(end + 1));
    }
    match (part, rest) {
        (Some(a), Some(b)) => {
            match a.checked_add(b) {
                Some(v) => Some(v),
                None => None,
            }
        },
        _ => None,
    }
}

/// A part's seconds are never negative.
proof fn lemma_part_nonneg(part: Seq<u8>)
    ensures
        match part_seconds(part) {
            Some(t) => t >= 0,
            None => true,
        },
{
    if part.len() > 0 {
        lemma_digits_nonneg(
            if part.drop_last().len() > 0 && part.drop_last()[0] == 0x2B {
                part.drop_last().drop_first()
            } else {
                part.drop_last()
            },
        );
    }
}

/// A field's total seconds are never negative.
proof fn lemma_hms_nonneg(s: Seq<u8>)
    ensures
        match spec_hms_seconds(s) {
            Some(t) => t >= 0,
            None => true,
        },
    decreases s.len(),
{
    lemma_prefix_len_bound(s);
    let n = prefix_len(s);
    lemma_part_nonneg(s.take(n));
    if n != s.len() {
        lemma_hms_nonneg(s.skip(n + 1));
    }
}

/// The scan that stops at the first space measures exactly the prefix
/// length the specification defines.
proof fn lemma_prefix_len(s: Seq<u8>, k: int)
    requires
        0 <= k <= s.len(),
        forall|j: int| 0 <= j < k ==> s[j] != 0x20,
        k < s.len() ==> s[k] == 0x20,
    ensures
        prefix_len(s) == k,
    decreases k,
{
    if k == 0 {
    } else {
        assert(s[0] != 0x20);
        lemma_prefix_len(s.drop_first(), k - 1);
    }
}

/// Parses one `<number><unit>` part, returning its seconds when the number
/// and unit are well-formed and the seconds fit an unsigned 64-bit value.
fn parse_part(bytes: &Vec<u8>, start: usize, end: usize) -> (r: Option<u64>)
    requires
        start <= end <= bytes@.len(),
    ensures
        match r {
            Some(v) => part_seconds(bytes@.subrange(start as int, end as int)) == Some(v as int),
            None => (match part_seconds(bytes@.subrange(start as int, end as int)) {
                Some(t) => t > u64::MAX,
                None => true,
            }),
        },
{
    let ghost part = bytes@.subrange(start as int, end as int);
    if start == end {
        return None;
    }
    let unit = bytes[end - 1];
    proof {
        assert(part.last() == bytes@[end - 1]);
        assert(part.drop_last() =~= bytes@.subrange(start as int, end - 1));
    }
    let multiplier: u64 = if unit == 0x73 {
        1
    } else if unit == 0x6D {
        60
    } else if unit == 0x68 {
        3600
    } else {
        return None;
    };

    let num = match parse_u64_digits(bytes, start, end - 1) {
        Some(v) => v,
        None => {
            return None;
        },
    };
    proof {
        if part_seconds(part) is Some {
        }
    }
    match num.checked_mul(multiplier) {
        Some(v) => Some(v),
        None => None,
    }
}

/// Parses an unsigned decimal number — an optional plus sign then digits —
/// returning its value when it fits an unsigned 64-bit value.
fn parse_u64_digits(bytes: &Vec<u8>, start: usize, end: usize) -> (r: Option<u64>)
    requires
        start <= end <= bytes@.len(),
    ensures
        match r {
            Some(v) => spec_parse_u64(bytes@.subrange(start as int, end as int)) == Some(
                v as int,
            ),
            None => (match spec_parse_u64(bytes@.subrange(start as int, end as int)) {
                Some(t) => t > u64::MAX,
                None => true,
            }),
        },
{
    let ghost s = bytes@.subrange(start as int, end as int);
    let mut i = start;
    if i < end && bytes[i] == 0x2B {
        i = i + 1;
        proof {
            assert(s[0] == 0x2B);
            assert(s.drop_first() =~= bytes@.subrange(start + 1, end as int));
        }
    } else {
        proof {
            if s.len() > 0 {
                assert(s[0] == bytes@[start as int]);
            }
        }
    }
    let ghost body = bytes@.subrange(i as int, end as int);
    proof {
        let sbody = if s.len() > 0 && s[0] == 0x2B {
            s.drop_first()
        } else {
            s
        };
        assert(sbody =~= body);
    }
    if i == end {
        return None;
    }

    let mut value: u64 = 0;
    let mut j = i;
    while j < end
        invariant
            start <= i <= j <= end <= bytes@.len(),
            s == bytes@.subrange(start as int, end as int),
            body == bytes@.subrange(i as int, end as int),
            body == (if s.len() > 0 && s[0] == 0x2B {
                s.drop_first()
            } else {
                s
            }),
            body.len() > 0,
            all_digits(bytes@.subrange(i as int, j as int)),
            value == digits_value(bytes@.subrange(i as int, j as int)),
            digits_value(bytes@.subrange(i as int, j as int)) <= u64::MAX,
        ensures
            i <= j <= end,
            j < end ==> !(0x30 <= bytes@[j as int] <= 0x39) || (match spec_parse_u64(s) {
                Some(t) => t > u64::MAX,
                None => true,
            }),
            j == end ==> all_digits(body) && value == digits_value(body),
        decreases end - j,
    {
        let b = bytes[j];
        if b < 0x30 || b > 0x39 {
            break;
        }
        let digit = (b - 0x30) as u64;
        let next = match value.checked_mul(10) {
            Some(v10) => v10.checked_add(digit),
            None => None,
        };
        proof {
            assert(bytes@.subrange(i as int, j + 1).drop_last() =~= bytes@.subrange(
                i as int,
                j as int,
            ));
            assert(bytes@.subrange(i as int, j + 1).last() == bytes@[j as int]);
        }
        match next {
            Some(v) => {
                value = v;
            },
            None => {
                proof {
                    assert(digits_value(bytes@.subrange(i as int, j as int)) * 10 + (
                    bytes@[j as int] - 0x30) > u64::MAX);
                    lemma_digits_prefix_overflow(bytes@, i as int, j as int, end as int);
                }
                return None;
            },
        }
        j = j + 1;
    }

    if j < end {
        proof {
            if 0x30 <= bytes@[j as int] <= 0x39 {
            } else {
                assert(body[j - i] == bytes@[j as int]);
                assert(!all_digits(body));
            }
        }
        return None;
    }
    Some(value)
}

/// When a digit prefix already exceeds the 64-bit range, the whole digit
/// string does too.
proof fn lemma_digits_prefix_overflow(bytes: Seq<u8>, i: int, j: int, end: int)
    requires
        0 <= i <= j < end <= bytes.len(),
        digits_value(bytes.subrange(i, j)) * 10 + (bytes[j] - 0x30) > u64::MAX,
        0x30 <= bytes[j] <= 0x39,
    ensures
        all_digits(bytes.subrange(i, end)) ==> digits_value(bytes.subrange(i, end)) > u64::MAX,
{
    if all_digits(bytes.subrange(i, end)) {
        lemma_digits_monotone(bytes, i, j + 1, end);
        assert(bytes.subrange(i, j + 1).drop_last() =~= bytes.subrange(i, j));
        assert(bytes.subrange(i, j + 1).last() == bytes[j]);
    }
}

/// A digit string's value only grows as digits are appended.
pub proof fn lemma_digits_monotone(bytes: Seq<u8>, i: int, k: int, end: int)
    requires
        0 <= i <= k <= end <= bytes.len(),
        all_digits(bytes.subrange(i, end)),
    ensures
        digits_value(bytes.subrange(i, k)) <= digits_value(bytes.subrange(i, end)),
        digits_value(bytes.subrange(i, end)) >= 0,
    decreases end - k,
{
    lemma_digits_nonneg(bytes.subrange(i, end));
    if k == end {
    } else {
        lemma_digits_monotone(bytes, i, k + 1, end);
        assert(bytes.subrange(i, k + 1).drop_last() =~= bytes.subrange(i, k));
        assert(bytes.subrange(i, k + 1).last() == bytes[k]);
        assert(bytes.subrange(i, end)[k - i] == bytes[k]);
        lemma_digits_nonneg(bytes.subrange(i, k));
    }
}

/// A digit string's value is never negative.
pub proof fn lemma_digits_nonneg(s: Seq<u8>)
    ensures
        all_digits(s) ==> digits_value(s) >= 0,
    decreases s.len(),
{
    if s.len() > 0 {
        lemma_digits_nonneg(s.drop_last());
        assert(all_digits(s) ==> all_digits(s.drop_last())) by {
            if all_digits(s) {
                assert forall|x: int| 0 <= x < s.drop_last().len() implies 0x30
                    <= #[trigger] s.drop_last()[x] <= 0x39 by {
                    assert(s.drop_last()[x] == s[x]);
                }
            }
        }
    }
}

impl Task {
    /// The task's recurrence period, when one is configured.
    pub fn get_period(&self) -> (r: Result<Option<Duration>, SchedulerError>)
        ensures
            match self.period {
                Some(p) => match r {
                    Ok(d) => d matches Some(dur) && (match spec_hms_seconds(encode_utf8(p@)) {
                        Some(total) => 0 <= total <= u64::MAX && dur == spec_duration_from_secs(
                            total as u64,
                        ),
                        None => false,
                    }),
                    Err(e) => e matches SchedulerError::HmsParseError { .. },
                },
                None => r matches Ok(d) && d is None,
            },
    {
        match &self.period {
            Some(period) => {
                match parse_hms_field(period.clone()) {
                    Ok(d) => Ok(Some(d)),
                    Err(e) => Err(e),
                }
            },
            None => Ok(None),
        }
    }

    /// The timer delay before the task runs, from its `delay` or `time`
    /// field, measured against the given current time in Unix seconds.
    ///
    /// Exactly one of the two fields must be set. A start time in the past,
    /// or more than ninety days ahead, is rejected as out of bounds.
    pub fn get_duration_at(&self, now: i64) -> (r: Result<Duration, SchedulerError>)
        ensures
            match (self.delay, self.time) {
                (Some(_), Some(_)) => r matches Err(SchedulerError::TaskParseError { .. }),
                (Some(d), None) => match r {
                    Ok(dur) => (match spec_hms_seconds(encode_utf8(d@)) {
                        Some(total) => 0 <= total <= u64::MAX && dur == spec_duration_from_secs(
                            total as u64,
                        ),
                        None => false,
                    }),
                    Err(e) => e matches SchedulerError::HmsParseError { .. },
                },
                (None, Some(t)) => match r {
                    Ok(dur) => (match datetime_seconds_of(t@) {
                        Some(run_time) => now <= run_time && run_time - now <= 7776000 && dur
                            == spec_duration_from_secs((run_time - now) as u64),
                        None => false,
                    }),
                    Err(e) => (match datetime_seconds_of(t@) {
                        Some(run_time) => (run_time < now || run_time - now > 7776000) && (
                        e matches SchedulerError::TaskTimeError { .. }),
                        None => e matches SchedulerError::TaskParseError { .. },
                    }),
                },
                (None, None) => r matches Err(SchedulerError::TaskParseError { .. }),
            },
    {
        if self.delay.is_some() && self.time.is_some() {
            let mut err = String::new();
            err.append("Both delay and time defined");
            return Err(
                SchedulerError::TaskParseError { err, description: self.description.clone() },
            );
        }
        match &self.delay {
            Some(delay) => {
                return parse_hms_field(delay.clone());
            },
            None => {},
        }
        match &self.time {
            Some(time) => {
                let run_time = match parse_datetime_seconds(time.as_str()) {
                    Some(rt) => rt,
                    None => {
                        let mut err = String::new();
                        err.append("Failed to parse time field");
                        return Err(
                            SchedulerError::TaskParseError {
                                err,
                                description: self.description.clone(),
                            },
                        );
                    },
                };
                if run_time < now {
                    let mut err = String::new();
                    err.append("Task scheduled for past time");
                    return Err(
                        SchedulerError::TaskTimeError {
                            err,
                            description: self.description.clone(),
                        },
                    );
                }
                // Ninety days in seconds; a difference beyond the signed
                // range is far beyond it.
                let delta = match run_time.checked_sub(now) {
                    Some(delta) => delta,
                    None => {
                        let mut err = String::new();
                        err.append("Task scheduled beyond 90 days in the future");
                        return Err(
                            SchedulerError::TaskTimeError {
                                err,
                                description: self.description.clone(),
                            },
                        );
                    },
                };
                if delta > 7776000 {
                    let mut err = String::new();
                    err.append("Task scheduled beyond 90 days in the future");
                    return Err(
                        SchedulerError::TaskTimeError {
                            err,
                            description: self.description.clone(),
                        },
                    );
                }
                Ok(duration_from_secs(delta as u64))
            },
            None => {
                let mut err = String::new();
                err.append("No delay or time defined");
                Err(SchedulerError::TaskParseError { err, description: self.description.clone() })
            },
        }
    }

    /// The timer delay before the task runs, measured against the clock.
    pub fn get_duration(&self) -> (r: Result<Duration, SchedulerError>)
        ensures
            match (self.delay, self.time) {
                (Some(_), Some(_)) => r matches Err(SchedulerError::TaskParseError { .. }),
                (Some(d), None) => match r {
                    Ok(dur) => (match spec_hms_seconds(encode_utf8(d@)) {
                        Some(total) => 0 <= total <= u64::MAX && dur == spec_duration_from_secs(
                            total as u64,
                        ),
                        None => false,
                    }),
                    Err(e) => e matches SchedulerError::HmsParseError { .. },
                },
                (None, Some(t)) => match r {
                    Ok(dur) => datetime_seconds_of(t@) is Some,
                    Err(e) => (match datetime_seconds_of(t@) {
                        Some(_) => e matches SchedulerError::TaskTimeError { .. },
                        None => e matches SchedulerError::TaskParseError { .. },
                    }),
                },
                (None, None) => r matches Err(SchedulerError::TaskParseError { .. }),
            },
    {
        let now = crate::fs::unix_now();
        self.get_duration_at(now)
    }
}

} // verus!

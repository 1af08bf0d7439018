use vstd::prelude::*;
use crate::jobs::{Job, Timestamp};

verus! {

/// A timestamp that the calendar can show: nanoseconds below one second, an
/// offset under a day, and an instant well inside chrono's range of dates.
pub open spec fn time_ok(ts: Timestamp) -> bool {
    &&& ts.nanos < 1_000_000_000
    &&& -86_400 < ts.offset_secs < 86_400
    &&& -8_000_000_000_000 <= ts.secs <= 8_000_000_000_000
}

/// Whether `ts` is one that the calendar can show.
pub fn time_is_ok(ts: &Timestamp) -> (r: bool)
    ensures
        r == time_ok(*ts),
{
    ts.nanos < 1_000_000_000 && -86_400 < ts.offset_secs && ts.offset_secs < 86_400
        && -8_000_000_000_000 <= ts.secs && ts.secs <= 8_000_000_000_000
}

/// The local calendar date of an instant, as chrono writes it with `%Y-%m-%d`.
pub uninterp spec fn date_text(secs: i64, nanos: u32, offset_secs: i32) -> Seq<char>;

/// Relies on chrono's `DateTime::from_timestamp`, `FixedOffset::east_opt`,
/// `with_timezone` and `format("%Y-%m-%d")`: the local date of the instant at
/// the given offset. Both constructors give `Some` on the inputs `time_ok` admits.
#[verifier::external_body]
fn local_date(ts: &Timestamp) -> (r: String)
    requires
        time_ok(*ts),
    ensures
        r@ == date_text(ts.secs, ts.nanos, ts.offset_secs),
{
    let offset = chrono::FixedOffset::east_opt(ts.offset_secs).unwrap();
    let utc = chrono::DateTime::from_timestamp(ts.secs, ts.nanos).unwrap();
    utc.with_timezone(&offset).format("%Y-%m-%d").to_string()
}

pub open spec fn digit_char(d: nat) -> char {
    (('0' as u8) + (d % 10) as u8) as char
}

/// The decimal digits of `n`, most significant first, without leading zeros.
pub open spec fn decimal(n: nat) -> Seq<char>
    decreases n,
{
    if n < 10 {
        seq![digit_char(n)]
    } else {
        decimal(n / 10).push(digit_char(n % 10))
    }
}

/// Relies on `usize`'s `Display`, which writes an integer in decimal.
#[verifier::external_body]
fn decimal_text(n: usize) -> (r: String)
    ensures
        r@ == decimal(n as nat),
{
    n.to_string()
}

/// The line that lists a job: `[id] company - role | status | date`.
pub open spec fn line_spec(job: Job) -> Seq<char> {
    "["@ + decimal(job.id as nat) + "] "@ + job.company@ + " - "@ + job.role@ + " | "@
        + job.status@ + " | "@ + date_text(
        job.applied_at.secs,
        job.applied_at.nanos,
        job.applied_at.offset_secs,
    )
}

/// The line that lists `job`, with its date as the job's offset gives it.
pub fn job_line(job: &Job) -> (r: String)
    requires
        time_ok(job.applied_at),
    ensures
        r@ == line_spec(*job),
{
    let mut r = "[".to_owned();
    r.append(decimal_text(job.id).as_str());
    r.append("] ");
    r.append(job.company.as_str());
    r.append(" - ");
    r.append(job.role.as_str());
    r.append(" | ");
    r.append(job.status.as_str());
    r.append(" | ");
    r.append(local_date(&job.applied_at).as_str());
    r
}

} // verus!

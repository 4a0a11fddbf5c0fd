//! Measuring operations: what is recorded of one that has run.
use vstd::prelude::*;

verus! {

/// An operation that has begun. The clock and the memory counter are read by the caller.
#[derive(Debug)]
pub struct Op {
    pub op_name: String,
    pub started_at_unix: i64,
    pub rss_before_bytes: Option<usize>,
}

/// What is recorded of an operation.
#[derive(Debug)]
pub struct OpRecord {
    pub op_name: String,
    pub started_at: i64,
    pub duration_ms: i64,
    /// The change of the resident memory, where it is known before and after.
    pub rss_delta_bytes: Option<i64>,
    pub rss_after_bytes: Option<i64>,
    pub rows_in: Option<i64>,
    pub rows_out: Option<i64>,
    pub error: Option<String>,
    pub extra_json: String,
}

/// A recorded measurement.
#[derive(Debug, Clone)]
pub struct Measurement {
    pub started_at: i64,
    pub duration_ms: i64,
    pub rss_delta_bytes: Option<i64>,
    pub rss_after_bytes: Option<i64>,
    pub rows_in: Option<i64>,
    pub rows_out: Option<i64>,
    pub extra_json: String,
}

/// The change of a counter, where it is known before and after.
pub open spec fn change(before: Option<usize>, after: Option<usize>) -> Option<int> {
    match (before, after) {
        (Some(b), Some(a)) => Some(a - b),
        _ => None,
    }
}

/// A counter fits in 64 bits with a sign.
pub open spec fn countable(n: Option<usize>) -> bool {
    n matches Some(v) ==> v <= i64::MAX
}

/// The change of the resident memory.
pub fn rss_delta(before: Option<usize>, after: Option<usize>) -> (r: Option<i64>)
    requires
        countable(before),
        countable(after),
    ensures
        match r {
            Some(d) => change(before, after) == Some(d as int),
            None => change(before, after) is None,
        },
{
    match (before, after) {
        (Some(b), Some(a)) => Some(a as i64 - b as i64),
        _ => None,
    }
}

impl Op {
    /// An operation that begins now.
    pub fn start(op_name: String, started_at_unix: i64, rss_before_bytes: Option<usize>) -> (r: Op)
        ensures
            r.op_name == op_name,
            r.started_at_unix == started_at_unix,
            r.rss_before_bytes == rss_before_bytes,
    {
        Op { op_name, started_at_unix, rss_before_bytes }
    }

    fn record(
        self,
        duration_ms: i64,
        rss_after: Option<usize>,
        rows_in: Option<i64>,
        rows_out: Option<i64>,
        extra_json: String,
        error: Option<String>,
    ) -> (r: OpRecord)
        requires
            countable(self.rss_before_bytes),
            countable(rss_after),
        ensures
            recorded_as(self, duration_ms, rss_after, r),
            r.rows_in == rows_in,
            r.rows_out == rows_out,
            r.error == error,
            r.extra_json == extra_json,
    {
        let rss_delta_bytes = rss_delta(self.rss_before_bytes, rss_after);
        let rss_after_bytes = match rss_after {
            Some(v) => Some(v as i64),
            None => None,
        };
        OpRecord {
            op_name: self.op_name,
            started_at: self.started_at_unix,
            duration_ms,
            rss_delta_bytes,
            rss_after_bytes,
            rows_in,
            rows_out,
            error,
            extra_json,
        }
    }

    /// What is recorded of an operation that succeeded.
    pub fn complete(
        self,
        duration_ms: i64,
        rss_after: Option<usize>,
        rows_in: Option<i64>,
        rows_out: Option<i64>,
        extra_json: String,
    ) -> (r: OpRecord)
        requires
            countable(self.rss_before_bytes),
            countable(rss_after),
        ensures
            recorded_as(self, duration_ms, rss_after, r),
            r.rows_in == rows_in,
            r.rows_out == rows_out,
            r.error is None,
            r.extra_json == extra_json,
    {
        self.record(duration_ms, rss_after, rows_in, rows_out, extra_json, None)
    }

    /// What is recorded of an operation that failed: no rows, and no details but the error.
    pub fn complete_err(self, duration_ms: i64, rss_after: Option<usize>, error: String) -> (r:
        OpRecord)
        requires
            countable(self.rss_before_bytes),
            countable(rss_after),
        ensures
            recorded_as(self, duration_ms, rss_after, r),
            r.rows_in is None,
            r.rows_out is None,
            r.error == Some(error),
            r.extra_json@ == "{}"@,
    {
        self.record(duration_ms, rss_after, None, None, "{}".to_owned(), Some(error))
    }
}

/// Name, time, duration and memory of an operation are recorded.
pub open spec fn recorded_as(
    op: Op,
    duration_ms: i64,
    rss_after: Option<usize>,
    r: OpRecord,
) -> bool {
    &&& r.op_name == op.op_name
    &&& r.started_at == op.started_at_unix
    &&& r.duration_ms == duration_ms
    &&& match r.rss_delta_bytes {
        Some(d) => change(op.rss_before_bytes, rss_after) == Some(d as int),
        None => change(op.rss_before_bytes, rss_after) is None,
    }
    &&& match r.rss_after_bytes {
        Some(n) => rss_after matches Some(v) && v == n,
        None => rss_after is None,
    }
}

/// The change of a counter, with what it was before, is what it is after; it is known only
/// where both are.
pub proof fn law_changes_lead_from_before_to_after(before: usize, after: usize)
    ensures
        change(Some(before), Some(after)) matches Some(d) && before + d == after,
        change(None, Some(after)) is None,
        change(Some(before), None) is None,
{
}

/// A record holds the name and the start of its operation, how long it ran, the memory at its
/// end where that is known, and by how much the memory grew where its beginning is known too.
pub proof fn law_records_say_what_was_measured(
    op: Op,
    duration_ms: i64,
    after: Option<usize>,
    r: OpRecord,
)
    requires
        recorded_as(op, duration_ms, after, r),
    ensures
        r.op_name == op.op_name,
        r.started_at == op.started_at_unix,
        r.duration_ms == duration_ms,
        after is None <==> r.rss_after_bytes is None,
        after is Some ==> r.rss_after_bytes->0 == after->0,
        r.rss_delta_bytes is Some <==> op.rss_before_bytes is Some && after is Some,
        r.rss_delta_bytes is Some ==> op.rss_before_bytes->0 + r.rss_delta_bytes->0 == after->0,
{
}

} // verus!

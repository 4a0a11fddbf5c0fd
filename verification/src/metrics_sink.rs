//! The stream of events, one per tool call: where it goes, and what an event says.
use std::str::FromStr;

use vstd::prelude::*;

use crate::json::Json;
use crate::text::{
    append_str, ascii_lower, char_count, contains_chars, from_chars, has_sub, matches_at,
    slice_chars, str_eq, to_ascii_lower, to_chars, trim_chars, trimmed,
};

verus! {

// ---- Where the stream goes -----------------------------------------------------------------

/// Where the events go.
#[derive(Debug, Clone, PartialEq, Eq)]
pub enum MetricsSinkSpec {
    /// Nowhere.
    Off,
    /// To the standard output.
    Stdout,
    /// To the end of a file.
    Jsonl(String),
}

pub enum SinkV {
    Off,
    Stdout,
    Jsonl(Seq<char>),
}

impl View for MetricsSinkSpec {
    type V = SinkV;

    open spec fn view(&self) -> SinkV {
        match *self {
            MetricsSinkSpec::Off => SinkV::Off,
            MetricsSinkSpec::Stdout => SinkV::Stdout,
            MetricsSinkSpec::Jsonl(p) => SinkV::Jsonl(p@),
        }
    }
}

/// Why a destination is refused.
#[derive(Debug, Clone, PartialEq, Eq)]
pub enum SinkSpecError {
    /// `jsonl:` without a path.
    EmptyPath,
    /// None of the known forms.
    Unknown(String),
}

impl SinkSpecError {
    /// What the user is told.
    pub fn message(&self) -> (r: String)
        ensures
            r@ == match *self {
                SinkSpecError::EmptyPath => EMPTY_PATH_MESSAGE@,
                SinkSpecError::Unknown(s) => UNKNOWN_PREFIX@ + s@ + UNKNOWN_SUFFIX@,
            },
    {
        match self {
            SinkSpecError::EmptyPath => EMPTY_PATH_MESSAGE.to_owned(),
            SinkSpecError::Unknown(s) => {
                let mut out = to_chars(UNKNOWN_PREFIX);
                append_str(&mut out, s.as_str());
                append_str(&mut out, UNKNOWN_SUFFIX);
                from_chars(&out)
            },
        }
    }
}

pub const EMPTY_PATH_MESSAGE: &'static str =
    "--metrics-sink jsonl: requires a path (got empty after `jsonl:`)";

pub const UNKNOWN_PREFIX: &'static str =
    "--metrics-sink expects `off`, `stdout`, or `jsonl:<path>` (got `";

pub const UNKNOWN_SUFFIX: &'static str = "`)";

/// What follows `jsonl:`.
pub open spec fn jsonl_rest(raw: Seq<char>) -> Option<Seq<char>> {
    if "jsonl:"@.is_prefix_of(raw) {
        Some(raw.skip("jsonl:"@.len() as int))
    } else {
        None
    }
}

/// What a destination means: `off`, `stdout`, or `jsonl:` and a path that is not blank.
pub open spec fn sink_of(raw: Seq<char>) -> Option<SinkV> {
    if raw == "off"@ {
        Some(SinkV::Off)
    } else if raw == "stdout"@ {
        Some(SinkV::Stdout)
    } else {
        match jsonl_rest(raw) {
            Some(rest) => if trimmed(rest).len() == 0 {
                None
            } else {
                Some(SinkV::Jsonl(rest))
            },
            None => None,
        }
    }
}

impl MetricsSinkSpec {
    /// Reads a destination.
    pub fn parse(raw: &str) -> (r: Result<MetricsSinkSpec, SinkSpecError>)
        ensures
            match r {
                Ok(s) => sink_of(raw@) == Some(s@),
                Err(e) => sink_of(raw@) is None && match e {
                    SinkSpecError::EmptyPath => jsonl_rest(raw@) is Some,
                    SinkSpecError::Unknown(s) => jsonl_rest(raw@) is None && s@ == raw@,
                },
            },
    {
        if str_eq(raw, "off") {
            return Ok(MetricsSinkSpec::Off);
        }
        if str_eq(raw, "stdout") {
            return Ok(MetricsSinkSpec::Stdout);
        }
        let v = to_chars(raw);
        let head = to_chars("jsonl:");
        if matches_at(&v, &head, 0) {
            assert("jsonl:"@.is_prefix_of(raw@));
            let rest = slice_chars(&v, head.len(), v.len());
            assert(rest@ =~= raw@.skip("jsonl:"@.len() as int));
            let t = trim_chars(&rest);
            if t.len() == 0 {
                Err(SinkSpecError::EmptyPath)
            } else {
                Ok(MetricsSinkSpec::Jsonl(from_chars(&rest)))
            }
        } else {
            assert(!"jsonl:"@.is_prefix_of(raw@)) by {
                if "jsonl:"@.is_prefix_of(raw@) {
                    assert(raw@.subrange(0, "jsonl:"@.len() as int) == "jsonl:"@);
                }
            }
            Err(SinkSpecError::Unknown(raw.to_owned()))
        }
    }
}

impl FromStr for MetricsSinkSpec {
    type Err = SinkSpecError;

    fn from_str(raw: &str) -> (r: Result<MetricsSinkSpec, SinkSpecError>)
        ensures
            match r {
                Ok(s) => sink_of(raw@) == Some(s@),
                Err(e) => sink_of(raw@) is None && match e {
                    SinkSpecError::EmptyPath => jsonl_rest(raw@) is Some,
                    SinkSpecError::Unknown(s) => jsonl_rest(raw@) is None && s@ == raw@,
                },
            },
    {
        MetricsSinkSpec::parse(raw)
    }
}

/// The destination that is a file.
pub fn jsonl_spec(path: &str) -> (r: MetricsSinkSpec)
    ensures
        r@ == SinkV::Jsonl(path@),
{
    MetricsSinkSpec::Jsonl(path.to_owned())
}

/// A path that is not blank, written as a destination, is read back as that path.
pub proof fn law_a_written_path_is_read_back(path: Seq<char>)
    requires
        trimmed(path).len() > 0,
    ensures
        sink_of("jsonl:"@ + path) == Some(SinkV::Jsonl(path)),
{
    let raw = "jsonl:"@ + path;
    reveal_strlit("jsonl:");
    reveal_strlit("off");
    reveal_strlit("stdout");
    assert(raw.subrange(0, "jsonl:"@.len() as int) =~= "jsonl:"@);
    assert(raw.skip("jsonl:"@.len() as int) =~= path);
    assert(raw[0] == 'j');
    assert("off"@[0] == 'o' && "stdout"@[0] == 's');
}

// ---- Errors --------------------------------------------------------------------------------

/// What an error event says of the error.
#[derive(Debug)]
pub struct ErrorDetail {
    pub kind: String,
    pub message: String,
}

/// A message about the syntax of a query.
pub open spec fn syntax_message(m: Seq<char>) -> bool {
    ||| has_sub(m, "no such column"@)
    ||| has_sub(m, "malformed match"@)
    ||| has_sub(m, "fts5: syntax error"@)
    ||| has_sub(m, "syntax error near"@)
    ||| has_sub(m, "unrecognized token"@)
    ||| has_sub(m, "unterminated string"@)
}

/// A message about the database.
pub open spec fn database_message(m: Seq<char>) -> bool {
    has_sub(m, "sqlx"@) || has_sub(m, "sqlite"@) || has_sub(m, "database"@)
}

/// The bucket of an error message, whatever its case: the syntax of the query, the
/// database, or anything else.
pub open spec fn error_kind(msg: Seq<char>) -> Seq<char> {
    let m = ascii_lower(msg);
    if syntax_message(m) {
        "fts5_syntax"@
    } else if database_message(m) {
        "sqlite"@
    } else {
        "internal"@
    }
}

/// Sorts an error message into a bucket.
pub fn classify_handler_error(msg: &str) -> (r: &'static str)
    ensures
        r@ == error_kind(msg@),
{
    let m = to_ascii_lower(&to_chars(msg));
    if contains_chars(&m, &to_chars("no such column")) || contains_chars(
        &m,
        &to_chars("malformed match"),
    ) || contains_chars(&m, &to_chars("fts5: syntax error")) || contains_chars(
        &m,
        &to_chars("syntax error near"),
    ) || contains_chars(&m, &to_chars("unrecognized token")) || contains_chars(
        &m,
        &to_chars("unterminated string"),
    ) {
        "fts5_syntax"
    } else if contains_chars(&m, &to_chars("sqlx")) || contains_chars(&m, &to_chars("sqlite"))
        || contains_chars(&m, &to_chars("database")) {
        "sqlite"
    } else {
        "internal"
    }
}

/// The most characters of a recorded error message.
pub const ERROR_CHARS: usize = 500;

/// The first 500 characters.
pub open spec fn bounded_message(msg: Seq<char>) -> Seq<char> {
    if msg.len() <= ERROR_CHARS {
        msg
    } else {
        msg.take(ERROR_CHARS as int)
    }
}

/// Truncates a message to 500 characters.
pub fn truncate_error_message(msg: &str) -> (r: String)
    ensures
        r@ == bounded_message(msg@),
        r@.len() <= ERROR_CHARS,
{
    let v = to_chars(msg);
    if v.len() <= ERROR_CHARS {
        return msg.to_owned();
    }
    let head = slice_chars(&v, 0, ERROR_CHARS);
    assert(head@ =~= msg@.take(ERROR_CHARS as int));
    from_chars(&head)
}

/// Four characters of a serialized answer make a token.
pub fn token_estimate_from_serialized(serialized: &str) -> (r: u64)
    ensures
        r == serialized@.len() / 4,
{
    (char_count(serialized) / 4) as u64
}

/// The bucket of an error: that of the syntax where the message, in whatever case, holds one
/// of six phrases; else that of the database where it names one of three things; else that of
/// everything else.
pub proof fn law_errors_lie_in_their_buckets(msg: Seq<char>)
    ensures
        ({
            let m = ascii_lower(msg);
            let syntax = has_sub(m, "no such column"@) || has_sub(m, "malformed match"@) || has_sub(
                m,
                "fts5: syntax error"@,
            ) || has_sub(m, "syntax error near"@) || has_sub(m, "unrecognized token"@) || has_sub(
                m,
                "unterminated string"@,
            );
            let database = has_sub(m, "sqlx"@) || has_sub(m, "sqlite"@) || has_sub(m, "database"@);
            &&& syntax ==> error_kind(msg) == "fts5_syntax"@
            &&& !syntax && database ==> error_kind(msg) == "sqlite"@
            &&& !syntax && !database ==> error_kind(msg) == "internal"@
        }),
{
}

/// A message is recorded from its beginning: whole up to 500 characters, and else the first
/// 500 of them.
pub proof fn law_messages_are_recorded_from_their_beginning(msg: Seq<char>)
    ensures
        bounded_message(msg).is_prefix_of(msg),
        bounded_message(msg).len() == if msg.len() < 500 {
            msg.len()
        } else {
            500
        },
{
    assert(bounded_message(msg) =~= msg.subrange(0, bounded_message(msg).len() as int));
}

/// The destinations are `off`, `stdout`, and `jsonl:` with a path that is not blank; nothing
/// else is one.
pub proof fn law_destinations(raw: Seq<char>)
    ensures
        sink_of("off"@) == Some(SinkV::Off),
        sink_of("stdout"@) == Some(SinkV::Stdout),
        sink_of(raw) is Some ==> raw == "off"@ || raw == "stdout"@ || "jsonl:"@.is_prefix_of(raw),
        "jsonl:"@.is_prefix_of(raw) ==> (sink_of(raw) is Some <==> trimmed(raw.skip(6)).len() > 0),
        "jsonl:"@.is_prefix_of(raw) ==> (sink_of(raw) matches Some(s) ==> s == SinkV::Jsonl(
            raw.skip(6),
        )),
{
    reveal_strlit("off");
    reveal_strlit("stdout");
    reveal_strlit("jsonl:");
    assert("off"@[0] == 'o' && "stdout"@[0] == 's' && "jsonl:"@[0] == 'j');
    assert("jsonl:"@.len() == 6);
    assert("off"@.len() == 3 && "stdout"@.len() == 6);
    if "jsonl:"@.is_prefix_of(raw) {
        assert(raw.subrange(0, 6)[0] == raw[0]);
        assert(raw[0] == 'j');
    }
}

/// A destination that is none is one of two mistakes: `jsonl:` without a path where it begins
/// so, and an unknown word otherwise. A destination is seen as it is.
pub proof fn law_mistaken_destinations(raw: Seq<char>, s: MetricsSinkSpec)
    ensures
        jsonl_rest(raw) is Some <==> "jsonl:"@.is_prefix_of(raw),
        jsonl_rest(raw) is Some ==> "jsonl:"@ + jsonl_rest(raw)->0 == raw,
        s is Off ==> s@ is Off,
        s is Stdout ==> s@ is Stdout,
        s matches MetricsSinkSpec::Jsonl(p) ==> s@ == SinkV::Jsonl(p@),
{
    if "jsonl:"@.is_prefix_of(raw) {
        assert("jsonl:"@ + raw.skip("jsonl:"@.len() as int) =~= raw);
    }
}

// ---- Events --------------------------------------------------------------------------------

/// What is recorded of one tool call. An amount of money is carried by the bits of its
/// double-precision value.
#[derive(Debug)]
pub struct MetricsEvent {
    pub schema_version: u32,
    pub ts: String,
    pub tool: String,
    pub query: Option<String>,
    pub params: Json,
    pub wall_ms: u64,
    pub stages_ms: Json,
    pub candidate_count: Json,
    pub result_token_estimate: u64,
    pub cache_hit: Option<bool>,
    pub daemon_uptime_s: u64,
    pub calibration_confidence: String,
    pub counterfactual_tokens_p50: Option<u64>,
    pub counterfactual_tokens_p95: Option<u64>,
    pub tokens_saved_p50: Option<i64>,
    pub dollars_saved_p50_usd: Option<u64>,
    pub counterfactual_wall_ms_p50: Option<u64>,
    pub calibration_model_version: Option<String>,
    pub query_broadened: Option<bool>,
    pub returned_full_tokens: Option<u64>,
    pub outcome: Option<String>,
    pub error: Option<ErrorDetail>,
}

} // verus!

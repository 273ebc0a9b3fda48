//! Probe classification: the outcome of one bounded-timeout HTTP probe,
//! determined by the transport result, the HTTP status, and the body, in
//! that priority order.

use vstd::prelude::*;
use vstd::string::*;

verus! {

/// Default number of milliseconds a single probe may take before it is
/// classified as unreachable.
pub const DEFAULT_PROBE_TIMEOUT_MS: u64 = 2000;

/// Whether an HTTP status code lies in the success range.
pub open spec fn is_success_code(status: u16) -> bool {
    200 <= status < 300
}

/// Exec test for [`is_success_code`].
pub fn status_is_success(status: u16) -> (r: bool)
    ensures
        r == is_success_code(status),
{
    200 <= status && status < 300
}

/// Whether `body` parses as structured key-value data: a JSON document whose
/// top level is an object.
pub uninterp spec fn parses_as_object(body: Seq<char>) -> bool;

/// The string field named `key` of the top-level JSON object in `body`:
/// `Some` exactly when `body` is a JSON object holding a JSON string under
/// `key`, and then the decoded contents of that string.
pub uninterp spec fn str_field_of(body: Seq<char>, key: Seq<char>) -> Option<Seq<char>>;

/// Relies on serde_json::from_str::<serde_json::Value> (a parse that depends
/// on the text alone) and serde_json::Value::is_object: whether `body` is a
/// JSON document whose top level is an object.
#[verifier::external_body]
fn body_is_object(body: &str) -> (r: bool)
    ensures
        r == parses_as_object(body@),
{
    match serde_json::from_str::<serde_json::Value>(body) {
        Ok(v) => v.is_object(),
        Err(_) => false,
    }
}

/// Relies on serde_json::from_str::<serde_json::Value>, serde_json::Value::get
/// (`None` when the value is not an object or the key is absent) and
/// serde_json::Value::as_str (`Some` exactly for a JSON string): the string
/// field of the top-level JSON object in `body` under `key`.
#[verifier::external_body]
fn body_str_field(body: &str, key: &str) -> (r: Option<String>)
    ensures
        r is Some <==> str_field_of(body@, key@) is Some,
        r matches Some(s) ==> str_field_of(body@, key@) == Some(s@),
        !parses_as_object(body@) ==> r is None,
{
    match serde_json::from_str::<serde_json::Value>(body) {
        Ok(v) => match v.get(key) {
            Some(f) => match f.as_str() {
                Some(s) => Some(s.to_string()),
                None => None,
            },
            None => None,
        },
        Err(_) => None,
    }
}

/// The name a discovered server reports when its body carries no `name`
/// string.
pub open spec fn spec_default_name() -> Seq<char> {
    "OpenCode Server"@
}

/// Exec counterpart of [`spec_default_name`].
pub fn default_server_name() -> (r: String)
    ensures
        r@ == spec_default_name(),
{
    String::from_str("OpenCode Server")
}

/// What the transport layer handed back for one probe: either a failure
/// (connect error or timeout expiry), or a response with its status code and
/// body text.
pub enum TransportReply {
    Failed,
    Responded { status: u16, body: String },
}

/// Mathematical model of a transport reply.
#[verifier::ext_equal]
pub enum ReplyModel {
    Failed,
    Responded { status: u16, body: Seq<char> },
}

impl TransportReply {
    pub open spec fn model(self) -> ReplyModel {
        match self {
            TransportReply::Failed => ReplyModel::Failed,
            TransportReply::Responded { status, body } => ReplyModel::Responded {
                status,
                body: body@,
            },
        }
    }
}

/// The classification of one completed or timed-out probe. Exactly one
/// variant per probe attempt.
pub enum ProbeOutcome {
    /// Connection, transport or timeout failure.
    Unreachable,
    /// A response arrived, with a status outside the success range.
    RespondedNonSuccess,
    /// A success status whose body is not a JSON object.
    RespondedMalformed,
    /// A success status with a JSON-object body: a discovered server.
    Discovered { name: String, version: Option<String>, elapsed_ms: u64 },
}

/// Mathematical model of a probe outcome.
#[verifier::ext_equal]
pub enum OutcomeModel {
    Unreachable,
    RespondedNonSuccess,
    RespondedMalformed,
    Discovered { name: Seq<char>, version: Option<Seq<char>>, elapsed_ms: u64 },
}

impl ProbeOutcome {
    pub open spec fn model(self) -> OutcomeModel {
        match self {
            ProbeOutcome::Unreachable => OutcomeModel::Unreachable,
            ProbeOutcome::RespondedNonSuccess => OutcomeModel::RespondedNonSuccess,
            ProbeOutcome::RespondedMalformed => OutcomeModel::RespondedMalformed,
            ProbeOutcome::Discovered { name, version, elapsed_ms } => OutcomeModel::Discovered {
                name: name@,
                version: match version {
                    Some(v) => Some(v@),
                    None => None,
                },
                elapsed_ms,
            },
        }
    }
}

/// The outcome a probe is classified as, from what the transport handed back:
/// a transport failure is `Unreachable`; a non-success status is
/// `RespondedNonSuccess`; a success status whose body is not a JSON object is
/// `RespondedMalformed`; otherwise the server is `Discovered`, its name the
/// body's `name` string field (defaulted when absent), its version the
/// body's `version` string field.
pub open spec fn spec_classify(reply: ReplyModel, elapsed_ms: u64) -> OutcomeModel {
    match reply {
        ReplyModel::Failed => OutcomeModel::Unreachable,
        ReplyModel::Responded { status, body } => if !is_success_code(status) {
            OutcomeModel::RespondedNonSuccess
        } else if !parses_as_object(body) {
            OutcomeModel::RespondedMalformed
        } else {
            OutcomeModel::Discovered {
                name: match str_field_of(body, "name"@) {
                    Some(n) => n,
                    None => spec_default_name(),
                },
                version: str_field_of(body, "version"@),
                elapsed_ms,
            }
        },
    }
}

/// Classifies one probe attempt from the transport reply and the measured
/// round-trip time. Every reply maps to exactly one outcome; no input is
/// rejected and no path fails.
pub fn classify_probe(reply: TransportReply, elapsed_ms: u64) -> (r: ProbeOutcome)
    ensures
        r.model() == spec_classify(reply.model(), elapsed_ms),
{
    match reply {
        TransportReply::Failed => ProbeOutcome::Unreachable,
        TransportReply::Responded { status, body } => {
            if !status_is_success(status) {
                ProbeOutcome::RespondedNonSuccess
            } else if !body_is_object(body.as_str()) {
                ProbeOutcome::RespondedMalformed
            } else {
                let name = match body_str_field(body.as_str(), "name") {
                    Some(n) => n,
                    None => default_server_name(),
                };
                let version = body_str_field(body.as_str(), "version");
                let r = ProbeOutcome::Discovered { name, version, elapsed_ms };
                proof {
                    assert(r.model() =~= spec_classify(reply.model(), elapsed_ms));
                }
                r
            }
        },
    }
}

/// Law: a transport failure is always classified `Unreachable`, whatever
/// time was measured — the transport result is judged before status or body.
pub proof fn lemma_failure_always_unreachable(elapsed_ms: u64)
    ensures
        spec_classify(ReplyModel::Failed, elapsed_ms) == OutcomeModel::Unreachable,
{
}

/// Law: classification is deterministic. Two probe attempts that observe the
/// same transport result, the same status and the same body, with the same
/// measured time, are classified alike.
pub proof fn lemma_classification_deterministic(
    a: TransportReply,
    b: TransportReply,
    elapsed_ms: u64,
)
    requires
        a.model() == b.model(),
    ensures
        spec_classify(a.model(), elapsed_ms) == spec_classify(b.model(), elapsed_ms),
{
}

} // verus!

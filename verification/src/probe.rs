//! The decisions of the component checks: where to connect, what a
//! connection attempt says of a component, and how much memory the process
//! holds according to the kernel's status text.

use vstd::prelude::*;
use crate::health::{ComponentModel, ComponentStatus, HEALTHY, UNHEALTHY};
use crate::scan::{
    decimal_u64, find_from, find_line_end, find_second_field, first_occurrence, line_end,
    matches_at, occurs_at, parse_decimal, second_field, to_chars,
};
use crate::text::{concat_str, str_eq};

verus! {

/// What separates the scheme of a URL from the rest.
pub const SCHEME_SEPARATOR: &'static str = "://";

/// What ends the authority of a URL.
pub const PATH_SEPARATOR: &'static str = "/";

/// The scheme of a ZMQ endpoint.
pub const TCP_SCHEME: &'static str = "tcp";

/// Start of the line of the status text that gives the resident set size.
pub const RESIDENT_KEY: &'static str = "VmRSS:";

/// What is appended to the store path for a trial store.
pub const TRIAL_SUFFIX: &'static str = "_health_check";

/// Seconds after which a connection to the RPC endpoint is given up.
pub const RPC_TIMEOUT_SECS: u64 = 5;

/// Seconds after which a connection to the ZMQ endpoint is given up.
pub const ZMQ_TIMEOUT_SECS: u64 = 2;

/// Latency reported for an RPC connection that timed out.
pub const RPC_TIMEOUT_LATENCY_MS: u64 = 5000;

pub const INVALID_RPC_URL: &'static str = "Invalid RPC URL format";

pub const INVALID_ZMQ_URL: &'static str = "Invalid ZMQ URL format (expected tcp://host:port)";

pub const RPC_CONNECTED: &'static str = "Connected to ";

pub const RPC_FAILED: &'static str = "Connection failed: ";

pub const RPC_TIMED_OUT: &'static str = "Connection timeout (5s)";

pub const ZMQ_CONNECTED: &'static str = "ZMQ listening on ";

pub const ZMQ_FAILED: &'static str = "ZMQ connection failed: ";

pub const ZMQ_TIMED_OUT: &'static str = "ZMQ connection timeout (2s)";

pub const DATABASE_ATTACHED: &'static str = "Database operational";

pub const DATABASE_OPENED: &'static str = "Database operational (temporary check)";

pub const DATABASE_FAILED: &'static str = "Database error: ";

/// How an attempt to connect ended.
#[derive(Debug, Clone, PartialEq, Eq)]
pub enum ConnectOutcome {
    Connected,
    Failed { cause: String },
    TimedOut,
}

/// How the look at the database ended.
#[derive(Debug, Clone, PartialEq, Eq)]
pub enum DatabaseProbe {
    /// The pool's own store answered.
    Attached,
    /// No store is attached; a trial store could be opened.
    Opened,
    /// No store is attached, and no trial store could be opened.
    Failed { cause: String },
}

/// The scheme and the rest of a URL that holds the scheme separator once.
pub open spec fn scheme_split(url: Seq<char>) -> Option<(Seq<char>, Seq<char>)> {
    match first_occurrence(url, SCHEME_SEPARATOR@, 0) {
        Some(i) => if first_occurrence(url, SCHEME_SEPARATOR@, i + SCHEME_SEPARATOR@.len()).is_none() {
            Some((url.take(i), url.skip(i + SCHEME_SEPARATOR@.len())))
        } else {
            None
        },
        None => None,
    }
}

/// The text before the first path separator, or all of it.
pub open spec fn authority(rest: Seq<char>) -> Seq<char> {
    match first_occurrence(rest, PATH_SEPARATOR@, 0) {
        Some(k) => rest.take(k),
        None => rest,
    }
}

/// Where to connect for the RPC check: the authority of a URL that holds the
/// scheme separator once.
pub open spec fn rpc_endpoint_of(url: Seq<char>) -> Option<Seq<char>> {
    match scheme_split(url) {
        Some((_, rest)) => Some(authority(rest)),
        None => None,
    }
}

/// Where to connect for the ZMQ check: what follows the scheme of a URL
/// that holds the scheme separator once and has the scheme `tcp`.
pub open spec fn zmq_endpoint_of(url: Seq<char>) -> Option<Seq<char>> {
    match scheme_split(url) {
        Some((scheme, rest)) => if scheme == TCP_SCHEME@ {
            Some(rest)
        } else {
            None
        },
        None => None,
    }
}

/// The status that follows from an attempt to connect to the RPC endpoint.
pub open spec fn rpc_status_of(
    endpoint: Seq<char>,
    outcome: ConnectOutcome,
    latency_ms: u64,
) -> ComponentModel {
    match outcome {
        ConnectOutcome::Connected => ComponentModel {
            status: HEALTHY@,
            message: RPC_CONNECTED@ + endpoint,
            latency_ms: Some(latency_ms),
        },
        ConnectOutcome::Failed { cause } => ComponentModel {
            status: UNHEALTHY@,
            message: RPC_FAILED@ + cause@,
            latency_ms: Some(latency_ms),
        },
        ConnectOutcome::TimedOut => ComponentModel {
            status: UNHEALTHY@,
            message: RPC_TIMED_OUT@,
            latency_ms: Some(RPC_TIMEOUT_LATENCY_MS),
        },
    }
}

/// The status that follows from an attempt to connect to the ZMQ endpoint.
pub open spec fn zmq_status_of(endpoint: Seq<char>, outcome: ConnectOutcome) -> ComponentModel {
    match outcome {
        ConnectOutcome::Connected => ComponentModel {
            status: HEALTHY@,
            message: ZMQ_CONNECTED@ + endpoint,
            latency_ms: None,
        },
        ConnectOutcome::Failed { cause } => ComponentModel {
            status: UNHEALTHY@,
            message: ZMQ_FAILED@ + cause@,
            latency_ms: None,
        },
        ConnectOutcome::TimedOut => ComponentModel {
            status: UNHEALTHY@,
            message: ZMQ_TIMED_OUT@,
            latency_ms: None,
        },
    }
}

/// The status that follows from the look at the database.
pub open spec fn database_status_of(probe: DatabaseProbe, latency_ms: u64) -> ComponentModel {
    match probe {
        DatabaseProbe::Attached => ComponentModel {
            status: HEALTHY@,
            message: DATABASE_ATTACHED@,
            latency_ms: Some(latency_ms),
        },
        DatabaseProbe::Opened => ComponentModel {
            status: HEALTHY@,
            message: DATABASE_OPENED@,
            latency_ms: Some(latency_ms),
        },
        DatabaseProbe::Failed { cause } => ComponentModel {
            status: UNHEALTHY@,
            message: DATABASE_FAILED@ + cause@,
            latency_ms: Some(latency_ms),
        },
    }
}

/// The resident set size in MiB that the status text gives from the index
/// `from` on: that of the first line that starts with the key and has two
/// fields, where its second field is a number of KiB; none where that field
/// is no number, or where there is no such line.
pub open spec fn resident_mb_from(text: Seq<char>, from: int) -> Option<u64>
    decreases text.len() - from,
{
    if from < 0 || from >= text.len() {
        None
    } else {
        let end = line_end(text, from);
        if occurs_at(text.subrange(from, end), RESIDENT_KEY@, 0) && second_field(
            text,
            from,
            end,
        ).is_some() {
            let (c, d) = second_field(text, from, end).unwrap();
            match decimal_u64(text.subrange(c, d)) {
                Some(kb) => Some(kb / 1024),
                None => None,
            }
        } else if end < from || end >= text.len() {
            None
        } else {
            resident_mb_from(text, end + 1)
        }
    }
}

/// The resident set size in MiB that the status text gives.
pub open spec fn resident_mb(text: Seq<char>) -> Option<u64> {
    resident_mb_from(text, 0)
}

/// The bounds of the scheme separator in a URL that holds it once.
fn split_scheme(url: &Vec<char>) -> (out: Option<(usize, usize)>)
    ensures
        match out {
            Some((i, j)) => scheme_split(url@) == Some((url@.take(i as int), url@.skip(j as int)))
                && i <= j <= url.len(),
            None => scheme_split(url@).is_none(),
        },
{
    let sep: Vec<char> = to_chars(SCHEME_SEPARATOR);
    match find_from(url, &sep, 0) {
        Some(i) => {
            let after: usize = i + sep.len();
            match find_from(url, &sep, after) {
                Some(_) => None,
                None => Some((i, after)),
            }
        },
        None => None,
    }
}

/// Where to connect for the RPC check, or `None` where the URL does not
/// hold the scheme separator exactly once.
pub fn rpc_endpoint(url: &str) -> (out: Option<String>)
    ensures
        match out {
            Some(e) => rpc_endpoint_of(url@) == Some(e@),
            None => rpc_endpoint_of(url@).is_none(),
        },
{
    let chars: Vec<char> = to_chars(url);
    match split_scheme(&chars) {
        Some((_, j)) => {
            let rest: &str = url.substring_char(j, chars.len());
            assert(rest@ =~= url@.skip(j as int));
            let rest_chars: Vec<char> = to_chars(rest);
            let slash: Vec<char> = to_chars(PATH_SEPARATOR);
            match find_from(&rest_chars, &slash, 0) {
                Some(k) => {
                    let head: &str = rest.substring_char(0, k);
                    assert(head@ =~= rest@.take(k as int));
                    Some(head.to_owned())
                },
                None => Some(rest.to_owned()),
            }
        },
        None => None,
    }
}

/// Where to connect for the ZMQ check, or `None` where the URL does not
/// hold the scheme separator exactly once or has another scheme than `tcp`.
pub fn zmq_endpoint(url: &str) -> (out: Option<String>)
    ensures
        match out {
            Some(e) => zmq_endpoint_of(url@) == Some(e@),
            None => zmq_endpoint_of(url@).is_none(),
        },
{
    let chars: Vec<char> = to_chars(url);
    match split_scheme(&chars) {
        Some((i, j)) => {
            let scheme: &str = url.substring_char(0, i);
            assert(scheme@ =~= url@.take(i as int));
            if str_eq(scheme, TCP_SCHEME) {
                let rest: &str = url.substring_char(j, chars.len());
                assert(rest@ =~= url@.skip(j as int));
                Some(rest.to_owned())
            } else {
                None
            }
        },
        None => None,
    }
}

/// The status of the RPC component whose URL gives no endpoint.
pub fn invalid_rpc_url() -> (s: ComponentStatus)
    ensures
        s@ == (ComponentModel { status: UNHEALTHY@, message: INVALID_RPC_URL@, latency_ms: None }),
{
    ComponentStatus::unhealthy(INVALID_RPC_URL)
}

/// The status of the ZMQ component whose URL gives no endpoint.
pub fn invalid_zmq_url() -> (s: ComponentStatus)
    ensures
        s@ == (ComponentModel { status: UNHEALTHY@, message: INVALID_ZMQ_URL@, latency_ms: None }),
{
    ComponentStatus::unhealthy(INVALID_ZMQ_URL)
}

/// The status of the RPC component after an attempt to connect that took
/// `latency_ms` milliseconds.
pub fn rpc_status(endpoint: &str, outcome: &ConnectOutcome, latency_ms: u64) -> (s: ComponentStatus)
    ensures
        s@ == rpc_status_of(endpoint@, *outcome, latency_ms),
{
    match outcome {
        ConnectOutcome::Connected => {
            let message: String = concat_str(RPC_CONNECTED, endpoint);
            ComponentStatus::healthy().with_latency(latency_ms).with_message(message.as_str())
        },
        ConnectOutcome::Failed { cause } => {
            let message: String = concat_str(RPC_FAILED, cause.as_str());
            ComponentStatus::unhealthy(message.as_str()).with_latency(latency_ms)
        },
        ConnectOutcome::TimedOut => ComponentStatus::unhealthy(RPC_TIMED_OUT).with_latency(
            RPC_TIMEOUT_LATENCY_MS,
        ),
    }
}

/// The status of the ZMQ component after an attempt to connect.
pub fn zmq_status(endpoint: &str, outcome: &ConnectOutcome) -> (s: ComponentStatus)
    ensures
        s@ == zmq_status_of(endpoint@, *outcome),
{
    match outcome {
        ConnectOutcome::Connected => {
            let message: String = concat_str(ZMQ_CONNECTED, endpoint);
            ComponentStatus::healthy().with_message(message.as_str())
        },
        ConnectOutcome::Failed { cause } => {
            let message: String = concat_str(ZMQ_FAILED, cause.as_str());
            ComponentStatus::unhealthy(message.as_str())
        },
        ConnectOutcome::TimedOut => ComponentStatus::unhealthy(ZMQ_TIMED_OUT),
    }
}

/// The status of the database after a look at it that took `latency_ms`
/// milliseconds.
pub fn database_status(probe: &DatabaseProbe, latency_ms: u64) -> (s: ComponentStatus)
    ensures
        s@ == database_status_of(*probe, latency_ms),
{
    match probe {
        DatabaseProbe::Attached => ComponentStatus::healthy().with_latency(
            latency_ms,
        ).with_message(DATABASE_ATTACHED),
        DatabaseProbe::Opened => ComponentStatus::healthy().with_latency(latency_ms).with_message(
            DATABASE_OPENED,
        ),
        DatabaseProbe::Failed { cause } => {
            let message: String = concat_str(DATABASE_FAILED, cause.as_str());
            ComponentStatus::unhealthy(message.as_str()).with_latency(latency_ms)
        },
    }
}

/// The path at which a trial store is opened where no store is attached.
pub fn trial_store_path(store_path: &str) -> (path: String)
    ensures
        path@ == store_path@ + TRIAL_SUFFIX@,
{
    concat_str(store_path, TRIAL_SUFFIX)
}

/// Reads the resident set size of the process, in MiB, from the kernel's
/// status text.
pub fn resident_memory_mb(status_text: &str) -> (out: Option<u64>)
    ensures
        out == resident_mb(status_text@),
{
    let text: Vec<char> = to_chars(status_text);
    let key: Vec<char> = to_chars(RESIDENT_KEY);
    let mut from: usize = 0;
    while from < text.len()
        invariant
            text@ == status_text@,
            key@ == RESIDENT_KEY@,
            resident_mb(status_text@) == resident_mb_from(text@, from as int),
        decreases text.len() - from,
    {
        let end: usize = find_line_end(&text, from);
        let mut keyed: bool = false;
        if key.len() <= end - from {
            keyed = matches_at(&text, &key, from);
        }
        proof {
            let line = text@.subrange(from as int, end as int);
            if key.len() <= end - from {
                assert(line.subrange(0, key.len() as int) =~= text@.subrange(
                    from as int,
                    from + key.len(),
                ));
            }
            assert(keyed == occurs_at(line, RESIDENT_KEY@, 0));
        }
        if keyed {
            match find_second_field(&text, from, end) {
                Some((c, d)) => {
                    return match parse_decimal(&text, c, d) {
                        Some(kb) => Some(kb / 1024),
                        None => None,
                    };
                },
                None => {},
            }
        }
        if end >= text.len() {
            return None;
        }
        from = end + 1;
    }
    None
}

} // verus!

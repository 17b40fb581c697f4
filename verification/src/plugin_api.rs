//! The control surface the log driver is driven through: the two request
//! shapes, the deterministic sink-path rule, and endpoint dispatch.
//!
//! A start request's `file` is both the path of the byte-stream source and
//! the registry key; the sink path is derived from the container's name and
//! id alone. The transport that carries the requests, and their text-object
//! encoding, live outside the library.

use std::collections::HashMap;
use vstd::prelude::*;

verus! {

/// What a start request says about its container. Only the name and the id
/// reach the sink-path rule; the rest is descriptive and ignored by the core.
pub struct LoggingRequestInfo {
    pub container_id: String,
    pub config: Option<HashMap<String, String>>,
    pub container_name: Option<String>,
    pub container_entrypoint: Option<String>,
    pub container_args: Option<Vec<String>>,
    pub container_image_id: Option<String>,
    pub container_image_name: Option<String>,
    pub container_created: Option<String>,
    pub container_env: Option<Vec<String>>,
    pub container_labels: Option<HashMap<String, String>>,
    pub log_path: Option<String>,
    pub daemon_name: Option<String>,
}

/// Start capturing: read frames from the source at `file`, append lines to
/// the derived sink path, keyed by `file`.
pub struct StartLoggingRequest {
    pub file: String,
    pub info: LoggingRequestInfo,
}

/// Stop capturing the session keyed by `file`.
pub struct StopLoggingRequest {
    pub file: String,
}

/// A container name with every path separator replaced by an underscore.
pub open spec fn sanitize(name: Seq<char>) -> Seq<char> {
    name.map_values(
        |c: char|
            if c == '/' {
                '_'
            } else {
                c
            },
    )
}

/// The name the sink path uses: the sanitized container name, or a fixed
/// placeholder when the request carries none.
pub open spec fn spec_sink_name(container_name: Option<Seq<char>>) -> Seq<char> {
    match container_name {
        Some(n) => sanitize(n),
        None => "unnamed"@,
    }
}

/// The sink path of a session, derived from its container's name and id.
pub open spec fn spec_sink_path(container_name: Option<Seq<char>>, container_id: Seq<char>) -> Seq<
    char,
> {
    "/core/container_logs_"@ + spec_sink_name(container_name) + "_"@ + container_id
}

/// `name` with every '/' replaced by '_'.
pub fn sanitize_name(name: &str) -> (out: String)
    ensures
        out@ == sanitize(name@),
{
    let mut out = String::new();
    let n = name.unicode_len();
    let mut i: usize = 0;
    while i < n
        invariant
            i <= n,
            n == name@.len(),
            out@ == sanitize(name@).subrange(0, i as int),
        decreases n - i,
    {
        let c = name.get_char(i);
        if c == '/' {
            out.append("_");
            proof {
                reveal_strlit("_");
            }
        } else {
            let piece = name.substring_char(i, i + 1);
            out.append(piece);
        }
        i = i + 1;
        assert(out@ =~= sanitize(name@).subrange(0, i as int));
    }
    assert(out@ =~= sanitize(name@));
    out
}

/// The sink path a start request's container information derives: the log
/// directory, a fixed stem, the sanitized name, and the container id.
pub fn sink_path(info: &LoggingRequestInfo) -> (out: String)
    ensures
        out@ == spec_sink_path(
            match info.container_name {
                Some(n) => Some(n@),
                None => None,
            },
            info.container_id@,
        ),
{
    let sanitized = match &info.container_name {
        Some(n) => sanitize_name(n.as_str()),
        None => String::from_str("unnamed"),
    };
    let mut out = String::from_str("/core/container_logs_");
    out.append(sanitized.as_str());
    out.append("_");
    out.append(info.container_id.as_str());
    proof {
        reveal_strlit("unnamed");
    }
    assert(out@ =~= spec_sink_path(
        match info.container_name {
            Some(n) => Some(n@),
            None => None,
        },
        info.container_id@,
    ));
    out
}

/// The operation a control request's path names.
#[derive(Debug, Clone, Copy, PartialEq, Eq, Structural)]
pub enum Endpoint {
    StartLogging,
    StopLogging,
    Unknown,
}

/// Which operation a path names; anything else is rejected.
pub open spec fn spec_classify(path: Seq<char>) -> Endpoint {
    if path == "/LogDriver.StartLogging"@ {
        Endpoint::StartLogging
    } else if path == "/LogDriver.StopLogging"@ {
        Endpoint::StopLogging
    } else {
        Endpoint::Unknown
    }
}

/// Dispatch a control request's path.
pub fn classify_endpoint(path: &String) -> (r: Endpoint)
    ensures
        r == spec_classify(path@),
{
    let start = String::from_str("/LogDriver.StartLogging");
    if *path == start {
        return Endpoint::StartLogging;
    }
    let stop = String::from_str("/LogDriver.StopLogging");
    if *path == stop {
        return Endpoint::StopLogging;
    }
    Endpoint::Unknown
}

} // verus!

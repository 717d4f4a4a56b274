//! The library's error type.
use vstd::prelude::*;

use crate::text::concat_strs;

verus! {

/// Errors of the control plane. Failures of outside services (HTTP,
/// filesystem, JSON) carry the text of the underlying error.
#[derive(Debug, Clone)]
pub enum StackError {
    Config(String),
    CommandNotFound { service: String },
    AlreadyRunning(String),
    NotManaged(String),
    Request(String),
    Io(String),
    Json(String),
}

impl StackError {
    /// The user-facing text of the error.
    pub open spec fn spec_message(&self) -> Seq<char> {
        match self {
            StackError::Config(m) => "configuration error: "@ + m@,
            StackError::CommandNotFound { service } => service@
                + " command was not found; configure its executable in Settings"@,
            StackError::AlreadyRunning(s) => s@ + " is already running"@,
            StackError::NotManaged(s) => s@ + " is not running under Local Agent Stack"@,
            StackError::Request(m) => "request failed: "@ + m@,
            StackError::Io(m) => "filesystem or process operation failed: "@ + m@,
            StackError::Json(m) => "invalid response from local service: "@ + m@,
        }
    }

    pub fn message(&self) -> (r: String)
        ensures
            r@ == self.spec_message(),
    {
        match self {
            StackError::Config(m) => concat_strs("configuration error: ", m.as_str()),
            StackError::CommandNotFound { service } => concat_strs(
                service.as_str(),
                " command was not found; configure its executable in Settings",
            ),
            StackError::AlreadyRunning(s) => concat_strs(s.as_str(), " is already running"),
            StackError::NotManaged(s) => concat_strs(
                s.as_str(),
                " is not running under Local Agent Stack",
            ),
            StackError::Request(m) => concat_strs("request failed: ", m.as_str()),
            StackError::Io(m) => concat_strs("filesystem or process operation failed: ", m.as_str()),
            StackError::Json(m) => concat_strs("invalid response from local service: ", m.as_str()),
        }
    }
}

/// Predicate: `e` is a configuration error whose detail text is `m`.
pub open spec fn is_config_error(e: StackError, m: Seq<char>) -> bool {
    match e {
        StackError::Config(x) => x@ == m,
        _ => false,
    }
}

pub fn config_error(m: String) -> (e: StackError)
    ensures
        is_config_error(e, m@),
{
    StackError::Config(m)
}

pub fn config_error_str(m: &str) -> (e: StackError)
    ensures
        is_config_error(e, m@),
{
    StackError::Config(String::from_str(m))
}

} // verus!

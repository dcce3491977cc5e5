//! Error taxonomy shared by every component of the core.

use vstd::prelude::*;

verus! {

/// Every failure the core reports to its caller.
///
/// Watcher-source errors are observed and never surface here; surface
/// geometry failures degrade to no-ops at the boundary.
#[derive(Debug)]
pub enum CoreError {
    /// A path that should exist could not be found.
    NotFound(String),
    /// Content is larger than a read or display ceiling allows.
    TooLarge,
    /// The memory governor refused to admit the content.
    LimitExceeded,
    /// A native filesystem operation failed; carries the offending path
    /// or the underlying description.
    PermissionOrIo(String),
    /// An operation found its session handle in an unusable state.
    InvalidState,
}

impl CoreError {
    /// A short, stable description of the error for the boundary layer.
    pub fn describe(&self) -> (r: String)
        ensures
            r@ == self.spec_describe(),
    {
        match self {
            CoreError::NotFound(p) => {
                let mut s = String::new();
                s.append("not found: ");
                s.append(p.as_str());
                s
            },
            CoreError::TooLarge => "content too large".to_owned(),
            CoreError::LimitExceeded => "Memory limit exceeded".to_owned(),
            CoreError::PermissionOrIo(p) => {
                let mut s = String::new();
                s.append("filesystem failure: ");
                s.append(p.as_str());
                s
            },
            CoreError::InvalidState => "invalid session state".to_owned(),
        }
    }

    /// What [`CoreError::describe`] returns.
    pub open spec fn spec_describe(&self) -> Seq<char> {
        match self {
            CoreError::NotFound(p) => "not found: "@ + p@,
            CoreError::TooLarge => "content too large"@,
            CoreError::LimitExceeded => "Memory limit exceeded"@,
            CoreError::PermissionOrIo(p) => "filesystem failure: "@ + p@,
            CoreError::InvalidState => "invalid session state"@,
        }
    }
}

} // verus!

//! Application-wide error type.

use vstd::prelude::*;

verus! {

/// Application-wide error type. Each variant carries a human-readable
/// message; `kind` names the variant for the frontend.
#[derive(Debug, Clone, PartialEq, Eq)]
pub enum AppError {
    InvalidPath(String),
    Conflict(String),
    NotFound(String),
    /// An I/O failure, carried as its message.
    Io(String),
    Other(String),
}

impl AppError {
    /// The `(kind, message)` pair the frontend pattern-matches on.
    pub fn kind_and_message(&self) -> (r: (&'static str, String))
        ensures
            match self {
                AppError::InvalidPath(m) => r.0@ == "InvalidPath"@ && r.1@ == m@,
                AppError::Conflict(m) => r.0@ == "Conflict"@ && r.1@ == m@,
                AppError::NotFound(m) => r.0@ == "NotFound"@ && r.1@ == m@,
                AppError::Io(m) => r.0@ == "Io"@ && r.1@ == m@,
                AppError::Other(m) => r.0@ == "Other"@ && r.1@ == m@,
            },
    {
        match self {
            AppError::InvalidPath(m) => ("InvalidPath", m.clone()),
            AppError::Conflict(m) => ("Conflict", m.clone()),
            AppError::NotFound(m) => ("NotFound", m.clone()),
            AppError::Io(m) => ("Io", m.clone()),
            AppError::Other(m) => ("Other", m.clone()),
        }
    }
}

} // verus!

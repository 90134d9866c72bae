//! The failures of configuration, routing and resolution.
use vstd::prelude::*;
use crate::text::{text_of};

verus! {

#[derive(Debug)]
pub enum LadeError {
    /// A rule's command pattern is not a valid regular expression.
    InvalidPattern(String),
    /// A reference claimed by a provider lacks a part its layout needs.
    MalformedReference(String),
    /// A backend answered without the requested field.
    SecretNotFound { field: String, location: String },
    /// A backend's batched answer does not hold one value per reference.
    BatchMismatch { expected: usize, found: usize },
    /// A reference has no value in the hydration.
    Unresolved(String),
    /// A backend could not be run or answered in an unexpected shape.
    Backend(String),
    /// An output file is already there and would be overwritten.
    FileExists(String),
    /// An output file that should be removed is not there.
    FileMissing(String),
    /// A file extension names no supported format.
    UnsupportedFormat(String),
    /// The shell is not supported, or has no hooks.
    UnsupportedShell(String),
}

impl LadeError {
    /// A sentence that describes the failure.
    pub fn message(&self) -> (r: String)
        ensures
            r@ == match self {
                LadeError::InvalidPattern(p) => text_of("invalid command pattern: ") + p@,
                LadeError::MalformedReference(x) => text_of("malformed secret reference: ") + x@,
                LadeError::SecretNotFound { field, location } => text_of("secret not found: ") + field@
                    + text_of(" in ") + location@,
                LadeError::BatchMismatch { .. } => text_of(
                    "the backend returned a different number of values than requested",
                ),
                LadeError::Unresolved(x) => text_of("no value resolved for ") + x@,
                LadeError::Backend(x) => x@,
                LadeError::FileExists(x) => text_of("file already exists: ") + x@,
                LadeError::FileMissing(x) => text_of("file should have existed: ") + x@,
                LadeError::UnsupportedFormat(x) => text_of("unsupported file format: ") + x@,
                LadeError::UnsupportedShell(x) => text_of("unsupported shell: ") + x@,
            },
    {
        let mut r = String::new();
        match self {
            LadeError::InvalidPattern(p) => {
                r.append("invalid command pattern: ");
                r.append(p.as_str());
            },
            LadeError::MalformedReference(s) => {
                r.append("malformed secret reference: ");
                r.append(s.as_str());
            },
            LadeError::SecretNotFound { field, location } => {
                r.append("secret not found: ");
                r.append(field.as_str());
                r.append(" in ");
                r.append(location.as_str());
            },
            LadeError::BatchMismatch { .. } => {
                r.append("the backend returned a different number of values than requested");
                proof {
                    assert(r@ =~= text_of(
                        "the backend returned a different number of values than requested",
                    ));
                }
            },
            LadeError::Backend(x) => {
                r.append(x.as_str());
                proof {
                    assert(r@ =~= x@);
                }
            },
            LadeError::Unresolved(s) => {
                r.append("no value resolved for ");
                r.append(s.as_str());
            },
            LadeError::FileExists(s) => {
                r.append("file already exists: ");
                r.append(s.as_str());
            },
            LadeError::FileMissing(s) => {
                r.append("file should have existed: ");
                r.append(s.as_str());
            },
            LadeError::UnsupportedFormat(s) => {
                r.append("unsupported file format: ");
                r.append(s.as_str());
            },
            LadeError::UnsupportedShell(s) => {
                r.append("unsupported shell: ");
                r.append(s.as_str());
            },
        }
        r
    }
}

} // verus!

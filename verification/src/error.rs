//! Errors reported to the user interface.
use vstd::prelude::*;

use crate::text::{append_str, chars_of, string_of};

verus! {

/// `std::io::Error`, carried as an opaque value.
#[verifier::external_type_specification]
#[verifier::external_body]
pub struct ExIoError(std::io::Error);

/// `serde_json::Error`, carried as an opaque value.
#[verifier::external_type_specification]
#[verifier::external_body]
pub struct ExJsonError(serde_json::Error);

#[derive(Debug)]
pub enum AppError {
    Message(String),
    Unsupported(String),
    DeviceNotFound(String),
    Permission(String),
    Io(std::io::Error),
    Json(serde_json::Error),
}

pub type AppResult<T> = Result<T, AppError>;

/// The text of an I/O error, by `<std::io::Error as Display>::fmt`. Nothing is
/// stated of it: it depends on the operating system's messages.
#[verifier::external_body]
fn io_error_text(e: &std::io::Error) -> String {
    e.to_string()
}

/// The text of a JSON error, by `<serde_json::Error as Display>::fmt`.
/// Nothing is stated of it.
#[verifier::external_body]
fn json_error_text(e: &serde_json::Error) -> String {
    e.to_string()
}

impl AppError {
    pub fn msg(s: String) -> (e: AppError)
        ensures
            e matches AppError::Message(m) && m@ == s@,
    {
        AppError::Message(s)
    }

    /// The user-facing text of the error: its kind's prefix, then its detail.
    pub fn message(&self) -> (r: String)
        ensures
            match self {
                AppError::Message(s) => r@ == s@,
                AppError::Unsupported(s) => r@ == "not supported on this platform: "@ + s@,
                AppError::DeviceNotFound(s) => r@ == "device not found: "@ + s@,
                AppError::Permission(s) => r@ == "permission denied: "@ + s@,
                AppError::Io(_) => crate::text::starts_with(r@, "io: "@),
                AppError::Json(_) => crate::text::starts_with(r@, "json: "@),
            },
    {
        match self {
            AppError::Message(s) => s.clone(),
            AppError::Unsupported(s) => prefixed("not supported on this platform: ", s.as_str()),
            AppError::DeviceNotFound(s) => prefixed("device not found: ", s.as_str()),
            AppError::Permission(s) => prefixed("permission denied: ", s.as_str()),
            AppError::Io(e) => {
                let t = io_error_text(e);
                let r = prefixed("io: ", t.as_str());
                assert(r@.subrange(0, "io: "@.len() as int) =~= "io: "@);
                r
            },
            AppError::Json(e) => {
                let t = json_error_text(e);
                let r = prefixed("json: ", t.as_str());
                assert(r@.subrange(0, "json: "@.len() as int) =~= "json: "@);
                r
            },
        }
    }
}

fn prefixed(p: &str, s: &str) -> (r: String)
    ensures
        r@ == p@ + s@,
{
    let mut v = chars_of(p);
    append_str(&mut v, s);
    string_of(&v)
}

/// An `Unsupported` error with the given detail.
pub fn unsupported(s: &str) -> (e: AppError)
    ensures
        e matches AppError::Unsupported(m) && m@ == s@,
{
    AppError::Unsupported(s.to_string())
}

} // verus!

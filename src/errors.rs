//! Errors that stop the dashboard before it starts.

use vstd::prelude::*;

verus! {

#[verifier::external_type_specification]
#[verifier::external_body]
pub struct ExIoError(std::io::Error);

/// Why the dashboard cannot start.
#[derive(Debug)]
pub enum AppError {
    NotInitialized,
    GhNotAuthenticated,
    DatabaseError(String),
    IoError(std::io::Error),
}

/// Relies on `std::io::Error`'s `Display`: its message.
#[verifier::external_body]
fn io_message(e: &std::io::Error) -> (r: String) {
    e.to_string()
}

impl AppError {
    /// The message shown for the error.
    pub fn message(&self) -> (r: String)
        ensures
            *self is NotInitialized ==> r@ == "Run 'project-dashboard --init' first"@,
            *self is GhNotAuthenticated ==> r@ == "Run 'gh auth login' first"@,
            *self matches AppError::DatabaseError(m) ==> r@ == "Database error: "@ + m@,
            *self is IoError ==> exists|t: Seq<char>| r@ == #[trigger] ("IO error: "@ + t),
    {
        match self {
            AppError::NotInitialized => String::from_str("Run 'project-dashboard --init' first"),
            AppError::GhNotAuthenticated => String::from_str("Run 'gh auth login' first"),
            AppError::DatabaseError(msg) => String::from_str("Database error: ").concat(msg.as_str()),
            AppError::IoError(e) => {
                let t = io_message(e);
                let r = String::from_str("IO error: ").concat(t.as_str());
                assert(r@ == "IO error: "@ + t@);
                r
            },
        }
    }
}

impl From<std::io::Error> for AppError {
    fn from(e: std::io::Error) -> (r: AppError) {
        AppError::IoError(e)
    }
}

impl vstd::std_specs::convert::FromSpecImpl<std::io::Error> for AppError {
    open spec fn obeys_from_spec() -> bool {
        true
    }

    open spec fn from_spec(e: std::io::Error) -> AppError {
        AppError::IoError(e)
    }
}

} // verus!

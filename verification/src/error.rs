//! What can go wrong outside the index.

use crate::text::decimal_text;
use vstd::prelude::*;

verus! {

/// An error of the system, of a file operation or of an expression, with the text that
/// came with it.
#[derive(Debug)]
pub enum AppError {
    WindowsApi(u32),
    Io(String),
    Regex(String),
}

/// The text that an error is shown with.
pub open spec fn error_text(e: AppError) -> Seq<char> {
    match e {
        AppError::WindowsApi(code) => "Windows API error: "@ + crate::text::decimal(code as nat),
        AppError::Io(what) => "IO error: "@ + what@,
        AppError::Regex(what) => "Regex error: "@ + what@,
    }
}

impl AppError {
    /// The text that the error is shown with.
    pub fn message(&self) -> (r: String)
        ensures
            r@ == error_text(*self),
    {
        match self {
            AppError::WindowsApi(code) => {
                let mut r = "Windows API error: ".to_string();
                r.append(decimal_text(*code as u64).as_str());
                r
            },
            AppError::Io(what) => {
                let mut r = "IO error: ".to_string();
                r.append(what.as_str());
                r
            },
            AppError::Regex(what) => {
                let mut r = "Regex error: ".to_string();
                r.append(what.as_str());
                r
            },
        }
    }
}

/// What an operation that can fail gives.
pub type Result<T> = std::result::Result<T, AppError>;

} // verus!

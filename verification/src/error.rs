//! The error type every fallible operation of the library reports.

use vstd::prelude::*;

verus! {

/// A failure with a stable `code` from the app's error taxonomy, the module
/// that raised it, a human-readable message, and optional structured detail
/// for the error log (a JSON object, as text).
#[derive(Debug)]
pub struct AppError {
    pub module: &'static str,
    pub code: &'static str,
    pub message: String,
    pub context: Option<String>,
}

impl AppError {
    pub fn new(module: &'static str, code: &'static str, message: String) -> (e: AppError)
        ensures
            e.module == module,
            e.code == code,
            e.message@ == message@,
            e.context is None,
    {
        AppError { module, code, message, context: None }
    }

    /// The same error, carrying `context` as its structured detail.
    pub fn with_context(self, context: String) -> (e: AppError)
        ensures
            e.module == self.module,
            e.code == self.code,
            e.message@ == self.message@,
            e.context matches Some(c) && c@ == context@,
    {
        AppError { module: self.module, code: self.code, message: self.message, context: Some(context) }
    }
}

} // verus!

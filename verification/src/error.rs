//! What a request can fail with.
use vstd::prelude::*;

use crate::content::ContentError;
use crate::text::append;

verus! {

/// Why a request could not be answered.
#[derive(Debug)]
pub enum AppError {
    NotFound { path: String },
    Content(ContentError),
}

impl AppError {
    /// The error for content missing at `path`.
    pub fn not_found(path: String) -> (e: AppError)
        ensures
            e matches AppError::NotFound { path: p } && p@ == path@,
    {
        AppError::NotFound { path }
    }

    /// The text this error is shown with.
    pub fn message(&self) -> (m: String)
        ensures
            m@ == match *self {
                AppError::NotFound { path } => "content was not found at "@ + path@,
                AppError::Content(_) => "content repository failed"@,
            },
    {
        match self {
            AppError::NotFound { path } => {
                let mut m = "content was not found at ".to_owned();
                append(&mut m, path);
                m
            },
            AppError::Content(_) => "content repository failed".to_owned(),
        }
    }
}

impl From<ContentError> for AppError {
    fn from(error: ContentError) -> (e: AppError) {
        AppError::Content(error)
    }
}

impl vstd::std_specs::convert::FromSpecImpl<ContentError> for AppError {
    open spec fn obeys_from_spec() -> bool {
        true
    }

    open spec fn from_spec(v: ContentError) -> AppError {
        AppError::Content(v)
    }
}

} // verus!

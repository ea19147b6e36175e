//! The decisions of the wash endpoint: which URL a request names, what it answers,
//! and which status each failure gets.
use crate::redirect::WashError;
use crate::web_url::{parsed_url, WebUrl};
use vstd::prelude::*;
use vstd::string::StringExecFns;

verus! {

/// A failure that is the caller's fault.
#[derive(Clone, Copy, PartialEq, Eq, Debug, Structural)]
pub enum UserError {
    InvalidUrl,
}

/// A failure of the wash endpoint.
#[derive(Clone, Copy, PartialEq, Eq, Debug, Structural)]
pub enum AppError {
    User(UserError),
    Internal(WashError),
}

impl From<UserError> for AppError {
    fn from(err: UserError) -> (r: AppError) {
        AppError::User(err)
    }
}

impl vstd::std_specs::convert::FromSpecImpl<UserError> for AppError {
    open spec fn obeys_from_spec() -> bool {
        true
    }

    open spec fn from_spec(v: UserError) -> AppError {
        AppError::User(v)
    }
}

impl From<WashError> for AppError {
    fn from(err: WashError) -> (r: AppError) {
        AppError::Internal(err)
    }
}

impl vstd::std_specs::convert::FromSpecImpl<WashError> for AppError {
    open spec fn obeys_from_spec() -> bool {
        true
    }

    open spec fn from_spec(v: WashError) -> AppError {
        AppError::Internal(v)
    }
}

pub open spec fn status_spec(e: AppError) -> u16 {
    match e {
        AppError::User(_) => 400,
        AppError::Internal(WashError::InvalidUrl) => 400,
        AppError::Internal(_) => 500,
    }
}

impl AppError {
    /// The HTTP status of the answer: a malformed URL is the client's error, anything
    /// else a server error.
    pub fn status(&self) -> (r: u16)
        ensures
            r == status_spec(*self),
    {
        match self {
            AppError::User(_) => 400,
            AppError::Internal(WashError::InvalidUrl) => 400,
            AppError::Internal(_) => 500,
        }
    }

    /// The body of the answer, which tells nothing of the failure's inner cause.
    pub fn message(&self) -> (r: String)
        ensures
            r@ == if status_spec(*self) == 400 {
                "invalid url"@
            } else {
                "internal server error"@
            },
    {
        if self.status() == 400 {
            String::from_str("invalid url")
        } else {
            String::from_str("internal server error")
        }
    }
}

/// The URL named by the `url` parameter of a wash request.
pub fn requested_url(query_url: &str) -> (r: Result<WebUrl, AppError>)
    ensures
        match r {
            Ok(u) => parsed_url(query_url@) == Some(u@),
            Err(e) => parsed_url(query_url@) is None && e == AppError::User(UserError::InvalidUrl),
        },
{
    match WebUrl::parse(query_url) {
        Some(u) => Ok(u),
        None => Err(AppError::User(UserError::InvalidUrl)),
    }
}

/// The answer to a wash request for `url`: the washed URL's text, or the URL's own
/// text where no rule applied.
pub fn answer_text(url: &WebUrl, outcome: Result<Option<WebUrl>, WashError>) -> (r: Result<String, AppError>)
    ensures
        match outcome {
            Ok(Some(w)) => r is Ok && r->Ok_0@ == w@.text(),
            Ok(None) => r is Ok && r->Ok_0@ == url@.text(),
            Err(e) => r == Err::<String, AppError>(AppError::Internal(e)),
        },
{
    match outcome {
        Ok(Some(w)) => Ok(w.text()),
        Ok(None) => Ok(url.text()),
        Err(e) => Err(AppError::Internal(e)),
    }
}

} // verus!

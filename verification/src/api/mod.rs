//! The remote-call envelope: every call answers with a status, a return
//! code and an optional payload.  The decisions taken on an answer —
//! which HTTP codes are acceptable and when a call counts as failed —
//! live here; the transport itself is an external collaborator.

pub mod data;

use vstd::prelude::*;

verus! {

/// The status field of a call's answer.
#[derive(Debug, PartialEq, Eq, Structural)]
pub enum APIStatus {
    /// The call succeeded.
    Okay,
    /// The call was queued for asynchronous handling; whether it
    /// succeeds cannot be known here.
    Async,
    /// The call failed.
    Failed,
}

pub open spec fn status_of_name(s: Seq<char>) -> APIStatus {
    if s == "ok"@ {
        APIStatus::Okay
    } else if s == "async"@ {
        APIStatus::Async
    } else {
        APIStatus::Failed
    }
}

pub open spec fn status_name(x: APIStatus) -> Seq<char> {
    match x {
        APIStatus::Okay => "ok"@,
        APIStatus::Async => "async"@,
        APIStatus::Failed => "failed"@,
    }
}

impl APIStatus {
    /// The status a wire string names; anything unrecognized counts as
    /// failed.
    pub fn from_name(s: &str) -> (r: APIStatus)
        ensures
            r == status_of_name(s@),
    {
        let v = crate::text::str_chars(s);
        if crate::text::chars_eq(&v, &crate::text::str_chars("ok")) {
            APIStatus::Okay
        } else if crate::text::chars_eq(&v, &crate::text::str_chars("async")) {
            APIStatus::Async
        } else {
            APIStatus::Failed
        }
    }

    /// The wire string of this status.
    pub fn to_string(&self) -> (r: String)
        ensures
            r@ == status_name(*self),
    {
        match self {
            APIStatus::Okay => "ok".to_owned(),
            APIStatus::Async => "async".to_owned(),
            APIStatus::Failed => "failed".to_owned(),
        }
    }
}

/// Why an answer was rejected before or after reading its body.
#[derive(Debug, PartialEq)]
pub enum ApiCallError {
    /// No access token was provided.
    TokenMissing,
    /// The access token does not match.
    TokenMismatch,
    /// No such remote call exists.
    NoSuchApi,
    /// The content type is not supported.
    BadContentType,
    /// Any other transport-level failure, with its HTTP status code.
    HttpFailure { code: u16 },
    /// The backend answered but reported the call as failed.
    CallFailed { message: String },
}

/// The decision taken on an HTTP status code before reading the body:
/// only 200 is acceptable, and four codes have a specific meaning.
pub fn check_http_status(code: u16) -> (r: Result<(), ApiCallError>)
    ensures
        code == 200 <==> r is Ok,
        code == 401 ==> r == Err::<(), _>(ApiCallError::TokenMissing),
        code == 403 ==> r == Err::<(), _>(ApiCallError::TokenMismatch),
        code == 404 ==> r == Err::<(), _>(ApiCallError::NoSuchApi),
        code == 406 ==> r == Err::<(), _>(ApiCallError::BadContentType),
        !(code == 200 || code == 401 || code == 403 || code == 404 || code == 406) ==> r == Err::<
            (),
            _,
        >(ApiCallError::HttpFailure { code }),
{
    if code == 200 {
        Ok(())
    } else if code == 401 {
        Err(ApiCallError::TokenMissing)
    } else if code == 403 {
        Err(ApiCallError::TokenMismatch)
    } else if code == 404 {
        Err(ApiCallError::NoSuchApi)
    } else if code == 406 {
        Err(ApiCallError::BadContentType)
    } else {
        Err(ApiCallError::HttpFailure { code })
    }
}

/// A call's decoded answer.
#[derive(Debug)]
pub struct APIResponse<T> {
    pub status: APIStatus,
    pub retcode: i32,
    pub message: String,
    pub wording: String,
    pub data: Option<T>,
    pub echo: String,
}

impl<T> APIResponse<T> {
    pub fn is_ok(&self) -> (r: bool)
        ensures
            r == (self.status is Okay),
    {
        self.status == APIStatus::Okay
    }

    pub fn is_async(&self) -> (r: bool)
        ensures
            r == (self.status is Async),
    {
        self.status == APIStatus::Async
    }

    pub fn is_failed(&self) -> (r: bool)
        ensures
            r == (self.status is Failed),
    {
        self.status == APIStatus::Failed
    }

    /// A failed answer becomes an error carrying the backend's message;
    /// any other answer passes through.
    pub fn accept(self) -> (r: Result<APIResponse<T>, ApiCallError>)
        ensures
            match r {
                Ok(resp) => !(self.status is Failed) && resp == self,
                Err(e) => self.status is Failed && e == (ApiCallError::CallFailed {
                    message: self.message,
                }),
            },
    {
        if self.is_failed() {
            Err(ApiCallError::CallFailed { message: self.message })
        } else {
            Ok(self)
        }
    }
}

} // verus!

//! The API error type and the HTTP response each error is answered with.
use vstd::prelude::*;

verus! {

/// Errors returned by request handlers.
#[derive(Debug)]
pub enum ApiError {
    NotFound,
    Unauthorized,
    Forbidden,
    BadRequest(String),
    Conflict(String),
    RateLimited,
    ServiceUnavailable(String),
    Internal(String),
}

impl ApiError {
    /// HTTP status code of the response for this error.
    pub open spec fn status_spec(&self) -> u16 {
        match self {
            ApiError::NotFound => 404,
            ApiError::Unauthorized => 401,
            ApiError::Forbidden => 403,
            ApiError::BadRequest(_) => 400,
            ApiError::Conflict(_) => 409,
            ApiError::RateLimited => 429,
            ApiError::ServiceUnavailable(_) => 503,
            ApiError::Internal(_) => 500,
        }
    }

    /// Text of the `error` and `message` fields of the response body.
    pub open spec fn message_spec(&self) -> Seq<char> {
        match self {
            ApiError::NotFound => "not found"@,
            ApiError::Unauthorized => "unauthorized"@,
            ApiError::Forbidden => "forbidden"@,
            ApiError::BadRequest(m) => "bad request: "@ + m@,
            ApiError::Conflict(m) => "conflict: "@ + m@,
            ApiError::RateLimited => "rate limited"@,
            ApiError::ServiceUnavailable(m) => "service unavailable: "@ + m@,
            ApiError::Internal(_) => "internal server error"@,
        }
    }

    pub fn status_code(&self) -> (r: u16)
        ensures
            r == self.status_spec(),
    {
        match self {
            ApiError::NotFound => 404,
            ApiError::Unauthorized => 401,
            ApiError::Forbidden => 403,
            ApiError::BadRequest(_) => 400,
            ApiError::Conflict(_) => 409,
            ApiError::RateLimited => 429,
            ApiError::ServiceUnavailable(_) => 503,
            ApiError::Internal(_) => 500,
        }
    }

    /// The message the response body carries; internal details are never exposed.
    pub fn message(&self) -> (r: String)
        ensures
            r@ == self.message_spec(),
    {
        match self {
            ApiError::NotFound => String::from_str("not found"),
            ApiError::Unauthorized => String::from_str("unauthorized"),
            ApiError::Forbidden => String::from_str("forbidden"),
            ApiError::BadRequest(m) => {
                let mut s = String::from_str("bad request: ");
                s.append(m.as_str());
                s
            },
            ApiError::Conflict(m) => {
                let mut s = String::from_str("conflict: ");
                s.append(m.as_str());
                s
            },
            ApiError::RateLimited => String::from_str("rate limited"),
            ApiError::ServiceUnavailable(m) => {
                let mut s = String::from_str("service unavailable: ");
                s.append(m.as_str());
                s
            },
            ApiError::Internal(_) => String::from_str("internal server error"),
        }
    }
}

/// `e` is a bad request carrying the message `msg`.
pub open spec fn is_bad_request(e: ApiError, msg: Seq<char>) -> bool {
    e matches ApiError::BadRequest(m) && m@ == msg
}

/// `e` is a service-unavailable error carrying the message `msg`.
pub open spec fn is_unavailable(e: ApiError, msg: Seq<char>) -> bool {
    e matches ApiError::ServiceUnavailable(m) && m@ == msg
}

/// A bad-request error with the given message.
pub fn bad_request(msg: &str) -> (e: ApiError)
    ensures
        e matches ApiError::BadRequest(m) && m@ == msg@,
{
    ApiError::BadRequest(String::from_str(msg))
}

} // verus!

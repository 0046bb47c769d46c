//! Error model of the proxy.
//!
//! A remote that replies with an S3 service error is reported to the client
//! with, in priority order: the error code, when the remote's code string is
//! a known S3 error code, else `InternalError`; the message; the request id;
//! and the HTTP status of the reply. A remote that does not reply at all
//! ("unreachable") never surfaces an error directly: routers skip it, writes
//! omit it, multipart calls cancel its entry.
//!
//! Whether a code string names a known S3 error code is decided by the S3
//! protocol library at the server edge, which hands the verdict in as the
//! plain `code_is_known` flag of [`convert_sdk_err`].

use vstd::prelude::*;

verus! {

/// Plain view of the metadata carried by one remote's service-error reply:
/// the code string, message and request id as the SDK exposes them, the
/// HTTP status of the raw response, and whether the code string was
/// recognized as a known S3 error code.
#[derive(Clone, Debug)]
pub struct RemoteErrorMeta {
    pub code: Option<String>,
    /// Whether `code` holds a known S3 error code; meaningless when `code`
    /// is `None`.
    pub code_is_known: bool,
    pub message: Option<String>,
    pub request_id: Option<String>,
    pub status: u16,
}

/// The S3 error code the proxy answers with.
#[derive(Clone, Debug)]
pub enum ProxyErrorCode {
    /// Backend flakiness, metadata-store failure, or an unrecognized remote
    /// error code.
    InternalError,
    /// A client-supplied upload id or continuation token that does not
    /// resolve to a record.
    InvalidToken,
    /// A request naming a bucket other than the configured virtual bucket.
    NoSuchBucket,
    /// A known S3 error code string passed through from a remote's reply.
    Service(String),
}

/// An S3 protocol error as the proxy reports it to the client.
#[derive(Clone, Debug)]
pub struct ProxyS3Error {
    pub code: ProxyErrorCode,
    pub message: Option<String>,
    pub request_id: Option<String>,
    pub status: Option<u16>,
}

impl ProxyS3Error {
    /// An error with the given code and nothing else.
    pub open spec fn just_code_spec(code: ProxyErrorCode) -> ProxyS3Error {
        ProxyS3Error { code, message: None, request_id: None, status: None }
    }

    /// The reply when no remote yields an outcome, or the proxy's own
    /// invariants fail.
    pub fn internal_error() -> (e: ProxyS3Error)
        ensures
            e == ProxyS3Error::just_code_spec(ProxyErrorCode::InternalError),
    {
        ProxyS3Error {
            code: ProxyErrorCode::InternalError,
            message: None,
            request_id: None,
            status: None,
        }
    }

    /// The reply to an invalid upload id or continuation token.
    pub fn invalid_token() -> (e: ProxyS3Error)
        ensures
            e == ProxyS3Error::just_code_spec(ProxyErrorCode::InvalidToken),
    {
        ProxyS3Error {
            code: ProxyErrorCode::InvalidToken,
            message: None,
            request_id: None,
            status: None,
        }
    }

    /// The reply to a request naming a bucket other than the virtual one.
    pub fn no_such_bucket() -> (e: ProxyS3Error)
        ensures
            e == ProxyS3Error::just_code_spec(ProxyErrorCode::NoSuchBucket),
    {
        ProxyS3Error {
            code: ProxyErrorCode::NoSuchBucket,
            message: None,
            request_id: None,
            status: None,
        }
    }
}

/// What `convert_sdk_err` returns: the code string when it is a known S3
/// code, else `InternalError`; message, request id and status carried over.
pub open spec fn spec_convert_sdk_err(m: RemoteErrorMeta) -> ProxyS3Error {
    ProxyS3Error {
        code: match m.code {
            Some(c) => if m.code_is_known {
                ProxyErrorCode::Service(c)
            } else {
                ProxyErrorCode::InternalError
            },
            None => ProxyErrorCode::InternalError,
        },
        message: m.message,
        request_id: m.request_id,
        status: Some(m.status),
    }
}

/// Converts the metadata of a remote's service-error reply to the S3
/// protocol error the client sees.
pub fn convert_sdk_err(m: RemoteErrorMeta) -> (e: ProxyS3Error)
    ensures
        e == spec_convert_sdk_err(m),
{
    let code_is_known = m.code_is_known;
    let code = match m.code {
        Some(c) => {
            if code_is_known {
                ProxyErrorCode::Service(c)
            } else {
                ProxyErrorCode::InternalError
            }
        },
        None => ProxyErrorCode::InternalError,
    };
    ProxyS3Error { code, message: m.message, request_id: m.request_id, status: Some(m.status) }
}

} // verus!

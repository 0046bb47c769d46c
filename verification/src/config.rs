//! Configuration data: the virtual bucket and the set of configured remotes.
//!
//! A remote is described by an `S3Target`: a unique name, a read priority
//! (higher is preferred), a read-eligibility flag, and the credentials of the
//! backing S3 endpoint. Fields left out of a configuration file fall back to
//! `default_priority` and `default_read_request`.

use vstd::prelude::*;

verus! {

/// Credentials and location of one backing S3 endpoint.
#[derive(Clone)]
pub struct S3Credential {
    pub endpoint: String,
    pub access_key: String,
    pub secret_key: String,
    pub bucket: String,
}

/// One configured remote: an immutable descriptor shared by the facade and
/// all in-flight requests.
#[derive(Clone)]
pub struct S3Target {
    /// The name of the target; unique within a configuration.
    pub name: String,
    /// Read priority of this target; read requests are routed to reachable
    /// read-eligible targets of the highest priority first.
    pub priority: u32,
    /// Whether this target is eligible for first-tier reads. Targets with
    /// `read_request == false` are only consulted when every eligible target
    /// is unreachable.
    pub read_request: bool,
    pub s3: S3Credential,
}

/// The whole proxy configuration: the virtual bucket presented to clients
/// and the remotes behind it.
#[derive(Clone)]
pub struct Config {
    pub remotes: Vec<S3Target>,
    pub access_key: String,
    pub secret_key: String,
    pub bucket: String,
}

/// Priority assumed for a target whose configuration does not set one.
pub fn default_priority() -> (p: u32)
    ensures
        p == 1u32,
{
    1
}

/// Read eligibility assumed for a target whose configuration does not set it.
pub fn default_read_request() -> (r: bool)
    ensures
        r == true,
{
    true
}

impl S3Target {
    /// Builds a target from configuration fields, filling the optional ones
    /// with their documented defaults.
    pub fn from_fields(
        name: String,
        priority: Option<u32>,
        read_request: Option<bool>,
        s3: S3Credential,
    ) -> (t: S3Target)
        ensures
            t.name == name,
            t.priority == (match priority {
                Some(p) => p,
                None => 1u32,
            }),
            t.read_request == (match read_request {
                Some(r) => r,
                None => true,
            }),
            t.s3 == s3,
    {
        let priority: u32 = match priority {
            Some(p) => p,
            None => default_priority(),
        };
        let read_request: bool = match read_request {
            Some(r) => r,
            None => default_read_request(),
        };
        S3Target { name, priority, read_request, s3 }
    }
}

} // verus!

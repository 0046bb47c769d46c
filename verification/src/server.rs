//! The proxy facade: the virtual bucket, the configured remotes, and the
//! per-request decisions that do not touch the network.
//!
//! The facade presents exactly one bucket to clients. Bucket-level requests
//! are answered locally: listing buckets yields the virtual bucket alone,
//! and a request naming any other bucket is rejected with `NoSuchBucket`.
//! Requests on objects are decided by the read router, the write fan-out
//! and the multipart coordinator, each fed plain per-remote outcomes by the
//! surrounding I/O layer.

use vstd::prelude::*;

use crate::config::S3Target;
use crate::error::{ProxyErrorCode, ProxyS3Error};
use crate::multipart::{MultipartUploadIds, resolve_upload_targets, resolves_to};
use crate::router::{is_index_permutation, read_plan, read_sorted, read_stable};

verus! {

/// The proxy's shared state: the virtual bucket name and the immutable
/// remote descriptors. Live handles — S3 clients, mailboxes, the metadata
/// store — stay with the I/O layer that owns the sockets.
pub struct S3Reproxy {
    /// The single bucket name advertised to clients.
    pub bucket: String,
    /// The configured remotes, in configuration order.
    pub remotes: Vec<S3Target>,
}

impl S3Reproxy {
    /// Builds the facade for a configuration.
    pub fn new(bucket: String, remotes: Vec<S3Target>) -> (s: S3Reproxy)
        ensures
            s.bucket == bucket,
            s.remotes == remotes,
    {
        S3Reproxy { bucket, remotes }
    }

    /// `ListBuckets` is answered locally: exactly one bucket, the virtual
    /// one.
    pub fn list_buckets(&self) -> (names: Vec<String>)
        ensures
            names@.len() == 1,
            names@[0]@ == self.bucket@,
    {
        let mut names: Vec<String> = Vec::new();
        names.push(self.bucket.clone());
        names
    }

    /// Whether a request's bucket is the virtual bucket.
    pub open spec fn bucket_matches(self, bucket: Seq<char>) -> bool {
        bucket == self.bucket@
    }

    /// `HeadBucket`: succeeds exactly when the request names the virtual
    /// bucket, else `NoSuchBucket`.
    pub fn head_bucket(&self, bucket: &String) -> (out: Result<(), ProxyS3Error>)
        ensures
            out is Ok <==> self.bucket_matches(bucket@),
            out is Err ==> out->Err_0 == ProxyS3Error::just_code_spec(ProxyErrorCode::NoSuchBucket),
    {
        if bucket.eq(&self.bucket) {
            Ok(())
        } else {
            Err(ProxyS3Error::no_such_bucket())
        }
    }

    /// `GetBucketLocation`: the same check as `HeadBucket`; the location
    /// itself is the S3 default and carries no payload.
    pub fn get_bucket_location(&self, bucket: &String) -> (out: Result<(), ProxyS3Error>)
        ensures
            out is Ok <==> self.bucket_matches(bucket@),
            out is Err ==> out->Err_0 == ProxyS3Error::just_code_spec(ProxyErrorCode::NoSuchBucket),
    {
        if bucket.eq(&self.bucket) {
            Ok(())
        } else {
            Err(ProxyS3Error::no_such_bucket())
        }
    }

    /// The order in which reads try the remotes: read-eligible first,
    /// higher priority first within a tier, every remote exactly once.
    pub fn read_order(&self) -> (order: Vec<usize>)
        ensures
            order@.len() == self.remotes@.len(),
            forall|p: int|
                0 <= p < order@.len() ==> (#[trigger] order@[p] as int) < self.remotes@.len(),
            read_sorted(self.remotes@, order@),
            read_stable(self.remotes@, order@),
            is_index_permutation(order@, self.remotes@.len() as int),
    {
        read_plan(&self.remotes)
    }

    /// Opens a multipart step: takes the session record the metadata store
    /// yielded for a client-visible upload id — `None` when the id did not
    /// resolve — and returns the record with each entry resolved to the
    /// remote it targets. A missing or terminal record is the client's
    /// fault: `InvalidToken`.
    pub fn initiate_multipart(&self, record: Option<MultipartUploadIds>) -> (out: Result<
        (MultipartUploadIds, Vec<Option<usize>>),
        ProxyS3Error,
    >)
        ensures
            match record {
                None => out == Result::<(MultipartUploadIds, Vec<Option<usize>>), ProxyS3Error>::Err(
                    ProxyS3Error::just_code_spec(ProxyErrorCode::InvalidToken),
                ),
                Some(rec) => {
                    if rec.is_live_spec() {
                        &&& out is Ok
                        &&& out->Ok_0.0 == rec
                        &&& out->Ok_0.1@.len() == rec.upload_ids@.len()
                        &&& forall|i: int|
                            0 <= i < rec.upload_ids@.len() ==> resolves_to(
                                rec.upload_ids@[i],
                                self.remotes@,
                                #[trigger] out->Ok_0.1@[i],
                            )
                    } else {
                        out == Result::<(MultipartUploadIds, Vec<Option<usize>>), ProxyS3Error>::Err(
                            ProxyS3Error::just_code_spec(ProxyErrorCode::InvalidToken),
                        )
                    }
                },
            },
    {
        match record {
            None => Err(ProxyS3Error::invalid_token()),
            Some(rec) => {
                if !rec.is_live() {
                    return Err(ProxyS3Error::invalid_token());
                }
                let targets = resolve_upload_targets(&rec.upload_ids, &self.remotes);
                Ok((rec, targets))
            },
        }
    }
}

} // verus!

//! Core logic of an S3-compatible reverse proxy that mirrors one virtual
//! bucket onto several real S3 backends ("remotes"): write fan-out with
//! inconsistency detection, priority-ordered read routing, body duplication
//! for streaming payloads, multipart-upload coordination across remotes, and
//! continuation-token translation for paginated listings.

mod body;
mod config;
mod error;
mod fanout;
mod ids;
mod listing;
mod multipart;
mod router;
mod server;

pub use body::{BodyMultiplier, lemma_body_duplication, lemma_slow_consumer_isolation};
pub use config::{Config, S3Credential, S3Target, default_priority, default_read_request};
pub use ids::{
    RecordId, bytes_of_hex, client_record_token, hex_of_bytes, is_record_id_hex,
    lemma_hex_round_trip, parse_record_id,
};
pub use listing::{
    ListObjectTokens, effective_start_after, lemma_token_round_trip, next_token_start_after,
    spec_consume, spec_effective_start_after, spec_mint, spec_next_token_start_after,
};
pub use error::{ProxyErrorCode, ProxyS3Error, RemoteErrorMeta, convert_sdk_err, spec_convert_sdk_err};
pub use multipart::{
    MultipartUploadIds, PartAttempt, PartUploadStatus, RemoteMultipartUploadId, all_entries_open,
    complete_multipart_outcome, create_entries_of, create_multipart_outcome,
    lemma_cancellation_monotonic, resolve_upload_targets, resolves_to, update_statuses,
};
pub use server::S3Reproxy;
pub use router::{
    first_reply_position, is_index_permutation, lemma_fallback_reads, lemma_read_ordering,
    read_plan, read_pref_eq, read_pref_ge, read_sorted, read_stable, route_read, upto,
};
pub use fanout::{
    FanOutConsistency, collect_replies, first_failure, first_success, has_failure, has_success,
    lemma_reply_extend, lemma_write_survivability, output_remote_inconsistent, replies_of,
    spec_consistency,
};

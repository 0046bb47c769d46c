use s3_reproxy::{
    BodyMultiplier, Config, FanOutConsistency, ListObjectTokens, PartAttempt, PartUploadStatus,
    ProxyErrorCode, ProxyS3Error, RemoteErrorMeta, RemoteMultipartUploadId, MultipartUploadIds,
    RecordId, S3Credential, S3Reproxy, S3Target, client_record_token, collect_replies,
    complete_multipart_outcome, convert_sdk_err, create_multipart_outcome, default_priority,
    default_read_request, effective_start_after, next_token_start_after,
    output_remote_inconsistent, parse_record_id, read_plan, resolve_upload_targets, route_read,
    update_statuses,
};

fn cred(bucket: &str) -> S3Credential {
    S3Credential {
        endpoint: "http://localhost:8080".to_string(),
        access_key: "abcabc".to_string(),
        secret_key: "defdef".to_string(),
        bucket: bucket.to_string(),
    }
}

fn target(name: &str, priority: u32, read_request: bool) -> S3Target {
    S3Target { name: name.to_string(), priority, read_request, s3: cred("test") }
}

fn meta(code: Option<&str>, known: bool, status: u16) -> RemoteErrorMeta {
    RemoteErrorMeta {
        code: code.map(|c| c.to_string()),
        code_is_known: known,
        message: Some("remote message".to_string()),
        request_id: Some("req-1".to_string()),
        status,
    }
}

fn is_code(e: &ProxyS3Error, want: &ProxyErrorCode) -> bool {
    match (&e.code, want) {
        (ProxyErrorCode::InternalError, ProxyErrorCode::InternalError) => true,
        (ProxyErrorCode::InvalidToken, ProxyErrorCode::InvalidToken) => true,
        (ProxyErrorCode::NoSuchBucket, ProxyErrorCode::NoSuchBucket) => true,
        (ProxyErrorCode::Service(a), ProxyErrorCode::Service(b)) => a == b,
        _ => false,
    }
}

#[test]
fn target_defaults_apply() {
    assert_eq!(default_priority(), 1);
    assert!(default_read_request());
    let t = S3Target::from_fields("cloudflare-r2".to_string(), None, None, cred("test"));
    assert_eq!(t.name, "cloudflare-r2");
    assert_eq!(t.priority, 1);
    assert!(t.read_request);
    assert_eq!(t.s3.bucket, "test");
}

#[test]
fn target_explicit_fields_kept() {
    let t = S3Target::from_fields(
        "local-minio".to_string(),
        Some(5),
        Some(false),
        cred("test2"),
    );
    assert_eq!(t.priority, 5);
    assert!(!t.read_request);
    let config = Config {
        remotes: vec![t],
        access_key: "abcabc".to_string(),
        secret_key: "defdef".to_string(),
        bucket: "virtual".to_string(),
    };
    assert_eq!(config.remotes.len(), 1);
    assert_eq!(config.remotes[0].name, "local-minio");
}

#[test]
fn convert_known_code_passes_through() {
    let e = convert_sdk_err(meta(Some("AccessDenied"), true, 403));
    assert!(is_code(&e, &ProxyErrorCode::Service("AccessDenied".to_string())));
    assert_eq!(e.message.as_deref(), Some("remote message"));
    assert_eq!(e.request_id.as_deref(), Some("req-1"));
    assert_eq!(e.status, Some(403));
}

#[test]
fn convert_unknown_code_is_internal_error() {
    let e = convert_sdk_err(meta(Some("SomethingVendorSpecific"), false, 500));
    assert!(is_code(&e, &ProxyErrorCode::InternalError));
    assert_eq!(e.status, Some(500));
}

#[test]
fn convert_missing_code_is_internal_error() {
    let e = convert_sdk_err(meta(None, false, 503));
    assert!(is_code(&e, &ProxyErrorCode::InternalError));
}

#[test]
fn fanout_all_ok_picks_first_success() {
    let results: Vec<(String, Result<u32, RemoteErrorMeta>)> =
        vec![("r1".to_string(), Ok(11)), ("r2".to_string(), Ok(22))];
    let (out, consistency) = output_remote_inconsistent(results);
    assert_eq!(out.unwrap(), 11);
    assert_eq!(consistency, FanOutConsistency::AllOk);
}

#[test]
fn fanout_mixed_returns_success_and_reports_inconsistency() {
    // one remote accepts, the other replies AccessDenied: the client sees
    // the success, the operator sees the divergence
    let results: Vec<(String, Result<u32, RemoteErrorMeta>)> = vec![
        ("r1".to_string(), Ok(200)),
        ("r2".to_string(), Err(meta(Some("AccessDenied"), true, 403))),
    ];
    let (out, consistency) = output_remote_inconsistent(results);
    assert_eq!(out.unwrap(), 200);
    assert_eq!(consistency, FanOutConsistency::Mixed);
}

#[test]
fn fanout_all_failed_returns_first_failure_converted() {
    let results: Vec<(String, Result<u32, RemoteErrorMeta>)> = vec![
        ("r1".to_string(), Err(meta(Some("NoSuchKey"), true, 404))),
        ("r2".to_string(), Err(meta(Some("AccessDenied"), true, 403))),
    ];
    let (out, consistency) = output_remote_inconsistent(results);
    let e = out.unwrap_err();
    assert!(is_code(&e, &ProxyErrorCode::Service("NoSuchKey".to_string())));
    assert_eq!(e.status, Some(404));
    assert_eq!(consistency, FanOutConsistency::AllFailed);
}

#[test]
fn fanout_no_replies_is_internal_error() {
    let results: Vec<(String, Result<u32, RemoteErrorMeta>)> = Vec::new();
    let (out, consistency) = output_remote_inconsistent(results);
    assert!(is_code(&out.unwrap_err(), &ProxyErrorCode::InternalError));
    assert_eq!(consistency, FanOutConsistency::NoneReachable);
}

#[test]
fn write_survives_one_accepting_remote() {
    // unreachable, service error, success: the write succeeds
    let all: Vec<(String, Option<Result<u32, RemoteErrorMeta>>)> = vec![
        ("r1".to_string(), None),
        ("r2".to_string(), Some(Err(meta(Some("AccessDenied"), true, 403)))),
        ("r3".to_string(), Some(Ok(7))),
    ];
    let replies = collect_replies(all);
    assert_eq!(replies.len(), 2);
    let (out, consistency) = output_remote_inconsistent(replies);
    assert_eq!(out.unwrap(), 7);
    assert_eq!(consistency, FanOutConsistency::Mixed);
}

#[test]
fn read_plan_sorts_by_eligibility_then_priority() {
    let remotes = vec![
        target("low", 1, true),
        target("fallback", 9, false),
        target("high", 5, true),
    ];
    let order = read_plan(&remotes);
    // read-eligible first, higher priority first within the tier
    assert_eq!(order, vec![2, 0, 1]);
}

#[test]
fn read_served_by_highest_priority_reachable() {
    // both reachable: the prio-5 remote serves; then it goes down and the
    // prio-3 remote serves
    let remotes = vec![target("r1", 5, true), target("r2", 3, true)];
    let order = read_plan(&remotes);
    assert_eq!(order, vec![0, 1]);

    let mut replies: Vec<Option<Result<&str, RemoteErrorMeta>>> =
        vec![Some(Ok("body-r1")), Some(Ok("body-r2"))];
    let (out, served) = route_read(&order, &mut replies);
    assert_eq!(out.unwrap(), "body-r1");
    assert_eq!(served, Some(0));

    let mut replies: Vec<Option<Result<&str, RemoteErrorMeta>>> =
        vec![None, Some(Ok("body-r2"))];
    let (out, served) = route_read(&order, &mut replies);
    assert_eq!(out.unwrap(), "body-r2");
    assert_eq!(served, Some(1));
}

#[test]
fn read_falls_back_to_ineligible_remote() {
    // the only read-eligible remote is unreachable: the read_request=false
    // remote serves
    let remotes = vec![target("r1", 1, true), target("r2", 1, false)];
    let order = read_plan(&remotes);
    assert_eq!(order, vec![0, 1]);
    let mut replies: Vec<Option<Result<&str, RemoteErrorMeta>>> = vec![None, Some(Ok("from-r2"))];
    let (out, served) = route_read(&order, &mut replies);
    assert_eq!(out.unwrap(), "from-r2");
    assert_eq!(served, Some(1));
}

#[test]
fn read_forwards_structured_error() {
    // a reply that is a service error ends the search and is converted
    let remotes = vec![target("r1", 5, true), target("r2", 3, true)];
    let order = read_plan(&remotes);
    let mut replies: Vec<Option<Result<&str, RemoteErrorMeta>>> = vec![
        Some(Err(meta(Some("NoSuchKey"), true, 404))),
        Some(Ok("never-reached")),
    ];
    let (out, served) = route_read(&order, &mut replies);
    assert!(is_code(&out.unwrap_err(), &ProxyErrorCode::Service("NoSuchKey".to_string())));
    assert_eq!(served, Some(0));
}

#[test]
fn read_exhausted_is_internal_error() {
    let remotes = vec![target("r1", 5, true), target("r2", 3, true)];
    let order = read_plan(&remotes);
    let mut replies: Vec<Option<Result<&str, RemoteErrorMeta>>> = vec![None, None];
    let (out, served) = route_read(&order, &mut replies);
    assert!(is_code(&out.unwrap_err(), &ProxyErrorCode::InternalError));
    assert_eq!(served, None);
}

fn entry(name: &str, upload_id: &str, status: PartUploadStatus) -> RemoteMultipartUploadId {
    RemoteMultipartUploadId {
        remote_name: name.to_string(),
        upload_id: upload_id.to_string(),
        status,
    }
}

#[test]
fn multipart_cancellation_is_authoritative() {
    // part 1: r2 fails at the transport level and is persisted Cancelled;
    // part 2 then targets r1 only; complete fails with InternalError
    let remotes = vec![target("r1", 1, true), target("r2", 1, true)];
    let entries = vec![
        entry("r1", "u1", PartUploadStatus::Open),
        entry("r2", "u2", PartUploadStatus::Open),
    ];
    let targets = resolve_upload_targets(&entries, &remotes);
    assert_eq!(targets, vec![Some(0), Some(1)]);

    let outcomes = vec![PartAttempt::Replied, PartAttempt::NoReply];
    let updated = update_statuses(entries, &outcomes);
    assert_eq!(updated[0].status, PartUploadStatus::Open);
    assert_eq!(updated[1].status, PartUploadStatus::Cancelled);
    assert_eq!(updated[1].remote_name, "r2");
    assert_eq!(updated[1].upload_id, "u2");

    // part 2 against the persisted record
    let targets = resolve_upload_targets(&updated, &remotes);
    assert_eq!(targets, vec![Some(0), None]);

    let (all_open, out) = complete_multipart_outcome(&updated);
    assert!(!all_open);
    assert!(is_code(&out.unwrap_err(), &ProxyErrorCode::InternalError));
}

#[test]
fn multipart_complete_succeeds_when_all_open() {
    let entries = vec![
        entry("r1", "u1", PartUploadStatus::Open),
        entry("r2", "u2", PartUploadStatus::Open),
    ];
    let (all_open, out) = complete_multipart_outcome(&entries);
    assert!(all_open);
    assert!(out.is_ok());
}

#[test]
fn multipart_entry_of_unconfigured_remote_is_skipped() {
    let remotes = vec![target("r1", 1, true)];
    let entries = vec![
        entry("r1", "u1", PartUploadStatus::Open),
        entry("gone", "u2", PartUploadStatus::Open),
    ];
    let targets = resolve_upload_targets(&entries, &remotes);
    assert_eq!(targets, vec![Some(0), None]);
}

#[test]
fn multipart_create_collects_successful_remotes() {
    // one remote opens the session, one replies with an error, one is
    // unreachable: the session is created on the survivors and the
    // divergence is reported
    let results = vec![
        ("r1".to_string(), Some(Ok("upload-a".to_string()))),
        ("r2".to_string(), Some(Err(meta(Some("AccessDenied"), true, 403)))),
        ("r3".to_string(), None),
        ("r4".to_string(), Some(Ok("upload-c".to_string()))),
    ];
    let (out, consistency) = create_multipart_outcome(results);
    let entries = out.unwrap();
    assert_eq!(consistency, FanOutConsistency::Mixed);
    assert_eq!(entries.len(), 2);
    assert_eq!(entries[0].remote_name, "r1");
    assert_eq!(entries[0].upload_id, "upload-a");
    assert_eq!(entries[0].status, PartUploadStatus::Open);
    assert_eq!(entries[1].remote_name, "r4");
}

#[test]
fn multipart_create_all_failed_returns_first_failure() {
    let results = vec![
        ("r1".to_string(), Some(Err(meta(Some("AccessDenied"), true, 403)))),
        ("r2".to_string(), Some(Err(meta(Some("NoSuchBucket"), true, 404)))),
    ];
    let (out, consistency) = create_multipart_outcome(results);
    let e = out.unwrap_err();
    assert!(is_code(&e, &ProxyErrorCode::Service("AccessDenied".to_string())));
    assert_eq!(consistency, FanOutConsistency::AllFailed);
}

#[test]
fn multipart_create_no_remotes_is_internal_error() {
    let results: Vec<(String, Option<Result<String, RemoteErrorMeta>>)> =
        vec![("r1".to_string(), None), ("r2".to_string(), None)];
    let (out, consistency) = create_multipart_outcome(results);
    assert!(is_code(&out.unwrap_err(), &ProxyErrorCode::InternalError));
    assert_eq!(consistency, FanOutConsistency::NoneReachable);
}

#[test]
fn initiate_multipart_rejects_missing_and_terminal_records() {
    let proxy = S3Reproxy::new("virtual".to_string(), vec![target("r1", 1, true)]);
    let out = proxy.initiate_multipart(None);
    assert!(is_code(&out.unwrap_err(), &ProxyErrorCode::InvalidToken));

    let terminal = MultipartUploadIds {
        upload_ids: vec![entry("r1", "u1", PartUploadStatus::Open)],
        created_at: 1000,
        completed_at: Some(2000),
        aborted_at: None,
    };
    let out = proxy.initiate_multipart(Some(terminal));
    assert!(is_code(&out.unwrap_err(), &ProxyErrorCode::InvalidToken));

    let live = MultipartUploadIds {
        upload_ids: vec![entry("r1", "u1", PartUploadStatus::Open)],
        created_at: 1000,
        completed_at: None,
        aborted_at: None,
    };
    let (rec, targets) = proxy.initiate_multipart(Some(live)).unwrap();
    assert_eq!(rec.upload_ids.len(), 1);
    assert_eq!(targets, vec![Some(0)]);
}

#[test]
fn listing_token_round_trip() {
    // first page a/1, a/2 with more results: a token is minted for a/2;
    // feeding it back resumes after a/2 and ignores the client's own
    // start_after; replaying the consumed token still resolves
    let keys = vec!["a/1".to_string(), "a/2".to_string()];
    let start_after = next_token_start_after(&keys, true).unwrap();
    assert_eq!(start_after, "a/2");

    let record = ListObjectTokens::mint(start_after, 1000);
    let record = record.consume(2000);
    assert_eq!(record.consumed_at, Some(2000));

    let out = effective_start_after(true, Some(&record), Some("client-key".to_string()));
    assert_eq!(out.unwrap(), Some("a/2".to_string()));

    // replayed consumption keeps the first timestamp and still resolves
    let record = record.consume(3000);
    assert_eq!(record.consumed_at, Some(2000));
    let out = effective_start_after(true, Some(&record), None);
    assert_eq!(out.unwrap(), Some("a/2".to_string()));
}

#[test]
fn listing_final_page_mints_no_token() {
    let keys = vec!["a/3".to_string()];
    assert_eq!(next_token_start_after(&keys, false), None);
    let empty: Vec<String> = Vec::new();
    assert_eq!(next_token_start_after(&empty, true), None);
}

#[test]
fn listing_unresolved_token_is_invalid() {
    let out = effective_start_after(true, None, Some("client-key".to_string()));
    assert!(is_code(&out.unwrap_err(), &ProxyErrorCode::InvalidToken));
    // no token: the client's start_after is used as given
    let out = effective_start_after(false, None, Some("client-key".to_string()));
    assert_eq!(out.unwrap(), Some("client-key".to_string()));
}

#[test]
fn bucket_checks_against_virtual_bucket() {
    let proxy = S3Reproxy::new("configured".to_string(), vec![target("r1", 1, true)]);
    assert!(proxy.head_bucket(&"configured".to_string()).is_ok());
    let e = proxy.head_bucket(&"other-bucket".to_string()).unwrap_err();
    assert!(is_code(&e, &ProxyErrorCode::NoSuchBucket));
    assert!(proxy.get_bucket_location(&"configured".to_string()).is_ok());
    let e = proxy.get_bucket_location(&"other-bucket".to_string()).unwrap_err();
    assert!(is_code(&e, &ProxyErrorCode::NoSuchBucket));
    assert_eq!(proxy.list_buckets(), vec!["configured".to_string()]);
}

#[test]
fn body_duplicates_chunks_to_all_consumers() {
    let mut body = BodyMultiplier::new(2);
    assert!(body.ready());
    let mut got0: Vec<u8> = Vec::new();
    let mut got1: Vec<u8> = Vec::new();

    body.offer(vec![1, 2, 3]);
    assert!(!body.ready());
    got0.extend(body.take(0));
    assert!(!body.ready());
    got1.extend(body.take(1));
    assert!(body.ready());

    body.offer(vec![4, 5]);
    got0.extend(body.take(0));
    got1.extend(body.take(1));
    body.close();

    assert_eq!(got0, vec![1, 2, 3, 4, 5]);
    assert_eq!(got1, vec![1, 2, 3, 4, 5]);
}

#[test]
fn body_dropped_consumer_stops_gating() {
    let mut body = BodyMultiplier::new(3);
    body.offer(vec![9, 9]);
    let mut got0: Vec<u8> = Vec::new();
    got0.extend(body.take(0));
    got0.extend(body.take(1));
    // consumer 2 never takes its chunk and is dropped: the source may be
    // pulled again by the survivors
    assert!(!body.ready());
    body.drop_consumer(2);
    assert!(body.ready());
    body.offer(vec![7]);
    let more = body.take(0);
    assert_eq!(more, vec![7]);
    body.close();
}

#[test]
fn record_id_parse_accepts_minted_ids() {
    let id = parse_record_id(&"0123456789abcdef01234567".to_string()).unwrap();
    assert_eq!(
        id.bytes,
        vec![0x01, 0x23, 0x45, 0x67, 0x89, 0xab, 0xcd, 0xef, 0x01, 0x23, 0x45, 0x67]
    );
    let hex = client_record_token(&id);
    assert_eq!(hex, "0123456789abcdef01234567");
    assert!(parse_record_id(&hex).is_ok());
    // upper case digits are accepted and denote the same bytes
    let upper = parse_record_id(&"0123456789ABCDEF01234567".to_string()).unwrap();
    assert_eq!(upper.bytes, id.bytes);
}

#[test]
fn record_token_names_its_id() {
    // the minted token renders exactly these bytes and parses back to them
    let id = RecordId { bytes: vec![0, 1, 2, 3, 4, 5, 0xf0, 0xff, 8, 9, 10, 11] };
    let token = client_record_token(&id);
    assert_eq!(token, "000102030405f0ff08090a0b");
    let parsed = parse_record_id(&token).unwrap();
    assert_eq!(parsed.bytes, id.bytes);
}

#[test]
fn read_plan_keeps_configuration_order_on_ties() {
    let remotes = vec![
        target("first", 2, true),
        target("second", 2, true),
        target("third", 2, true),
    ];
    assert_eq!(read_plan(&remotes), vec![0, 1, 2]);
}

#[test]
fn record_id_parse_rejects_malformed_tokens() {
    let e = parse_record_id(&"not-an-id".to_string()).unwrap_err();
    assert!(matches!(e.code, ProxyErrorCode::InvalidToken));
    let e = parse_record_id(&"0123456789abcdef0123456".to_string()).unwrap_err();
    assert!(matches!(e.code, ProxyErrorCode::InvalidToken));
    let e = parse_record_id(&"0123456789abcdef0123456z".to_string()).unwrap_err();
    assert!(matches!(e.code, ProxyErrorCode::InvalidToken));
    let e = parse_record_id(&"0123456789abcdef0123456\u{e9}".to_string()).unwrap_err();
    assert!(matches!(e.code, ProxyErrorCode::InvalidToken));
}

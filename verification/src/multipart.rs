//! Multipart-upload coordination across remotes.
//!
//! All authoritative state of a multipart session lives in a persistent
//! record keyed by the client-visible upload id: one `(remote name, remote
//! upload id, status)` entry per remote that opened the session, plus the
//! record's lifecycle timestamps. Every request re-reads the record, decides
//! on it with the functions here, and writes it back. An entry whose status
//! was persisted as `Cancelled` is authoritative: it is never targeted
//! again and never returns to `Open`.

use vstd::prelude::*;

use crate::config::S3Target;
use crate::error::{ProxyS3Error, RemoteErrorMeta, convert_sdk_err, spec_convert_sdk_err};
use crate::fanout::{FanOutConsistency, first_failure, has_failure, has_success, replies_of, spec_consistency};

verus! {

/// Lifecycle of one remote's participation in a multipart session.
#[derive(Clone, Copy, Debug, PartialEq, Eq, Structural)]
pub enum PartUploadStatus {
    /// The remote still takes parts of this session.
    Open,
    /// The remote was dropped from this session: a call to it failed at the
    /// transport level and another request may already have observed this.
    Cancelled,
}

/// One remote's entry in a multipart session record.
#[derive(Clone, Debug)]
pub struct RemoteMultipartUploadId {
    pub remote_name: String,
    pub upload_id: String,
    pub status: PartUploadStatus,
}

/// The persistent record of one multipart session. Its id in the metadata
/// store is the client-visible upload id. At most one of `completed_at` and
/// `aborted_at` is ever set; once either is set the record is terminal.
#[derive(Clone, Debug)]
pub struct MultipartUploadIds {
    pub upload_ids: Vec<RemoteMultipartUploadId>,
    pub created_at: i64,
    pub completed_at: Option<i64>,
    pub aborted_at: Option<i64>,
}

impl MultipartUploadIds {
    /// Whether the record still accepts `upload_part` / `complete` / `abort`.
    pub open spec fn is_live_spec(self) -> bool {
        self.completed_at is None && self.aborted_at is None
    }

    /// Exec check backing `is_live_spec`.
    pub fn is_live(&self) -> (r: bool)
        ensures
            r == self.is_live_spec(),
    {
        self.completed_at.is_none() && self.aborted_at.is_none()
    }
}

/// How one entry's remote call went, seen from the transport: not attempted
/// (the entry was cancelled or its remote is gone from the configuration),
/// attempted with no reply, or attempted and replied (with a success or a
/// service error).
#[derive(Clone, Copy, Debug, PartialEq, Eq, Structural)]
pub enum PartAttempt {
    NotAttempted,
    NoReply,
    Replied,
}

/// Whether `target` is what the entry resolves to: no target when the entry
/// is cancelled or its remote is no longer configured, else the first
/// configured remote of that name.
pub open spec fn resolves_to(
    entry: RemoteMultipartUploadId,
    remotes: Seq<S3Target>,
    target: Option<usize>,
) -> bool {
    match target {
        Some(k) => entry.status is Open && 0 <= (k as int) < remotes.len()
            && remotes[k as int].name@ == entry.remote_name@ && (forall|j: int|
            0 <= j < k ==> (#[trigger] remotes[j]).name@ != entry.remote_name@),
        None => entry.status is Cancelled || (forall|j: int|
            0 <= j < remotes.len() ==> (#[trigger] remotes[j]).name@ != entry.remote_name@),
    }
}

/// The first configured remote with the given name, if any.
fn find_remote(remotes: &Vec<S3Target>, name: &String) -> (r: Option<usize>)
    ensures
        match r {
            Some(k) => 0 <= (k as int) < remotes@.len() && remotes@[k as int].name@ == name@
                && (forall|j: int| 0 <= j < k ==> (#[trigger] remotes@[j]).name@ != name@),
            None => forall|j: int| 0 <= j < remotes@.len() ==> (#[trigger] remotes@[j]).name@ != name@,
        },
{
    let n = remotes.len();
    let mut j: usize = 0;
    while j < n
        invariant
            j <= n == remotes@.len(),
            forall|q: int| 0 <= q < j ==> (#[trigger] remotes@[q]).name@ != name@,
        decreases n - j,
    {
        if remotes[j].name.eq(name) {
            return Some(j);
        }
        j = j + 1;
    }
    None
}

/// Resolves each entry of a session record to the remote the next call
/// targets: `None` for a cancelled entry or one whose remote is no longer
/// configured — such an entry is treated exactly like a cancelled one and
/// is not called.
pub fn resolve_upload_targets(entries: &Vec<RemoteMultipartUploadId>, remotes: &Vec<S3Target>) -> (t:
    Vec<Option<usize>>)
    ensures
        t@.len() == entries@.len(),
        forall|i: int| 0 <= i < entries@.len() ==> resolves_to(entries@[i], remotes@, #[trigger] t@[i]),
        forall|i: int|
            0 <= i < entries@.len() && entries@[i].status is Cancelled ==> #[trigger] t@[i] is None,
{
    let n = entries.len();
    let mut t: Vec<Option<usize>> = Vec::new();
    let mut i: usize = 0;
    while i < n
        invariant
            i <= n == entries@.len(),
            t@.len() == i,
            forall|q: int| 0 <= q < i ==> resolves_to(entries@[q], remotes@, #[trigger] t@[q]),
        decreases n - i,
    {
        let target = match entries[i].status {
            PartUploadStatus::Open => find_remote(remotes, &entries[i].remote_name),
            PartUploadStatus::Cancelled => None,
        };
        t.push(target);
        i = i + 1;
    }
    t
}

/// Marks `Cancelled` every entry whose call failed at the transport level,
/// and keeps every other entry as it was. Names and per-remote upload ids
/// are untouched.
pub fn update_statuses(
    entries: Vec<RemoteMultipartUploadId>,
    outcomes: &Vec<PartAttempt>,
) -> (u: Vec<RemoteMultipartUploadId>)
    requires
        outcomes@.len() == entries@.len(),
    ensures
        u@.len() == entries@.len(),
        forall|i: int|
            0 <= i < entries@.len() ==> (#[trigger] u@[i]).remote_name == entries@[i].remote_name
                && u@[i].upload_id == entries@[i].upload_id && u@[i].status == (
            if outcomes@[i] is NoReply {
                PartUploadStatus::Cancelled
            } else {
                entries@[i].status
            }),
{
    let ghost orig = entries@;
    let mut u = entries;
    let n = u.len();
    let mut i: usize = 0;
    while i < n
        invariant
            i <= n == orig.len() == u@.len(),
            n == outcomes@.len(),
            forall|q: int| i <= q < n ==> #[trigger] u@[q] == orig[q],
            forall|q: int|
                0 <= q < i ==> (#[trigger] u@[q]).remote_name == orig[q].remote_name
                    && u@[q].upload_id == orig[q].upload_id && u@[q].status == (
                if outcomes@[q] is NoReply {
                    PartUploadStatus::Cancelled
                } else {
                    orig[q].status
                }),
        decreases n - i,
    {
        match outcomes[i] {
            PartAttempt::NoReply => {
                let name = u[i].remote_name.clone();
                let id = u[i].upload_id.clone();
                u.set(
                    i,
                    RemoteMultipartUploadId {
                        remote_name: name,
                        upload_id: id,
                        status: PartUploadStatus::Cancelled,
                    },
                );
            },
            _ => (),
        }
        i = i + 1;
    }
    u
}

/// Whether every entry of the record is still open.
pub fn all_entries_open(entries: &Vec<RemoteMultipartUploadId>) -> (r: bool)
    ensures
        r <==> (forall|i: int| 0 <= i < entries@.len() ==> (#[trigger] entries@[i]).status is Open),
{
    let n = entries.len();
    let mut i: usize = 0;
    while i < n
        invariant
            i <= n == entries@.len(),
            forall|q: int| 0 <= q < i ==> (#[trigger] entries@[q]).status is Open,
        decreases n - i,
    {
        match entries[i].status {
            PartUploadStatus::Open => (),
            PartUploadStatus::Cancelled => {
                return false;
            },
        }
        i = i + 1;
    }
    true
}

/// Decides how a `complete_multipart_upload` ends after its fan-out: when
/// every entry is still open the session is completed (the record gets its
/// completion timestamp) and the client sees a success; otherwise the
/// record is persisted without a completion timestamp and the client sees
/// `InternalError`, even though some remotes may have committed.
pub fn complete_multipart_outcome(entries: &Vec<RemoteMultipartUploadId>) -> (out: (
    bool,
    Result<(), ProxyS3Error>,
))
    ensures
        out.0 <==> (forall|i: int| 0 <= i < entries@.len() ==> (#[trigger] entries@[i]).status is Open),
        out.0 ==> out.1 is Ok,
        !out.0 ==> out.1 == Result::<(), ProxyS3Error>::Err(
            ProxyS3Error::just_code_spec(crate::error::ProxyErrorCode::InternalError),
        ),
{
    let all_open = all_entries_open(entries);
    if all_open {
        (true, Ok(()))
    } else {
        (false, Err(ProxyS3Error::internal_error()))
    }
}

/// The session entries opened by a `create_multipart_upload` fan-out: one
/// `Open` entry per remote that replied with an upload id, in dispatch
/// order; remotes that failed or did not reply are absent.
pub open spec fn create_entries_of(
    results: Seq<(String, Option<Result<String, RemoteErrorMeta>>)>,
) -> Seq<RemoteMultipartUploadId>
    decreases results.len(),
{
    if results.len() == 0 {
        Seq::empty()
    } else {
        create_entries_of(results.drop_last()) + match results.last().1 {
            Some(Ok(id)) => seq![
                RemoteMultipartUploadId {
                    remote_name: results.last().0,
                    upload_id: id,
                    status: PartUploadStatus::Open,
                },
            ],
            _ => Seq::empty(),
        }
    }
}

/// Decides how a `create_multipart_upload` ends, from the per-remote
/// outcomes (`None`: unreachable; else the remote's upload id or its
/// service error). The write policy applies: when at least one remote
/// opened the session, the client gets the record entries of exactly the
/// remotes that did; when every reply is a failure, the first failure
/// converted; when no remote replied, `InternalError`. The second
/// component says how the outcome is to be logged.
pub fn create_multipart_outcome(
    results: Vec<(String, Option<Result<String, RemoteErrorMeta>>)>,
) -> (out: (Result<Vec<RemoteMultipartUploadId>, ProxyS3Error>, FanOutConsistency))
    ensures
        out.1 == spec_consistency(replies_of(results@)),
        out.0 is Ok <==> has_success(replies_of(results@)),
        out.0 is Ok ==> out.0->Ok_0@ == create_entries_of(results@),
        !has_success(replies_of(results@)) && replies_of(results@).len() > 0 ==> out.0
            == Result::<Vec<RemoteMultipartUploadId>, ProxyS3Error>::Err(
            spec_convert_sdk_err(first_failure(replies_of(results@))->Some_0.1),
        ),
        replies_of(results@).len() == 0 ==> out.0 == Result::<
            Vec<RemoteMultipartUploadId>,
            ProxyS3Error,
        >::Err(ProxyS3Error::just_code_spec(crate::error::ProxyErrorCode::InternalError)),
{
    let ghost all = results@;
    let mut results = results;
    let mut entries: Vec<RemoteMultipartUploadId> = Vec::new();
    let mut first_err: Option<RemoteErrorMeta> = None;
    let mut any_reply: bool = false;
    let mut any_ok: bool = false;
    let mut any_err: bool = false;
    let n = results.len();
    let mut i: usize = 0;
    while i < n
        invariant
            results@ == all.skip(i as int),
            i <= n == all.len(),
            entries@ == create_entries_of(all.take(i as int)),
            any_reply == (replies_of(all.take(i as int)).len() > 0),
            any_ok == has_success(replies_of(all.take(i as int))),
            any_err == has_failure(replies_of(all.take(i as int))),
            match first_err {
                Some(m) => first_failure(replies_of(all.take(i as int))) is Some && first_failure(
                    replies_of(all.take(i as int)),
                )->Some_0.1 == m,
                None => first_failure(replies_of(all.take(i as int))) is None,
            },
        decreases n - i,
    {
        let ghost rp = replies_of(all.take(i as int));
        proof {
            assert(all.skip(i as int)[0] == all[i as int]);
            assert(all.take(i + 1).drop_last() =~= all.take(i as int));
            assert(all.take(i + 1).last() == all[i as int]);
        }
        let (name, outcome) = results.remove(0);
        match outcome {
            Some(Ok(id)) => {
                proof {
                    let x = (all[i as int].0, all[i as int].1->Some_0);
                    assert(replies_of(all.take(i + 1)) =~= rp.push(x));
                    crate::fanout::lemma_reply_extend(rp, x);
                }
                entries.push(
                    RemoteMultipartUploadId {
                        remote_name: name,
                        upload_id: id,
                        status: PartUploadStatus::Open,
                    },
                );
                any_reply = true;
                any_ok = true;
            },
            Some(Err(meta)) => {
                proof {
                    let x = (all[i as int].0, all[i as int].1->Some_0);
                    assert(replies_of(all.take(i + 1)) =~= rp.push(x));
                    crate::fanout::lemma_reply_extend(rp, x);
                }
                if first_err.is_none() {
                    first_err = Some(meta);
                }
                any_reply = true;
                any_err = true;
            },
            None => {
                proof {
                    assert(replies_of(all.take(i + 1)) =~= rp);
                }
            },
        }
        proof {
            assert(entries@ =~= create_entries_of(all.take(i + 1)));
            assert(all.skip(i as int).remove(0) =~= all.skip(i + 1));
        }
        i = i + 1;
    }
    proof {
        assert(all.take(n as int) =~= all);
    }
    if !any_reply {
        return (Err(ProxyS3Error::internal_error()), FanOutConsistency::NoneReachable);
    }
    if !any_ok {
        proof {
            let rp = replies_of(all);
            assert(rp[0].1 is Err);
        }
        let meta = match first_err {
            Some(m) => m,
            None => {
                proof {
                    assert(false);
                }
                RemoteErrorMeta {
                    code: None,
                    code_is_known: false,
                    message: None,
                    request_id: None,
                    status: 0,
                }
            },
        };
        return (Err(convert_sdk_err(meta)), FanOutConsistency::AllFailed);
    }
    let consistency = if any_err {
        FanOutConsistency::Mixed
    } else {
        FanOutConsistency::AllOk
    };
    (Ok(entries), consistency)
}

/// Cancellation monotonicity: an entry persisted as `Cancelled` is not
/// targeted by the next call of the session, and the status update after
/// that call leaves it `Cancelled`.
pub proof fn lemma_cancellation_monotonic(
    entries: Seq<RemoteMultipartUploadId>,
    remotes: Seq<S3Target>,
    targets: Seq<Option<usize>>,
    outcomes: Seq<PartAttempt>,
    updated: Seq<RemoteMultipartUploadId>,
    i: int,
)
    requires
        0 <= i < entries.len(),
        entries[i].status is Cancelled,
        targets.len() == entries.len(),
        outcomes.len() == entries.len(),
        updated.len() == entries.len(),
        // targets as resolve_upload_targets returns them
        forall|q: int| 0 <= q < entries.len() ==> resolves_to(entries[q], remotes, #[trigger] targets[q]),
        // a call is attempted only where there is a target
        forall|q: int| 0 <= q < entries.len() && #[trigger] targets[q] is None ==> outcomes[q] is NotAttempted,
        // statuses as update_statuses returns them
        forall|q: int|
            0 <= q < entries.len() ==> (#[trigger] updated[q]).status == (
            if outcomes[q] is NoReply {
                PartUploadStatus::Cancelled
            } else {
                entries[q].status
            }),
    ensures
        targets[i] is None,
        outcomes[i] is NotAttempted,
        updated[i].status is Cancelled,
{
    assert(resolves_to(entries[i], remotes, targets[i]));
    if targets[i] is Some {
        assert(entries[i].status is Open);
    }
}

} // verus!

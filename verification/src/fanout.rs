//! Write fan-out: collecting per-remote outcomes and applying the
//! inconsistent-outcome policy.
//!
//! A write is dispatched to every target remote; each remote either does not
//! reply at all (unreachable) or replies with a success or a service error.
//! The policy is biased toward availability: a write that reached at least
//! one remote is reported as a success, and a mixed outcome is surfaced to
//! the operator as an inconsistency while the client still sees the first
//! success.

use vstd::prelude::*;

use crate::error::{ProxyS3Error, RemoteErrorMeta, convert_sdk_err, spec_convert_sdk_err};

verus! {

/// How a fanned-out request went over all remotes, for operator logging.
#[derive(Clone, Copy, Debug, PartialEq, Eq, Structural)]
pub enum FanOutConsistency {
    /// Every remote that replied succeeded.
    AllOk,
    /// Every remote that replied failed.
    AllFailed,
    /// Some remotes succeeded and some failed: the divergence is logged at
    /// error level, the client sees a success.
    Mixed,
    /// No remote replied at all.
    NoneReachable,
}

/// The replies among the per-remote outcomes, in dispatch order: remotes
/// that did not reply are dropped.
pub open spec fn replies_of<T>(s: Seq<(String, Option<Result<T, RemoteErrorMeta>>)>) -> Seq<
    (String, Result<T, RemoteErrorMeta>),
>
    decreases s.len(),
{
    if s.len() == 0 {
        Seq::empty()
    } else {
        replies_of(s.drop_last()) + match s.last().1 {
            Some(r) => seq![(s.last().0, r)],
            None => Seq::empty(),
        }
    }
}

/// Whether some reply is a success.
pub open spec fn has_success<T>(s: Seq<(String, Result<T, RemoteErrorMeta>)>) -> bool {
    exists|i: int| 0 <= i < s.len() && s[i].1 is Ok
}

/// Whether some reply is a service error.
pub open spec fn has_failure<T>(s: Seq<(String, Result<T, RemoteErrorMeta>)>) -> bool {
    exists|i: int| 0 <= i < s.len() && s[i].1 is Err
}

/// The first success among the replies, with the name of the remote that
/// produced it.
pub open spec fn first_success<T>(s: Seq<(String, Result<T, RemoteErrorMeta>)>) -> Option<
    (String, T),
>
    decreases s.len(),
{
    if s.len() == 0 {
        None
    } else if s[0].1 is Ok {
        Some((s[0].0, s[0].1->Ok_0))
    } else {
        first_success(s.drop_first())
    }
}

/// The first service error among the replies, with the name of the remote
/// that produced it.
pub open spec fn first_failure<T>(s: Seq<(String, Result<T, RemoteErrorMeta>)>) -> Option<
    (String, RemoteErrorMeta),
>
    decreases s.len(),
{
    if s.len() == 0 {
        None
    } else if s[0].1 is Err {
        Some((s[0].0, s[0].1->Err_0))
    } else {
        first_failure(s.drop_first())
    }
}

/// How the inconsistency policy classifies a set of replies.
pub open spec fn spec_consistency<T>(s: Seq<(String, Result<T, RemoteErrorMeta>)>) -> FanOutConsistency {
    if s.len() == 0 {
        FanOutConsistency::NoneReachable
    } else if !has_success(s) {
        FanOutConsistency::AllFailed
    } else if has_failure(s) {
        FanOutConsistency::Mixed
    } else {
        FanOutConsistency::AllOk
    }
}

proof fn lemma_first_success_at<T>(s: Seq<(String, Result<T, RemoteErrorMeta>)>, k: int)
    requires
        0 <= k < s.len(),
        s[k].1 is Ok,
        forall|j: int| 0 <= j < k ==> !(s[j].1 is Ok),
    ensures
        first_success(s) == Some((s[k].0, s[k].1->Ok_0)),
    decreases k,
{
    if k == 0 {
    } else {
        lemma_first_success_at(s.drop_first(), k - 1);
    }
}

proof fn lemma_no_success<T>(s: Seq<(String, Result<T, RemoteErrorMeta>)>)
    requires
        forall|j: int| 0 <= j < s.len() ==> !(s[j].1 is Ok),
    ensures
        first_success(s) is None,
        !has_success(s),
    decreases s.len(),
{
    if s.len() > 0 {
        lemma_no_success(s.drop_first());
    }
}

proof fn lemma_first_failure_at<T>(s: Seq<(String, Result<T, RemoteErrorMeta>)>, k: int)
    requires
        0 <= k < s.len(),
        s[k].1 is Err,
        forall|j: int| 0 <= j < k ==> !(s[j].1 is Err),
    ensures
        first_failure(s) == Some((s[k].0, s[k].1->Err_0)),
    decreases k,
{
    if k == 0 {
    } else {
        lemma_first_failure_at(s.drop_first(), k - 1);
    }
}

/// How one more reply changes what the policy sees: the first success and
/// first failure stay once found, and a success or failure among the
/// replies stays one.
pub proof fn lemma_reply_extend<T>(
    s: Seq<(String, Result<T, RemoteErrorMeta>)>,
    x: (String, Result<T, RemoteErrorMeta>),
)
    ensures
        has_success(s.push(x)) <==> has_success(s) || x.1 is Ok,
        has_failure(s.push(x)) <==> has_failure(s) || x.1 is Err,
        first_success(s.push(x)) == (if first_success(s) is Some {
            first_success(s)
        } else if x.1 is Ok {
            Some((x.0, x.1->Ok_0))
        } else {
            None
        }),
        first_failure(s.push(x)) == (if first_failure(s) is Some {
            first_failure(s)
        } else if x.1 is Err {
            Some((x.0, x.1->Err_0))
        } else {
            None
        }),
    decreases s.len(),
{
    let t = s.push(x);
    assert(t[t.len() - 1] == x);
    if has_success(s) {
        let i = choose|i: int| 0 <= i < s.len() && s[i].1 is Ok;
        assert(t[i].1 is Ok);
    }
    if has_success(t) {
        let i = choose|i: int| 0 <= i < t.len() && t[i].1 is Ok;
        assert(i < s.len() ==> s[i].1 is Ok);
    }
    if has_failure(s) {
        let i = choose|i: int| 0 <= i < s.len() && s[i].1 is Err;
        assert(t[i].1 is Err);
    }
    if has_failure(t) {
        let i = choose|i: int| 0 <= i < t.len() && t[i].1 is Err;
        assert(i < s.len() ==> s[i].1 is Err);
    }
    if s.len() == 0 {
        assert(t[0] == x);
        assert(t.drop_first() =~= Seq::empty());
    } else {
        assert(t[0] == s[0]);
        assert(t.drop_first() =~= s.drop_first().push(x));
        lemma_reply_extend(s.drop_first(), x);
        assert(first_success(t.drop_first()) == first_success(s.drop_first().push(x)));
        assert(first_failure(t.drop_first()) == first_failure(s.drop_first().push(x)));
    }
}

/// Keeps only the remotes that replied, in dispatch order. Remotes that
/// were unreachable contribute no outcome to the policy.
pub fn collect_replies<T>(results: Vec<(String, Option<Result<T, RemoteErrorMeta>>)>) -> (r: Vec<
    (String, Result<T, RemoteErrorMeta>),
>)
    ensures
        r@ == replies_of(results@),
{
    let mut results = results;
    let mut r: Vec<(String, Result<T, RemoteErrorMeta>)> = Vec::new();
    let n = results.len();
    let ghost all = results@;
    let mut i: usize = 0;
    while i < n
        invariant
            results@ == all.skip(i as int),
            i <= n == all.len(),
            r@ == replies_of(all.take(i as int)),
        decreases n - i,
    {
        proof {
            assert(all.skip(i as int)[0] == all[i as int]);
        }
        let (name, outcome) = results.remove(0);
        match outcome {
            Some(reply) => r.push((name, reply)),
            None => (),
        }
        proof {
            assert(all.skip(i as int).remove(0) =~= all.skip(i + 1));
            assert(all.take(i + 1).drop_last() =~= all.take(i as int));
            assert(all.take(i + 1).last() == all[i as int]);
            assert(r@ =~= replies_of(all.take(i + 1)));
        }
        i = i + 1;
    }
    proof {
        assert(all.take(n as int) =~= all);
    }
    r
}

/// Applies the inconsistency policy to the replies of a fanned-out write:
/// the first success when there is one (even when other remotes failed),
/// else the first failure converted to a protocol error, else
/// `InternalError` when no remote replied at all. The second component says
/// how the outcome is to be logged.
pub fn output_remote_inconsistent<T>(results: Vec<(String, Result<T, RemoteErrorMeta>)>) -> (out: (
    Result<T, ProxyS3Error>,
    FanOutConsistency,
))
    ensures
        out.1 == spec_consistency(results@),
        out.0 is Ok <==> has_success(results@),
        has_success(results@) ==> Some((first_success(results@)->Some_0.0, out.0->Ok_0))
            == first_success(results@),
        !has_success(results@) && results@.len() > 0 ==> out.0 == Result::<T, ProxyS3Error>::Err(
            spec_convert_sdk_err(first_failure(results@)->Some_0.1),
        ),
        results@.len() == 0 ==> out.0 == Result::<T, ProxyS3Error>::Err(
            ProxyS3Error::just_code_spec(crate::error::ProxyErrorCode::InternalError),
        ),
{
    let n = results.len();
    let mut ok_at: Option<usize> = None;
    let mut err_at: Option<usize> = None;
    let mut i: usize = 0;
    while i < n
        invariant
            i <= n == results@.len(),
            match ok_at {
                Some(k) => k < i && results@[k as int].1 is Ok && forall|j: int|
                    0 <= j < k ==> !(results@[j].1 is Ok),
                None => forall|j: int| 0 <= j < i ==> !(results@[j].1 is Ok),
            },
            match err_at {
                Some(k) => k < i && results@[k as int].1 is Err && forall|j: int|
                    0 <= j < k ==> !(results@[j].1 is Err),
                None => forall|j: int| 0 <= j < i ==> !(results@[j].1 is Err),
            },
        decreases n - i,
    {
        match &results[i].1 {
            Ok(_) => {
                if ok_at.is_none() {
                    ok_at = Some(i);
                }
            },
            Err(_) => {
                if err_at.is_none() {
                    err_at = Some(i);
                }
            },
        }
        i = i + 1;
    }
    match ok_at {
        Some(k) => {
            proof {
                lemma_first_success_at(results@, k as int);
            }
            let consistency = if err_at.is_some() {
                FanOutConsistency::Mixed
            } else {
                FanOutConsistency::AllOk
            };
            let mut results = results;
            let (_name, reply) = results.remove(k);
            match reply {
                Ok(value) => (Ok(value), consistency),
                Err(_) => {
                    proof {
                        assert(false);
                    }
                    (Err(ProxyS3Error::internal_error()), consistency)
                },
            }
        },
        None => {
            proof {
                lemma_no_success(results@);
            }
            match err_at {
                Some(k) => {
                    proof {
                        lemma_first_failure_at(results@, k as int);
                    }
                    let mut results = results;
                    let (_name, reply) = results.remove(k);
                    match reply {
                        Err(meta) => (Err(convert_sdk_err(meta)), FanOutConsistency::AllFailed),
                        Ok(value) => {
                            proof {
                                assert(false);
                            }
                            (Ok(value), FanOutConsistency::AllFailed)
                        },
                    }
                },
                None => {
                    proof {
                        assert(results@.len() == 0) by {
                            if results@.len() > 0 {
                                assert(!(results@[0].1 is Ok) && !(results@[0].1 is Err));
                            }
                        }
                    }
                    (Err(ProxyS3Error::internal_error()), FanOutConsistency::NoneReachable)
                },
            }
        },
    }
}

/// Write survivability: over the full per-remote outcome list of a write
/// fan-out, the policy reports a success to the client exactly when at
/// least one remote accepted the write.
pub proof fn lemma_write_survivability<T>(all: Seq<(String, Option<Result<T, RemoteErrorMeta>>)>)
    ensures
        has_success(replies_of(all)) <==> exists|i: int|
            0 <= i < all.len() && all[i].1 is Some && all[i].1->Some_0 is Ok,
    decreases all.len(),
{
    if all.len() == 0 {
    } else {
        let prefix = all.drop_last();
        lemma_write_survivability(prefix);
        let r = replies_of(all);
        let rp = replies_of(prefix);
        if all.last().1 is Some && all.last().1->Some_0 is Ok {
            assert(r[r.len() - 1].1 is Ok);
            assert(all[all.len() - 1].1 is Some && all[all.len() - 1].1->Some_0 is Ok);
        } else {
            if has_success(r) {
                let i = choose|i: int| 0 <= i < r.len() && r[i].1 is Ok;
                assert(i < rp.len() ==> rp[i].1 is Ok);
            }
            if has_success(rp) {
                let i = choose|i: int| 0 <= i < rp.len() && rp[i].1 is Ok;
                assert(r[i].1 is Ok);
            }
            if exists|i: int| 0 <= i < all.len() && all[i].1 is Some && all[i].1->Some_0 is Ok {
                let i = choose|i: int|
                    0 <= i < all.len() && all[i].1 is Some && all[i].1->Some_0 is Ok;
                assert(i < prefix.len() ==> (prefix[i].1 is Some && prefix[i].1->Some_0 is Ok));
            }
            if exists|i: int|
                0 <= i < prefix.len() && prefix[i].1 is Some && prefix[i].1->Some_0 is Ok {
                let i = choose|i: int|
                    0 <= i < prefix.len() && prefix[i].1 is Some && prefix[i].1->Some_0 is Ok;
                assert(all[i].1 is Some && all[i].1->Some_0 is Ok);
            }
        }
    }
}

} // verus!

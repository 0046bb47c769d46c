//! Read routing: ordering remotes by read-eligibility and priority, and
//! forwarding the first reply.
//!
//! Remotes are ordered by the composite key (read-eligibility descending,
//! priority descending): read-eligible remotes come first, and within each
//! tier the higher priority comes earlier. Remotes are tried in that order;
//! the first remote that replies at all — with a success or with a
//! structured S3 error — ends the search and its reply is forwarded. A
//! remote that does not reply is skipped; when the whole order is exhausted
//! the client sees `InternalError`.

use vstd::prelude::*;

use crate::config::S3Target;
use crate::error::{ProxyErrorCode, ProxyS3Error, RemoteErrorMeta, convert_sdk_err, spec_convert_sdk_err};

verus! {

/// Whether `a` is tried no later than `b` on the read path: `a` is
/// read-eligible while `b` is not, or they are in the same tier and `a` has
/// at least `b`'s priority.
pub open spec fn read_pref_ge(a: S3Target, b: S3Target) -> bool {
    (a.read_request && !b.read_request) || (a.read_request == b.read_request && a.priority
        >= b.priority)
}

/// Whether `a` and `b` are tried with equal preference: same tier, same
/// priority.
pub open spec fn read_pref_eq(a: S3Target, b: S3Target) -> bool {
    a.read_request == b.read_request && a.priority == b.priority
}

/// Whether the index order keeps configuration order among remotes of
/// equal preference: the sort is stable.
pub open spec fn read_stable(remotes: Seq<S3Target>, order: Seq<usize>) -> bool {
    forall|p: int, q: int|
        0 <= p < q < order.len() && read_pref_eq(
            remotes[#[trigger] order[p] as int],
            remotes[#[trigger] order[q] as int],
        ) ==> order[p] < order[q]
}

/// Whether the index order visits the remotes in non-increasing read
/// preference.
pub open spec fn read_sorted(remotes: Seq<S3Target>, order: Seq<usize>) -> bool {
    forall|p: int, q: int|
        0 <= p < q < order.len() ==> read_pref_ge(
            remotes[#[trigger] order[p] as int],
            remotes[#[trigger] order[q] as int],
        )
}

/// The index sequence 0, 1, ..., n-1.
pub open spec fn upto(n: int) -> Seq<usize> {
    Seq::new(n as nat, |k: int| k as usize)
}

/// Whether `order` visits every index below `n` exactly once.
pub open spec fn is_index_permutation(order: Seq<usize>, n: int) -> bool {
    order.to_multiset() == upto(n).to_multiset()
}

/// Exec comparison backing `read_pref_ge`.
fn read_prefers(a: &S3Target, b: &S3Target) -> (r: bool)
    ensures
        r == read_pref_ge(*a, *b),
{
    (a.read_request && !b.read_request) || (a.read_request == b.read_request && a.priority
        >= b.priority)
}

/// The order in which the read path tries the remotes: every remote exactly
/// once, read-eligible ones first, higher priority first within a tier.
pub fn read_plan(remotes: &Vec<S3Target>) -> (order: Vec<usize>)
    ensures
        order@.len() == remotes@.len(),
        forall|p: int| 0 <= p < order@.len() ==> (#[trigger] order@[p] as int) < remotes@.len(),
        read_sorted(remotes@, order@),
        read_stable(remotes@, order@),
        is_index_permutation(order@, remotes@.len() as int),
{
    let n = remotes.len();
    let mut order: Vec<usize> = Vec::new();
    proof {
        assert(order@ =~= upto(0));
    }
    let mut i: usize = 0;
    while i < n
        invariant
            i <= n == remotes@.len(),
            order@.len() == i,
            forall|p: int| 0 <= p < i ==> (#[trigger] order@[p] as int) < i,
            read_sorted(remotes@, order@),
            read_stable(remotes@, order@),
            is_index_permutation(order@, i as int),
        decreases n - i,
    {
        let mut pos: usize = 0;
        while pos < order.len() && read_prefers(&remotes[order[pos]], &remotes[i])
            invariant
                pos <= order@.len() == i < n == remotes@.len(),
                forall|p: int| 0 <= p < i ==> (#[trigger] order@[p] as int) < i,
                forall|p: int|
                    0 <= p < pos ==> read_pref_ge(remotes@[#[trigger] order@[p] as int], remotes@[i as int]),
            decreases order@.len() - pos,
        {
            pos = pos + 1;
        }
        let ghost old_order = order@;
        order.insert(pos, i);
        proof {
            old_order.insert_ensures(pos as int, i);
            assert(read_sorted(remotes@, order@)) by {
                assert forall|p: int, q: int| 0 <= p < q < order@.len() implies read_pref_ge(
                    remotes@[order@[p] as int],
                    remotes@[order@[q] as int],
                ) by {
                    if q < pos {
                        assert(order@[p] == old_order[p] && order@[q] == old_order[q]);
                    } else if q == pos {
                        assert(order@[p] == old_order[p]);
                        assert(read_pref_ge(remotes@[old_order[p] as int], remotes@[i as int]));
                    } else {
                        assert(order@[q] == old_order[q - 1]);
                        if p < pos {
                            assert(order@[p] == old_order[p]);
                        } else if p == pos {
                            // the new element precedes everything from pos on:
                            // it is not preferred by old_order[pos], and the old
                            // order was already sorted past that point
                            if pos < old_order.len() {
                                assert(read_pref_ge(remotes@[i as int], remotes@[old_order[pos as int] as int]));
                                assert(read_pref_ge(
                                    remotes@[old_order[pos as int] as int],
                                    remotes@[old_order[q - 1] as int],
                                ));
                            }
                        } else {
                            assert(order@[p] == old_order[p - 1]);
                        }
                    }
                }
            }
            assert(read_stable(remotes@, order@)) by {
                assert forall|p: int, q: int|
                    0 <= p < q < order@.len() && read_pref_eq(
                        remotes@[order@[p] as int],
                        remotes@[order@[q] as int],
                    ) implies order@[p] < order@[q] by {
                    if q < pos {
                        assert(order@[p] == old_order[p] && order@[q] == old_order[q]);
                    } else if q == pos {
                        // the new element is the largest index placed so far
                        assert(order@[p] == old_order[p] && order@[q] == i);
                    } else {
                        assert(order@[q] == old_order[q - 1]);
                        if p < pos {
                            assert(order@[p] == old_order[p]);
                        } else if p == pos {
                            // nothing of equal preference sits past the
                            // insertion point: the element there is strictly
                            // less preferred, and the old order is sorted
                            assert(order@[p] == i);
                            assert(!read_pref_ge(
                                remotes@[old_order[pos as int] as int],
                                remotes@[i as int],
                            ));
                            assert(read_pref_ge(
                                remotes@[old_order[pos as int] as int],
                                remotes@[old_order[q - 1] as int],
                            ));
                            assert(false);
                        } else {
                            assert(order@[p] == old_order[p - 1]);
                        }
                    }
                }
            }
            vstd::seq_lib::to_multiset_insert(old_order, pos as int, i);
            assert(upto(i + 1).drop_last() =~= upto(i as int));
            assert(upto(i + 1) =~= upto(i as int).push(i));
            upto(i as int).to_multiset_ensures();
            assert(is_index_permutation(order@, i + 1));
        }
        i = i + 1;
    }
    order
}

/// Whether position `p` of the order is the first whose remote replied.
pub open spec fn first_reply_position<T>(
    order: Seq<usize>,
    replies: Seq<Option<Result<T, RemoteErrorMeta>>>,
    p: int,
) -> bool {
    &&& 0 <= p < order.len()
    &&& replies[order[p] as int] is Some
    &&& forall|q: int| 0 <= q < p ==> replies[#[trigger] order[q] as int] is None
}

/// Walks the remotes in plan order over their reply outcomes (`None`:
/// unreachable) and forwards the first reply: a success as it stands, a
/// service error converted to a protocol error. When no remote replied the
/// client sees `InternalError`. The second component is the plan position
/// of the remote that served the request; the serving reply is taken out of
/// the outcome list.
pub fn route_read<T>(
    order: &Vec<usize>,
    replies: &mut Vec<Option<Result<T, RemoteErrorMeta>>>,
) -> (out: (Result<T, ProxyS3Error>, Option<usize>))
    requires
        forall|p: int|
            0 <= p < order@.len() ==> (#[trigger] order@[p] as int) < old(replies)@.len(),
    ensures
        match out.1 {
            Some(p) => first_reply_position(order@, old(replies)@, p as int) && final(replies)@
                == old(replies)@.remove(order@[p as int] as int) && ({
                let r = old(replies)@[order@[p as int] as int]->Some_0;
                &&& (out.0 is Ok <==> r is Ok)
                &&& (r is Ok ==> out.0->Ok_0 == r->Ok_0)
                &&& (r is Err ==> out.0 == Result::<T, ProxyS3Error>::Err(
                    spec_convert_sdk_err(r->Err_0),
                ))
            }),
            None => (forall|p: int|
                0 <= p < order@.len() ==> old(replies)@[#[trigger] order@[p] as int] is None)
                && final(replies)@ == old(replies)@ && out.0 == Result::<T, ProxyS3Error>::Err(
                ProxyS3Error::just_code_spec(ProxyErrorCode::InternalError),
            ),
        },
{
    let ghost orig = replies@;
    let n = order.len();
    let mut p: usize = 0;
    while p < n
        invariant
            p <= n == order@.len(),
            orig == old(replies)@,
            replies@ == orig,
            forall|q: int| 0 <= q < order@.len() ==> (#[trigger] order@[q] as int) < replies@.len(),
            forall|q: int| 0 <= q < p ==> replies@[#[trigger] order@[q] as int] is None,
        decreases n - p,
    {
        let k = order[p];
        if replies[k].is_some() {
            let reply = replies.remove(k);
            match reply {
                Some(Ok(value)) => {
                    return (Ok(value), Some(p));
                },
                Some(Err(meta)) => {
                    return (Err(convert_sdk_err(meta)), Some(p));
                },
                None => {
                    proof {
                        assert(false);
                    }
                },
            }
        }
        p = p + 1;
    }
    (Err(ProxyS3Error::internal_error()), None)
}

proof fn lemma_permutation_position(order: Seq<usize>, n: int, j: int)
    requires
        is_index_permutation(order, n),
        0 <= j < n <= usize::MAX,
    ensures
        exists|q: int| 0 <= q < order.len() && order[q] == j as usize,
{
    upto(n).to_multiset_ensures();
    order.to_multiset_ensures();
    assert(upto(n)[j] == j as usize);
    assert(upto(n).contains(j as usize));
    assert(order.to_multiset().count(j as usize) > 0);
    assert(order.contains(j as usize));
    let q = choose|q: int| 0 <= q < order.len() && order[q] == j as usize;
    assert(0 <= q < order.len() && order[q] == j as usize);
}

/// Read ordering: whenever at least one read-eligible remote is reachable,
/// the remote that serves a read-routed request is read-eligible and has
/// the highest priority among the reachable read-eligible remotes.
pub proof fn lemma_read_ordering<T>(
    remotes: Seq<S3Target>,
    order: Seq<usize>,
    replies: Seq<Option<Result<T, RemoteErrorMeta>>>,
    p: int,
)
    requires
        remotes.len() <= usize::MAX,
        order.len() == remotes.len(),
        replies.len() == remotes.len(),
        forall|q: int| 0 <= q < order.len() ==> (#[trigger] order[q] as int) < remotes.len(),
        read_sorted(remotes, order),
        is_index_permutation(order, remotes.len() as int),
        first_reply_position(order, replies, p),
        exists|j: int| 0 <= j < remotes.len() && remotes[j].read_request && replies[j] is Some,
    ensures
        remotes[order[p] as int].read_request,
        replies[order[p] as int] is Some,
        forall|j: int|
            #![trigger replies[j]]
            0 <= j < remotes.len() && remotes[j].read_request && replies[j] is Some
                ==> remotes[order[p] as int].priority >= remotes[j].priority,
{
    let k = order[p] as int;
    let j0 = choose|j: int|
        0 <= j < remotes.len() && remotes[j].read_request && replies[j] is Some;
    lemma_permutation_position(order, remotes.len() as int, j0);
    let q0 = choose|q: int| 0 <= q < order.len() && order[q] == j0 as usize;
    if q0 < p {
        assert(replies[order[q0] as int] is None);
        assert(false);
    }
    if p < q0 {
        assert(read_pref_ge(remotes[k], remotes[j0]));
    }
    assert(remotes[k].read_request);
    assert forall|j: int|
        0 <= j < remotes.len() && remotes[j].read_request && replies[j] is Some implies remotes[
        k].priority >= remotes[j].priority by {
        lemma_permutation_position(order, remotes.len() as int, j);
        let q = choose|q: int| 0 <= q < order.len() && order[q] == j as usize;
        if q < p {
            assert(replies[order[q] as int] is None);
            assert(false);
        }
        if p < q {
            assert(read_pref_ge(remotes[k], remotes[j]));
        }
    }
}

/// Fallback reads: when every read-eligible remote is unreachable, a
/// read-routed request is served by the reachable ineligible remote of
/// highest priority.
pub proof fn lemma_fallback_reads<T>(
    remotes: Seq<S3Target>,
    order: Seq<usize>,
    replies: Seq<Option<Result<T, RemoteErrorMeta>>>,
    p: int,
)
    requires
        remotes.len() <= usize::MAX,
        order.len() == remotes.len(),
        replies.len() == remotes.len(),
        forall|q: int| 0 <= q < order.len() ==> (#[trigger] order[q] as int) < remotes.len(),
        read_sorted(remotes, order),
        is_index_permutation(order, remotes.len() as int),
        first_reply_position(order, replies, p),
        forall|j: int|
            #![trigger replies[j]]
            0 <= j < remotes.len() && remotes[j].read_request ==> replies[j] is None,
    ensures
        !remotes[order[p] as int].read_request,
        replies[order[p] as int] is Some,
        forall|j: int|
            #![trigger replies[j]]
            0 <= j < remotes.len() && replies[j] is Some ==> remotes[order[p] as int].priority
                >= remotes[j].priority,
{
    let k = order[p] as int;
    assert(replies[k] is Some);
    assert(!remotes[k].read_request);
    assert forall|j: int| 0 <= j < remotes.len() && replies[j] is Some implies remotes[k].priority
        >= remotes[j].priority by {
        lemma_permutation_position(order, remotes.len() as int, j);
        let q = choose|q: int| 0 <= q < order.len() && order[q] == j as usize;
        if q < p {
            assert(replies[order[q] as int] is None);
            assert(false);
        }
        assert(!remotes[j].read_request);
        if p < q {
            assert(read_pref_ge(remotes[k], remotes[j]));
        }
    }
}

} // verus!

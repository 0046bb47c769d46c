//! The body multiplier: one streaming request body consumed by several
//! remote clients without buffering the whole payload.
//!
//! The source body is read chunk by chunk; each chunk is pushed to every
//! live consumer, and the next chunk may be pulled only once every live
//! consumer has taken the previous one — the source is read at the rate of
//! the slowest consumer. A consumer that is dropped before the end of the
//! stream stops counting: its slot no longer holds the source back, so the
//! remaining consumers complete.
//!
//! The state here is the multiplier's synchronization kernel: one pending
//! chunk slot per consumer, plus the ghost history of what the source
//! yielded and what each consumer received.

use vstd::prelude::*;

verus! {

/// The synchronization state of one body fanned out to `K` consumers.
pub struct BodyMultiplier {
    /// The chunk each consumer has been handed but not yet taken.
    pending: Vec<Option<Vec<u8>>>,
    /// Whether each consumer is still attached.
    live: Vec<bool>,
    /// Whether the source reached its end.
    closed: bool,
    /// All bytes the source has yielded so far.
    source: Ghost<Seq<u8>>,
    /// The bytes each consumer has taken so far.
    delivered: Ghost<Seq<Seq<u8>>>,
}

impl BodyMultiplier {
    /// The number of consumers the body was fanned out to.
    pub closed spec fn consumers(self) -> nat {
        self.pending@.len()
    }

    /// Whether consumer `i` is still attached.
    pub closed spec fn is_live(self, i: int) -> bool {
        self.live@[i]
    }

    /// Whether the source reached its end.
    pub closed spec fn is_closed(self) -> bool {
        self.closed
    }

    /// All bytes the source has yielded so far.
    pub closed spec fn source_bytes(self) -> Seq<u8> {
        self.source@
    }

    /// The bytes consumer `i` has taken so far.
    pub closed spec fn delivered_to(self, i: int) -> Seq<u8> {
        self.delivered@[i]
    }

    /// Whether consumer `i` has taken everything pushed at it.
    pub closed spec fn caught_up(self, i: int) -> bool {
        self.pending@[i] is None
    }

    /// The internal invariant: a live consumer's taken bytes plus its
    /// pending chunk are exactly the source so far; a dropped consumer's
    /// taken bytes are a prefix of it.
    pub closed spec fn well_formed(self) -> bool {
        &&& self.live@.len() == self.consumers()
        &&& self.delivered@.len() == self.consumers()
        &&& forall|i: int|
            0 <= i < self.consumers() && self.is_live(i) ==> self.delivered_to(i) + (
            match #[trigger] self.pending@[i] {
                Some(chunk) => chunk@,
                None => Seq::empty(),
            }) == self.source_bytes()
        &&& forall|i: int|
            0 <= i < self.consumers() && !self.is_live(i) ==> (#[trigger] self.delivered_to(i)).len()
                <= self.source_bytes().len() && self.delivered_to(i) == self.source_bytes().take(
                self.delivered_to(i).len() as int,
            )
    }

    /// Whether the source may be pulled again: every live consumer has
    /// taken the previous chunk. Dropped consumers do not count.
    pub closed spec fn ready_spec(self) -> bool {
        forall|i: int| 0 <= i < self.consumers() && self.is_live(i) ==> #[trigger] self.caught_up(i)
    }

    /// Fans a body out to `k` consumers; nothing has been read yet.
    pub fn new(k: usize) -> (m: BodyMultiplier)
        ensures
            m.well_formed(),
            m.consumers() == k,
            !m.is_closed(),
            m.source_bytes() == Seq::<u8>::empty(),
            forall|i: int| 0 <= i < k ==> m.is_live(i),
            forall|i: int| 0 <= i < k ==> #[trigger] m.delivered_to(i) == Seq::<u8>::empty(),
            forall|i: int| 0 <= i < k ==> #[trigger] m.caught_up(i),
    {
        let mut pending: Vec<Option<Vec<u8>>> = Vec::new();
        let mut live: Vec<bool> = Vec::new();
        let ghost mut delivered = Seq::<Seq<u8>>::empty();
        let mut i: usize = 0;
        while i < k
            invariant
                i <= k,
                pending@.len() == i,
                live@.len() == i,
                delivered.len() == i,
                forall|q: int| 0 <= q < i ==> #[trigger] pending@[q] is None,
                forall|q: int| 0 <= q < i ==> #[trigger] live@[q] == true,
                forall|q: int| 0 <= q < i ==> #[trigger] delivered[q] == Seq::<u8>::empty(),
            decreases k - i,
        {
            pending.push(None);
            live.push(true);
            proof {
                delivered = delivered.push(Seq::empty());
            }
            i = i + 1;
        }
        BodyMultiplier {
            pending,
            live,
            closed: false,
            source: Ghost(Seq::empty()),
            delivered: Ghost(delivered),
        }
    }

    /// Whether the source may be pulled again.
    pub fn ready(&self) -> (r: bool)
        requires
            self.well_formed(),
        ensures
            r == self.ready_spec(),
    {
        let n = self.pending.len();
        let mut i: usize = 0;
        while i < n
            invariant
                i <= n == self.pending@.len(),
                self.live@.len() == n,
                forall|q: int|
                    0 <= q < i && self.is_live(q) ==> #[trigger] self.caught_up(q),
            decreases n - i,
        {
            if self.live[i] && self.pending[i].is_some() {
                proof {
                    assert(self.is_live(i as int) && !self.caught_up(i as int));
                }
                return false;
            }
            i = i + 1;
        }
        true
    }

    /// Pushes the next chunk of the source at every live consumer. Allowed
    /// only while the body is open and every live consumer took the
    /// previous chunk.
    pub fn offer(&mut self, chunk: Vec<u8>)
        requires
            old(self).well_formed(),
            !old(self).is_closed(),
            old(self).ready_spec(),
        ensures
            final(self).well_formed(),
            final(self).consumers() == old(self).consumers(),
            !final(self).is_closed(),
            final(self).source_bytes() == old(self).source_bytes() + chunk@,
            forall|i: int| 0 <= i < final(self).consumers() ==> final(self).is_live(i) == old(self).is_live(i),
            forall|i: int|
                0 <= i < final(self).consumers() ==> #[trigger] final(self).delivered_to(i) == old(
                    self,
                ).delivered_to(i),
            forall|i: int|
                0 <= i < final(self).consumers() && final(self).is_live(i) ==> !(#[trigger] final(self).caught_up(i))
                    || chunk@.len() == 0,
    {
        let n = self.pending.len();
        let mut i: usize = 0;
        while i < n
            invariant
                i <= n == self.pending@.len(),
                old(self).pending@.len() == n,
                self.live@ == old(self).live@,
                self.delivered@ == old(self).delivered@,
                self.closed == old(self).closed,
                self.source@ == old(self).source@,
                old(self).well_formed(),
                old(self).ready_spec(),
                forall|q: int|
                    0 <= q < i && old(self).is_live(q) ==> (#[trigger] self.pending@[q]) is Some
                        && self.pending@[q]->0@ == chunk@,
                forall|q: int|
                    0 <= q < i && !old(self).is_live(q) ==> #[trigger] self.pending@[q] == old(
                        self,
                    ).pending@[q],
                forall|q: int| i <= q < n ==> #[trigger] self.pending@[q] == old(self).pending@[q],
            decreases n - i,
        {
            if self.live[i] {
                let copy = chunk.clone();
                proof {
                    assert(copy@ == chunk@);
                }
                self.pending.set(i, Some(copy));
            }
            i = i + 1;
        }
        proof {
            self.source@ = self.source@ + chunk@;
            assert forall|q: int|
                0 <= q < self.consumers() && self.is_live(q) implies self.delivered_to(q) + (
            match self.pending@[q] {
                Some(c) => c@,
                None => Seq::empty(),
            }) == self.source_bytes() by {
                assert(old(self).caught_up(q));
                assert(old(self).delivered_to(q) + (match old(self).pending@[q] {
                    Some(c) => c@,
                    None => Seq::<u8>::empty(),
                }) == old(self).source_bytes());
                assert(old(self).delivered_to(q) + Seq::<u8>::empty() =~= old(self).delivered_to(
                    q,
                ));
                assert(old(self).delivered_to(q) == old(self).source_bytes());
            }
            assert forall|q: int|
                0 <= q < self.consumers() && !self.is_live(q) implies (#[trigger] self.delivered_to(
                q,
            )).len() <= self.source_bytes().len() && self.delivered_to(q)
                == self.source_bytes().take(self.delivered_to(q).len() as int) by {
                assert(old(self).delivered_to(q).len() <= old(self).source_bytes().len());
                assert(old(self).delivered_to(q) == old(self).source_bytes().take(
                    old(self).delivered_to(q).len() as int,
                ));
                assert(self.delivered_to(q) =~= self.source_bytes().take(
                    self.delivered_to(q).len() as int,
                ));
            }
        }
    }

    /// Takes the pending chunk of consumer `i`.
    pub fn take(&mut self, i: usize) -> (chunk: Vec<u8>)
        requires
            old(self).well_formed(),
            (i as int) < old(self).consumers(),
            old(self).is_live(i as int),
            !old(self).caught_up(i as int),
        ensures
            final(self).well_formed(),
            final(self).consumers() == old(self).consumers(),
            final(self).is_closed() == old(self).is_closed(),
            final(self).source_bytes() == old(self).source_bytes(),
            forall|q: int| 0 <= q < final(self).consumers() ==> final(self).is_live(q) == old(self).is_live(q),
            final(self).caught_up(i as int),
            final(self).delivered_to(i as int) == old(self).delivered_to(i as int) + chunk@,
            // after the take, this consumer has seen the whole source so far
            final(self).delivered_to(i as int) == final(self).source_bytes(),
            forall|q: int|
                0 <= q < final(self).consumers() && q != i ==> #[trigger] final(self).delivered_to(
                    q,
                ) == old(self).delivered_to(q),
            forall|q: int|
                0 <= q < final(self).consumers() && q != i ==> #[trigger] final(self).caught_up(q)
                    == old(self).caught_up(q),
    {
        let slot = self.pending.remove(i);
        self.pending.insert(i, None);
        proof {
            assert(self.pending@ =~= old(self).pending@.update(i as int, None));
        }
        match slot {
            Some(chunk) => {
                proof {
                    self.delivered@ = self.delivered@.update(
                        i as int,
                        self.delivered@[i as int] + chunk@,
                    );
                    assert(old(self).pending@[i as int] is Some);
                    assert(chunk@ == old(self).pending@[i as int]->0@);
                    assert(old(self).delivered_to(i as int) + chunk@ == old(self).source_bytes());
                    assert forall|q: int|
                        0 <= q < self.consumers() && self.is_live(q) implies self.delivered_to(q)
                        + (match self.pending@[q] {
                        Some(c) => c@,
                        None => Seq::empty(),
                    }) == self.source_bytes() by {
                        if q != i {
                            assert(self.pending@[q] == old(self).pending@[q]);
                            assert(old(self).delivered_to(q) + (match old(self).pending@[q] {
                                Some(c) => c@,
                                None => Seq::<u8>::empty(),
                            }) == old(self).source_bytes());
                        } else {
                            assert(self.delivered_to(q) + Seq::<u8>::empty() =~= self.delivered_to(
                                q,
                            ));
                        }
                    }
                    assert forall|q: int|
                        0 <= q < self.consumers() && !self.is_live(q) implies (
                    #[trigger] self.delivered_to(q)).len() <= self.source_bytes().len()
                        && self.delivered_to(q) == self.source_bytes().take(
                        self.delivered_to(q).len() as int,
                    ) by {
                        assert(old(self).delivered_to(q).len() <= old(self).source_bytes().len());
                        assert(old(self).delivered_to(q) == old(self).source_bytes().take(
                            old(self).delivered_to(q).len() as int,
                        ));
                        assert(self.delivered_to(q) == old(self).delivered_to(q));
                    }
                }
                chunk
            },
            None => {
                proof {
                    assert(false);
                }
                Vec::new()
            },
        }
    }

    /// Detaches consumer `i`: its slot no longer holds the source back, so
    /// the remaining consumers keep receiving chunks.
    pub fn drop_consumer(&mut self, i: usize)
        requires
            old(self).well_formed(),
            (i as int) < old(self).consumers(),
        ensures
            final(self).well_formed(),
            final(self).consumers() == old(self).consumers(),
            final(self).is_closed() == old(self).is_closed(),
            final(self).source_bytes() == old(self).source_bytes(),
            !final(self).is_live(i as int),
            final(self).caught_up(i as int),
            forall|q: int|
                0 <= q < final(self).consumers() && q != i ==> #[trigger] final(self).is_live(q)
                    == old(self).is_live(q),
            forall|q: int|
                0 <= q < final(self).consumers() && q != i ==> #[trigger] final(self).caught_up(q)
                    == old(self).caught_up(q),
            forall|q: int|
                0 <= q < final(self).consumers() && q != i ==> #[trigger] final(self).delivered_to(
                    q,
                ) == old(self).delivered_to(q),
    {
        self.pending.remove(i);
        self.pending.insert(i, None);
        let live_had = self.live.remove(i);
        self.live.insert(i, false);
        proof {
            assert(self.pending@ =~= old(self).pending@.update(i as int, None));
            assert(self.live@ =~= old(self).live@.update(i as int, false));
            assert(live_had == old(self).is_live(i as int));
            assert forall|q: int|
                0 <= q < self.consumers() && self.is_live(q) implies self.delivered_to(q) + (
            match self.pending@[q] {
                Some(c) => c@,
                None => Seq::empty(),
            }) == self.source_bytes() by {
                assert(q != i);
                assert(self.pending@[q] == old(self).pending@[q]);
                assert(old(self).is_live(q));
                assert(old(self).delivered_to(q) + (match old(self).pending@[q] {
                    Some(c) => c@,
                    None => Seq::<u8>::empty(),
                }) == old(self).source_bytes());
            }
            assert forall|q: int|
                0 <= q < self.consumers() && !self.is_live(q) implies (
            #[trigger] self.delivered_to(q)).len() <= self.source_bytes().len()
                && self.delivered_to(q) == self.source_bytes().take(
                self.delivered_to(q).len() as int,
            ) by {
                let d = self.delivered_to(q);
                if q == i && live_had {
                    // freeze what the consumer had taken: it is a prefix of
                    // the source because the pending chunk completed it
                    assert(d + (match old(self).pending@[i as int] {
                        Some(chunk) => chunk@,
                        None => Seq::<u8>::empty(),
                    }) == self.source_bytes());
                    assert(d =~= self.source_bytes().take(d.len() as int));
                } else {
                    assert(!old(self).is_live(q));
                    assert(old(self).delivered_to(q).len() <= old(self).source_bytes().len());
                    assert(old(self).delivered_to(q) == old(self).source_bytes().take(
                        old(self).delivered_to(q).len() as int,
                    ));
                }
            }
        }
    }

    /// Marks the end of the source.
    pub fn close(&mut self)
        requires
            old(self).well_formed(),
        ensures
            final(self).well_formed(),
            final(self).is_closed(),
            final(self).consumers() == old(self).consumers(),
            final(self).source_bytes() == old(self).source_bytes(),
            forall|q: int|
                0 <= q < final(self).consumers() ==> #[trigger] final(self).is_live(q) == old(
                    self,
                ).is_live(q),
            forall|q: int|
                0 <= q < final(self).consumers() ==> #[trigger] final(self).caught_up(q) == old(
                    self,
                ).caught_up(q),
            forall|q: int|
                0 <= q < final(self).consumers() ==> #[trigger] final(self).delivered_to(q) == old(
                    self,
                ).delivered_to(q),
    {
        self.closed = true;
        proof {
            assert forall|q: int|
                0 <= q < self.consumers() && self.is_live(q) implies self.delivered_to(q) + (
            match self.pending@[q] {
                Some(c) => c@,
                None => Seq::empty(),
            }) == self.source_bytes() by {
                assert(old(self).delivered_to(q) + (match old(self).pending@[q] {
                    Some(c) => c@,
                    None => Seq::<u8>::empty(),
                }) == old(self).source_bytes());
            }
            assert forall|q: int|
                0 <= q < self.consumers() && !self.is_live(q) implies (
            #[trigger] self.delivered_to(q)).len() <= self.source_bytes().len()
                && self.delivered_to(q) == self.source_bytes().take(
                self.delivered_to(q).len() as int,
            ) by {
                assert(old(self).delivered_to(q).len() <= old(self).source_bytes().len());
                assert(old(self).delivered_to(q) == old(self).source_bytes().take(
                    old(self).delivered_to(q).len() as int,
                ));
            }
        }
    }
}

/// Body duplication fidelity: a live consumer that has taken everything
/// pushed at it has received, byte for byte, exactly what the source
/// yielded — at the end of a closed body, a byte-for-byte copy of the
/// whole payload.
pub proof fn lemma_body_duplication(m: BodyMultiplier, i: int)
    requires
        m.well_formed(),
        0 <= i < m.consumers(),
        m.is_live(i),
        m.caught_up(i),
    ensures
        m.delivered_to(i) == m.source_bytes(),
{
    assert(m.delivered_to(i) + Seq::<u8>::empty() =~= m.delivered_to(i));
}

/// Slow-consumer isolation: once a consumer is dropped, its slot no longer
/// gates the source — readiness depends on the surviving consumers alone,
/// so they keep completing without it.
pub proof fn lemma_slow_consumer_isolation(before: BodyMultiplier, after: BodyMultiplier, j: int)
    requires
        before.well_formed(),
        0 <= j < before.consumers(),
        after.well_formed(),
        after.consumers() == before.consumers(),
        // the state drop_consumer(j) leaves behind
        !after.is_live(j),
        after.caught_up(j),
        forall|q: int|
            0 <= q < after.consumers() && q != j ==> #[trigger] after.is_live(q) == before.is_live(
                q,
            ),
        forall|q: int|
            0 <= q < after.consumers() && q != j ==> #[trigger] after.caught_up(q)
                == before.caught_up(q),
        // every surviving consumer has taken its chunk
        forall|q: int|
            0 <= q < before.consumers() && q != j && before.is_live(q)
                ==> #[trigger] before.caught_up(q),
    ensures
        after.ready_spec(),
{
}

fn probe_isolation(m: &mut BodyMultiplier, j: usize)
    requires
        old(m).well_formed(),
        (j as int) < old(m).consumers(),
        forall|q: int|
            0 <= q < old(m).consumers() && q != j && old(m).is_live(q)
                ==> #[trigger] old(m).caught_up(q),
    ensures
        final(m).ready_spec(),
{
    let ghost before = *m;
    m.drop_consumer(j);
    proof {
        lemma_slow_consumer_isolation(before, *m, j as int);
    }
}

} // verus!

//! Multicast distribution of published lines to subscriber sessions.
//!
//! Every registered subscriber owns a bounded outbound queue. Publishing
//! never blocks: when a subscriber's queue is full, its *oldest* queued
//! message is dropped to make room (lossy, lag-tolerant delivery). A
//! session task drains its queue with `pop_next` and answers liveness
//! probes through `handle_incoming`; the waiting itself is I/O and lives
//! with the caller.
//!
//! The ghost state tracks, per session, every message offered to it since
//! it subscribed, the messages already handed to its sender, and how many
//! were dropped. Well-formedness ties them together: what a session
//! receives is always a subsequence — in publish order — of what was
//! offered, and a session that never lagged receives everything.

use vstd::prelude::*;

verus! {

/// `a` appears within `b`, in order (not necessarily contiguously).
pub open spec fn is_subseq<A>(a: Seq<A>, b: Seq<A>) -> bool
    decreases a.len() + b.len(),
{
    if a.len() == 0 {
        true
    } else if b.len() == 0 {
        false
    } else if a.last() == b.last() {
        is_subseq(a.drop_last(), b.drop_last())
    } else {
        is_subseq(a, b.drop_last())
    }
}

/// Appending the same element on both sides preserves the relation.
pub proof fn lemma_subseq_push_both<A>(a: Seq<A>, b: Seq<A>, x: A)
    requires
        is_subseq(a, b),
    ensures
        is_subseq(a.push(x), b.push(x)),
{
    assert(a.push(x).drop_last() =~= a);
    assert(b.push(x).drop_last() =~= b);
    assert(a.push(x).last() == b.push(x).last());
}

/// A subsequence of `b` without its last element is one of `b`.
pub proof fn lemma_subseq_grow_right<A>(x: Seq<A>, b: Seq<A>)
    requires
        b.len() > 0,
        is_subseq(x, b.drop_last()),
    ensures
        is_subseq(x, b),
    decreases x.len() + b.len(),
{
    if x.len() == 0 {
    } else if x.last() == b.last() {
        lemma_subseq_drop_left(x, b.drop_last());
    } else {
    }
}

/// Dropping the last element of a subsequence keeps it one.
pub proof fn lemma_subseq_drop_left<A>(a: Seq<A>, b: Seq<A>)
    requires
        a.len() > 0,
        is_subseq(a, b),
    ensures
        is_subseq(a.drop_last(), b),
    decreases a.len() + b.len(),
{
    if b.len() == 0 {
    } else if a.last() == b.last() {
        if a.drop_last().len() == 0 {
        } else {
            lemma_subseq_grow_right(a.drop_last(), b);
        }
    } else {
        lemma_subseq_drop_left(a, b.drop_last());
        lemma_subseq_grow_right(a.drop_last(), b);
    }
}

/// Removing any one element of a subsequence keeps it one.
pub proof fn lemma_subseq_remove_left<A>(a: Seq<A>, b: Seq<A>, i: int)
    requires
        0 <= i < a.len(),
        is_subseq(a, b),
    ensures
        is_subseq(a.remove(i), b),
    decreases a.len() + b.len(),
{
    if b.len() == 0 {
    } else if a.last() == b.last() {
        if i == a.len() - 1 {
            assert(a.remove(i) =~= a.drop_last());
            if a.drop_last().len() == 0 {
            } else {
                lemma_subseq_grow_right(a.drop_last(), b);
            }
        } else {
            assert(a.remove(i).last() == b.last());
            assert(a.remove(i).drop_last() =~= a.drop_last().remove(i));
            lemma_subseq_remove_left(a.drop_last(), b.drop_last(), i);
        }
    } else {
        lemma_subseq_remove_left(a, b.drop_last(), i);
        lemma_subseq_grow_right(a.remove(i), b);
    }
}

/// The views of the queued strings, oldest first.
pub open spec fn queue_views(q: Seq<String>) -> Seq<Seq<char>> {
    q.map_values(|s: String| s@)
}

/// One subscriber session: its bounded outbound queue, and (in ghost
/// state) everything offered to it since it subscribed, everything already
/// handed to its sender, and how many messages its lag cost it.
pub struct HubSession {
    pub id: u64,
    pub queue: Vec<String>,
    /// Every message published while this session was registered.
    pub offered: Ghost<Seq<Seq<char>>>,
    /// Messages already handed out through `pop_next`, in order.
    pub taken: Ghost<Seq<Seq<char>>>,
    /// How many offered messages were dropped by backpressure.
    pub dropped: Ghost<int>,
}

/// The delivery invariant of one session under queue capacity `cap`.
pub open spec fn session_wf(s: HubSession, cap: nat) -> bool {
    &&& s.queue@.len() <= cap
    &&& s.dropped@ >= 0
    &&& is_subseq(s.taken@ + queue_views(s.queue@), s.offered@)
    &&& s.taken@.len() + s.queue@.len() + s.dropped@ == s.offered@.len()
    &&& (s.dropped@ == 0 ==> s.taken@ + queue_views(s.queue@) == s.offered@)
}

/// The delivery guarantee of the hub, as a statement of its own: whatever
/// a session has received (messages handed out, then those still queued)
/// is a subsequence, in publish order, of everything offered to it — a
/// lagging subscriber misses messages but never sees them reordered — and
/// a session that never lagged has received every offered message.
pub proof fn lemma_session_delivery_in_order(s: HubSession, cap: nat)
    requires
        session_wf(s, cap),
    ensures
        is_subseq(s.taken@ + queue_views(s.queue@), s.offered@),
        s.dropped@ == 0 ==> s.taken@ + queue_views(s.queue@) == s.offered@,
{
}

/// Multicast fan-out with bounded, lag-tolerant per-subscriber queues.
pub struct DistributionHub {
    /// Bound of every per-session queue; at least 1.
    pub capacity: usize,
    /// Next session id to hand out.
    pub next_id: u64,
    pub sessions: Vec<HubSession>,
    /// Every message ever published.
    pub history: Ghost<Seq<Seq<char>>>,
}

impl DistributionHub {
    /// Well-formedness: a positive queue bound, session ids unique and
    /// below `next_id`, and every session's delivery invariant.
    pub open spec fn wf(&self) -> bool {
        &&& self.capacity >= 1
        &&& forall|i: int|
            0 <= i < self.sessions@.len() ==> session_wf(
                #[trigger] self.sessions@[i],
                self.capacity as nat,
            )
        &&& forall|i: int|
            0 <= i < self.sessions@.len() ==> (#[trigger] self.sessions@[i]).id < self.next_id
    }

    /// Creates a hub with no subscribers.
    pub fn new(capacity: usize) -> (r: DistributionHub)
        requires
            capacity >= 1,
        ensures
            r.wf(),
            r.capacity == capacity,
            r.sessions@.len() == 0,
            r.history@ == Seq::<Seq<char>>::empty(),
    {
        DistributionHub {
            capacity,
            next_id: 0,
            sessions: Vec::new(),
            history: Ghost(Seq::empty()),
        }
    }

    /// Registers a new subscriber and returns its session id. The new
    /// session starts with an empty queue; only messages published from
    /// now on are offered to it.
    pub fn subscribe(&mut self) -> (r: u64)
        requires
            old(self).wf(),
            old(self).next_id < u64::MAX,
        ensures
            final(self).wf(),
            final(self).capacity == old(self).capacity,
            final(self).history@ == old(self).history@,
            final(self).sessions@.len() == old(self).sessions@.len() + 1,
            forall|i: int|
                0 <= i < old(self).sessions@.len() ==> final(self).sessions@[i] == old(
                    self,
                ).sessions@[i],
            ({
                let s = final(self).sessions@.last();
                &&& s.id == old(self).next_id
                &&& r == s.id
                &&& s.queue@.len() == 0
                &&& s.offered@ == Seq::<Seq<char>>::empty()
                &&& s.taken@ == Seq::<Seq<char>>::empty()
                &&& s.dropped@ == 0
            }),
    {
        let id = self.next_id;
        self.next_id = self.next_id + 1;
        let session = HubSession {
            id,
            queue: Vec::new(),
            offered: Ghost(Seq::empty()),
            taken: Ghost(Seq::empty()),
            dropped: Ghost(0),
        };
        self.sessions.push(session);
        proof {
            assert(self.sessions@.last().taken@ + queue_views(self.sessions@.last().queue@)
                =~= Seq::<Seq<char>>::empty());
        }
        id
    }

    /// Index of the session with id `id`, or `-1` if none has it.
    pub open spec fn find_session(sessions: Seq<HubSession>, id: u64) -> int
        decreases sessions.len(),
    {
        if sessions.len() == 0 {
            -1
        } else if sessions[0].id == id {
            0
        } else {
            let r = Self::find_session(sessions.drop_first(), id);
            if r == -1 {
                -1
            } else {
                1 + r
            }
        }
    }

    /// Removes the subscriber session with id `id`, releasing its queue;
    /// with no such session the hub is unchanged.
    pub fn unsubscribe(&mut self, id: u64) -> (r: bool)
        requires
            old(self).wf(),
        ensures
            final(self).wf(),
            final(self).capacity == old(self).capacity,
            final(self).history@ == old(self).history@,
            ({
                let idx = Self::find_session(old(self).sessions@, id);
                if idx == -1 {
                    !r && final(self).sessions@ == old(self).sessions@
                } else {
                    r && final(self).sessions@ == old(self).sessions@.remove(idx)
                }
            }),
    {
        let ghost olds = self.sessions@;
        let mut i: usize = 0;
        while i < self.sessions.len()
            invariant
                i <= olds.len(),
                olds == self.sessions@,
                *self == *old(self),
                old(self).wf(),
                forall|j: int| 0 <= j < i ==> (#[trigger] olds[j]).id != id,
            decreases olds.len() - i,
        {
            if self.sessions[i].id == id {
                proof {
                    Self::lemma_find_session_at(olds, id, i as int);
                }
                self.sessions.remove(i);
                proof {
                    assert(forall|j: int|
                        0 <= j < self.sessions@.len() ==> self.sessions@[j] == #[trigger] olds.remove(
                            i as int,
                        )[j]);
                }
                return true;
            }
            i = i + 1;
        }
        proof {
            Self::lemma_find_session_at(olds, id, olds.len() as int);
        }
        false
    }

    proof fn lemma_find_session_at(sessions: Seq<HubSession>, id: u64, k: int)
        requires
            0 <= k <= sessions.len(),
            forall|j: int| 0 <= j < k ==> (#[trigger] sessions[j]).id != id,
            k < sessions.len() ==> sessions[k].id == id,
        ensures
            Self::find_session(sessions, id) == if k == sessions.len() {
                -1int
            } else {
                k
            },
        decreases k,
    {
        if sessions.len() == 0 {
        } else if k == 0 {
        } else {
            assert(sessions[0].id != id);
            assert(forall|j: int|
                0 <= j < k - 1 ==> sessions.drop_first()[j] == #[trigger] sessions[j + 1]);
            Self::lemma_find_session_at(sessions.drop_first(), id, k - 1);
        }
    }

    /// Publishes one line to every registered subscriber: the line is
    /// appended to each session's queue, evicting that session's oldest
    /// queued line first when its queue is full. Publishing is a plain
    /// loop over the registry — never delayed by a slow subscriber — and
    /// with zero subscribers it changes nothing but the ghost history.
    pub fn publish(&mut self, msg: &str)
        requires
            old(self).wf(),
        ensures
            final(self).wf(),
            final(self).capacity == old(self).capacity,
            final(self).next_id == old(self).next_id,
            final(self).history@ == old(self).history@.push(msg@),
            final(self).sessions@.len() == old(self).sessions@.len(),
            old(self).sessions@.len() == 0 ==> final(self).sessions@ == old(self).sessions@,
            forall|i: int|
                0 <= i < old(self).sessions@.len() ==> {
                    let s = #[trigger] old(self).sessions@[i];
                    let s2 = final(self).sessions@[i];
                    &&& s2.id == s.id
                    &&& s2.taken@ == s.taken@
                    &&& s2.offered@ == s.offered@.push(msg@)
                    &&& if s.queue@.len() >= old(self).capacity {
                        &&& queue_views(s2.queue@) == queue_views(s.queue@).drop_first().push(
                            msg@,
                        )
                        &&& s2.dropped@ == s.dropped@ + 1
                    } else {
                        &&& queue_views(s2.queue@) == queue_views(s.queue@).push(msg@)
                        &&& s2.dropped@ == s.dropped@
                    }
                },
    {
        let ghost olds = self.sessions@;
        let ghost cap = self.capacity as nat;
        let mut i: usize = 0;
        while i < self.sessions.len()
            invariant
                i <= olds.len(),
                self.capacity == old(self).capacity,
                self.next_id == old(self).next_id,
                self.history@ == old(self).history@,
                self.capacity >= 1,
                cap == self.capacity as nat,
                olds == old(self).sessions@,
                self.sessions@.len() == olds.len(),
                forall|j: int|
                    0 <= j < olds.len() ==> session_wf(#[trigger] olds[j], cap) && olds[j].id
                        < self.next_id,
                forall|j: int|
                    i <= j < olds.len() ==> #[trigger] self.sessions@[j] == olds[j],
                forall|j: int|
                    #![trigger olds[j]]
                    #![trigger self.sessions@[j]]
                    0 <= j < i ==> {
                        let s = olds[j];
                        let s2 = self.sessions@[j];
                        &&& session_wf(s2, cap)
                        &&& s2.id < self.next_id
                        &&& s2.id == s.id
                        &&& s2.taken@ == s.taken@
                        &&& s2.offered@ == s.offered@.push(msg@)
                        &&& if s.queue@.len() >= cap {
                            &&& queue_views(s2.queue@) == queue_views(s.queue@).drop_first().push(
                                msg@,
                            )
                            &&& s2.dropped@ == s.dropped@ + 1
                        } else {
                            &&& queue_views(s2.queue@) == queue_views(s.queue@).push(msg@)
                            &&& s2.dropped@ == s.dropped@
                        }
                    },
            decreases olds.len() - i,
        {
            let line = String::from_str(msg);
            let cap_now = self.capacity;
            let e = &mut self.sessions[i];
            let ghost s = *e;
            let evict = e.queue.len() == cap_now;
            if evict {
                e.queue.remove(0);
                proof {
                    e.dropped@ = s.dropped@ + 1;
                }
            }
            e.queue.push(line);
            proof {
                e.offered@ = s.offered@.push(msg@);
                let old_r = s.taken@ + queue_views(s.queue@);
                if evict {
                    assert(queue_views(s.queue@.drop_first()) =~= queue_views(
                        s.queue@,
                    ).drop_first());
                    assert(old_r.remove(s.taken@.len() as int) =~= s.taken@ + queue_views(
                        s.queue@,
                    ).drop_first());
                    lemma_subseq_remove_left(old_r, s.offered@, s.taken@.len() as int);
                    lemma_subseq_push_both(
                        s.taken@ + queue_views(s.queue@).drop_first(),
                        s.offered@,
                        msg@,
                    );
                    assert(queue_views(e.queue@) =~= queue_views(s.queue@).drop_first().push(
                        msg@,
                    ));
                    assert(e.taken@ + queue_views(e.queue@) =~= (s.taken@ + queue_views(
                        s.queue@,
                    ).drop_first()).push(msg@));
                } else {
                    lemma_subseq_push_both(old_r, s.offered@, msg@);
                    assert(queue_views(e.queue@) =~= queue_views(s.queue@).push(msg@));
                    assert(e.taken@ + queue_views(e.queue@) =~= old_r.push(msg@));
                    if s.dropped@ == 0 {
                        assert(e.taken@ + queue_views(e.queue@) =~= e.offered@);
                    }
                }
                assert(session_wf(*e, cap));
            }
            i = i + 1;
        }
        proof {
            self.history@ = self.history@.push(msg@);
            if olds.len() == 0 {
                assert(self.sessions@ =~= olds);
            }
            assert forall|j: int| 0 <= j < self.sessions@.len() implies session_wf(
                #[trigger] self.sessions@[j],
                self.capacity as nat,
            ) && self.sessions@[j].id < self.next_id by {
                assert(0 <= j < olds.len());
                let ghost s = olds[j];
            }
        }
    }

    /// Hands out the next queued line for the session with id `id`:
    /// `None` when there is no such session or its queue is empty.
    pub fn pop_next(&mut self, id: u64) -> (r: Option<String>)
        requires
            old(self).wf(),
        ensures
            final(self).wf(),
            final(self).capacity == old(self).capacity,
            final(self).history@ == old(self).history@,
            final(self).sessions@.len() == old(self).sessions@.len(),
            ({
                let idx = Self::find_session(old(self).sessions@, id);
                if idx == -1 || old(self).sessions@[idx].queue@.len() == 0 {
                    r is None && final(self).sessions@ == old(self).sessions@
                } else {
                    let s = old(self).sessions@[idx];
                    let s2 = final(self).sessions@[idx];
                    &&& r is Some
                    &&& r->Some_0@ == queue_views(s.queue@)[0]
                    &&& s2.id == s.id
                    &&& s2.offered@ == s.offered@
                    &&& s2.dropped@ == s.dropped@
                    &&& s2.taken@ == s.taken@.push(queue_views(s.queue@)[0])
                    &&& queue_views(s2.queue@) == queue_views(s.queue@).drop_first()
                    &&& forall|j: int|
                        0 <= j < old(self).sessions@.len() && j != idx
                            ==> final(self).sessions@[j] == old(self).sessions@[j]
                }
            }),
    {
        let ghost olds = self.sessions@;
        let mut i: usize = 0;
        while i < self.sessions.len()
            invariant
                i <= olds.len(),
                olds == self.sessions@,
                *self == *old(self),
                old(self).wf(),
                forall|j: int| 0 <= j < i ==> (#[trigger] olds[j]).id != id,
            decreases olds.len() - i,
        {
            if self.sessions[i].id == id {
                proof {
                    Self::lemma_find_session_at(olds, id, i as int);
                }
                let e = &mut self.sessions[i];
                let ghost s = *e;
                if e.queue.len() == 0 {
                    proof {
                        assert(self.sessions@ =~= olds);
                    }
                    return None;
                }
                let line = e.queue.remove(0);
                proof {
                    e.taken@ = s.taken@.push(line@);
                    assert(queue_views(e.queue@) =~= queue_views(s.queue@).drop_first());
                    assert(line@ == queue_views(s.queue@)[0]);
                    assert(e.taken@ + queue_views(e.queue@) =~= s.taken@ + queue_views(s.queue@));
                    assert(session_wf(*e, self.capacity as nat));
                }
                return Some(line);
            }
            i = i + 1;
        }
        proof {
            Self::lemma_find_session_at(olds, id, olds.len() as int);
            assert(self.sessions@ =~= olds);
        }
        None
    }

    /// Number of registered subscribers.
    pub fn subscriber_count(&self) -> (r: usize)
        ensures
            r == self.sessions@.len(),
    {
        self.sessions.len()
    }
}

/// One frame received from a subscriber.
pub enum InboundFrame {
    /// A liveness probe carrying its payload.
    Ping(Vec<u8>),
    /// A close request.
    Close,
    /// An ordinary text frame (subscribers have nothing to say; it is
    /// ignored).
    Text(String),
    /// Anything else.
    Other,
}

/// What the session task must send in response, if anything.
pub enum SessionAction {
    /// Answer a probe, echoing its payload.
    SendPong(Vec<u8>),
    /// Acknowledge the close.
    SendClose,
    /// Nothing to send.
    Ignore,
}

/// The session protocol step for one inbound frame: the action to take,
/// and whether the session continues.
pub open spec fn handle_incoming_spec(frame: InboundFrame) -> (SessionAction, bool) {
    match frame {
        InboundFrame::Ping(p) => (SessionAction::SendPong(p), true),
        InboundFrame::Close => (SessionAction::SendClose, false),
        InboundFrame::Text(_) => (SessionAction::Ignore, true),
        InboundFrame::Other => (SessionAction::Ignore, true),
    }
}

/// Decides the response to one inbound subscriber frame: pings are
/// answered with pongs, a close is acknowledged and ends the session,
/// anything else is ignored.
pub fn handle_incoming(frame: InboundFrame) -> (r: (SessionAction, bool))
    ensures
        r == handle_incoming_spec(frame),
{
    match frame {
        InboundFrame::Ping(p) => (SessionAction::SendPong(p), true),
        InboundFrame::Close => (SessionAction::SendClose, false),
        InboundFrame::Text(_) => (SessionAction::Ignore, true),
        InboundFrame::Other => (SessionAction::Ignore, true),
    }
}

} // verus!

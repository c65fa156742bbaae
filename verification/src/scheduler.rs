//! The request scheduler of an asynchronous connection. Queries share one
//! stream: the first query to find the queue empty becomes the driver, which
//! sends every queued request, reads replies and hands each to the query
//! with its token; the others wait until their reply arrives or until they
//! are made the driver. This module holds the queue and every decision; the
//! I/O and the waiting are the caller's.

use vstd::prelude::*;
use vstd::pervasive::VecAdditionalExecFns;
use std::task::Waker;
use crate::Error;

verus! {

/// Where a query stands.
#[derive(Debug)]
pub enum QueryState {
    /// A request without reply to be sent by the driver, which owns it.
    NoReplyRequestActive(Vec<u8>),
    /// A request without reply to be sent, whose owner waits.
    NoReplyRequestWake(Vec<u8>, Waker),
    /// A request to be sent by the driver, which owns it.
    RequestActive(Vec<u8>),
    /// A request to be sent, whose owner waits.
    RequestWake(Vec<u8>, Waker),
    /// The driver's own request went out; its reply is awaited.
    PendingActive,
    /// A request went out; its owner waits for the reply.
    PendingWake(Waker),
    /// A request without reply went out.
    ResultNoReply,
    /// The reply.
    ResultOk(Vec<u8>),
    /// The error that ended the query.
    ResultErr(Error),
}

/// A request that still has to go out.
pub open spec fn is_request(s: QueryState) -> bool {
    s is NoReplyRequestActive || s is NoReplyRequestWake || s is RequestActive || s is RequestWake
}

/// A final state, to be collected by the query's owner.
pub open spec fn is_result(s: QueryState) -> bool {
    s is ResultNoReply || s is ResultOk || s is ResultErr
}

/// A state whose owner waits to be woken.
pub open spec fn is_waiting(s: QueryState) -> bool {
    s is NoReplyRequestWake || s is RequestWake || s is PendingWake
}

/// A state whose owner is, or is to become, the driver.
pub open spec fn is_active(s: QueryState) -> bool {
    s is NoReplyRequestActive || s is RequestActive || s is PendingActive
}

/// The state that a waiting state becomes when its owner is made the driver.
pub open spec fn activated(s: QueryState) -> QueryState {
    match s {
        QueryState::NoReplyRequestWake(buf, _) => QueryState::NoReplyRequestActive(buf),
        QueryState::RequestWake(buf, _) => QueryState::RequestActive(buf),
        QueryState::PendingWake(_) => QueryState::PendingActive,
        other => other,
    }
}

/// Making a waiting query the driver keeps its request: a request that
/// expects a reply stays one, with the same bytes; a request without reply
/// stays one, with the same bytes; a query waiting for its reply awaits it as
/// the driver. Every other state is left as it is.
pub proof fn lemma_activation_keeps_the_request(s: QueryState)
    ensures
        s matches QueryState::RequestWake(buf, _) ==> activated(s) == QueryState::RequestActive(buf),
        s matches QueryState::NoReplyRequestWake(buf, _) ==> activated(s) == QueryState::NoReplyRequestActive(buf),
        s is PendingWake ==> activated(s) == QueryState::PendingActive,
        !is_waiting(s) ==> activated(s) == s,
        is_waiting(s) ==> is_active(activated(s)) && request_payload(activated(s)) == request_payload(s),
{
}

/// The waker of a waiting state.
pub open spec fn waker_of(s: QueryState) -> Option<Waker> {
    match s {
        QueryState::NoReplyRequestWake(_, w) => Some(w),
        QueryState::RequestWake(_, w) => Some(w),
        QueryState::PendingWake(w) => Some(w),
        _ => None,
    }
}

/// The bytes of a request.
pub open spec fn request_payload(s: QueryState) -> Seq<u8> {
    match s {
        QueryState::NoReplyRequestActive(buf) => buf@,
        QueryState::NoReplyRequestWake(buf, _) => buf@,
        QueryState::RequestActive(buf) => buf@,
        QueryState::RequestWake(buf, _) => buf@,
        _ => Seq::empty(),
    }
}

/// What a query gives its caller in the end: nothing for a request without
/// reply, the reply's bytes, or the error; any other state is an error of the
/// scheduler itself.
pub open spec fn reply_of(s: QueryState) -> Result<Option<Vec<u8>>, Error> {
    match s {
        QueryState::ResultNoReply => Ok(None),
        QueryState::ResultOk(buf) => Ok(Some(buf)),
        QueryState::ResultErr(e) => Err(e),
        _ => Err(Error::Sync("invalid query state after wakeup")),
    }
}

/// What a query gives its caller in the end (see `reply_of`).
pub fn into_reply(s: QueryState) -> (r: Result<Option<Vec<u8>>, Error>)
    ensures
        r == reply_of(s),
{
    match s {
        QueryState::ResultNoReply => Ok(None),
        QueryState::ResultOk(buf) => Ok(Some(buf)),
        QueryState::ResultErr(e) => Err(e),
        _ => Err(Error::Sync("invalid query state after wakeup")),
    }
}

/// What registering a query leads to.
pub struct Registration {
    /// The slot that holds the query's state.
    pub cell: usize,
    /// The query found the queue empty and drives it.
    pub driver: bool,
    /// The driver's waker, to be woken so that it sends the new request.
    pub wake: Option<Waker>,
}

/// What the owner of a waiting query finds when it is woken.
pub enum WaitOutcome {
    /// It has been made the driver.
    Drive,
    /// Nothing happened yet: it waits on.
    Wait,
    /// The query is over, with this result.
    Done(Result<Option<Vec<u8>>, Error>),
}

/// What the driver does after a step.
pub enum DriverStep {
    /// Go on, after waking the given waker, if any.
    Continue(Option<Waker>),
    /// Stop driving: the driver's own query is over with this state.
    Stop(QueryState),
}

/// What the driver does after sending a request.
pub enum SendOutcome {
    /// Go on with the queue from position `next`, after waking `wake`.
    Continue { next: usize, wake: Option<Waker> },
    /// Stop driving: the driver's own query is over with this state.
    Stop(QueryState),
}

/// The queue of queries of one connection, with the slots that hold their
/// states; the states of queries that left the queue stay in their slots
/// until their owners collect them.
pub struct SchedulerQueue {
    wake: Option<Waker>,
    queue: Vec<(u64, usize)>,
    cells: Vec<Option<QueryState>>,
}

/// The first queued query at or after position `p` whose request has to go
/// out, if any.
pub open spec fn first_request_from(entries: Seq<(u64, usize)>, cells: Seq<Option<QueryState>>, p: int) -> Option<int>
    decreases entries.len() - p,
{
    if p < 0 || p >= entries.len() {
        None
    } else if is_request(cells[entries[p].1 as int]->0) {
        Some(p)
    } else {
        first_request_from(entries, cells, p + 1)
    }
}

/// The first queued query whose owner waits, if any.
pub open spec fn first_waiting_from(entries: Seq<(u64, usize)>, cells: Seq<Option<QueryState>>, p: int) -> Option<int>
    decreases entries.len() - p,
{
    if p < 0 || p >= entries.len() {
        None
    } else if is_waiting(cells[entries[p].1 as int]->0) {
        Some(p)
    } else {
        first_waiting_from(entries, cells, p + 1)
    }
}

/// The first queued query with the given token, if any.
pub open spec fn first_with_token_from(entries: Seq<(u64, usize)>, token: u64, p: int) -> Option<int>
    decreases entries.len() - p,
{
    if p < 0 || p >= entries.len() {
        None
    } else if entries[p].0 == token {
        Some(p)
    } else {
        first_with_token_from(entries, token, p + 1)
    }
}

/// No two queued queries carry the same token.
pub open spec fn distinct_tokens(entries: Seq<(u64, usize)>) -> bool {
    forall|i: int, j: int|
        0 <= i < entries.len() && 0 <= j < entries.len() && i != j ==> (#[trigger] entries[i]).0
            != (#[trigger] entries[j]).0
}

/// Where queued queries carry distinct tokens, the reply with a query's
/// token is handed to that query (`on_receive` hands a reply to the first
/// queued query with its token) and to no other.
pub proof fn lemma_reply_reaches_its_query(entries: Seq<(u64, usize)>, i: int)
    requires
        distinct_tokens(entries),
        0 <= i < entries.len(),
    ensures
        first_with_token_from(entries, entries[i].0, 0) == Some(i),
{
    lemma_first_token_is(entries, i, 0);
}

proof fn lemma_first_token_is(entries: Seq<(u64, usize)>, i: int, p: int)
    requires
        distinct_tokens(entries),
        0 <= p <= i < entries.len(),
    ensures
        first_with_token_from(entries, entries[i].0, p) == Some(i),
    decreases i - p,
{
    if p < i {
        assert(entries[p].0 != entries[i].0);
        lemma_first_token_is(entries, i, p + 1);
    }
}

/// Where the walk over the queue goes on after the entry at `i` was removed:
/// at the entry that took its place, or, where it was the last, from the
/// front, with the one step that follows every visit.
pub open spec fn next_after_removal(i: int, new_len: int) -> int {
    if i == new_len {
        0
    } else {
        i + 1
    }
}

proof fn lemma_first_from_found(entries: Seq<(u64, usize)>, cells: Seq<Option<QueryState>>, p: int)
    requires
        first_request_from(entries, cells, p) is Some,
    ensures
        p <= first_request_from(entries, cells, p)->0 < entries.len(),
        is_request(cells[entries[first_request_from(entries, cells, p)->0].1 as int]->0),
    decreases entries.len() - p,
{
    if p >= 0 && p < entries.len() && !is_request(cells[entries[p].1 as int]->0) {
        lemma_first_from_found(entries, cells, p + 1);
    }
}

proof fn lemma_first_waiting_found(entries: Seq<(u64, usize)>, cells: Seq<Option<QueryState>>, p: int)
    requires
        first_waiting_from(entries, cells, p) is Some,
    ensures
        p <= first_waiting_from(entries, cells, p)->0 < entries.len(),
        is_waiting(cells[entries[first_waiting_from(entries, cells, p)->0].1 as int]->0),
    decreases entries.len() - p,
{
    if p >= 0 && p < entries.len() && !is_waiting(cells[entries[p].1 as int]->0) {
        lemma_first_waiting_found(entries, cells, p + 1);
    }
}

proof fn lemma_first_token_found(entries: Seq<(u64, usize)>, token: u64, p: int)
    requires
        first_with_token_from(entries, token, p) is Some,
    ensures
        p <= first_with_token_from(entries, token, p)->0 < entries.len(),
        entries[first_with_token_from(entries, token, p)->0].0 == token,
    decreases entries.len() - p,
{
    if p >= 0 && p < entries.len() && entries[p].0 != token {
        lemma_first_token_found(entries, token, p + 1);
    }
}

/// The queue after a reply with this token: the first queued query with the
/// token leaves it.
pub open spec fn receive_entries(entries: Seq<(u64, usize)>, token: u64) -> Seq<(u64, usize)> {
    match first_with_token_from(entries, token, 0) {
        Some(i) => entries.remove(i),
        None => entries,
    }
}

/// The slots after a reply with this token: the first queued query with the
/// token gets the reply where its owner waits for it.
pub open spec fn receive_cells(
    entries: Seq<(u64, usize)>,
    cells: Seq<Option<QueryState>>,
    token: u64,
    payload: Vec<u8>,
) -> Seq<Option<QueryState>> {
    match first_with_token_from(entries, token, 0) {
        Some(i) => match cells[entries[i].1 as int] {
            Some(QueryState::PendingWake(_)) => cells.update(entries[i].1 as int, Some(QueryState::ResultOk(payload))),
            _ => cells,
        },
        None => cells,
    }
}

/// What the driver does after a reply with this token: wake the waiting
/// owner of the first queued query with the token, stop with the reply where
/// that query is the driver's own, and otherwise go on.
pub open spec fn receive_step(
    entries: Seq<(u64, usize)>,
    cells: Seq<Option<QueryState>>,
    token: u64,
    payload: Vec<u8>,
) -> DriverStep {
    match first_with_token_from(entries, token, 0) {
        Some(i) => match cells[entries[i].1 as int] {
            Some(QueryState::PendingWake(w)) => DriverStep::Continue(Some(w)),
            Some(QueryState::PendingActive) => DriverStep::Stop(QueryState::ResultOk(payload)),
            _ => DriverStep::Continue(None),
        },
        None => DriverStep::Continue(None),
    }
}

/// Each query gets the reply that carries its own token and no other, where
/// the queued queries carry distinct tokens: a reply with a query's token
/// takes it out of the queue and, where its owner waits, fills its slot with
/// the reply and wakes the owner, who collects it (`poll_waiting` hands over
/// `reply_of`, here the reply's bytes); where it is the driver's own query,
/// the driver stops with the reply, which `finish` hands back and
/// `into_reply` turns into the reply's bytes. A reply with another token
/// leaves the query queued and its slot as it was.
pub proof fn lemma_reply_delivered(q: SchedulerQueue, i: int, token: u64, payload: Vec<u8>)
    requires
        q.wf(),
        distinct_tokens(q.entries()),
        0 <= i < q.entries().len(),
    ensures
        ({
            let es = q.entries();
            let c = es[i].1 as int;
            let s = q.cells()[c]->0;
            let after = receive_cells(es, q.cells(), token, payload);
            let step = receive_step(es, q.cells(), token, payload);
            &&& token == es[i].0 ==> receive_entries(es, token) == es.remove(i)
            &&& token == es[i].0 && s is PendingWake ==> after[c] == Some(QueryState::ResultOk(payload))
                && step == DriverStep::Continue(Some(s->PendingWake_0))
                && reply_of(after[c]->0) == Ok::<Option<Vec<u8>>, Error>(Some(payload))
            &&& token == es[i].0 && s is PendingActive ==> step == DriverStep::Stop(QueryState::ResultOk(payload))
                && reply_of(QueryState::ResultOk(payload)) == Ok::<Option<Vec<u8>>, Error>(Some(payload))
            &&& token != es[i].0 ==> after[c] == q.cells()[c] && receive_entries(es, token).contains(es[i])
        }),
{
    let es = q.entries();
    q.lemma_wf_slots();
    if token == es[i].0 {
        lemma_reply_reaches_its_query(es, i);
    } else {
        match first_with_token_from(es, token, 0) {
            Some(j) => {
                lemma_first_token_found(es, token, 0);
                assert(j != i);
                assert(es[j].1 != es[i].1);
                let rest = es.remove(j);
                let k = if i < j { i } else { i - 1 };
                assert(rest[k] == es[i]);
            },
            None => {},
        }
    }
}

impl SchedulerQueue {
    /// The queued queries, in order: their tokens and slots.
    pub closed spec fn entries(&self) -> Seq<(u64, usize)> {
        self.queue@
    }

    /// The driver's waker while it waits for a reply.
    pub closed spec fn driver_waker(&self) -> Option<Waker> {
        self.wake
    }

    /// The slots and the states they hold.
    pub closed spec fn cells(&self) -> Seq<Option<QueryState>> {
        self.cells@
    }

    /// Every queued query has a slot of its own that holds a state short of
    /// its result.
    pub closed spec fn wf(&self) -> bool {
        &&& forall|i: int|
            0 <= i < self.queue@.len() ==> {
                &&& (#[trigger] self.queue@[i]).1 < self.cells@.len()
                &&& self.cells@[self.queue@[i].1 as int] is Some
                &&& !is_result(self.cells@[self.queue@[i].1 as int]->0)
            }
        &&& forall|i: int, j: int|
            0 <= i < self.queue@.len() && 0 <= j < self.queue@.len() && i != j ==> (#[trigger] self.queue@[i]).1
                != (#[trigger] self.queue@[j]).1
    }

    /// What the invariant guarantees of the queued queries: each has a slot
    /// in the slot list that holds a state short of its result, and no two
    /// share a slot.
    pub proof fn lemma_wf_slots(&self)
        requires
            self.wf(),
        ensures
            forall|i: int|
                0 <= i < self.entries().len() ==> {
                    &&& (#[trigger] self.entries()[i]).1 < self.cells().len()
                    &&& self.cells()[self.entries()[i].1 as int] is Some
                    &&& !is_result(self.cells()[self.entries()[i].1 as int]->0)
                },
            forall|i: int, j: int|
                0 <= i < self.entries().len() && 0 <= j < self.entries().len() && i != j
                    ==> (#[trigger] self.entries()[i]).1 != (#[trigger] self.entries()[j]).1,
    {
    }

    /// An empty queue.
    pub fn new() -> (q: Self)
        ensures
            q.wf(),
            q.entries().len() == 0,
            q.cells().len() == 0,
            q.driver_waker() is None,
    {
        SchedulerQueue { wake: None, queue: Vec::new(), cells: Vec::new() }
    }

    /// Keeps the driver's waker while it waits for a reply, to be woken when
    /// a new request is queued.
    pub fn set_driver_waker(&mut self, waker: Waker)
        requires
            old(self).wf(),
        ensures
            final(self).wf(),
            final(self).entries() == old(self).entries(),
            final(self).cells() == old(self).cells(),
            final(self).driver_waker() == Some(waker),
    {
        self.wake = Some(waker);
    }

    /// No query is queued.
    pub fn is_empty(&self) -> (r: bool)
        ensures
            r == (self.entries().len() == 0),
    {
        self.queue.len() == 0
    }

    fn alloc_cell(&mut self, state: QueryState) -> (c: usize)
        requires
            old(self).wf(),
        ensures
            c <= old(self).cells@.len(),
            c < old(self).cells@.len() ==> old(self).cells@[c as int] is None,
            c < old(self).cells@.len() ==> final(self).cells@ == old(self).cells@.update(c as int, Some(state)),
            c == old(self).cells@.len() ==> final(self).cells@ == old(self).cells@.push(Some(state)),
            final(self).queue@ == old(self).queue@,
            final(self).driver_waker() == old(self).driver_waker(),
    {
        let mut i: usize = 0;
        while i < self.cells.len()
            invariant
                i <= self.cells@.len(),
                self.cells@ == old(self).cells@,
                self.queue@ == old(self).queue@,
                self.wake == old(self).wake,
                forall|t: int| 0 <= t < i ==> self.cells@[t] is Some,
            decreases self.cells@.len() - i,
        {
            if self.cells[i].is_none() {
                self.cells.set(i, Some(state));
                return i;
            }
            i += 1;
        }
        self.cells.push(Some(state));
        i
    }

    /// Registers a query with its token and request. A query that finds the
    /// queue empty drives it; any other waits, with its waker in its state,
    /// and the driver's waker is taken to be woken.
    pub fn register(&mut self, token: u64, buf: Vec<u8>, reply: bool, waker: Waker) -> (r: Registration)
        requires
            old(self).wf(),
        ensures
            final(self).wf(),
            r.driver == (old(self).entries().len() == 0),
            final(self).entries() == old(self).entries().push((token, r.cell)),
            r.cell <= old(self).cells().len(),
            r.cell < final(self).cells().len(),
            r.cell < old(self).cells().len() ==> old(self).cells()[r.cell as int] is None,
            final(self).cells().len() == old(self).cells().len() || final(self).cells().len() == old(self).cells().len() + 1,
            final(self).cells()[r.cell as int] == Some(
                if r.driver {
                    if reply { QueryState::RequestActive(buf) } else { QueryState::NoReplyRequestActive(buf) }
                } else {
                    if reply { QueryState::RequestWake(buf, waker) } else { QueryState::NoReplyRequestWake(buf, waker) }
                },
            ),
            forall|c: int| 0 <= c < old(self).cells().len() && c != r.cell ==> final(self).cells()[c] == old(self).cells()[c],
            r.driver ==> r.wake is None && final(self).driver_waker() == old(self).driver_waker(),
            !r.driver ==> r.wake == old(self).driver_waker() && final(self).driver_waker() is None,
    {
        let driver = self.queue.len() == 0;
        let state = if driver {
            if reply { QueryState::RequestActive(buf) } else { QueryState::NoReplyRequestActive(buf) }
        } else {
            if reply { QueryState::RequestWake(buf, waker) } else { QueryState::NoReplyRequestWake(buf, waker) }
        };
        let cell = self.alloc_cell(state);
        self.queue.push((token, cell));
        let wake = if driver { None } else { self.wake.take() };
        proof {
            assert forall|i: int| 0 <= i < self.queue@.len() implies {
                &&& (#[trigger] self.queue@[i]).1 < self.cells@.len()
                &&& self.cells@[self.queue@[i].1 as int] is Some
                &&& !is_result(self.cells@[self.queue@[i].1 as int]->0)
            } by {
                if i < old(self).queue@.len() {
                    assert(self.queue@[i] == old(self).queue@[i]);
                }
            }
        }
        Registration { cell, driver, wake }
    }

    /// Looks at a waiting query's slot after its owner was woken: it drives
    /// when its state was made active, waits on while its state still waits,
    /// and otherwise collects its result, which frees the slot.
    pub fn poll_waiting(&mut self, cell: usize) -> (r: WaitOutcome)
        requires
            old(self).wf(),
            cell < old(self).cells().len(),
            old(self).cells()[cell as int] is Some,
        ensures
            final(self).wf(),
            final(self).entries() == old(self).entries(),
            final(self).driver_waker() == old(self).driver_waker(),
            ({
                let s = old(self).cells()[cell as int]->0;
                &&& is_active(s) ==> r is Drive && final(self).cells() == old(self).cells()
                &&& is_waiting(s) ==> r is Wait && final(self).cells() == old(self).cells()
                &&& is_result(s) ==> r is Done && r->Done_0 == reply_of(s)
                    && final(self).cells() == old(self).cells().update(cell as int, None)
            }),
    {
        let mut slot: Option<QueryState> = None;
        self.cells.set_and_swap(cell, &mut slot);
        let state = slot.unwrap();
        match state {
            QueryState::NoReplyRequestActive(_) | QueryState::RequestActive(_) | QueryState::PendingActive => {
                self.cells.set(cell, Some(state));
                proof { assert(self.cells@ =~= old(self).cells@); }
                WaitOutcome::Drive
            },
            QueryState::NoReplyRequestWake(..) | QueryState::RequestWake(..) | QueryState::PendingWake(..) => {
                self.cells.set(cell, Some(state));
                proof { assert(self.cells@ =~= old(self).cells@); }
                WaitOutcome::Wait
            },
            _ => {
                proof {
                    assert forall|i: int| 0 <= i < self.queue@.len() implies {
                        &&& (#[trigger] self.queue@[i]).1 < self.cells@.len()
                        &&& self.cells@[self.queue@[i].1 as int] is Some
                        &&& !is_result(self.cells@[self.queue@[i].1 as int]->0)
                    } by {
                        assert(self.queue@[i].1 != cell);
                    }
                }
                WaitOutcome::Done(into_reply(state))
            },
        }
    }

    proof fn lemma_wf_after_remove(&self, i: int, new_cells: Seq<Option<QueryState>>)
        requires
            self.wf(),
            0 <= i < self.queue@.len(),
            new_cells.len() == self.cells@.len(),
            forall|c: int| 0 <= c < new_cells.len() && c != self.queue@[i].1 ==> new_cells[c] == self.cells@[c],
        ensures
            ({
                let q = self.queue@.remove(i);
                &&& forall|k: int|
                    0 <= k < q.len() ==> {
                        &&& (#[trigger] q[k]).1 < new_cells.len()
                        &&& new_cells[q[k].1 as int] is Some
                        &&& !is_result(new_cells[q[k].1 as int]->0)
                    }
                &&& forall|a: int, b: int|
                    0 <= a < q.len() && 0 <= b < q.len() && a != b ==> (#[trigger] q[a]).1 != (#[trigger] q[b]).1
            }),
    {
        let q = self.queue@.remove(i);
        assert forall|k: int| 0 <= k < q.len() implies {
            &&& (#[trigger] q[k]).1 < new_cells.len()
            &&& new_cells[q[k].1 as int] is Some
            &&& !is_result(new_cells[q[k].1 as int]->0)
        } by {
            let j = if k < i { k } else { k + 1 };
            assert(q[k] == self.queue@[j]);
            assert(self.queue@[j].1 != self.queue@[i].1);
        }
        assert forall|a: int, b: int| 0 <= a < q.len() && 0 <= b < q.len() && a != b implies (#[trigger] q[a]).1
            != (#[trigger] q[b]).1 by {
            let ja = if a < i { a } else { a + 1 };
            let jb = if b < i { b } else { b + 1 };
            assert(q[a] == self.queue@[ja]);
            assert(q[b] == self.queue@[jb]);
        }
    }

    fn waiting_at(&self, i: usize) -> (r: bool)
        requires
            self.wf(),
            i < self.queue@.len(),
        ensures
            r == is_waiting(self.cells@[self.queue@[i as int].1 as int]->0),
    {
        let c = self.queue[i].1;
        match &self.cells[c] {
            Some(QueryState::NoReplyRequestWake(..)) => true,
            Some(QueryState::RequestWake(..)) => true,
            Some(QueryState::PendingWake(..)) => true,
            _ => false,
        }
    }

    /// The position of the first queued request at or after position `p`.
    pub fn next_request(&self, p: usize) -> (r: Option<usize>)
        requires
            self.wf(),
        ensures
            r is Some ==> first_request_from(self.entries(), self.cells(), p as int) == Some(r->0 as int),
            r is None ==> first_request_from(self.entries(), self.cells(), p as int) is None,
            r is Some ==> p <= r->0 < self.entries().len()
                && is_request(self.cells()[self.entries()[r->0 as int].1 as int]->0),
    {
        let mut i = p;
        while i < self.queue.len()
            invariant
                self.wf(),
                p <= i,
                first_request_from(self.entries(), self.cells(), p as int) == first_request_from(
                    self.entries(),
                    self.cells(),
                    i as int,
                ),
            decreases self.queue@.len() - i,
        {
            let c = self.queue[i].1;
            let found = match &self.cells[c] {
                Some(QueryState::NoReplyRequestActive(_)) => true,
                Some(QueryState::NoReplyRequestWake(..)) => true,
                Some(QueryState::RequestActive(_)) => true,
                Some(QueryState::RequestWake(..)) => true,
                _ => false,
            };
            if found {
                proof { lemma_first_from_found(self.entries(), self.cells(), p as int); }
                return Some(i);
            }
            i += 1;
        }
        None
    }

    /// The token and the bytes of the queued request at position `i`.
    pub fn request(&self, i: usize) -> (r: (u64, Vec<u8>))
        requires
            self.wf(),
            i < self.entries().len(),
            is_request(self.cells()[self.entries()[i as int].1 as int]->0),
        ensures
            r.0 == self.entries()[i as int].0,
            r.1@ == request_payload(self.cells()[self.entries()[i as int].1 as int]->0),
    {
        let (token, c) = self.queue[i];
        let mut out: Vec<u8> = Vec::new();
        match &self.cells[c] {
            Some(QueryState::NoReplyRequestActive(buf)) => out.extend_from_slice(buf.as_slice()),
            Some(QueryState::NoReplyRequestWake(buf, _)) => out.extend_from_slice(buf.as_slice()),
            Some(QueryState::RequestActive(buf)) => out.extend_from_slice(buf.as_slice()),
            Some(QueryState::RequestWake(buf, _)) => out.extend_from_slice(buf.as_slice()),
            _ => {},
        }
        (token, out)
    }

    /// Takes the result of sending the queued request at position `i`. A sent
    /// request awaits its reply; a request without reply is over; a failed
    /// send ends the query with the error. A query that is over leaves the
    /// queue, and its owner is woken, unless it is the driver's own, which
    /// stops the driver. The walk over the queue goes on after the position.
    pub fn on_sent(&mut self, i: usize, result: Result<(), Error>) -> (r: SendOutcome)
        requires
            old(self).wf(),
            i < old(self).entries().len(),
            is_request(old(self).cells()[old(self).entries()[i as int].1 as int]->0),
        ensures
            final(self).wf(),
            final(self).driver_waker() == old(self).driver_waker(),
            ({
                let c = old(self).entries()[i as int].1 as int;
                let s = old(self).cells()[c]->0;
                let removed = old(self).entries().remove(i as int);
                &&& s is RequestActive && result is Ok ==> final(self).entries() == old(self).entries()
                    && final(self).cells() == old(self).cells().update(c, Some(QueryState::PendingActive))
                    && r == SendOutcome::Continue { next: (i + 1) as usize, wake: None }
                &&& s is RequestActive && result is Err ==> final(self).entries() == removed
                    && final(self).cells() == old(self).cells()
                    && r == SendOutcome::Stop(QueryState::ResultErr(result->Err_0))
                &&& s is NoReplyRequestActive ==> final(self).entries() == removed
                    && final(self).cells() == old(self).cells()
                    && r == SendOutcome::Stop(
                        match result {
                            Ok(_) => QueryState::ResultNoReply,
                            Err(e) => QueryState::ResultErr(e),
                        },
                    )
                &&& s is RequestWake && result is Ok ==> final(self).entries() == old(self).entries()
                    && final(self).cells() == old(self).cells().update(c, Some(QueryState::PendingWake(s->RequestWake_1)))
                    && r == SendOutcome::Continue { next: (i + 1) as usize, wake: None }
                &&& s is RequestWake && result is Err ==> final(self).entries() == removed
                    && final(self).cells() == old(self).cells().update(c, Some(QueryState::ResultErr(result->Err_0)))
                    && r == SendOutcome::Continue {
                        next: next_after_removal(i as int, removed.len() as int) as usize,
                        wake: Some(s->RequestWake_1),
                    }
                &&& s is NoReplyRequestWake ==> final(self).entries() == removed
                    && final(self).cells() == old(self).cells().update(
                        c,
                        Some(
                            match result {
                                Ok(_) => QueryState::ResultNoReply,
                                Err(e) => QueryState::ResultErr(e),
                            },
                        ),
                    )
                    && r == SendOutcome::Continue {
                        next: next_after_removal(i as int, removed.len() as int) as usize,
                        wake: Some(s->NoReplyRequestWake_1),
                    }
            }),
    {
        let _n = self.queue.len();
        let c = self.queue[i].1;
        let ghost old_cells = self.cells@;
        let mut slot: Option<QueryState> = None;
        self.cells.set_and_swap(c, &mut slot);
        let state = slot.unwrap();
        match state {
            QueryState::RequestActive(buf) => {
                match result {
                    Ok(()) => {
                        self.cells.set(c, Some(QueryState::PendingActive));
                        SendOutcome::Continue { next: i + 1, wake: None }
                    },
                    Err(e) => {
                        self.cells.set(c, Some(QueryState::RequestActive(buf)));
                        proof {
                            assert(self.cells@ =~= old_cells);
                            old(self).lemma_wf_after_remove(i as int, self.cells@);
                        }
                        self.queue.remove(i);
                        SendOutcome::Stop(QueryState::ResultErr(e))
                    },
                }
            },
            QueryState::NoReplyRequestActive(buf) => {
                self.cells.set(c, Some(QueryState::NoReplyRequestActive(buf)));
                proof {
                    assert(self.cells@ =~= old_cells);
                    old(self).lemma_wf_after_remove(i as int, self.cells@);
                }
                self.queue.remove(i);
                let end = match result {
                    Ok(()) => QueryState::ResultNoReply,
                    Err(e) => QueryState::ResultErr(e),
                };
                SendOutcome::Stop(end)
            },
            QueryState::RequestWake(buf, waker) => {
                match result {
                    Ok(()) => {
                        self.cells.set(c, Some(QueryState::PendingWake(waker)));
                        SendOutcome::Continue { next: i + 1, wake: None }
                    },
                    Err(e) => {
                        self.cells.set(c, Some(QueryState::ResultErr(e)));
                        proof { old(self).lemma_wf_after_remove(i as int, self.cells@); }
                        self.queue.remove(i);
                        let next = if i == self.queue.len() { 0 } else { i + 1 };
                        SendOutcome::Continue { next, wake: Some(waker) }
                    },
                }
            },
            QueryState::NoReplyRequestWake(buf, waker) => {
                let end = match result {
                    Ok(()) => QueryState::ResultNoReply,
                    Err(e) => QueryState::ResultErr(e),
                };
                self.cells.set(c, Some(end));
                proof { old(self).lemma_wf_after_remove(i as int, self.cells@); }
                self.queue.remove(i);
                let next = if i == self.queue.len() { 0 } else { i + 1 };
                SendOutcome::Continue { next, wake: Some(waker) }
            },
            other => {
                self.cells.set(c, Some(other));
                proof { assert(false); }
                SendOutcome::Continue { next: i + 1, wake: None }
            },
        }
    }

    /// Takes what reading a reply gave. An error stops the driver with it. A
    /// reply goes to the first queued query with its token, which leaves the
    /// queue: a waiting owner gets the reply and is woken, the driver's own
    /// query stops the driver with it, and a query in any other state keeps
    /// it (the reply came for a query that was no longer waiting for one). A
    /// reply for no queued query is dropped.
    pub fn on_receive(&mut self, reply: Result<(u64, Vec<u8>), Error>) -> (r: DriverStep)
        requires
            old(self).wf(),
        ensures
            final(self).wf(),
            final(self).driver_waker() == old(self).driver_waker(),
            reply is Err ==> r == DriverStep::Stop(QueryState::ResultErr(reply->Err_0))
                && final(self).entries() == old(self).entries() && final(self).cells() == old(self).cells(),
            reply is Ok ==> final(self).entries() == receive_entries(old(self).entries(), reply->Ok_0.0)
                && final(self).cells() == receive_cells(old(self).entries(), old(self).cells(), reply->Ok_0.0, reply->Ok_0.1)
                && r == receive_step(old(self).entries(), old(self).cells(), reply->Ok_0.0, reply->Ok_0.1),
            reply is Ok && first_with_token_from(old(self).entries(), reply->Ok_0.0, 0) is None ==> r
                == DriverStep::Continue(None) && final(self).entries() == old(self).entries()
                && final(self).cells() == old(self).cells(),
            reply is Ok && first_with_token_from(old(self).entries(), reply->Ok_0.0, 0) is Some ==> ({
                let i = first_with_token_from(old(self).entries(), reply->Ok_0.0, 0)->0;
                let c = old(self).entries()[i].1 as int;
                let s = old(self).cells()[c]->0;
                &&& old(self).entries()[i].0 == reply->Ok_0.0
                &&& final(self).entries() == old(self).entries().remove(i)
                &&& s is PendingWake ==> r == DriverStep::Continue(Some(s->PendingWake_0))
                    && final(self).cells() == old(self).cells().update(c, Some(QueryState::ResultOk(reply->Ok_0.1)))
                &&& s is PendingActive ==> r == DriverStep::Stop(QueryState::ResultOk(reply->Ok_0.1))
                    && final(self).cells() == old(self).cells()
                &&& !(s is PendingWake) && !(s is PendingActive) ==> r == DriverStep::Continue(None)
                    && final(self).cells() == old(self).cells()
            }),
    {
        let (token, buf) = match reply {
            Err(e) => return DriverStep::Stop(QueryState::ResultErr(e)),
            Ok(v) => v,
        };
        let mut i: usize = 0;
        while i < self.queue.len() && self.queue[i].0 != token
            invariant
                self.wf(),
                i <= self.queue@.len(),
                self.queue@ == old(self).queue@,
                self.cells@ == old(self).cells@,
                self.wake == old(self).wake,
                first_with_token_from(old(self).entries(), token, 0) == first_with_token_from(
                    old(self).entries(),
                    token,
                    i as int,
                ),
            decreases self.queue@.len() - i,
        {
            i += 1;
        }
        if i == self.queue.len() {
            return DriverStep::Continue(None);
        }
        proof { lemma_first_token_found(old(self).entries(), token, 0); }
        let c = self.queue[i].1;
        let ghost old_cells = self.cells@;
        let mut slot: Option<QueryState> = None;
        self.cells.set_and_swap(c, &mut slot);
        let state = slot.unwrap();
        match state {
            QueryState::PendingWake(waker) => {
                self.cells.set(c, Some(QueryState::ResultOk(buf)));
                proof { old(self).lemma_wf_after_remove(i as int, self.cells@); }
                self.queue.remove(i);
                DriverStep::Continue(Some(waker))
            },
            other => {
                let stop = match other {
                    QueryState::PendingActive => true,
                    _ => false,
                };
                self.cells.set(c, Some(other));
                proof {
                    assert(self.cells@ =~= old_cells);
                    old(self).lemma_wf_after_remove(i as int, self.cells@);
                }
                self.queue.remove(i);
                if stop {
                    DriverStep::Stop(QueryState::ResultOk(buf))
                } else {
                    DriverStep::Continue(None)
                }
            },
        }
    }

    /// Ends a driver's turn: the first queued query whose owner waits is made
    /// the driver (its state becomes active and its waker is handed back to
    /// be woken), and the driver's own slot is freed unless its query is
    /// still queued. The driver's outcome is handed back unchanged.
    pub fn finish(&mut self, own: usize, outcome: QueryState) -> (r: (QueryState, Option<Waker>))
        requires
            old(self).wf(),
        ensures
            final(self).wf(),
            final(self).driver_waker() == old(self).driver_waker(),
            final(self).entries() == old(self).entries(),
            r.0 == outcome,
            ({
                let es = old(self).entries();
                let w = first_waiting_from(es, old(self).cells(), 0);
                let still_queued = exists|k: int| 0 <= k < es.len() && (#[trigger] es[k]).1 == own;
                let promoted = match w {
                    Some(i) => old(self).cells().update(
                        es[i].1 as int,
                        Some(activated(old(self).cells()[es[i].1 as int]->0)),
                    ),
                    None => old(self).cells(),
                };
                &&& w is Some ==> 0 <= w->0 < es.len() && is_waiting(old(self).cells()[es[w->0].1 as int]->0)
                    && r.1 == waker_of(old(self).cells()[es[w->0].1 as int]->0)
                &&& w is None ==> r.1 is None
                &&& (still_queued || own >= old(self).cells().len()) ==> final(self).cells() == promoted
                &&& (!still_queued && own < old(self).cells().len()) ==> final(self).cells() == promoted.update(
                    own as int,
                    None,
                )
                &&& w is Some ==> final(self).cells()[es[w->0].1 as int] == Some(
                    activated(old(self).cells()[es[w->0].1 as int]->0),
                )
                &&& w is Some ==> match old(self).cells()[es[w->0].1 as int]->0 {
                    QueryState::RequestWake(b, _) => final(self).cells()[es[w->0].1 as int] == Some(
                        QueryState::RequestActive(b),
                    ),
                    QueryState::NoReplyRequestWake(b, _) => final(self).cells()[es[w->0].1 as int] == Some(
                        QueryState::NoReplyRequestActive(b),
                    ),
                    QueryState::PendingWake(_) => final(self).cells()[es[w->0].1 as int] == Some(
                        QueryState::PendingActive,
                    ),
                    _ => false,
                }
                &&& forall|k: int|
                    0 <= k < es.len() && Some(k) != w ==> final(self).cells()[(#[trigger] es[k]).1 as int]
                        == old(self).cells()[es[k].1 as int]
            }),
    {
        let mut i: usize = 0;
        while i < self.queue.len() && !self.waiting_at(i)
            invariant
                self.wf(),
                i <= self.queue@.len(),
                self.queue@ == old(self).queue@,
                self.cells@ == old(self).cells@,
                self.wake == old(self).wake,
                first_waiting_from(old(self).entries(), old(self).cells(), 0) == first_waiting_from(
                    old(self).entries(),
                    old(self).cells(),
                    i as int,
                ),
            decreases self.queue@.len() - i,
        {
            i += 1;
        }
        let mut wake: Option<Waker> = None;
        if i < self.queue.len() {
            let c = self.queue[i].1;
            assert(first_waiting_from(old(self).entries(), old(self).cells(), 0) == Some(i as int));
            proof { lemma_first_waiting_found(old(self).entries(), old(self).cells(), 0); }
            let mut slot: Option<QueryState> = None;
            self.cells.set_and_swap(c, &mut slot);
            let state = slot.unwrap();
            let next = match state {
                QueryState::NoReplyRequestWake(buf, waker) => {
                    wake = Some(waker);
                    QueryState::NoReplyRequestActive(buf)
                },
                QueryState::RequestWake(buf, waker) => {
                    wake = Some(waker);
                    QueryState::RequestActive(buf)
                },
                QueryState::PendingWake(waker) => {
                    wake = Some(waker);
                    QueryState::PendingActive
                },
                other => other,
            };
            self.cells.set(c, Some(next));
            proof {
                assert forall|k: int| 0 <= k < self.queue@.len() implies {
                    &&& (#[trigger] self.queue@[k]).1 < self.cells@.len()
                    &&& self.cells@[self.queue@[k].1 as int] is Some
                    &&& !is_result(self.cells@[self.queue@[k].1 as int]->0)
                } by {
                    if k != i {
                        assert(self.queue@[k].1 != self.queue@[i as int].1);
                    }
                }
            }
        }
        let ghost promoted = self.cells@;
        let mut queued = false;
        let mut k: usize = 0;
        while k < self.queue.len()
            invariant
                self.queue@ == old(self).queue@,
                k <= self.queue@.len(),
                queued <==> exists|t: int| 0 <= t < k && (#[trigger] self.queue@[t]).1 == own,
            decreases self.queue@.len() - k,
        {
            if self.queue[k].1 == own {
                queued = true;
            }
            k += 1;
        }
        if !queued && own < self.cells.len() {
            proof {
                assert forall|t: int| 0 <= t < self.queue@.len() implies {
                    &&& (#[trigger] self.queue@[t]).1 < self.cells@.len()
                    &&& self.cells@[self.queue@[t].1 as int] is Some
                    &&& !is_result(self.cells@[self.queue@[t].1 as int]->0)
                } by {
                    assert(self.queue@[t].1 != own);
                }
            }
            self.cells.set(own, None);
            proof {
                assert forall|t: int| 0 <= t < self.queue@.len() implies {
                    &&& (#[trigger] self.queue@[t]).1 < self.cells@.len()
                    &&& self.cells@[self.queue@[t].1 as int] is Some
                    &&& !is_result(self.cells@[self.queue@[t].1 as int]->0)
                } by {
                    assert(self.queue@[t].1 != own);
                    assert(self.cells@[self.queue@[t].1 as int] == promoted[self.queue@[t].1 as int]);
                }
            }
        }
        (outcome, wake)
    }
}

} // verus!

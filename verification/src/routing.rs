//! Model of the message-routing / execution pipeline collaborator.
//!
//! The pipeline accepts at most one batch per height, in strictly ascending
//! height order, and holds at most one accepted batch waiting for execution
//! (further deliveries see backpressure). Executing a batch advances the
//! state manager by one height and appends a terminal status for every
//! ingress message of the batch to the ingress history. What status execution
//! produces for a message is not this engine's concern: it is scripted per
//! message id in `outcomes`.

use vstd::prelude::*;
use crate::types::Batch;
use crate::types::IngressStatus;
use crate::types::copy_bytes;
use crate::state_manager::StateManager;

verus! {

/// Why the pipeline refused a batch.
#[derive(Debug)]
pub enum MessageRoutingError {
    /// Backpressure: an accepted batch is still waiting for execution.
    QueueIsFull,
    /// The batch's height is not the expected one.
    Ignored,
}

/// The content of an ingress status, for contracts: payloads as sequences.
pub enum StatusView {
    Reply(Seq<u8>),
    Reject,
    Failed,
    InProgress,
    Unknown,
}

impl StatusView {
    pub open spec fn is_reply(self) -> bool {
        matches!(self, StatusView::Reply(_))
    }
}

pub open spec fn status_view(s: IngressStatus) -> StatusView {
    match s {
        IngressStatus::CompletedReply(b) => StatusView::Reply(b@),
        IngressStatus::CompletedReject => StatusView::Reject,
        IngressStatus::Failed => StatusView::Failed,
        IngressStatus::InProgress => StatusView::InProgress,
        IngressStatus::Unknown => StatusView::Unknown,
    }
}

/// The status the history `s` reports for message `id`: the last entry for
/// `id`, or `Unknown` if there is none.
pub open spec fn latest_status_in(s: Seq<(u64, IngressStatus)>, id: u64) -> StatusView
    decreases s.len(),
{
    if s.len() == 0 {
        StatusView::Unknown
    } else if s.last().0 == id {
        status_view(s.last().1)
    } else {
        latest_status_in(s.drop_last(), id)
    }
}

pub struct MessageRouting {
    /// Height of the next batch the pipeline expects.
    pub expected: u64,
    /// The accepted batch waiting for execution, if any.
    pub queue: Option<Batch>,
    /// Heights of all accepted batches, in acceptance order.
    pub delivered_heights: Vec<u64>,
    /// Ingress history: statuses reported by execution, in execution order.
    pub statuses: Vec<(u64, IngressStatus)>,
    /// Scripted terminal status per message id; messages without an entry
    /// stay `Unknown`.
    pub outcomes: Vec<(u64, IngressStatus)>,
}

impl MessageRouting {
    pub fn expected_batch_height(&self) -> (h: u64)
        ensures
            h == self.expected,
    {
        self.expected
    }

    /// Hands one batch to the pipeline. A refused batch is handed back
    /// unchanged together with the reason.
    pub fn deliver_batch(&mut self, batch: Batch) -> (r: Result<
        (),
        (MessageRoutingError, Batch),
    >)
        requires
            old(self).expected < u64::MAX,
        ensures
            batch.batch_number != old(self).expected ==> (*final(self) == *old(self) && r
                == Err::<(), _>((MessageRoutingError::Ignored, batch))),
            batch.batch_number == old(self).expected && old(self).queue is Some ==> (*final(self)
                == *old(self) && r == Err::<(), _>((MessageRoutingError::QueueIsFull, batch))),
            batch.batch_number == old(self).expected && old(self).queue is None ==> (r == Ok::<
                _,
                (MessageRoutingError, Batch),
            >(()) && final(self).queue == Some(batch) && final(self).expected == old(self).expected
                + 1 && final(self).delivered_heights@ == old(self).delivered_heights@.push(
                batch.batch_number,
            ) && final(self).statuses == old(self).statuses && final(self).outcomes == old(
                self,
            ).outcomes),
    {
        if batch.batch_number != self.expected {
            Err((MessageRoutingError::Ignored, batch))
        } else if self.queue.is_some() {
            Err((MessageRoutingError::QueueIsFull, batch))
        } else {
            self.delivered_heights.push(batch.batch_number);
            self.expected = self.expected + 1;
            self.queue = Some(batch);
            Ok(())
        }
    }

    /// The status an executed message with this id gets, read from the
    /// outcome script.
    fn lookup_outcome(&self, id: u64) -> (r: IngressStatus)
        ensures
            status_view(r) == latest_status_in(self.outcomes@, id),
    {
        lookup_status(&self.outcomes, id)
    }

    /// Reads a message's latest status from the ingress history.
    pub fn get_latest_status(&self, id: u64) -> (r: IngressStatus)
        ensures
            status_view(r) == latest_status_in(self.statuses@, id),
    {
        lookup_status(&self.statuses, id)
    }

    /// One step of the execution worker: executes the waiting batch, if any.
    /// The state at the batch's height becomes computed and every ingress
    /// message of the batch gets its scripted status appended to the history.
    pub fn process_pending(&mut self, state_manager: &mut StateManager)
        requires
            old(state_manager).wf(),
            match old(self).queue {
                Some(b) => b.batch_number == old(state_manager).latest + 1 && old(
                    state_manager,
                ).plan@.len() > 0,
                None => true,
            },
        ensures
            final(self).expected == old(self).expected,
            final(self).delivered_heights == old(self).delivered_heights,
            final(self).outcomes == old(self).outcomes,
            final(self).queue is None,
            final(state_manager).wf(),
            old(self).queue is None ==> (*final(self) == *old(self) && *final(state_manager)
                == *old(state_manager)),
            old(self).queue is Some ==> {
                let b = old(self).queue->Some_0;
                &&& final(state_manager).latest == old(state_manager).latest + 1
                &&& final(state_manager).low == old(state_manager).low
                &&& final(state_manager).horizon() == old(state_manager).horizon()
                &&& final(state_manager).certifications == old(state_manager).certifications
                &&& (forall|k: u64|
                    old(state_manager).covers(k) ==> final(state_manager).digest_expected_at(k)
                        == old(state_manager).digest_expected_at(k))
                &&& final(self).statuses@.len() == old(self).statuses@.len() + b.ingress@.len()
                &&& final(self).statuses@.subrange(0, old(self).statuses@.len() as int) == old(
                    self,
                ).statuses@
                &&& (forall|i: int|
                    0 <= i < b.ingress@.len() ==> {
                        let e = final(self).statuses@[old(self).statuses@.len() + i];
                        e.0 == (#[trigger] b.ingress@[i]).id && status_view(e.1)
                            == latest_status_in(old(self).outcomes@, b.ingress@[i].id)
                    })
            },
    {
        let mut waiting = None;
        core::mem::swap(&mut self.queue, &mut waiting);
        match waiting {
            None => {
            }
            Some(b) => {
                state_manager.commit_next_state();
                let ghost base = self.statuses@;
                let mut i: usize = 0;
                while i < b.ingress.len()
                    invariant
                        i <= b.ingress@.len(),
                        self.statuses@.len() == base.len() + i,
                        self.statuses@.subrange(0, base.len() as int) == base,
                        forall|j: int|
                            0 <= j < i ==> {
                                let e = self.statuses@[base.len() + j];
                                e.0 == (#[trigger] b.ingress@[j]).id && status_view(e.1)
                                    == latest_status_in(self.outcomes@, b.ingress@[j].id)
                            },
                        self.expected == old(self).expected,
                        self.delivered_heights == old(self).delivered_heights,
                        self.outcomes == old(self).outcomes,
                        self.queue is None,
                    decreases b.ingress@.len() - i,
                {
                    let st = self.lookup_outcome(b.ingress[i].id);
                    let ghost before = self.statuses@;
                    self.statuses.push((b.ingress[i].id, st));
                    proof {
                        assert(self.statuses@.subrange(0, base.len() as int) =~= before.subrange(
                            0,
                            base.len() as int,
                        ));
                    }
                    i = i + 1;
                }
            }
        }
    }
}

/// Last-entry search shared by the ingress history and the outcome script.
fn lookup_status(entries: &Vec<(u64, IngressStatus)>, id: u64) -> (r: IngressStatus)
    ensures
        status_view(r) == latest_status_in(entries@, id),
{
    let mut i: usize = entries.len();
    proof {
        assert(entries@.subrange(0, entries@.len() as int) =~= entries@);
    }
    while i > 0
        invariant
            i <= entries@.len(),
            latest_status_in(entries@, id) == latest_status_in(
                entries@.subrange(0, i as int),
                id,
            ),
        decreases i,
    {
        i = i - 1;
        let ghost pre = entries@.subrange(0, i + 1);
        proof {
            assert(pre.last() == entries@[i as int]);
            assert(pre.drop_last() =~= entries@.subrange(0, i as int));
        }
        if entries[i].0 == id {
            let r = copy_status(&entries[i].1);
            return r;
        }
    }
    proof {
        assert(entries@.subrange(0, 0).len() == 0);
    }
    IngressStatus::Unknown
}

/// Copies an ingress status.
fn copy_status(s: &IngressStatus) -> (r: IngressStatus)
    ensures
        status_view(r) == status_view(*s),
{
    match s {
        IngressStatus::CompletedReply(b) => IngressStatus::CompletedReply(copy_bytes(b)),
        IngressStatus::CompletedReject => IngressStatus::CompletedReject,
        IngressStatus::Failed => IngressStatus::Failed,
        IngressStatus::InProgress => IngressStatus::InProgress,
        IngressStatus::Unknown => IngressStatus::Unknown,
    }
}

/// A history whose every entry for `id` carries one status view reports that
/// view for `id`, as soon as it holds any entry for `id` at all.
pub proof fn lemma_latest_status_uniform(s: Seq<(u64, IngressStatus)>, id: u64, v: StatusView)
    requires
        forall|i: int| 0 <= i < s.len() ==> ((#[trigger] s[i]).0 == id ==> status_view(s[i].1) == v),
        exists|i: int| 0 <= i < s.len() && (#[trigger] s[i]).0 == id,
    ensures
        latest_status_in(s, id) == v,
    decreases s.len(),
{
    if s.last().0 == id {
        assert(status_view(s.last().1) == v);
    } else {
        let i = choose|i: int| 0 <= i < s.len() && (#[trigger] s[i]).0 == id;
        assert(s.drop_last()[i].0 == id);
        assert forall|j: int| 0 <= j < s.drop_last().len() implies ((#[trigger] s.drop_last()[j]).0
            == id ==> status_view(s.drop_last()[j].1) == v) by {
            assert(s[j] == s.drop_last()[j]);
        }
        lemma_latest_status_uniform(s.drop_last(), id, v);
    }
}

/// What the ingress history reports after new entries were appended: the last
/// appended entry for `id` wins; with none appended for `id`, the history's
/// answer is unchanged.
pub proof fn lemma_latest_status_append(
    base: Seq<(u64, IngressStatus)>,
    app: Seq<(u64, IngressStatus)>,
    id: u64,
)
    ensures
        (exists|i: int| 0 <= i < app.len() && app[i].0 == id) ==> latest_status_in(
            base + app,
            id,
        ) == latest_status_in(app, id),
        (forall|i: int| 0 <= i < app.len() ==> app[i].0 != id) ==> latest_status_in(base + app, id)
            == latest_status_in(base, id),
    decreases app.len(),
{
    if app.len() == 0 {
        assert(base + app =~= base);
    } else {
        let whole = base + app;
        assert(whole.last() == app.last());
        assert(whole.drop_last() =~= base + app.drop_last());
        lemma_latest_status_append(base, app.drop_last(), id);
        if app.last().0 == id {
        } else {
            assert forall|i: int|
                0 <= i < app.len() && app[i].0 == id implies 0 <= i < app.drop_last().len()
                && app.drop_last()[i].0 == id by {}
        }
    }
}

} // verus!

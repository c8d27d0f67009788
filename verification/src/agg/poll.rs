//! Outcomes of the operations that the owner of a connection performs on the links.

use crate::agg::link_int::{LinkIntEvent, LinkState, RxItem, TestRequest, TxReady};
use crate::agg::ready::SendFlags;
use crate::agg::send::lemma_link_replaced;
use crate::agg::state::{lemma_set_link_wf, lemma_wf_idle, lemma_wf_link};
use crate::agg::state::{Task, TaskState};
use crate::buf::content;
use crate::error::LinkError;
use crate::time::Instant;
use bytes::Bytes;
use vstd::prelude::*;

verus! {

/// Whether a link only differs in what is waiting for transmission and in what has been received.
pub open spec fn same_link(a: LinkState, b: LinkState) -> bool {
    &&& a.info == b.info
    &&& a.status == b.status
    &&& a.unacked.txed_unacked_data == b.unacked.txed_unacked_data
    &&& (a.tx.tx_polling is None ==> b.tx.tx_polling is None)
}

/// Operations on a link keep the invariant and do not change what may be sent.
pub proof fn lemma_link_operated(s: TaskState, id: usize, link: LinkState)
    requires
        s.wf(),
        s.has(id as int),
        link.wf(),
        same_link(s.link(id as int), link),
    ensures
        s.set_link(id as int, link).wf(),
        forall|flags: SendFlags| s.allows(flags) ==> #[trigger] s.set_link(id as int, link).allows(flags),
{
    let t = s.set_link(id as int, link);
    lemma_wf_link(s, id as int);
    lemma_set_link_wf(s, id as int, link);
    assert forall|flags: SendFlags| s.allows(flags) implies #[trigger] t.allows(flags) by {
        if let Some(k) = flags.resendable {
            lemma_wf_idle(s, k);
            assert(t.link(k as int).info == s.link(k as int).info);
        }
    }
}

/// Replacing a link of a connection by itself after an operation replaces it in the model and keeps the
/// invariant and what may be sent.
proof fn lemma_task_operated(before: Task, after: Task, id: usize)
    requires
        before@.wf(),
        before@.has(id as int),
        after.links@ == before.links@.update(id as int, after.links@[id as int]),
        after.links@[id as int] is Some,
        after.links@[id as int]->0@.wf(),
        same_link(before@.link(id as int), after.links@[id as int]->0@),
        after == (Task { links: after.links, ..before }),
    ensures
        after@ == before@.set_link(id as int, after.links@[id as int]->0@),
        after@.wf(),
        forall|flags: SendFlags| before@.allows(flags) ==> #[trigger] after@.allows(flags),
{
    let link = after.links@[id as int]->0;
    lemma_link_replaced(before.links@, after.links@, id as int, link);
    lemma_link_operated(before@, id, link@);
    assert(after@ =~= before@.set_link(id as int, link@));
}

impl Task {
    /// Takes the error of a link that must be reported before any other event.
    pub fn poll_error(&mut self, id: usize) -> (r: Option<LinkError>)
        requires
            old(self)@.wf(),
            old(self)@.has(id as int),
        ensures
            r == old(self)@.link(id as int).pending_error(),
            final(self)@ == old(self)@.set_link(id as int, old(self)@.link(id as int).error_taken()),
            final(self)@.wf(),
            forall|flags: SendFlags| old(self)@.allows(flags) ==> #[trigger] final(self)@.allows(flags),
    {
        let ghost before = *self;
        proof {
            lemma_wf_link(before@, id as int);
        }
        let event: Option<LinkError> = match &mut self.links[id] {
            Some(link) => link.pending_error(),
            None => None,
        };
        proof {
            lemma_task_operated(before, *self, id);
        }
        event
    }

    /// Handles the outcome of flushing the transmit sink of a link.
    pub fn poll_flushed(&mut self, id: usize, outcome: Result<(), LinkError>) -> (r: LinkIntEvent)
        requires
            old(self)@.wf(),
            old(self)@.has(id as int),
        ensures
            r == match outcome {
                Ok(()) => LinkIntEvent::TxFlushed,
                Err(err) => LinkIntEvent::TxError(err),
            },
            final(self)@ == old(self)@.set_link(id as int, old(self)@.link(id as int).flush_ended(outcome is Ok)),
            final(self)@.wf(),
            forall|flags: SendFlags| old(self)@.allows(flags) ==> #[trigger] final(self)@.allows(flags),
    {
        let ghost before = *self;
        proof {
            lemma_wf_link(before@, id as int);
        }
        let event: LinkIntEvent = match &mut self.links[id] {
            Some(link) => link.on_flushed(outcome),
            None => LinkIntEvent::TxFlushed,
        };
        proof {
            lemma_task_operated(before, *self, id);
        }
        event
    }

    /// Records whether the transmit sink of a link returned pending status when polled for readyness.
    pub fn poll_pending(&mut self, id: usize, pending: bool)
        requires
            old(self)@.wf(),
            old(self)@.has(id as int),
        ensures
            final(self)@ == old(self)@.set_link(id as int, old(self)@.link(id as int).polled(pending)),
            final(self)@.wf(),
            forall|flags: SendFlags| old(self)@.allows(flags) ==> #[trigger] final(self)@.allows(flags),
    {
        let ghost before = *self;
        proof {
            lemma_wf_link(before@, id as int);
        }
        if let Some(link) = &mut self.links[id] {
            link.on_polled(pending);
        }
        proof {
            lemma_task_operated(before, *self, id);
        }
    }

    /// Handles the outcome of waiting for the transmit sink of a link to become ready.
    pub fn poll_ready(&mut self, id: usize, outcome: Result<(), LinkError>, now: Instant) -> (r: TxReady)
        requires
            old(self)@.wf(),
            old(self)@.has(id as int),
            old(self)@.link(id as int).tx.tx_msg is None,
            old(self)@.link(id as int).tx.tx_test is None,
        ensures
            r == match outcome {
                Err(err) => TxReady::Event(LinkIntEvent::TxError(err)),
                Ok(()) => match old(self)@.link(id as int).tx.tx_data {
                    Some(data) => TxReady::SendData(data),
                    None => TxReady::Event(LinkIntEvent::TxReady),
                },
            },
            final(self)@ == old(self)@.set_link(id as int, old(self)@.link(id as int).ready_ended(outcome is Ok, now)),
            final(self)@.wf(),
            forall|flags: SendFlags| old(self)@.allows(flags) ==> #[trigger] final(self)@.allows(flags),
    {
        let ghost before = *self;
        proof {
            lemma_wf_link(before@, id as int);
        }
        let event: TxReady = match &mut self.links[id] {
            Some(link) => link.on_ready(outcome, now),
            None => TxReady::Event(LinkIntEvent::TxReady),
        };
        proof {
            lemma_task_operated(before, *self, id);
        }
        event
    }

    /// Handles that the transmit sink of a link refused the data that was handed to it.
    pub fn poll_data_refused(&mut self, id: usize, err: LinkError) -> (r: LinkIntEvent)
        requires
            old(self)@.wf(),
            old(self)@.has(id as int),
        ensures
            r == LinkIntEvent::TxError(err),
            final(self)@ == old(self)@.set_link(id as int, old(self)@.link(id as int).failed()),
            final(self)@.wf(),
            forall|flags: SendFlags| old(self)@.allows(flags) ==> #[trigger] final(self)@.allows(flags),
    {
        let ghost before = *self;
        proof {
            lemma_wf_link(before@, id as int);
        }
        let event: LinkIntEvent = match &mut self.links[id] {
            Some(link) => link.on_data_refused(err),
            None => LinkIntEvent::TxFlushed,
        };
        proof {
            lemma_task_operated(before, *self, id);
        }
        event
    }

    /// Takes the message to hand to the transmit sink of a link, in encoded form.
    pub fn take_msg(&mut self, id: usize) -> (r: Option<Bytes>)
        requires
            old(self)@.wf(),
            old(self)@.has(id as int),
        ensures
            match old(self)@.link(id as int).tx.tx_msg {
                None => r is None,
                Some(msg) => r is Some && content(r->0) == msg@.bytes(),
            },
            final(self)@ == old(self)@.set_link(id as int, old(self)@.link(id as int).msg_taken()),
            final(self)@.wf(),
            forall|flags: SendFlags| old(self)@.allows(flags) ==> #[trigger] final(self)@.allows(flags),
    {
        let ghost before = *self;
        proof {
            lemma_wf_link(before@, id as int);
        }
        let event: Option<Bytes> = match &mut self.links[id] {
            Some(link) => link.take_msg(),
            None => None,
        };
        proof {
            lemma_task_operated(before, *self, id);
        }
        event
    }

    /// Handles that the transmit sink of a link refused the message that was handed to it.
    pub fn msg_refused(&mut self, id: usize, err: LinkError)
        requires
            old(self)@.wf(),
            old(self)@.has(id as int),
        ensures
            final(self)@ == old(self)@.set_link(id as int, old(self)@.link(id as int).msg_refused(err)),
            final(self)@.wf(),
            forall|flags: SendFlags| old(self)@.allows(flags) ==> #[trigger] final(self)@.allows(flags),
    {
        let ghost before = *self;
        proof {
            lemma_wf_link(before@, id as int);
        }
        if let Some(link) = &mut self.links[id] {
            link.on_msg_refused(err);
        }
        proof {
            lemma_task_operated(before, *self, id);
        }
    }

    /// Takes the request to send test data over a link.
    pub fn take_test(&mut self, id: usize) -> (r: Option<TestRequest>)
        requires
            old(self)@.wf(),
            old(self)@.has(id as int),
        ensures
            r == old(self)@.link(id as int).tx.tx_test,
            final(self)@ == old(self)@.set_link(id as int, old(self)@.link(id as int).test_taken()),
            final(self)@.wf(),
            forall|flags: SendFlags| old(self)@.allows(flags) ==> #[trigger] final(self)@.allows(flags),
    {
        let ghost before = *self;
        proof {
            lemma_wf_link(before@, id as int);
        }
        let event: Option<TestRequest> = match &mut self.links[id] {
            Some(link) => link.take_test(),
            None => None,
        };
        proof {
            lemma_task_operated(before, *self, id);
        }
        event
    }

    /// Handles that the transmit sink of a link failed while sending test data.
    pub fn test_failed(&mut self, id: usize, err: LinkError)
        requires
            old(self)@.wf(),
            old(self)@.has(id as int),
        ensures
            final(self)@ == old(self)@.set_link(id as int, old(self)@.link(id as int).test_failed(err)),
            final(self)@.wf(),
            forall|flags: SendFlags| old(self)@.allows(flags) ==> #[trigger] final(self)@.allows(flags),
    {
        let ghost before = *self;
        proof {
            lemma_wf_link(before@, id as int);
        }
        if let Some(link) = &mut self.links[id] {
            link.on_test_failed(err);
        }
        proof {
            lemma_task_operated(before, *self, id);
        }
    }

    /// Handles an item obtained from the receive stream of a link.
    ///
    /// Returns `None` if another item must be obtained for an event to occur.
    pub fn poll_received(&mut self, id: usize, item: RxItem) -> (r: Option<LinkIntEvent>)
        requires
            old(self)@.wf(),
            old(self)@.has(id as int),
        ensures
            old(self)@.link(id as int).received(item, final(self)@.link(id as int), r),
            final(self)@ == old(self)@.set_link(id as int, final(self)@.link(id as int)),
            final(self)@.wf(),
            forall|flags: SendFlags| old(self)@.allows(flags) ==> #[trigger] final(self)@.allows(flags),
            r matches Some(event) ==> final(self)@.admits_link_event(id, event),
    {
        let ghost before = *self;
        proof {
            lemma_wf_link(before@, id as int);
        }
        let event: Option<LinkIntEvent> = match &mut self.links[id] {
            Some(link) => link.on_received(item),
            None => None,
        };
        proof {
            lemma_task_operated(before, *self, id);
        }
        event
    }
}

} // verus!

//! Creation of the link aggregator task.

use crate::agg::rx::{ReceiveBuffer, RxState};
use crate::agg::state::{SendOverrun, SendReq, Task, TaskChannels, TaskErrors, TaskInfo, TaskState};
use crate::agg::state::{RemovedLink, TaskTimes};
use crate::agg::tx::{SendBuffer, TxState};
use crate::alc::{RecvError, SendError};
use crate::cfg::{Cfg, ExchangedCfg};
use crate::control::Direction;
use crate::id::ConnId;
use crate::peekable_mpsc::PeekableReceiver;
use crate::time::Instant;
use std::collections::HashSet;
use std::sync::Arc;
use vstd::prelude::*;

verus! {

broadcast use vstd::std_specs::hash::group_hash_axioms;

impl TaskState {
    /// State of a new connection.
    pub open spec fn initial(
        cfg: Arc<Cfg>,
        remote_cfg: Option<ExchangedCfg>,
        conn_id: ConnId,
        direction: Direction,
        now: Instant,
    ) -> TaskState {
        TaskState {
            info: TaskInfo { cfg, remote_cfg, conn_id, direction },
            links: Seq::empty(),
            idle: Seq::empty(),
            unflushed: Set::empty(),
            chan: TaskChannels {
                link_rx_open: true,
                read_open: true,
                read_closed_open: true,
                receive_close_sent: false,
                receive_finish_sent: false,
                write_closed: false,
                send_finish_sent: false,
            },
            write_rx: Some(PeekableReceiver { peeked: None }),
            errors: TaskErrors {
                read_error: Some(RecvError::TaskTerminated),
                write_error: SendError::TaskTerminated,
            },
            times: TaskTimes {
                links_not_working_since: None,
                read_write_closed: None,
                established: None,
                stats_last_sent: now,
                tx_overrun_since: None,
                tx_overrun: SendOverrun::Armed,
                connect_pending: true,
                flush_pending: false,
            },
            tx: TxState::empty(),
            rx: RxState::empty(),
            removed: Seq::empty(),
        }
    }
}

/// A new connection fulfils the invariant.
pub proof fn lemma_initial_wf(
    cfg: Arc<Cfg>,
    remote_cfg: Option<ExchangedCfg>,
    conn_id: ConnId,
    direction: Direction,
    now: Instant,
)
    requires
        cfg.wf(),
        remote_cfg matches Some(remote_cfg) ==> remote_cfg.wf(),
    ensures
        TaskState::initial(cfg, remote_cfg, conn_id, direction, now).wf(),
{
    reveal(TaskState::wf);
}

impl Task {
    /// Creates the task for a new connection without links.
    ///
    /// Links are then presented to it using [`handle_new_link`](Self::handle_new_link).
    pub fn new(
        cfg: Arc<Cfg>,
        remote_cfg: Option<ExchangedCfg>,
        conn_id: ConnId,
        direction: Direction,
        now: Instant,
    ) -> (r: Self)
        requires
            cfg.wf(),
            remote_cfg matches Some(remote_cfg) ==> remote_cfg.wf(),
        ensures
            r@ == TaskState::initial(cfg, remote_cfg, conn_id, direction, now),
            r@.wf(),
    {
        proof {
            lemma_initial_wf(cfg, remote_cfg, conn_id, direction, now);
        }
        let task = Task {
            info: TaskInfo { cfg, remote_cfg, conn_id, direction },
            links: Vec::new(),
            idle_links: Vec::new(),
            unflushed_links: HashSet::new(),
            chan: TaskChannels {
                link_rx_open: true,
                read_open: true,
                read_closed_open: true,
                receive_close_sent: false,
                receive_finish_sent: false,
                write_closed: false,
                send_finish_sent: false,
            },
            write_rx: Some(PeekableReceiver::new()),
            errors: TaskErrors {
                read_error: Some(RecvError::TaskTerminated),
                write_error: SendError::TaskTerminated,
            },
            times: TaskTimes {
                links_not_working_since: None,
                read_write_closed: None,
                established: None,
                stats_last_sent: now,
                tx_overrun_since: None,
                tx_overrun: SendOverrun::Armed,
                connect_pending: true,
                flush_pending: false,
            },
            tx: SendBuffer::new(),
            rx: ReceiveBuffer::new(),
            removed: Vec::new(),
        };
        assert(task@ =~= TaskState::initial(cfg, remote_cfg, conn_id, direction, now));
        task
    }

    /// The connection identifier.
    pub fn id(&self) -> (r: ConnId)
        ensures
            r == self@.info.conn_id,
    {
        self.info.conn_id
    }

    /// The direction of the connection.
    pub fn direction(&self) -> (r: Direction)
        ensures
            r == self@.info.direction,
    {
        self.info.direction
    }

    /// Whether further requests of the user are accepted.
    ///
    /// After the remote endpoint has closed its receiver, the requests that are already waiting are still
    /// fulfilled, but no further ones are accepted.
    pub fn accepts_requests(&self) -> (r: bool)
        ensures
            r == (self@.write_rx is Some && !self@.chan.write_closed),
    {
        self.write_rx.is_some() && !self.chan.write_closed
    }

    /// Makes a request of the user available for sending.
    pub fn offer_request(&mut self, request: SendReq)
        requires
            old(self)@.wf(),
            old(self)@.write_rx matches Some(write_rx) && write_rx.peeked is None,
        ensures
            final(self)@ == (TaskState {
                write_rx: Some(PeekableReceiver { peeked: Some(request) }),
                ..old(self)@
            }),
            final(self)@.wf(),
    {
        let ghost before = self@;
        if let Some(write_rx) = &mut self.write_rx {
            write_rx.peek(Some(request));
        }
        proof {
            crate::agg::state::lemma_frame_wf(before, self@);
        }
        assert(self@ =~= (TaskState { write_rx: Some(PeekableReceiver { peeked: Some(request) }), ..before }));
    }

    /// Takes the links that have been removed since this was last called.
    pub fn take_removed(&mut self) -> (r: Vec<RemovedLink>)
        requires
            old(self)@.wf(),
        ensures
            r@ == old(self)@.removed,
            final(self)@ == (TaskState { removed: Seq::empty(), ..old(self)@ }),
            final(self)@.wf(),
    {
        let ghost before = self@;
        let mut removed: Vec<RemovedLink> = Vec::new();
        std::mem::swap(&mut removed, &mut self.removed);
        proof {
            crate::agg::state::lemma_frame_wf(before, self@);
        }
        assert(self@ =~= (TaskState { removed: Seq::empty(), ..before }));
        removed
    }
}

} // verus!

//! The reactor: a thread-safe, cloneable handle into a graph's event
//! queue, for triggering subgraphs to run, possibly from another thread.

use vstd::prelude::*;

use crate::chan::{try_send_id, TriggerError};

verus! {

/// A handle bound to one graph's event queue.  It only inserts subgraph
/// identifiers; the graph's scheduling thread removes them.  The handle
/// outlives the graph: once the graph is torn down, triggers fail
/// explicitly instead of succeeding silently.
#[derive(Clone)]
pub struct Reactor {
    pub(crate) event_queue_send: std::sync::mpsc::SyncSender<usize>,
}

impl Reactor {
    /// The event-queue endpoint this handle inserts into.
    pub closed spec fn endpoint(&self) -> std::sync::mpsc::SyncSender<usize> {
        self.event_queue_send
    }

    pub fn new(event_queue_send: std::sync::mpsc::SyncSender<usize>) -> (r: Reactor)
        ensures
            r.endpoint() == event_queue_send,
    {
        Reactor { event_queue_send }
    }

    /// Enqueue `sg_id` for execution on a later tick.  Non-blocking and
    /// safe to call from any thread; a full queue or a torn-down graph
    /// is reported explicitly, with the rejected identifier, and the
    /// caller decides whether to retry.
    pub fn trigger(&self, sg_id: usize) -> (r: Result<(), TriggerError>)
        ensures
            match r {
                Ok(()) => true,
                Err(TriggerError::Full(x)) => x == sg_id,
                Err(TriggerError::Disconnected(x)) => x == sg_id,
            },
    {
        try_send_id(&self.event_queue_send, sg_id)
    }
}

} // verus!

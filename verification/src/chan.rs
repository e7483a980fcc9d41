//! Trusted declarations for the standard library's bounded
//! multi-producer channels.
//!
//! The event queue that lets other threads re-trigger subgraphs, and the
//! channel-backed data sources, are `std::sync::mpsc` sync channels.
//! What another thread has sent is outside the engine's state, so the
//! wrappers promise nothing about which values arrive or when; all the
//! logic that consumes a received value is verified for every value.

use vstd::prelude::*;

verus! {

#[verifier::external_type_specification]
#[verifier::external_body]
#[verifier::reject_recursive_types(T)]
pub struct ExSyncSender<T>(std::sync::mpsc::SyncSender<T>);

#[verifier::external_type_specification]
#[verifier::external_body]
#[verifier::reject_recursive_types(T)]
pub struct ExReceiver<T>(std::sync::mpsc::Receiver<T>);

/// Why a non-blocking trigger did not enqueue; carries the rejected
/// subgraph identifier back to the caller, who decides whether to retry.
#[derive(Clone, Copy, PartialEq, Eq, Structural, Debug)]
pub enum TriggerError {
    /// The event queue is at capacity.
    Full(usize),
    /// The owning graph was torn down.
    Disconnected(usize),
}

/// Why a blocking send into a channel-backed source failed; carries the
/// rejected item.
#[derive(Clone, Copy, PartialEq, Eq, Structural, Debug)]
pub enum ChannelSendError {
    /// The owning graph was torn down.
    Disconnected(i64),
}

/// Relies on std::sync::mpsc::sync_channel: a bounded queue safe for
/// concurrent insertion by many senders and removal by one receiver.
#[verifier::external_body]
pub(crate) fn sync_channel_pair<T>(cap: usize) -> (r: (
    std::sync::mpsc::SyncSender<T>,
    std::sync::mpsc::Receiver<T>,
))
{
    std::sync::mpsc::sync_channel(cap)
}

/// Relies on std::sync::mpsc::SyncSender::clone: the clone inserts into
/// the same queue as the original.
pub assume_specification<T>[ <std::sync::mpsc::SyncSender<T> as Clone>::clone ](
    s: &std::sync::mpsc::SyncSender<T>,
) -> std::sync::mpsc::SyncSender<T>;

/// Relies on std::sync::mpsc::SyncSender::try_send: non-blocking; either
/// enqueues the value or reports it back as full/disconnected, never
/// silently dropping it.
#[verifier::external_body]
pub(crate) fn try_send_id(s: &std::sync::mpsc::SyncSender<usize>, id: usize) -> (r: Result<
    (),
    TriggerError,
>)
    ensures
        match r {
            Ok(()) => true,
            Err(TriggerError::Full(x)) => x == id,
            Err(TriggerError::Disconnected(x)) => x == id,
        },
{
    match s.try_send(id) {
        Ok(()) => Ok(()),
        Err(std::sync::mpsc::TrySendError::Full(x)) => Err(TriggerError::Full(x)),
        Err(std::sync::mpsc::TrySendError::Disconnected(x)) => Err(TriggerError::Disconnected(x)),
    }
}

/// Relies on std::sync::mpsc::SyncSender::send: blocks while the queue
/// is full (backpressure) and fails only when the receiving side is
/// gone, reporting the item back.
#[verifier::external_body]
pub(crate) fn send_item(s: &std::sync::mpsc::SyncSender<i64>, x: i64) -> (r: Result<
    (),
    ChannelSendError,
>)
    ensures
        match r {
            Ok(()) => true,
            Err(ChannelSendError::Disconnected(y)) => y == x,
        },
{
    match s.send(x) {
        Ok(()) => Ok(()),
        Err(std::sync::mpsc::SendError(x)) => Err(ChannelSendError::Disconnected(x)),
    }
}

/// Relies on std::sync::mpsc::Receiver::try_recv: non-blocking; yields a
/// queued value if one is present right now, and nothing otherwise.
#[verifier::external_body]
pub(crate) fn try_recv_one<T>(r: &std::sync::mpsc::Receiver<T>) -> (v: Option<T>) {
    r.try_recv().ok()
}

} // verus!

//! The bounded channels that carry frames between threads.
use async_channel::{Receiver, Sender, TryRecvError, TrySendError};

use vstd::prelude::*;

verus! {

#[verifier::external_type_specification]
#[verifier::external_body]
#[verifier::reject_recursive_types(T)]
pub struct ExReceiver<T>(Receiver<T>);

#[verifier::external_type_specification]
#[verifier::external_body]
#[verifier::reject_recursive_types(T)]
pub struct ExSender<T>(Sender<T>);

/// What a non-blocking receive found.
pub enum Polled<T> {
    Ready(T),
    /// Nothing is queued, but the channel is open.
    Empty,
    /// Nothing is queued and the channel is closed.
    Closed,
}

/// What a non-blocking send did with its item.
#[derive(Debug, PartialEq, Eq, Structural, Clone, Copy)]
pub enum Sent {
    Queued,
    /// The channel was full; the item was dropped.
    Full,
    /// The channel was closed; the item was dropped.
    Closed,
}

/// Relies on `async_channel::Receiver::try_recv`, which never waits: it
/// hands over a queued item, or reports an empty or a closed channel.
/// Which of these happens depends on other threads.
#[verifier::external_body]
pub(crate) fn try_recv<T>(r: &Receiver<T>) -> (p: Polled<T>) {
    match r.try_recv() {
        Ok(t) => Polled::Ready(t),
        Err(TryRecvError::Empty) => Polled::Empty,
        Err(TryRecvError::Closed) => Polled::Closed,
    }
}

/// Relies on `async_channel::Sender::try_send`, which never waits: it
/// queues the item, or gives it back because the channel is full or
/// closed. Which of these happens depends on other threads.
#[verifier::external_body]
pub(crate) fn try_send<T>(s: &Sender<T>, item: T) -> (r: Sent) {
    match s.try_send(item) {
        Ok(()) => Sent::Queued,
        Err(TrySendError::Full(_)) => Sent::Full,
        Err(TrySendError::Closed(_)) => Sent::Closed,
    }
}

} // verus!

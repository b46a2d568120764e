//! The delivery queue between the producers and the worker of the
//! asynchronous logger: an unbounded channel of `crossbeam_channel`.

use crate::record::HostCall;
use crossbeam_channel::{Receiver, Sender};
use vstd::prelude::*;

verus! {

/// The sending end of a `crossbeam_channel` channel, opaque to the verifier.
#[verifier::external_type_specification]
#[verifier::external_body]
#[verifier::reject_recursive_types(T)]
pub struct ExSender<T>(Sender<T>);

/// The receiving end of a `crossbeam_channel` channel, opaque to the verifier.
#[verifier::external_type_specification]
#[verifier::external_body]
#[verifier::reject_recursive_types(T)]
pub struct ExReceiver<T>(Receiver<T>);

/// What travels through the delivery queue.
#[derive(Debug, PartialEq, Eq)]
pub enum QueueEntry {
    /// A call to make on the host.
    Call(HostCall),
    /// The token that ends the worker.
    Shutdown,
}

/// A queue entry as a plain value.
pub enum EntryView {
    Call(u8, Seq<char>),
    Shutdown,
}

impl View for QueueEntry {
    type V = EntryView;

    open spec fn view(&self) -> EntryView {
        match self {
            QueueEntry::Call(call) => EntryView::Call(call.code, call.message@),
            QueueEntry::Shutdown => EntryView::Shutdown,
        }
    }
}

/// Opens a queue and returns its two ends.
///
/// Calls `crossbeam_channel::unbounded`. Nothing is claimed of the ends.
#[verifier::external_body]
pub(crate) fn open_queue() -> (ends: (Sender<QueueEntry>, Receiver<QueueEntry>)) {
    crossbeam_channel::unbounded()
}

/// Puts `entry` at the back of the queue without blocking.
///
/// Calls `Sender::send`, which on an unbounded channel never waits. Whether
/// the entry is taken depends on the receiving end, so nothing is claimed of
/// that; taken on trust is only that a refusal hands the same entry back.
#[verifier::external_body]
pub(crate) fn enqueue(queue: &Sender<QueueEntry>, entry: QueueEntry) -> (sent: Result<(), QueueEntry>)
    ensures
        sent matches Err(back) ==> back == entry,
{
    queue.send(entry).map_err(|refused| refused.0)
}

/// Takes the entry at the front of the queue, waiting while the queue is
/// empty; `None` once the queue is empty and every sending end is gone.
///
/// Calls `Receiver::recv`. What arrives depends on the producers, so nothing
/// is claimed of it.
#[verifier::external_body]
pub(crate) fn dequeue(queue: &Receiver<QueueEntry>) -> (received: Option<QueueEntry>) {
    queue.recv().ok()
}

} // verus!

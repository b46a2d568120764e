//! The worker of the asynchronous logger: it takes the queue's entries in
//! order and makes the host calls, until the shutdown token arrives.

use crate::queue::{dequeue, EntryView, QueueEntry};
use crate::record::{call_view, HostCall};
use crossbeam_channel::Receiver;
use vstd::prelude::*;

verus! {

/// The two states of a worker. A worker starts running and stops once; it
/// never runs again.
#[derive(Clone, Copy, Debug, PartialEq, Eq, Structural)]
pub enum WorkerState {
    Running,
    Stopped,
}

/// What a worker got from its queue, as a plain value: an entry, or `None`
/// where the queue was empty and every producer gone.
pub open spec fn received_view(received: Option<QueueEntry>) -> Option<EntryView> {
    match received {
        Some(entry) => Some(entry@),
        None => None,
    }
}

/// The state of a worker after it got `received` in `state`: it keeps
/// running on a call, and is stopped after anything else.
pub open spec fn step_state(state: WorkerState, received: Option<EntryView>) -> WorkerState {
    match (state, received) {
        (WorkerState::Running, Some(EntryView::Call(_, _))) => WorkerState::Running,
        _ => WorkerState::Stopped,
    }
}

/// The host call that a worker makes when it gets `received` in `state`: the
/// entry's call while it runs, and none otherwise.
pub open spec fn step_call(state: WorkerState, received: Option<EntryView>) -> Option<(u8, Seq<char>)> {
    match (state, received) {
        (WorkerState::Running, Some(EntryView::Call(code, message))) => Some((code, message)),
        _ => None,
    }
}

/// The state of a worker that started in `state` and took `entries` in order.
pub open spec fn state_after(state: WorkerState, entries: Seq<EntryView>) -> WorkerState
    decreases entries.len(),
{
    if entries.len() == 0 {
        state
    } else {
        step_state(state_after(state, entries.drop_last()), Some(entries.last()))
    }
}

/// The host calls, in order, of a worker that started in `state` and took
/// `entries` in order.
pub open spec fn calls_made(state: WorkerState, entries: Seq<EntryView>) -> Seq<(u8, Seq<char>)>
    decreases entries.len(),
{
    if entries.len() == 0 {
        Seq::empty()
    } else {
        let before = calls_made(state, entries.drop_last());
        match step_call(state_after(state, entries.drop_last()), Some(entries.last())) {
            Some(call) => before.push(call),
            None => before,
        }
    }
}

/// How often a worker that started in `state` and took `entries` in order
/// went from running to stopped.
pub open spec fn stops(state: WorkerState, entries: Seq<EntryView>) -> nat
    decreases entries.len(),
{
    if entries.len() == 0 {
        0
    } else {
        let before = state_after(state, entries.drop_last());
        let after = step_state(before, Some(entries.last()));
        if before is Running && after is Stopped {
            stops(state, entries.drop_last()) + 1
        } else {
            stops(state, entries.drop_last())
        }
    }
}

/// Whether every entry is a call.
pub open spec fn all_calls(entries: Seq<EntryView>) -> bool {
    forall|i: int| 0 <= i < entries.len() ==> #[trigger] entries[i] is Call
}

/// The call that an entry holds.
pub open spec fn call_of(entry: EntryView) -> (u8, Seq<char>) {
    match entry {
        EntryView::Call(code, message) => (code, message),
        EntryView::Shutdown => (0, Seq::empty()),
    }
}

/// Taking `first` and then `second` is taking the two in a row.
pub proof fn lemma_run_in_parts(state: WorkerState, first: Seq<EntryView>, second: Seq<EntryView>)
    ensures
        state_after(state, first + second) == state_after(state_after(state, first), second),
        calls_made(state, first + second) == calls_made(state, first) + calls_made(
            state_after(state, first),
            second,
        ),
        stops(state, first + second) == stops(state, first) + stops(state_after(state, first), second),
    decreases second.len(),
{
    if second.len() == 0 {
        assert(first + second =~= first);
        assert(calls_made(state, first) + Seq::<(u8, Seq<char>)>::empty() =~= calls_made(state, first));
    } else {
        let whole = first + second;
        assert(whole.drop_last() =~= first + second.drop_last());
        assert(whole.last() == second.last());
        lemma_run_in_parts(state, first, second.drop_last());
        let middle = state_after(state, first);
        let before = calls_made(state, first) + calls_made(middle, second.drop_last());
        match step_call(state_after(middle, second.drop_last()), Some(second.last())) {
            Some(call) => {
                assert(before.push(call) =~= calls_made(state, first) + calls_made(
                    middle,
                    second.drop_last(),
                ).push(call));
            },
            None => {},
        }
    }
}

/// A stopped worker stays stopped and makes no call, whatever it takes.
pub proof fn lemma_stopped_stays(entries: Seq<EntryView>)
    ensures
        state_after(WorkerState::Stopped, entries) == WorkerState::Stopped,
        calls_made(WorkerState::Stopped, entries) == Seq::<(u8, Seq<char>)>::empty(),
        stops(WorkerState::Stopped, entries) == 0,
    decreases entries.len(),
{
    if entries.len() > 0 {
        lemma_stopped_stays(entries.drop_last());
    }
}

/// A running worker that takes calls alone makes each of them, one call per
/// entry and in the order of the queue, and goes on running.
pub proof fn lemma_calls_are_made(entries: Seq<EntryView>)
    requires
        all_calls(entries),
    ensures
        state_after(WorkerState::Running, entries) == WorkerState::Running,
        calls_made(WorkerState::Running, entries) == entries.map_values(|entry| call_of(entry)),
        stops(WorkerState::Running, entries) == 0,
    decreases entries.len(),
{
    if entries.len() > 0 {
        let before = entries.drop_last();
        assert(all_calls(before)) by {
            assert forall|i: int| 0 <= i < before.len() implies #[trigger] before[i] is Call by {
                assert(entries[i] is Call);
            }
        }
        lemma_calls_are_made(before);
        assert(entries.last() is Call) by {
            assert(entries[entries.len() - 1] is Call);
        }
        assert(before.map_values(|entry| call_of(entry)).push(call_of(entries.last()))
            =~= entries.map_values(|entry| call_of(entry)));
    } else {
        assert(entries.map_values(|entry| call_of(entry)) =~= Seq::<(u8, Seq<char>)>::empty());
    }
}

/// Records are delivered in the order in which they were queued: of two
/// records that stand in the queue with no shutdown token before the later
/// one, the worker's call for the earlier comes before its call for the later.
pub proof fn lemma_delivery_keeps_order(entries: Seq<EntryView>, earlier: int, later: int)
    requires
        0 <= earlier < later < entries.len(),
        forall|i: int| 0 <= i <= later ==> #[trigger] entries[i] is Call,
    ensures
        later < calls_made(WorkerState::Running, entries).len(),
        calls_made(WorkerState::Running, entries)[earlier] == call_of(entries[earlier]),
        calls_made(WorkerState::Running, entries)[later] == call_of(entries[later]),
{
    let head = entries.take(later + 1);
    let tail = entries.skip(later + 1);
    assert(entries =~= head + tail);
    assert(all_calls(head)) by {
        assert forall|i: int| 0 <= i < head.len() implies #[trigger] head[i] is Call by {
            assert(entries[i] is Call);
        }
    }
    lemma_calls_are_made(head);
    lemma_run_in_parts(WorkerState::Running, head, tail);
}

/// The shutdown token cuts the delivery: every record queued before the
/// first token is delivered, in order, and nothing queued after it is. The
/// worker is stopped from then on, and has stopped exactly once, however many
/// tokens follow.
pub proof fn lemma_shutdown_cuts_delivery(before: Seq<EntryView>, after: Seq<EntryView>)
    requires
        all_calls(before),
    ensures
        calls_made(WorkerState::Running, before + seq![EntryView::Shutdown] + after) == before.map_values(
            |entry| call_of(entry),
        ),
        state_after(WorkerState::Running, before + seq![EntryView::Shutdown] + after)
            == WorkerState::Stopped,
        stops(WorkerState::Running, before + seq![EntryView::Shutdown] + after) == 1,
{
    let token = seq![EntryView::Shutdown];
    let calls = before.map_values(|entry| call_of(entry));
    lemma_calls_are_made(before);
    assert(token.drop_last() =~= Seq::<EntryView>::empty());
    assert(token.last() == EntryView::Shutdown);
    assert(state_after(WorkerState::Running, token.drop_last()) == WorkerState::Running);
    assert(calls_made(WorkerState::Running, token.drop_last()) == Seq::<(u8, Seq<char>)>::empty());
    assert(stops(WorkerState::Running, token.drop_last()) == 0);
    assert(state_after(WorkerState::Running, token) == WorkerState::Stopped);
    assert(calls_made(WorkerState::Running, token) == Seq::<(u8, Seq<char>)>::empty());
    assert(stops(WorkerState::Running, token) == 1);
    lemma_run_in_parts(WorkerState::Running, before, token);
    lemma_stopped_stays(after);
    lemma_run_in_parts(WorkerState::Running, before + token, after);
    assert(calls + Seq::<(u8, Seq<char>)>::empty() =~= calls);
}

/// A worker stops at most once, whatever it takes: it has stopped once
/// exactly if it started running and has ended stopped, and it never goes
/// from stopped to running.
pub proof fn lemma_stops_at_most_once(state: WorkerState, entries: Seq<EntryView>)
    ensures
        stops(state, entries) <= 1,
        stops(state, entries) == 1 <==> state is Running && state_after(state, entries) is Stopped,
        state is Stopped ==> state_after(state, entries) is Stopped,
    decreases entries.len(),
{
    if entries.len() > 0 {
        lemma_stops_at_most_once(state, entries.drop_last());
    }
}

/// Shutting down twice is shutting down once: after a first token the worker
/// is stopped, and a second token right behind it changes neither the state
/// nor the calls made, nor is the worker stopped a second time.
pub proof fn lemma_second_shutdown_changes_nothing(entries: Seq<EntryView>)
    ensures
        ({
            let once = entries + seq![EntryView::Shutdown];
            let twice = once + seq![EntryView::Shutdown];
            &&& state_after(WorkerState::Running, once) == WorkerState::Stopped
            &&& state_after(WorkerState::Running, twice) == WorkerState::Stopped
            &&& calls_made(WorkerState::Running, twice) == calls_made(WorkerState::Running, once)
            &&& calls_made(WorkerState::Running, once) == calls_made(WorkerState::Running, entries)
            &&& stops(WorkerState::Running, once) == 1
            &&& stops(WorkerState::Running, twice) == 1
        }),
{
    let once = entries + seq![EntryView::Shutdown];
    let twice = once + seq![EntryView::Shutdown];
    assert(once.drop_last() =~= entries);
    assert(twice.drop_last() =~= once);
    lemma_stops_at_most_once(WorkerState::Running, entries);
    lemma_stops_at_most_once(WorkerState::Running, once);
    lemma_stops_at_most_once(WorkerState::Running, twice);
}

/// The consuming end of the asynchronous logger.
pub struct LoggingWorker {
    entries: Receiver<QueueEntry>,
    state: WorkerState,
}

impl View for LoggingWorker {
    type V = WorkerState;

    /// The worker's state.
    closed spec fn view(&self) -> WorkerState {
        self.state
    }
}

impl LoggingWorker {
    /// The receiving end of the queue that the worker takes its entries from.
    pub closed spec fn queue(&self) -> Receiver<QueueEntry> {
        self.entries
    }

    /// A running worker on the receiving end `entries` of a queue: it takes
    /// its entries from that end and from no other.
    pub(crate) fn new(entries: Receiver<QueueEntry>) -> (worker: LoggingWorker)
        ensures
            worker@ == WorkerState::Running,
            worker.queue() == entries,
    {
        LoggingWorker { entries, state: WorkerState::Running }
    }

    /// The worker's state.
    pub fn state(&self) -> (state: WorkerState)
        ensures
            state == self@,
    {
        self.state
    }

    /// Lets the worker take what its queue gave: `Some` entry, or `None` where
    /// the queue is empty and every producer gone. Returns the host call to
    /// make now, if there is one.
    ///
    /// A running worker answers a call entry with that call and goes on. On
    /// the shutdown token, or on the end of the queue, it stops, and from then
    /// on it makes no call. The outcome of an earlier call never matters: a
    /// failed delivery is not repeated.
    pub fn step(&mut self, received: Option<QueueEntry>) -> (call: Option<HostCall>)
        ensures
            final(self)@ == step_state(old(self)@, received_view(received)),
            call_view(call) == step_call(old(self)@, received_view(received)),
    {
        match self.state {
            WorkerState::Stopped => None,
            WorkerState::Running => match received {
                Some(QueueEntry::Call(call)) => Some(call),
                Some(QueueEntry::Shutdown) => {
                    self.state = WorkerState::Stopped;
                    None
                },
                None => {
                    self.state = WorkerState::Stopped;
                    None
                },
            },
        }
    }

    /// Waits for the next entry of the queue and takes it. Returns the host
    /// call to make now; `None` means that the worker has stopped.
    ///
    /// A stopped worker does not touch its queue. What a running worker gets
    /// depends on the producers; whatever it is, the worker has taken one
    /// step on it.
    pub fn next_call(&mut self) -> (call: Option<HostCall>)
        ensures
            exists|received: Option<EntryView>|
                final(self)@ == #[trigger] step_state(old(self)@, received) && call_view(call)
                    == step_call(old(self)@, received),
            call is None ==> final(self)@ == WorkerState::Stopped,
            call is Some ==> old(self)@ == WorkerState::Running && final(self)@ == WorkerState::Running,
    {
        match self.state {
            WorkerState::Stopped => {
                assert(self@ == step_state(old(self)@, None));
                None
            },
            WorkerState::Running => {
                let received = dequeue(&self.entries);
                let ghost taken = received_view(received);
                let call = self.step(received);
                assert(self@ == step_state(old(self)@, taken));
                call
            },
        }
    }
}

} // verus!

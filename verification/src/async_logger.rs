//! The logger that hands its records to a worker through a queue.

use crate::level::{setup_python_logger, spec_setup, HostLevels, Level, LoggerSetup, SetupError};
use crate::queue::{enqueue, open_queue, EntryView, QueueEntry};
use crate::record::{HostCall, LogRecord};
use crate::sync_logger::delivery;
use crate::worker::{all_calls, call_of, calls_made, lemma_calls_are_made, state_after, LoggingWorker, WorkerState};
use crossbeam_channel::Sender;
use vstd::prelude::*;

verus! {

/// What became of something that was handed to the asynchronous logger.
#[derive(Debug, PartialEq, Eq)]
pub enum Submission {
    /// The filter did not admit the record; the queue was not touched.
    Filtered,
    /// The entry is in the queue.
    Enqueued,
    /// The queue was closed already; the entry is dropped and handed back.
    Dropped(QueueEntry),
}

impl Submission {
    /// What a send that ended as `sent` amounts to.
    pub fn from_send(sent: Result<(), QueueEntry>) -> (outcome: Submission)
        ensures
            match sent {
                Ok(()) => outcome is Enqueued,
                Err(back) => outcome == Submission::Dropped(back),
            },
    {
        match sent {
            Ok(()) => Submission::Enqueued,
            Err(back) => Submission::Dropped(back),
        }
    }
}

/// The entry that a logger set up as `setup` queues for a record, if any.
pub open spec fn queued(setup: LoggerSetup, record: (Level, Seq<char>)) -> Option<EntryView> {
    match delivery(setup, record) {
        Some(call) => Some(EntryView::Call(call.0, call.1)),
        None => None,
    }
}

/// The queue's entries after a logger set up as `setup` was handed `records`
/// one after the other, where the queue took every entry and was empty at
/// first.
pub open spec fn queue_of(setup: LoggerSetup, records: Seq<(Level, Seq<char>)>) -> Seq<EntryView>
    decreases records.len(),
{
    if records.len() == 0 {
        Seq::empty()
    } else {
        match queued(setup, records.last()) {
            Some(entry) => queue_of(setup, records.drop_last()).push(entry),
            None => queue_of(setup, records.drop_last()),
        }
    }
}

/// The calls that a logger set up as `setup` owes for `records`, in order:
/// one for each record that the filter admits.
pub open spec fn deliveries(setup: LoggerSetup, records: Seq<(Level, Seq<char>)>) -> Seq<(u8, Seq<char>)>
    decreases records.len(),
{
    if records.len() == 0 {
        Seq::empty()
    } else {
        match delivery(setup, records.last()) {
            Some(call) => deliveries(setup, records.drop_last()).push(call),
            None => deliveries(setup, records.drop_last()),
        }
    }
}

/// A record that the filter does not admit never enters the queue: nothing
/// is queued for it, and the queue is as long after it as before.
pub proof fn lemma_disabled_record_is_not_queued(
    setup: LoggerSetup,
    records: Seq<(Level, Seq<char>)>,
    record: (Level, Seq<char>),
)
    requires
        !setup.filter.admits(record.0),
    ensures
        queued(setup, record) is None,
        queue_of(setup, records.push(record)) == queue_of(setup, records),
        deliveries(setup, records.push(record)) == deliveries(setup, records),
{
    assert(records.push(record).drop_last() =~= records);
}

/// What a logger queues holds calls alone, one per admitted record.
pub proof fn lemma_queue_holds_calls(setup: LoggerSetup, records: Seq<(Level, Seq<char>)>)
    ensures
        all_calls(queue_of(setup, records)),
        queue_of(setup, records).map_values(|entry| call_of(entry)) == deliveries(setup, records),
    decreases records.len(),
{
    if records.len() > 0 {
        lemma_queue_holds_calls(setup, records.drop_last());
        let before = queue_of(setup, records.drop_last());
        match queued(setup, records.last()) {
            Some(entry) => {
                assert(before.push(entry).map_values(|entry| call_of(entry)) =~= before.map_values(
                    |entry| call_of(entry),
                ).push(call_of(entry)));
            },
            None => {},
        }
    } else {
        assert(queue_of(setup, records).map_values(|entry| call_of(entry)) =~= deliveries(
            setup,
            records,
        ));
    }
}

/// The asynchronous logger delivers what the synchronous one would: a worker
/// that takes the queue of one producer makes the call owed for each admitted
/// record, in the order of submission, makes no other call, and is still
/// running.
pub proof fn lemma_worker_delivers_submissions(setup: LoggerSetup, records: Seq<(Level, Seq<char>)>)
    ensures
        calls_made(WorkerState::Running, queue_of(setup, records)) == deliveries(setup, records),
        state_after(WorkerState::Running, queue_of(setup, records)) == WorkerState::Running,
{
    lemma_queue_holds_calls(setup, records);
    lemma_calls_are_made(queue_of(setup, records));
}

/// The view of an entry that may be absent.
pub open spec fn entry_view(entry: Option<QueueEntry>) -> Option<EntryView> {
    match entry {
        Some(entry) => Some(entry@),
        None => None,
    }
}

/// A logger whose producers only queue: they never wait for the host. The
/// worker at the other end of the queue makes the host calls.
pub struct AsyncPythonLogger {
    records: Sender<QueueEntry>,
    setup: LoggerSetup,
}

impl View for AsyncPythonLogger {
    type V = LoggerSetup;

    /// The codes and the filter that the logger was set up with.
    closed spec fn view(&self) -> LoggerSetup {
        self.setup
    }
}

impl AsyncPythonLogger {
    /// Sets the logger up from the host's answers and opens its queue. It
    /// fails exactly when the setup does. With the logger comes the worker for
    /// the other end of the queue, running; it is for a thread of its own.
    pub fn new(host: &HostLevels) -> (made: Result<(AsyncPythonLogger, LoggingWorker), SetupError>)
        ensures
            match spec_setup(*host) {
                Ok(setup) => made matches Ok(pair) && pair.0@ == setup && pair.1@
                    == WorkerState::Running,
                Err(e) => made matches Err(failure) && failure == e,
            },
    {
        match setup_python_logger(host) {
            Ok(setup) => {
                let (records, entries) = open_queue();
                Ok((AsyncPythonLogger { records, setup }, LoggingWorker::new(entries)))
            },
            Err(e) => Err(e),
        }
    }

    /// The codes and the filter that the logger was set up with.
    pub fn setup(&self) -> (setup: LoggerSetup)
        ensures
            setup == self@,
    {
        self.setup
    }

    /// The host code under which a record of severity `level` is forwarded.
    pub fn python_level(&self, level: Level) -> (code: u8)
        ensures
            code == self@.codes.spec_translate(level),
    {
        self.setup.codes.translate(level)
    }

    /// Whether a record of severity `level` is delivered: exactly when it is
    /// at least as severe as the filter's threshold.
    pub fn enabled(&self, level: Level) -> (passes: bool)
        ensures
            passes == self@.filter.admits(level),
    {
        self.setup.filter.enabled(level)
    }

    /// The entry that `log` queues for a record: none for a record that the
    /// filter does not admit, so such a record never enters the queue.
    pub fn entry_for(&self, record: &LogRecord) -> (entry: Option<QueueEntry>)
        ensures
            entry_view(entry) == queued(self@, record@),
    {
        if self.enabled(record.level) {
            Some(
                QueueEntry::Call(
                    HostCall { code: self.python_level(record.level), message: record.message.clone() },
                ),
            )
        } else {
            None
        }
    }

    /// Queues one record for delivery, without waiting.
    ///
    /// A record that the filter does not admit is not queued. Any other is
    /// handed to the queue once, as the entry that `entry_for` gives; if the
    /// queue is closed already, the entry is dropped and comes back in the
    /// outcome.
    pub fn log(&self, record: &LogRecord) -> (outcome: Submission)
        ensures
            match queued(self@, record@) {
                None => outcome is Filtered,
                Some(entry) => outcome is Enqueued || (outcome matches Submission::Dropped(back)
                    && back@ == entry),
            },
    {
        match self.entry_for(record) {
            None => Submission::Filtered,
            Some(entry) => Submission::from_send(enqueue(&self.records, entry)),
        }
    }

    /// Does nothing: the logger has no way to wait for the queue to drain.
    pub fn flush(&self) {
    }

    /// Queues the shutdown token and returns at once. It may be called any
    /// number of times: the worker stops at the first token that it takes.
    pub fn shutdown(&self) -> (outcome: Submission)
        ensures
            outcome is Enqueued || outcome == Submission::Dropped(QueueEntry::Shutdown),
    {
        Submission::from_send(enqueue(&self.records, QueueEntry::Shutdown))
    }
}

} // verus!

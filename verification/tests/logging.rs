use hostbridge::async_logger::{AsyncPythonLogger, Submission};
use hostbridge::level::{
    EffectiveFilter, HostAnswer, HostLevels, Level, LevelCodes, LoggerSetup, SetupError,
};
use hostbridge::queue::QueueEntry;
use hostbridge::record::{HostCall, LogRecord};
use hostbridge::registry::{async_logger, sync_logger, InstallError, Sink, SinkRegistry};
use hostbridge::sync_logger::SyncPythonLogger;
use hostbridge::worker::WorkerState;

const CRITICAL: i64 = 50;
const ERROR: i64 = 40;
const WARNING: i64 = 30;
const INFO: i64 = 20;
const DEBUG: i64 = 10;

fn host(effective: i64) -> HostLevels {
    HostLevels {
        critical: HostAnswer::Code(CRITICAL),
        debug: HostAnswer::Code(DEBUG),
        error: HostAnswer::Code(ERROR),
        info: HostAnswer::Code(INFO),
        warn: HostAnswer::Code(WARNING),
        effective: HostAnswer::Code(effective),
    }
}

fn record(level: Level, message: &str) -> LogRecord {
    LogRecord { level, message: message.to_string() }
}

fn call(code: u8, message: &str) -> HostCall {
    HostCall { code, message: message.to_string() }
}

#[test]
fn test_sync_logger_translates_every_level() {
    let logger = SyncPythonLogger::new(&host(DEBUG)).unwrap();
    assert_eq!(EffectiveFilter::Trace, logger.setup().filter);
    let mut calls = Vec::new();
    let records = [
        record(Level::Debug, "debug: foo"),
        record(Level::Error, "Foo error encountered"),
        record(Level::Info, "bar baz info"),
        record(Level::Trace, "tracing foo sync ..."),
        record(Level::Warn, "there's a foo!"),
    ];
    for record in &records {
        assert!(logger.enabled(record.level));
        calls.extend(logger.log(record));
    }
    assert_eq!(
        vec![
            call(10, "debug: foo"),
            call(40, "Foo error encountered"),
            call(20, "bar baz info"),
            call(10, "tracing foo sync ..."),
            call(30, "there's a foo!"),
        ],
        calls
    );
}

#[test]
fn test_async_logger_translates_every_level() {
    let (logger, mut worker) = AsyncPythonLogger::new(&host(DEBUG)).unwrap();
    assert_eq!(EffectiveFilter::Trace, logger.setup().filter);
    let records = [
        record(Level::Debug, "debug: foo"),
        record(Level::Error, "Foo error encountered"),
        record(Level::Info, "bar baz info"),
        record(Level::Trace, "tracing foo async ..."),
        record(Level::Warn, "there's a foo!"),
    ];
    for record in &records {
        assert!(logger.enabled(record.level));
        assert_eq!(Submission::Enqueued, logger.log(record));
    }
    drop(logger);
    let mut calls = Vec::new();
    while let Some(call) = worker.next_call() {
        calls.push(call);
    }
    assert_eq!(
        vec![
            call(10, "debug: foo"),
            call(40, "Foo error encountered"),
            call(20, "bar baz info"),
            call(10, "tracing foo async ..."),
            call(30, "there's a foo!"),
        ],
        calls
    );
    assert_eq!(WorkerState::Stopped, worker.state());
}

#[test]
fn test_sync_logger_at_warn_level() {
    let logger = SyncPythonLogger::new(&host(WARNING)).unwrap();
    assert_eq!(None, logger.log(&record(Level::Info, "skip")));
    assert_eq!(Some(call(40, "boom")), logger.log(&record(Level::Error, "boom")));
}

#[test]
fn test_sync_logger_enabled_follows_the_filter() {
    let logger = SyncPythonLogger::new(&host(INFO)).unwrap();
    assert!(!logger.enabled(Level::Debug));
    assert!(logger.enabled(Level::Info));
    assert!(logger.enabled(Level::Error));
    assert!(!logger.enabled(Level::Trace));
    assert!(logger.enabled(Level::Warn));
}

#[test]
fn test_sync_logger_keeps_its_setup() {
    let logger = SyncPythonLogger::new(&host(ERROR)).unwrap();
    let codes = LevelCodes { critical: 50, error: 40, warn: 30, info: 20, debug: 10 };
    assert_eq!(LoggerSetup { codes, filter: EffectiveFilter::Error }, logger.setup());
    assert_eq!(30, logger.python_level(Level::Warn));
    assert_eq!(10, logger.python_level(Level::Trace));
    logger.flush();
    assert_eq!(LoggerSetup { codes, filter: EffectiveFilter::Error }, logger.setup());
}

#[test]
fn test_sync_logger_with_unknown_host_level_delivers_nothing() {
    let logger = SyncPythonLogger::new(&host(0)).unwrap();
    for level in [Level::Error, Level::Warn, Level::Info, Level::Debug, Level::Trace] {
        assert!(!logger.enabled(level));
        assert_eq!(None, logger.log(&record(level, "unheard")));
    }
}

#[test]
fn test_sync_logger_critical_host_level_lets_errors_through() {
    let logger = SyncPythonLogger::new(&host(CRITICAL)).unwrap();
    assert_eq!(Some(call(40, "bad")), logger.log(&record(Level::Error, "bad")));
    assert_eq!(None, logger.log(&record(Level::Warn, "meh")));
}

#[test]
fn test_sync_logger_setup_failure() {
    let mut answers = host(DEBUG);
    answers.info = HostAnswer::Missing;
    assert_eq!(Some(SetupError::Unreachable), SyncPythonLogger::new(&answers).err());
    let mut answers = host(DEBUG);
    answers.effective = HostAnswer::Code(1000);
    assert_eq!(Some(SetupError::InvalidLevel), SyncPythonLogger::new(&answers).err());
}

#[test]
fn test_async_logger_setup_failure() {
    let mut answers = host(DEBUG);
    answers.critical = HostAnswer::Invalid;
    assert_eq!(Some(SetupError::InvalidLevel), AsyncPythonLogger::new(&answers).err().map(|e| e));
}

#[test]
fn test_async_logger_delivers_in_order_of_submission() {
    let (logger, mut worker) = AsyncPythonLogger::new(&host(DEBUG)).unwrap();
    assert_eq!(WorkerState::Running, worker.state());
    assert_eq!(Submission::Enqueued, logger.log(&record(Level::Debug, "x")));
    assert_eq!(Submission::Enqueued, logger.log(&record(Level::Info, "y")));
    assert_eq!(Submission::Enqueued, logger.log(&record(Level::Error, "z")));
    assert_eq!(Some(call(10, "x")), worker.next_call());
    assert_eq!(Some(call(20, "y")), worker.next_call());
    assert_eq!(Some(call(40, "z")), worker.next_call());
    assert_eq!(WorkerState::Running, worker.state());
    assert_eq!(Submission::Enqueued, logger.shutdown());
    assert_eq!(None, worker.next_call());
    assert_eq!(WorkerState::Stopped, worker.state());
}

#[test]
fn test_async_logger_disabled_records_never_enter_the_queue() {
    let (logger, mut worker) = AsyncPythonLogger::new(&host(ERROR)).unwrap();
    for n in 0..1000 {
        let skipped = record(Level::Debug, &format!("message {}", n));
        assert!(!logger.enabled(Level::Debug));
        assert_eq!(None, logger.entry_for(&skipped));
        assert_eq!(Submission::Filtered, logger.log(&skipped));
    }
    assert_eq!(Submission::Enqueued, logger.log(&record(Level::Error, "first in the queue")));
    assert_eq!(Some(call(40, "first in the queue")), worker.next_call());
    drop(logger);
    assert_eq!(None, worker.next_call());
}

#[test]
fn test_async_logger_entry_for_enabled_record() {
    let (logger, _worker) = AsyncPythonLogger::new(&host(INFO)).unwrap();
    assert_eq!(
        Some(QueueEntry::Call(call(30, "careful"))),
        logger.entry_for(&record(Level::Warn, "careful"))
    );
    assert_eq!(None, logger.entry_for(&record(Level::Trace, "noise")));
    assert_eq!(20, logger.python_level(Level::Info));
    logger.flush();
}

#[test]
fn test_async_logger_shutdown_cuts_delivery() {
    let (logger, mut worker) = AsyncPythonLogger::new(&host(DEBUG)).unwrap();
    assert_eq!(Submission::Enqueued, logger.log(&record(Level::Info, "before")));
    assert_eq!(Submission::Enqueued, logger.shutdown());
    assert_eq!(Submission::Enqueued, logger.log(&record(Level::Info, "after")));
    assert_eq!(Some(call(20, "before")), worker.next_call());
    assert_eq!(None, worker.next_call());
    assert_eq!(WorkerState::Stopped, worker.state());
    assert_eq!(None, worker.next_call());
    assert_eq!(WorkerState::Stopped, worker.state());
}

#[test]
fn test_async_logger_shutdown_twice() {
    let (logger, mut worker) = AsyncPythonLogger::new(&host(DEBUG)).unwrap();
    assert_eq!(Submission::Enqueued, logger.log(&record(Level::Warn, "last words")));
    assert_eq!(Submission::Enqueued, logger.shutdown());
    assert_eq!(Submission::Enqueued, logger.shutdown());
    assert_eq!(Some(call(30, "last words")), worker.next_call());
    assert_eq!(None, worker.next_call());
    assert_eq!(WorkerState::Stopped, worker.state());
    assert_eq!(None, worker.next_call());
    assert_eq!(None, worker.next_call());
    assert_eq!(WorkerState::Stopped, worker.state());
}

#[test]
fn test_async_logger_drops_records_once_the_queue_is_closed() {
    let (logger, worker) = AsyncPythonLogger::new(&host(DEBUG)).unwrap();
    drop(worker);
    assert_eq!(
        Submission::Dropped(QueueEntry::Call(call(40, "too late"))),
        logger.log(&record(Level::Error, "too late"))
    );
    assert_eq!(Submission::Dropped(QueueEntry::Shutdown), logger.shutdown());
    assert_eq!(Submission::Dropped(QueueEntry::Shutdown), logger.shutdown());
}

#[test]
fn test_submission_from_send() {
    assert_eq!(Submission::Enqueued, Submission::from_send(Ok(())));
    assert_eq!(
        Submission::Dropped(QueueEntry::Shutdown),
        Submission::from_send(Err(QueueEntry::Shutdown))
    );
    assert_eq!(
        Submission::Dropped(QueueEntry::Call(call(1, "m"))),
        Submission::from_send(Err(QueueEntry::Call(call(1, "m"))))
    );
}

#[test]
fn test_worker_stops_when_every_producer_is_gone() {
    let (logger, mut worker) = AsyncPythonLogger::new(&host(DEBUG)).unwrap();
    assert_eq!(Submission::Enqueued, logger.log(&record(Level::Debug, "only")));
    drop(logger);
    assert_eq!(Some(call(10, "only")), worker.next_call());
    assert_eq!(None, worker.next_call());
    assert_eq!(WorkerState::Stopped, worker.state());
}

#[test]
fn test_worker_steps() {
    let (_logger, mut worker) = AsyncPythonLogger::new(&host(DEBUG)).unwrap();
    assert_eq!(Some(call(7, "a")), worker.step(Some(QueueEntry::Call(call(7, "a")))));
    assert_eq!(WorkerState::Running, worker.state());
    assert_eq!(Some(call(8, "b")), worker.step(Some(QueueEntry::Call(call(8, "b")))));
    assert_eq!(WorkerState::Running, worker.state());
    assert_eq!(None, worker.step(Some(QueueEntry::Shutdown)));
    assert_eq!(WorkerState::Stopped, worker.state());
    assert_eq!(None, worker.step(Some(QueueEntry::Call(call(9, "c")))));
    assert_eq!(WorkerState::Stopped, worker.state());
    assert_eq!(None, worker.step(Some(QueueEntry::Shutdown)));
    assert_eq!(None, worker.step(None));
    assert_eq!(WorkerState::Stopped, worker.state());
}

#[test]
fn test_worker_stops_at_the_end_of_the_queue() {
    let (_logger, mut worker) = AsyncPythonLogger::new(&host(DEBUG)).unwrap();
    assert_eq!(None, worker.step(None));
    assert_eq!(WorkerState::Stopped, worker.state());
}

#[test]
fn test_registry_starts_empty() {
    let registry = SinkRegistry::new();
    assert!(!registry.is_installed());
    assert!(registry.sink().is_none());
    assert_eq!(EffectiveFilter::Off, registry.max_level());
}

#[test]
fn test_registry_takes_one_sink() {
    let mut registry = SinkRegistry::new();
    let first = SyncPythonLogger::new(&host(WARNING)).unwrap();
    assert_eq!(Ok(()), registry.install(Sink::Sync(first)));
    assert!(registry.is_installed());
    assert_eq!(EffectiveFilter::Warn, registry.max_level());
    let second = SyncPythonLogger::new(&host(DEBUG)).unwrap();
    assert_eq!(Err(InstallError::AlreadyInstalled), registry.install(Sink::Sync(second)));
    assert_eq!(EffectiveFilter::Warn, registry.max_level());
    let sink = registry.sink().unwrap();
    assert!(sink.enabled(Level::Warn));
    assert!(!sink.enabled(Level::Info));
    assert_eq!(EffectiveFilter::Warn, sink.setup().filter);
    assert_eq!(None, sink.shutdown());
}

#[test]
fn test_registry_tears_down_a_rejected_async_sink() {
    let mut registry = SinkRegistry::new();
    assert_eq!(Ok(()), sync_logger(&mut registry, &host(INFO)));
    let (logger, mut worker) = AsyncPythonLogger::new(&host(DEBUG)).unwrap();
    assert_eq!(Submission::Enqueued, logger.log(&record(Level::Info, "queued before install")));
    assert_eq!(Err(InstallError::AlreadyInstalled), registry.install(Sink::Async(logger)));
    assert_eq!(Some(call(20, "queued before install")), worker.next_call());
    assert_eq!(None, worker.next_call());
    assert_eq!(WorkerState::Stopped, worker.state());
}

#[test]
fn test_install_sync() {
    let mut registry = SinkRegistry::new();
    assert_eq!(Ok(()), sync_logger(&mut registry, &host(WARNING)));
    assert_eq!(EffectiveFilter::Warn, registry.max_level());
    match registry.sink() {
        Some(Sink::Sync(logger)) => {
            assert_eq!(None, logger.log(&record(Level::Info, "skip")));
            assert_eq!(Some(call(40, "boom")), logger.log(&record(Level::Error, "boom")));
        }
        _ => panic!("a synchronous logger is installed"),
    }
}

#[test]
fn test_install_async() {
    let mut registry = SinkRegistry::new();
    let mut worker = async_logger(&mut registry, &host(DEBUG)).unwrap();
    assert_eq!(EffectiveFilter::Trace, registry.max_level());
    match registry.sink() {
        Some(Sink::Async(logger)) => {
            assert_eq!(Submission::Enqueued, logger.log(&record(Level::Debug, "x")));
            assert_eq!(Submission::Enqueued, logger.log(&record(Level::Info, "y")));
            assert_eq!(Submission::Enqueued, logger.log(&record(Level::Error, "z")));
        }
        _ => panic!("an asynchronous logger is installed"),
    }
    assert_eq!(Some(call(10, "x")), worker.next_call());
    assert_eq!(Some(call(20, "y")), worker.next_call());
    assert_eq!(Some(call(40, "z")), worker.next_call());
    let outcome = registry.sink().unwrap().shutdown();
    assert_eq!(Some(Submission::Enqueued), outcome);
    assert_eq!(None, worker.next_call());
}

#[test]
fn test_second_install_fails() {
    let mut registry = SinkRegistry::new();
    assert_eq!(Ok(()), sync_logger(&mut registry, &host(ERROR)));
    assert_eq!(Some(InstallError::AlreadyInstalled), async_logger(&mut registry, &host(DEBUG)).err());
    assert_eq!(Err(InstallError::AlreadyInstalled), sync_logger(&mut registry, &host(DEBUG)));
    assert_eq!(EffectiveFilter::Error, registry.max_level());
    assert!(matches!(registry.sink(), Some(Sink::Sync(_))));
}

#[test]
fn test_install_reports_setup_failure_first() {
    let mut registry = SinkRegistry::new();
    let mut unreachable = host(DEBUG);
    unreachable.error = HostAnswer::Missing;
    assert_eq!(
        Err(InstallError::Setup(SetupError::Unreachable)),
        sync_logger(&mut registry, &unreachable)
    );
    assert!(!registry.is_installed());
    assert_eq!(
        Some(InstallError::Setup(SetupError::Unreachable)),
        async_logger(&mut registry, &unreachable).err()
    );
    assert!(!registry.is_installed());
    assert_eq!(Ok(()), sync_logger(&mut registry, &host(DEBUG)));
    let mut invalid = host(DEBUG);
    invalid.effective = HostAnswer::Invalid;
    assert_eq!(
        Err(InstallError::Setup(SetupError::InvalidLevel)),
        sync_logger(&mut registry, &invalid)
    );
    assert!(registry.is_installed());
}

#[test]
fn test_filter_is_frozen_at_setup() {
    let mut answers = host(WARNING);
    let logger = SyncPythonLogger::new(&answers).unwrap();
    answers.effective = HostAnswer::Code(DEBUG);
    let later = SyncPythonLogger::new(&answers).unwrap();
    assert_eq!(EffectiveFilter::Warn, logger.setup().filter);
    assert!(!logger.enabled(Level::Info));
    assert_eq!(EffectiveFilter::Trace, later.setup().filter);
    assert!(later.enabled(Level::Info));
}

//! The registry that holds the one active logger, and the two ways to
//! install a logger into it.

use crate::async_logger::{AsyncPythonLogger, Submission};
use crate::level::{spec_setup, EffectiveFilter, HostLevels, Level, LoggerSetup, SetupError};
use crate::sync_logger::SyncPythonLogger;
use crate::worker::{LoggingWorker, WorkerState};
use vstd::prelude::*;

verus! {

/// A logger of either kind.
pub enum Sink {
    Sync(SyncPythonLogger),
    Async(AsyncPythonLogger),
}

impl View for Sink {
    type V = LoggerSetup;

    /// The codes and the filter that the logger was set up with.
    open spec fn view(&self) -> LoggerSetup {
        match self {
            Sink::Sync(logger) => logger@,
            Sink::Async(logger) => logger@,
        }
    }
}

impl Sink {
    /// The codes and the filter that the logger was set up with.
    pub fn setup(&self) -> (setup: LoggerSetup)
        ensures
            setup == self@,
    {
        match self {
            Sink::Sync(logger) => logger.setup(),
            Sink::Async(logger) => logger.setup(),
        }
    }

    /// Whether a record of severity `level` is delivered.
    pub fn enabled(&self, level: Level) -> (passes: bool)
        ensures
            passes == self@.filter.admits(level),
    {
        match self {
            Sink::Sync(logger) => logger.enabled(level),
            Sink::Async(logger) => logger.enabled(level),
        }
    }

    /// Tears the logger down: an asynchronous logger queues its shutdown
    /// token, a synchronous one has nothing to end.
    pub fn shutdown(&self) -> (outcome: Option<Submission>)
        ensures
            outcome is Some <==> self is Async,
    {
        match self {
            Sink::Sync(_) => None,
            Sink::Async(logger) => Some(logger.shutdown()),
        }
    }
}

/// Why a logger was not installed.
#[derive(Clone, Copy, Debug, PartialEq, Eq)]
pub enum InstallError {
    /// The logger could not be set up.
    Setup(SetupError),
    /// The registry holds a logger already.
    AlreadyInstalled,
}

/// The slot for the one active logger. It starts empty, is filled by the
/// first install, and keeps that logger for good: nothing uninstalls it.
pub struct SinkRegistry {
    sink: Option<Sink>,
}

impl SinkRegistry {
    /// The logger that is installed, if one is.
    pub closed spec fn installed(&self) -> Option<Sink> {
        self.sink
    }

    /// The filter that is in force: that of the installed logger, and `Off`
    /// while none is installed.
    pub open spec fn filter_in_force(&self) -> EffectiveFilter {
        match self.installed() {
            Some(sink) => sink@.filter,
            None => EffectiveFilter::Off,
        }
    }

    /// An empty registry.
    pub fn new() -> (registry: SinkRegistry)
        ensures
            registry.installed() is None,
    {
        SinkRegistry { sink: None }
    }

    /// Whether a logger is installed.
    pub fn is_installed(&self) -> (yes: bool)
        ensures
            yes == self.installed() is Some,
    {
        self.sink.is_some()
    }

    /// The installed logger, if one is.
    pub fn sink(&self) -> (sink: Option<&Sink>)
        ensures
            match sink {
                Some(sink) => self.installed() == Some(*sink),
                None => self.installed() is None,
            },
    {
        self.sink.as_ref()
    }

    /// The filter that is in force.
    pub fn max_level(&self) -> (filter: EffectiveFilter)
        ensures
            filter == self.filter_in_force(),
    {
        match &self.sink {
            Some(sink) => sink.setup().filter,
            None => EffectiveFilter::Off,
        }
    }

    /// Installs `sink` if the registry is empty, and with it its filter.
    ///
    /// If a logger is installed already, the call fails and the registry
    /// stays as it was; the rejected logger is torn down.
    pub fn install(&mut self, sink: Sink) -> (result: Result<(), InstallError>)
        ensures
            match old(self).installed() {
                None => result is Ok && final(self).installed() == Some(sink),
                Some(_) => {
                    &&& result matches Err(e)
                    &&& e is AlreadyInstalled
                    &&& final(self).installed() == old(self).installed()
                },
            },
    {
        if self.sink.is_some() {
            let _ = sink.shutdown();
            Err(InstallError::AlreadyInstalled)
        } else {
            self.sink = Some(sink);
            Ok(())
        }
    }
}

/// Sets up a synchronous logger from the host's answers and installs it.
///
/// A failed setup is reported first, whatever the registry holds. Otherwise
/// the logger is installed exactly when the registry was empty.
pub fn sync_logger(registry: &mut SinkRegistry, host: &HostLevels) -> (result: Result<(), InstallError>)
    ensures
        match spec_setup(*host) {
            Err(e) => {
                &&& result matches Err(InstallError::Setup(failure))
                &&& failure == e
                &&& final(registry).installed() == old(registry).installed()
            },
            Ok(setup) => match old(registry).installed() {
                Some(_) => {
                    &&& result matches Err(e)
                    &&& e is AlreadyInstalled
                    &&& final(registry).installed() == old(registry).installed()
                },
                None => {
                    &&& result is Ok
                    &&& final(registry).installed() matches Some(Sink::Sync(logger))
                    &&& logger@ == setup
                },
            },
        },
{
    match SyncPythonLogger::new(host) {
        Ok(logger) => registry.install(Sink::Sync(logger)),
        Err(e) => Err(InstallError::Setup(e)),
    }
}

/// Sets up an asynchronous logger from the host's answers and installs it.
/// On success the caller gets the logger's worker, which is running, to put
/// it on a thread of its own.
///
/// A failed setup is reported first, whatever the registry holds. Otherwise
/// the logger is installed exactly when the registry was empty.
pub fn async_logger(registry: &mut SinkRegistry, host: &HostLevels) -> (result: Result<
    LoggingWorker,
    InstallError,
>)
    ensures
        match spec_setup(*host) {
            Err(e) => {
                &&& result matches Err(InstallError::Setup(failure))
                &&& failure == e
                &&& final(registry).installed() == old(registry).installed()
            },
            Ok(setup) => match old(registry).installed() {
                Some(_) => {
                    &&& result matches Err(e)
                    &&& e is AlreadyInstalled
                    &&& final(registry).installed() == old(registry).installed()
                },
                None => {
                    &&& result matches Ok(worker)
                    &&& worker@ == WorkerState::Running
                    &&& final(registry).installed() matches Some(Sink::Async(logger))
                    &&& logger@ == setup
                },
            },
        },
{
    match AsyncPythonLogger::new(host) {
        Ok((logger, worker)) => match registry.install(Sink::Async(logger)) {
            Ok(()) => Ok(worker),
            Err(e) => Err(e),
        },
        Err(e) => Err(InstallError::Setup(e)),
    }
}

} // verus!

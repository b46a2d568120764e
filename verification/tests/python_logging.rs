use cpython::{NoArgs, ObjectProtocol, PyDict, PyObject, PyResult, Python};
use hostbridge::async_logger::{AsyncPythonLogger, Submission};
use hostbridge::level::{EffectiveFilter, HostAnswer, HostLevels, Level};
use hostbridge::record::{HostCall, LogRecord};
use hostbridge::sync_logger::SyncPythonLogger;
use hostbridge::worker::WorkerState;

fn answer(py: Python, value: PyResult<PyObject>) -> HostAnswer {
    match value {
        Err(_) => HostAnswer::Missing,
        Ok(object) => match object.extract::<i64>(py) {
            Ok(code) => HostAnswer::Code(code),
            Err(_) => HostAnswer::Invalid,
        },
    }
}

fn query_host(py: Python, name: &str) -> (HostLevels, PyObject) {
    let locals = PyDict::new(py);
    let pylogging = py.import("logging").unwrap();
    let levels = HostLevels {
        critical: answer(py, pylogging.get(py, "CRITICAL")),
        debug: answer(py, pylogging.get(py, "DEBUG")),
        error: answer(py, pylogging.get(py, "ERROR")),
        info: answer(py, pylogging.get(py, "INFO")),
        warn: answer(py, pylogging.get(py, "WARN")),
        effective: HostAnswer::Missing,
    };
    locals.set_item(py, "logging", pylogging).unwrap();
    let logger = py
        .eval(&format!("logging.getLogger('{}')", name), None, Some(&locals))
        .unwrap();
    let effective = answer(py, logger.call_method(py, "getEffectiveLevel", NoArgs, None));
    (HostLevels { effective, ..levels }, logger)
}

fn deliver(py: Python, logger: &PyObject, call: HostCall) {
    logger.call_method(py, "log", (call.code, call.message), None).unwrap();
}

fn record(level: Level, message: &str) -> LogRecord {
    LogRecord { level, message: message.to_string() }
}

fn read_and_remove(py: Python, locals: &PyDict) -> String {
    py.run(
        r#"
handler.close()
with open(logfilename) as logfile:
    contents = logfile.read()
import os
os.remove(logfilename)"#,
        None,
        Some(locals),
    )
    .unwrap();
    locals.get_item(py, "contents").unwrap().extract(py).unwrap()
}

#[test]
fn test_async_logging() {
    let gil = Python::acquire_gil();
    let py = gil.python();
    let locals = PyDict::new(py);
    match py.run(
        r#"
import logging
from tempfile import mkstemp

_, logfilename = mkstemp()

# create logger
logger = logging.getLogger('foo_async')
logger.setLevel(logging.DEBUG)
fmt = logging.Formatter('%(levelname)s:%(name)s:%(message)s')
handler = logging.FileHandler(logfilename)
handler.setFormatter(fmt)
logger.addHandler(handler)"#,
        None,
        Some(&locals),
    ) {
        Ok(_) => {
            let (host, pylog) = query_host(py, "foo_async");
            match AsyncPythonLogger::new(&host) {
                Ok((logger, mut worker)) => {
                    assert_eq!(logger.setup().filter, EffectiveFilter::Trace);
                    let record = record(Level::Debug, "debug: foo");
                    assert!(logger.enabled(record.level));
                    assert_eq!(Submission::Enqueued, logger.log(&record));
                    let record = self::record(Level::Error, "Foo error encountered");
                    assert!(logger.enabled(record.level));
                    assert_eq!(Submission::Enqueued, logger.log(&record));
                    let record = self::record(Level::Info, "bar baz info");
                    assert!(logger.enabled(record.level));
                    assert_eq!(Submission::Enqueued, logger.log(&record));
                    let record = self::record(Level::Trace, "tracing foo async ...");
                    assert!(logger.enabled(record.level));
                    assert_eq!(Submission::Enqueued, logger.log(&record));
                    let record = self::record(Level::Warn, "there's a foo!");
                    assert!(logger.enabled(record.level));
                    assert_eq!(Submission::Enqueued, logger.log(&record));
                    assert_eq!(Submission::Enqueued, logger.shutdown());
                    while let Some(call) = worker.next_call() {
                        deliver(py, &pylog, call);
                    }
                    assert_eq!(WorkerState::Stopped, worker.state());
                    let contents = read_and_remove(py, &locals);
                    assert_eq!("DEBUG:foo_async:debug: foo\nERROR:foo_async:Foo error encountered\nINFO:foo_async:bar baz info\nDEBUG:foo_async:tracing foo async ...\nWARNING:foo_async:there's a foo!\n", contents);
                }
                Err(_) => assert!(false),
            }
        }
        Err(_) => {
            assert!(false);
        }
    }
}

#[test]
fn test_sync_logging() {
    let gil = Python::acquire_gil();
    let py = gil.python();
    let locals = PyDict::new(py);
    match py.run(
        r#"
import logging
from tempfile import mkstemp

_, logfilename = mkstemp()

# create logger
logger = logging.getLogger('foo_sync')
logger.setLevel(logging.DEBUG)
fmt = logging.Formatter('%(levelname)s:%(name)s:%(message)s')
handler = logging.FileHandler(logfilename)
handler.setFormatter(fmt)
logger.addHandler(handler)"#,
        None,
        Some(&locals),
    ) {
        Ok(_) => {
            let (host, pylog) = query_host(py, "foo_sync");
            match SyncPythonLogger::new(&host) {
                Ok(logger) => {
                    assert_eq!(logger.setup().filter, EffectiveFilter::Trace);
                    let records = [
                        record(Level::Debug, "debug: foo"),
                        record(Level::Error, "Foo error encountered"),
                        record(Level::Info, "bar baz info"),
                        record(Level::Trace, "tracing foo sync ..."),
                        record(Level::Warn, "there's a foo!"),
                    ];
                    for record in &records {
                        assert!(logger.enabled(record.level));
                        match logger.log(record) {
                            Some(call) => deliver(py, &pylog, call),
                            None => assert!(false),
                        }
                    }
                    let contents = read_and_remove(py, &locals);
                    assert_eq!("DEBUG:foo_sync:debug: foo\nERROR:foo_sync:Foo error encountered\nINFO:foo_sync:bar baz info\nDEBUG:foo_sync:tracing foo sync ...\nWARNING:foo_sync:there's a foo!\n", contents);
                }
                Err(_) => assert!(false),
            }
        }
        Err(_) => {
            assert!(false);
        }
    }
}

#[test]
fn test_python_level_constants_resolve() {
    let gil = Python::acquire_gil();
    let py = gil.python();
    let (host, _pylog) = query_host(py, "foo_levels");
    assert_eq!(HostAnswer::Code(50), host.critical);
    assert_eq!(HostAnswer::Code(40), host.error);
    assert_eq!(HostAnswer::Code(30), host.warn);
    assert_eq!(HostAnswer::Code(20), host.info);
    assert_eq!(HostAnswer::Code(10), host.debug);
    let logger = SyncPythonLogger::new(&host).unwrap();
    assert_eq!(EffectiveFilter::Warn, logger.setup().filter);
    assert_eq!(None, logger.log(&record(Level::Info, "skip")));
    match logger.log(&record(Level::Error, "boom")) {
        Some(call) => assert_eq!(40, call.code),
        None => assert!(false),
    }
}

//! Severity levels of the bridge, the host's level codes and the filter that
//! is fixed when a logger is set up.

use vstd::prelude::*;

verus! {

/// Severity of a log record, most severe first.
#[derive(Clone, Copy, Debug, PartialEq, Eq, Structural)]
pub enum Level {
    Error,
    Warn,
    Info,
    Debug,
    Trace,
}

impl Level {
    /// Position of the level in the severity order: 1 for `Error`, the most
    /// severe, up to 5 for `Trace`.
    pub open spec fn rank(self) -> int {
        match self {
            Level::Error => 1,
            Level::Warn => 2,
            Level::Info => 3,
            Level::Debug => 4,
            Level::Trace => 5,
        }
    }

    /// The rank as a machine integer.
    pub fn rank_number(self) -> (n: u8)
        ensures
            n == self.rank(),
    {
        match self {
            Level::Error => 1,
            Level::Warn => 2,
            Level::Info => 3,
            Level::Debug => 4,
            Level::Trace => 5,
        }
    }

    /// Whether `self` is at least as severe as `threshold`.
    pub open spec fn at_least(self, threshold: Level) -> bool {
        self.rank() <= threshold.rank()
    }
}

/// The least severity that a logger still delivers. It is computed once, when
/// the logger is set up, and never follows later changes on the host's side.
#[derive(Clone, Copy, Debug, PartialEq, Eq, Structural)]
pub enum EffectiveFilter {
    /// Nothing is delivered.
    Off,
    Error,
    Warn,
    Info,
    Debug,
    Trace,
}

impl EffectiveFilter {
    /// The least severe level that passes, if any does.
    pub open spec fn threshold(self) -> Option<Level> {
        match self {
            EffectiveFilter::Off => None,
            EffectiveFilter::Error => Some(Level::Error),
            EffectiveFilter::Warn => Some(Level::Warn),
            EffectiveFilter::Info => Some(Level::Info),
            EffectiveFilter::Debug => Some(Level::Debug),
            EffectiveFilter::Trace => Some(Level::Trace),
        }
    }

    /// A record of severity `level` passes the filter exactly when the filter
    /// has a threshold and `level` is at least as severe as it.
    pub open spec fn admits(self, level: Level) -> bool {
        match self.threshold() {
            Some(threshold) => level.at_least(threshold),
            None => false,
        }
    }

    /// The least severe level that passes; `None` for `Off`.
    pub fn to_level(self) -> (level: Option<Level>)
        ensures
            level == self.threshold(),
    {
        match self {
            EffectiveFilter::Off => None,
            EffectiveFilter::Error => Some(Level::Error),
            EffectiveFilter::Warn => Some(Level::Warn),
            EffectiveFilter::Info => Some(Level::Info),
            EffectiveFilter::Debug => Some(Level::Debug),
            EffectiveFilter::Trace => Some(Level::Trace),
        }
    }

    /// Whether a record of severity `level` passes the filter.
    pub fn enabled(self, level: Level) -> (passes: bool)
        ensures
            passes == self.admits(level),
    {
        match self.to_level() {
            Some(threshold) => level.rank_number() <= threshold.rank_number(),
            None => false,
        }
    }
}

/// Why a logger could not be set up.
#[derive(Clone, Copy, Debug, PartialEq, Eq, Structural)]
pub enum SetupError {
    /// The host's logging facility, or one of its names, could not be reached.
    Unreachable,
    /// The host gave a level that is no integer from 0 to 255.
    InvalidLevel,
}

/// What the host gave back when it was asked for one level.
#[derive(Clone, Copy, Debug, PartialEq, Eq, Structural)]
pub enum HostAnswer {
    /// The query itself failed.
    Missing,
    /// The host answered with something that is no machine integer.
    Invalid,
    /// The integer that the host answered with.
    Code(i64),
}

impl HostAnswer {
    /// The level code that an answer stands for: the answer's integer when it
    /// lies in 0..=255, otherwise the failure that the answer amounts to.
    pub open spec fn spec_code(self) -> Result<u8, SetupError> {
        match self {
            HostAnswer::Missing => Err(SetupError::Unreachable),
            HostAnswer::Invalid => Err(SetupError::InvalidLevel),
            HostAnswer::Code(raw) => if 0 <= raw <= 255 {
                Ok(raw as u8)
            } else {
                Err(SetupError::InvalidLevel)
            },
        }
    }

    /// Reads an answer as a level code.
    pub fn code(self) -> (code: Result<u8, SetupError>)
        ensures
            code == self.spec_code(),
    {
        match self {
            HostAnswer::Missing => Err(SetupError::Unreachable),
            HostAnswer::Invalid => Err(SetupError::InvalidLevel),
            HostAnswer::Code(raw) => if 0 <= raw && raw <= 255 {
                Ok(raw as u8)
            } else {
                Err(SetupError::InvalidLevel)
            },
        }
    }
}

/// The host's answers to the six queries that setting up a logger makes: its
/// five named level constants, and the level that is in effect for the
/// logging channel.
#[derive(Clone, Copy, Debug, PartialEq, Eq, Structural)]
pub struct HostLevels {
    pub critical: HostAnswer,
    pub debug: HostAnswer,
    pub error: HostAnswer,
    pub info: HostAnswer,
    pub warn: HostAnswer,
    pub effective: HostAnswer,
}

/// The host's integer codes for its five severity tiers.
#[derive(Clone, Copy, Debug, PartialEq, Eq, Structural)]
pub struct LevelCodes {
    pub critical: u8,
    pub error: u8,
    pub warn: u8,
    pub info: u8,
    pub debug: u8,
}

impl LevelCodes {
    /// The codes that the host's answers resolve to. The names are read in the
    /// order critical, debug, error, info, warn, and the first answer that is
    /// no level code decides the failure.
    pub open spec fn spec_resolve(host: HostLevels) -> Result<LevelCodes, SetupError> {
        match host.critical.spec_code() {
            Err(e) => Err(e),
            Ok(critical) => match host.debug.spec_code() {
                Err(e) => Err(e),
                Ok(debug) => match host.error.spec_code() {
                    Err(e) => Err(e),
                    Ok(error) => match host.info.spec_code() {
                        Err(e) => Err(e),
                        Ok(info) => match host.warn.spec_code() {
                            Err(e) => Err(e),
                            Ok(warn) => Ok(LevelCodes { critical, error, warn, info, debug }),
                        },
                    },
                },
            },
        }
    }

    /// Resolves the host's five named level constants.
    pub fn resolve(host: &HostLevels) -> (codes: Result<LevelCodes, SetupError>)
        ensures
            codes == Self::spec_resolve(*host),
    {
        let critical = match host.critical.code() {
            Ok(code) => code,
            Err(e) => { return Err(e); },
        };
        let debug = match host.debug.code() {
            Ok(code) => code,
            Err(e) => { return Err(e); },
        };
        let error = match host.error.code() {
            Ok(code) => code,
            Err(e) => { return Err(e); },
        };
        let info = match host.info.code() {
            Ok(code) => code,
            Err(e) => { return Err(e); },
        };
        let warn = match host.warn.code() {
            Ok(code) => code,
            Err(e) => { return Err(e); },
        };
        Ok(LevelCodes { critical, error, warn, info, debug })
    }

    /// The host code under which a record of severity `level` is forwarded.
    /// The host has nothing finer than its debug tier, so `Trace` shares the
    /// code of `Debug`.
    pub open spec fn spec_translate(self, level: Level) -> u8 {
        match level {
            Level::Error => self.error,
            Level::Warn => self.warn,
            Level::Info => self.info,
            Level::Debug => self.debug,
            Level::Trace => self.debug,
        }
    }

    /// Translates a severity into the host's code for it.
    pub fn translate(&self, level: Level) -> (code: u8)
        ensures
            code == self.spec_translate(level),
    {
        match level {
            Level::Error => self.error,
            Level::Warn => self.warn,
            Level::Info => self.info,
            Level::Debug => self.debug,
            Level::Trace => self.debug,
        }
    }

    /// The filter that a raw host level amounts to. The level is compared
    /// with the host's codes in the order critical, debug, error, info, warn,
    /// and the first that equals it decides: the host's critical and error
    /// tiers let only errors through, its debug tier lets everything through.
    /// A level that equals none of the codes switches delivery off.
    pub open spec fn spec_effective_filter(self, raw: u8) -> EffectiveFilter {
        if raw == self.critical {
            EffectiveFilter::Error
        } else if raw == self.debug {
            EffectiveFilter::Trace
        } else if raw == self.error {
            EffectiveFilter::Error
        } else if raw == self.info {
            EffectiveFilter::Info
        } else if raw == self.warn {
            EffectiveFilter::Warn
        } else {
            EffectiveFilter::Off
        }
    }

    /// Computes the filter from the level that is in effect on the host.
    pub fn compute_effective_filter(&self, raw: u8) -> (filter: EffectiveFilter)
        ensures
            filter == self.spec_effective_filter(raw),
    {
        if raw == self.critical {
            EffectiveFilter::Error
        } else if raw == self.debug {
            EffectiveFilter::Trace
        } else if raw == self.error {
            EffectiveFilter::Error
        } else if raw == self.info {
            EffectiveFilter::Info
        } else if raw == self.warn {
            EffectiveFilter::Warn
        } else {
            EffectiveFilter::Off
        }
    }
}

/// What setting up a logger yields: the host's codes and the frozen filter.
#[derive(Clone, Copy, Debug, PartialEq, Eq, Structural)]
pub struct LoggerSetup {
    pub codes: LevelCodes,
    pub filter: EffectiveFilter,
}

/// The setup that the host's answers lead to: the codes are resolved first,
/// then the level in effect is read, and each failure ends the setup.
pub open spec fn spec_setup(host: HostLevels) -> Result<LoggerSetup, SetupError> {
    match LevelCodes::spec_resolve(host) {
        Err(e) => Err(e),
        Ok(codes) => match host.effective.spec_code() {
            Err(e) => Err(e),
            Ok(raw) => Ok(LoggerSetup { codes, filter: codes.spec_effective_filter(raw) }),
        },
    }
}

/// Sets a logger up from the host's answers: resolves the level codes and
/// computes the filter from the level in effect.
pub fn setup_python_logger(host: &HostLevels) -> (setup: Result<LoggerSetup, SetupError>)
    ensures
        setup == spec_setup(*host),
{
    let codes = match LevelCodes::resolve(host) {
        Ok(codes) => codes,
        Err(e) => { return Err(e); },
    };
    let raw = match host.effective.code() {
        Ok(raw) => raw,
        Err(e) => { return Err(e); },
    };
    let filter = codes.compute_effective_filter(raw);
    Ok(LoggerSetup { codes, filter })
}

} // verus!

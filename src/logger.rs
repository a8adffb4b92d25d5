//! Levels and styling of the program's log lines, and installing a logger.

use vstd::prelude::*;

verus! {

#[verifier::external_type_specification]
#[verifier::external_body]
pub struct ExLevelFilter(log::LevelFilter);

#[verifier::external_type_specification]
#[verifier::external_body]
pub struct ExSetLoggerError(log::SetLoggerError);

/// The severity of one log line, from the most to the least severe.
#[derive(Clone, Copy, Debug, PartialEq, Eq, Structural)]
pub enum Severity {
    Error,
    Warn,
    Info,
    Debug,
    Trace,
}

/// The terminal colour that a log line's tag is written in.
#[derive(Clone, Copy, Debug, PartialEq, Eq, Structural)]
pub enum TagColor {
    Red,
    Yellow,
    Cyan,
    Magenta,
    Blue,
}

/// The most detailed severity that is reported after `occurrences` uses of
/// the verbosity flag: errors only, then information, then everything.
pub open spec fn threshold_for(occurrences: nat) -> Severity {
    if occurrences == 0 {
        Severity::Error
    } else if occurrences == 1 {
        Severity::Info
    } else {
        Severity::Trace
    }
}

pub open spec fn tag_color_of(level: Severity) -> TagColor {
    match level {
        Severity::Error => TagColor::Red,
        Severity::Warn => TagColor::Yellow,
        Severity::Info => TagColor::Cyan,
        Severity::Debug => TagColor::Magenta,
        Severity::Trace => TagColor::Blue,
    }
}

pub open spec fn tag_label_of(level: Severity) -> Seq<char> {
    match level {
        Severity::Error => "error"@,
        Severity::Warn => "warn"@,
        Severity::Info => "info"@,
        Severity::Debug => "debug"@,
        Severity::Trace => "trace"@,
    }
}

/// The reporting threshold for a number of uses of the verbosity flag.
pub fn threshold(occurrences: u64) -> (r: Severity)
    ensures
        r == threshold_for(occurrences as nat),
{
    if occurrences == 0 {
        Severity::Error
    } else if occurrences == 1 {
        Severity::Info
    } else {
        Severity::Trace
    }
}

/// The colour and the label of the tag that opens a log line of `level`.
pub fn tag(level: Severity) -> (r: (TagColor, &'static str))
    ensures
        r.0 == tag_color_of(level),
        r.1@ == tag_label_of(level),
{
    match level {
        Severity::Error => (TagColor::Red, "error"),
        Severity::Warn => (TagColor::Yellow, "warn"),
        Severity::Info => (TagColor::Cyan, "info"),
        Severity::Debug => (TagColor::Magenta, "debug"),
        Severity::Trace => (TagColor::Blue, "trace"),
    }
}

/// Relies on log::set_logger: installs `logger` for the whole process, and
/// fails when a logger was installed before.
#[verifier::external_body]
fn install<L: log::Log>(logger: &'static L) -> (r: Result<(), log::SetLoggerError>) {
    log::set_logger(logger)
}

/// Relies on log::set_max_level: sets the most detailed level that is logged.
pub assume_specification[ log::set_max_level ](level: log::LevelFilter);

/// Installs `logger` and, once it is in place, sets the level filter to
/// `level`. Fails, leaving the level as it was, when a logger was installed
/// before.
pub fn init<L: log::Log>(logger: &'static L, level: log::LevelFilter) -> (r: Result<
    (),
    log::SetLoggerError,
>) {
    match install(logger) {
        Ok(()) => {
            log::set_max_level(level);
            Ok(())
        },
        Err(e) => Err(e),
    }
}

} // verus!

use crate::server::LoggingConfig;
use tracing::level_filters::LevelFilter;
use vstd::prelude::*;

verus! {

/// How much is logged.
#[derive(Debug, Clone, Copy, PartialEq, Eq, Structural)]
pub enum LogLevel {
    Off,
    Error,
    Warn,
    Info,
    Debug,
    Trace,
}

/// `c` with an ASCII capital replaced by its small letter.
pub open spec fn ascii_lower(c: char) -> char {
    if 'A' <= c <= 'Z' {
        ((c as int) + 32) as char
    } else {
        c
    }
}

/// The two texts are equal up to the case of ASCII letters.
pub open spec fn eq_ignore_ascii_case(s: Seq<char>, t: Seq<char>) -> bool {
    &&& s.len() == t.len()
    &&& forall|i: int| 0 <= i < s.len() ==> ascii_lower(#[trigger] s[i]) == ascii_lower(t[i])
}

/// The number that a sequence of decimal digits spells.
pub open spec fn digits_value(d: Seq<char>) -> int
    decreases d.len(),
{
    if d.len() == 0 {
        0
    } else {
        digits_value(d.drop_last()) * 10 + ((d.last() as int) - ('0' as int))
    }
}

/// The number a text spells as a `usize`: an optional `+`, then one or more ASCII digits,
/// the value fitting in a `usize`.
pub open spec fn spec_parse_usize(s: Seq<char>) -> Option<int> {
    let d = if s.len() > 0 && s[0] == '+' {
        s.drop_first()
    } else {
        s
    };
    if d.len() > 0 && (forall|i: int| 0 <= i < d.len() ==> '0' <= #[trigger] d[i] <= '9') && digits_value(d)
        <= usize::MAX {
        Some(digits_value(d))
    } else {
        None
    }
}

/// The level a number from 0 to 5 stands for.
pub open spec fn level_of_number(n: int) -> LogLevel {
    if n == 0 {
        LogLevel::Off
    } else if n == 1 {
        LogLevel::Error
    } else if n == 2 {
        LogLevel::Warn
    } else if n == 3 {
        LogLevel::Info
    } else if n == 4 {
        LogLevel::Debug
    } else {
        LogLevel::Trace
    }
}

/// The level a text names: a number from 0 (off) to 5 (trace), the empty text (error),
/// or a level name in any ASCII case.
pub open spec fn spec_parse_level(s: Seq<char>) -> Option<LogLevel> {
    let num = spec_parse_usize(s);
    if num is Some && 0 <= num->0 <= 5 {
        Some(level_of_number(num->0))
    } else if s.len() == 0 {
        Some(LogLevel::Error)
    } else if eq_ignore_ascii_case(s, "error"@) {
        Some(LogLevel::Error)
    } else if eq_ignore_ascii_case(s, "warn"@) {
        Some(LogLevel::Warn)
    } else if eq_ignore_ascii_case(s, "info"@) {
        Some(LogLevel::Info)
    } else if eq_ignore_ascii_case(s, "debug"@) {
        Some(LogLevel::Debug)
    } else if eq_ignore_ascii_case(s, "trace"@) {
        Some(LogLevel::Trace)
    } else if eq_ignore_ascii_case(s, "off"@) {
        Some(LogLevel::Off)
    } else {
        None
    }
}

/// Parses a level filter with `tracing`'s `LevelFilter::from_str`, which reads a number
/// from 0 to 5 (as `usize` parsing reads it), the empty text as ERROR, or one of the six
/// names in any ASCII case; anything else is an error, here `None`.
#[verifier::external_body]
fn parse_level_filter(s: &str) -> (r: Option<LogLevel>)
    ensures
        r == spec_parse_level(s@),
{
    match s.parse::<LevelFilter>() {
        Ok(f) if f == LevelFilter::OFF => Some(LogLevel::Off),
        Ok(f) if f == LevelFilter::ERROR => Some(LogLevel::Error),
        Ok(f) if f == LevelFilter::WARN => Some(LogLevel::Warn),
        Ok(f) if f == LevelFilter::INFO => Some(LogLevel::Info),
        Ok(f) if f == LevelFilter::DEBUG => Some(LogLevel::Debug),
        Ok(_) => Some(LogLevel::Trace),
        Err(_) => None,
    }
}

/// The level asked for by the value of `RUST_LOG`: the level it names, INFO when it is
/// unset or names none.
pub fn log_level_from_env(value: Option<&str>) -> (r: LogLevel)
    ensures
        r == match value {
            Some(s) => match spec_parse_level(s@) {
                Some(l) => l,
                None => LogLevel::Info,
            },
            None => LogLevel::Info,
        },
{
    match value {
        Some(s) => match parse_level_filter(s) {
            Some(l) => l,
            None => LogLevel::Info,
        },
        None => LogLevel::Info,
    }
}

/// The name of a level, as a log filter spells it.
pub open spec fn spec_level_name(level: LogLevel) -> Seq<char> {
    match level {
        LogLevel::Off => "off"@,
        LogLevel::Error => "error"@,
        LogLevel::Warn => "warn"@,
        LogLevel::Info => "info"@,
        LogLevel::Debug => "debug"@,
        LogLevel::Trace => "trace"@,
    }
}

/// The name of a level, as a log filter spells it.
pub fn level_name(level: LogLevel) -> (r: &'static str)
    ensures
        r@ == spec_level_name(level),
{
    match level {
        LogLevel::Off => "off",
        LogLevel::Error => "error",
        LogLevel::Warn => "warn",
        LogLevel::Info => "info",
        LogLevel::Debug => "debug",
        LogLevel::Trace => "trace",
    }
}

/// The logging section of the configuration.
#[derive(Debug, Clone, Copy, PartialEq, Eq, Structural)]
pub struct LoggingSettings {
    pub enabled: bool,
    pub color: bool,
    pub threads: bool,
    pub timestamp: bool,
    /// Read commands through a line editor when standard input is a terminal.
    pub use_tty: bool,
}

/// How the logger is set up.
#[derive(Debug, Clone, Copy, PartialEq, Eq, Structural)]
pub struct LoggerPlan {
    pub level: LogLevel,
    /// Also write the log to the configured file.
    pub file_logger: bool,
    /// Read console commands through a line editor.
    pub readline: bool,
    pub config: LoggingConfig,
}

/// Decides the logger: none when logging is off; otherwise the level from `RUST_LOG`, a
/// file logger when a file is configured, a line editor when one is asked for and
/// standard input is a terminal, and the decoration of the configuration.
pub fn logger_plan(settings: LoggingSettings, rust_log: Option<&str>, log_file: &str, stdin_is_terminal: bool) -> (r:
    Option<LoggerPlan>)
    ensures
        !settings.enabled ==> r is None,
        settings.enabled ==> (r matches Some(p) && p.level == match rust_log {
            Some(s) => match spec_parse_level(s@) {
                Some(l) => l,
                None => LogLevel::Info,
            },
            None => LogLevel::Info,
        } && p.file_logger == (log_file@.len() > 0) && p.readline == (settings.use_tty && stdin_is_terminal)
            && p.config == (LoggingConfig {
            color: settings.color,
            threads: settings.threads,
            timestamp: settings.timestamp,
        })),
{
    if !settings.enabled {
        return None;
    }
    let level = log_level_from_env(rust_log);
    let file_logger = !log_file.is_empty();
    let readline = settings.use_tty && stdin_is_terminal;
    let config = LoggingConfig::new(settings.color, settings.threads, settings.timestamp);
    Some(LoggerPlan { level, file_logger, readline, config })
}

} // verus!

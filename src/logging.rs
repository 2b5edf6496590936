use vstd::prelude::*;
use vstd::string::StringExecFns;

verus! {

/// Severity of a log line.
#[derive(Debug, Clone, Copy, PartialEq, Eq, Structural)]
pub enum LogLevel {
    INFO,
    WARNING,
    ERROR,
}

/// Whether lines of `level` are emitted when INFO lines are shown or not.
pub open spec fn emitted(level: LogLevel, show_info: bool) -> bool {
    match level {
        LogLevel::INFO => show_info,
        _ => true,
    }
}

pub open spec fn level_text(level: LogLevel) -> Seq<char> {
    match level {
        LogLevel::INFO => "INFO"@,
        LogLevel::WARNING => "WARNING"@,
        LogLevel::ERROR => "ERROR"@,
    }
}

/// The emitted form of a message: `[LEVEL]: message`.
pub open spec fn log_line(level: LogLevel, message: Seq<char>) -> Seq<char> {
    "["@ + level_text(level) + "]: "@ + message
}

/// What the default policy emits for `message` at `level`: WARNING and
/// ERROR lines, no INFO lines.
pub open spec fn logged(level: LogLevel, message: Seq<char>) -> Option<Seq<char>> {
    if emitted(level, false) {
        Some(log_line(level, message))
    } else {
        None
    }
}

/// The filter with INFO lines shown or hidden as chosen.
pub fn should_log_with(log_level: LogLevel, show_info: bool) -> (r: bool)
    ensures
        r == emitted(log_level, show_info),
{
    match log_level {
        LogLevel::ERROR => true,
        LogLevel::WARNING => true,
        LogLevel::INFO => show_info,
    }
}

/// The default filter: INFO lines are hidden.
pub fn should_log(log_level: LogLevel) -> (r: bool)
    ensures
        r == emitted(log_level, false),
{
    should_log_with(log_level, false)
}

/// The level's name.
pub fn level_name(log_level: LogLevel) -> (r: &'static str)
    ensures
        r@ == level_text(log_level),
{
    match log_level {
        LogLevel::INFO => "INFO",
        LogLevel::WARNING => "WARNING",
        LogLevel::ERROR => "ERROR",
    }
}

/// Formats a message as a log line, whatever the filter says.
pub fn format_log_line(log_level: LogLevel, message: &str) -> (r: String)
    ensures
        r@ == log_line(log_level, message@),
{
    String::from_str("[").concat(level_name(log_level)).concat("]: ").concat(message)
}

/// The line to emit for `message` at `log_level`, if the default filter
/// lets it through.
pub fn log(log_level: LogLevel, message: &str) -> (r: Option<String>)
    ensures
        r matches Some(line) ==> logged(log_level, message@) == Some(line@),
        r is None ==> logged(log_level, message@) is None,
{
    if should_log(log_level) {
        Some(format_log_line(log_level, message))
    } else {
        None
    }
}

/// Logs a transaction hash at the given level.
pub fn log_transaction(tx_hash: &str, log_level: LogLevel) -> (r: Option<String>)
    ensures
        r matches Some(line) ==> logged(log_level, "Transaction: "@ + tx_hash@) == Some(line@),
        r is None ==> logged(log_level, "Transaction: "@ + tx_hash@) is None,
{
    let message = String::from_str("Transaction: ").concat(tx_hash);
    log(log_level, message.as_str())
}

/// Logs a change of a state variable, at INFO.
pub fn log_state_change(state_variable: &str, new_value: &str, changed_by: &str) -> (r: Option<String>)
    ensures
        r matches Some(line) ==> logged(
            LogLevel::INFO,
            "State change: "@ + state_variable@ + " changed to "@ + new_value@ + " by "@ + changed_by@,
        ) == Some(line@),
        r is None ==> logged(
            LogLevel::INFO,
            "State change: "@ + state_variable@ + " changed to "@ + new_value@ + " by "@ + changed_by@,
        ) is None,
{
    let message = String::from_str("State change: ").concat(state_variable).concat(" changed to ").concat(
        new_value,
    ).concat(" by ").concat(changed_by);
    log(LogLevel::INFO, message.as_str())
}

/// Logs an event, at INFO.
pub fn log_event(event: &str) -> (r: Option<String>)
    ensures
        r matches Some(line) ==> logged(LogLevel::INFO, "Event: "@ + event@) == Some(line@),
        r is None ==> logged(LogLevel::INFO, "Event: "@ + event@) is None,
{
    let message = String::from_str("Event: ").concat(event);
    log(LogLevel::INFO, message.as_str())
}

/// Logs an error, at ERROR.
pub fn log_error(error: &str) -> (r: Option<String>)
    ensures
        r matches Some(line) ==> logged(LogLevel::ERROR, "ERROR: "@ + error@) == Some(line@),
        r is None ==> logged(LogLevel::ERROR, "ERROR: "@ + error@) is None,
{
    let message = String::from_str("ERROR: ").concat(error);
    log(LogLevel::ERROR, message.as_str())
}

} // verus!

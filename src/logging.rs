//! Log levels and the rule for which messages a logger writes.

use vstd::prelude::*;
use vstd::string::StringExecFns;
use crate::text::{decimal_text, format_decimal};

verus! {

#[derive(PartialEq, Eq, Structural, Clone, Copy, Debug)]
pub enum LogLevel {
    Debug,
    Info,
    Warn,
    Error,
}

/// The order of the levels, Debug lowest.
pub open spec fn level_rank(l: LogLevel) -> nat {
    match l {
        LogLevel::Debug => 0,
        LogLevel::Info => 1,
        LogLevel::Warn => 2,
        LogLevel::Error => 3,
    }
}

impl LogLevel {
    /// Whether a logger set to `self` writes a message at `level`: exactly
    /// when `level` is at least as severe.
    pub fn should_log(&self, level: &LogLevel) -> (r: bool)
        ensures
            r == (level_rank(*level) >= level_rank(*self)),
    {
        match (self, level) {
            (LogLevel::Debug, _) => true,
            (LogLevel::Info, LogLevel::Debug) => false,
            (LogLevel::Info, _) => true,
            (LogLevel::Warn, LogLevel::Debug) | (LogLevel::Warn, LogLevel::Info) => false,
            (LogLevel::Warn, _) => true,
            (LogLevel::Error, LogLevel::Error) => true,
            (LogLevel::Error, _) => false,
        }
    }

    /// The level's name in log lines.
    pub fn label(&self) -> (r: &'static str)
        ensures
            r@ == match *self {
                LogLevel::Debug => "DEBUG"@,
                LogLevel::Info => "INFO"@,
                LogLevel::Warn => "WARN"@,
                LogLevel::Error => "ERROR"@,
            },
    {
        match self {
            LogLevel::Debug => "DEBUG",
            LogLevel::Info => "INFO",
            LogLevel::Warn => "WARN",
            LogLevel::Error => "ERROR",
        }
    }
}

/// The access-log message of one request: `ip - "METHOD uri" status size`.
pub open spec fn access_message_spec(client_ip: Seq<char>, method: Seq<char>, uri: Seq<char>, status: u16, size: usize) -> Seq<char> {
    client_ip + " - \""@ + method + " "@ + uri + "\" "@ + decimal_text(status as nat) + " "@ + decimal_text(size as nat)
}

pub fn access_message(client_ip: &str, method: &str, uri: &str, status: u16, response_size: usize) -> (r: String)
    ensures
        r@ == access_message_spec(client_ip@, method@, uri@, status, response_size),
{
    let mut m = client_ip.to_owned();
    m.append(" - \"");
    m.append(method);
    m.append(" ");
    m.append(uri);
    m.append("\" ");
    m.append(format_decimal(status as u128).as_str());
    m.append(" ");
    m.append(format_decimal(response_size as u128).as_str());
    m
}

} // verus!

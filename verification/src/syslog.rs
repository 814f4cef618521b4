//! What the daemon has to say to the system log.
use vstd::prelude::*;

verus! {

/// How urgent a log entry is.
#[derive(Debug, Clone, Copy, PartialEq, Eq, Structural)]
pub enum Priority {
    Info,
    /// A condition that was reported has cleared.
    Notice,
    Warning,
    Critical,
}

/// One entry for the log.
#[derive(Debug, Clone)]
pub struct LogEntry {
    pub priority: Priority,
    pub text: String,
}

/// What a `LogEntry` holds.
pub struct LogView {
    pub priority: Priority,
    pub text: Seq<char>,
}

impl View for LogEntry {
    type V = LogView;

    open spec fn view(&self) -> LogView {
        LogView { priority: self.priority, text: self.text@ }
    }
}

/// What a sequence of log entries holds.
pub open spec fn logs(s: Seq<LogEntry>) -> Seq<LogView> {
    s.map_values(|e: LogEntry| e@)
}

/// One entry.
pub open spec fn log(priority: Priority, text: Seq<char>) -> LogView {
    LogView { priority, text }
}

/// Adds an entry.
pub fn push_log(out: &mut Vec<LogEntry>, priority: Priority, text: String)
    ensures
        logs(final(out)@) == logs(old(out)@).push(log(priority, text@)),
{
    out.push(LogEntry { priority, text });
    assert(logs(out@) =~= logs(old(out)@).push(log(priority, text@)));
}

} // verus!

//! The session log: timestamped, severity-tagged lines, appended in order.
use vstd::prelude::*;

verus! {

/// Severity of a log line.
#[derive(Clone, Copy, Debug, PartialEq, Eq, Structural)]
pub enum LogType {
    Info,
    Warn,
    Error,
}

/// The tag a line of that severity starts with.
pub open spec fn tag_of(t: LogType) -> Seq<char> {
    match t {
        LogType::Info => "[INFO]"@,
        LogType::Warn => "[WARN]"@,
        LogType::Error => "[ERROR]"@,
    }
}

/// One log line: tag, bracketed timestamp, message, newline.
pub open spec fn log_line(t: LogType, timestamp: Seq<char>, data: Seq<char>) -> Seq<char> {
    tag_of(t) + " ["@ + timestamp + "] "@ + data + "\n"@
}

/// The text of the log so far.
pub struct Log {
    pub log_text: String,
}

impl Log {
    /// An empty log.
    pub fn new() -> (r: Log)
        ensures
            r.log_text@ == Seq::<char>::empty(),
    {
        Log { log_text: String::new() }
    }

    /// Appends one line and returns it, so that it can also be written out.
    pub fn add_to_log(&mut self, log_type: LogType, timestamp: &str, log_data: &str) -> (r: String)
        ensures
            r@ == log_line(log_type, timestamp@, log_data@),
            final(self).log_text@ == old(self).log_text@ + r@,
    {
        let mut line = String::new();
        match log_type {
            LogType::Info => line.append("[INFO]"),
            LogType::Warn => line.append("[WARN]"),
            LogType::Error => line.append("[ERROR]"),
        }
        line.append(" [");
        line.append(timestamp);
        line.append("] ");
        line.append(log_data);
        line.append("\n");
        assert(line@ =~= log_line(log_type, timestamp@, log_data@));
        self.log_text.append(line.as_str());
        line
    }
}

} // verus!

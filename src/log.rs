//! The in-application message log: a list of titled messages, each with a
//! severity. Writing the log to a file is left to the host.

use vstd::prelude::*;

verus! {

/// The severity of a log message. An error may ask to be shown as a popup.
#[derive(Debug, Clone, Copy, PartialEq, Eq, Structural)]
pub enum LogMessageType {
    Info,
    Warning,
    Error { popup: bool },
}

impl LogMessageType {
    /// The tag written before a message in the log file.
    pub fn label(&self) -> (r: &'static str)
        ensures
            *self == LogMessageType::Info ==> r@ == "INFO"@,
            *self == LogMessageType::Warning ==> r@ == "WARNING"@,
            *self == (LogMessageType::Error { popup: true }) ==> r@ == "ERROR(popup)"@,
            *self == (LogMessageType::Error { popup: false }) ==> r@ == "ERROR"@,
    {
        match self {
            LogMessageType::Info => "INFO",
            LogMessageType::Warning => "WARNING",
            LogMessageType::Error { popup } => if *popup {
                "ERROR(popup)"
            } else {
                "ERROR"
            },
        }
    }
}

/// One logged message.
#[derive(Debug, Clone)]
pub struct LogMessage {
    pub title: String,
    pub msg: String,
    pub msg_type: LogMessageType,
}

/// The messages logged so far, oldest first.
#[derive(Debug)]
pub struct LogMessages {
    pub msgs: Vec<LogMessage>,
}

/// Whether `m` is the message with this title, text and severity.
pub open spec fn is_message(
    m: LogMessage,
    title: Seq<char>,
    msg: Seq<char>,
    msg_type: LogMessageType,
) -> bool {
    &&& m.title@ == title
    &&& m.msg@ == msg
    &&& m.msg_type == msg_type
}

impl LogMessages {
    /// An empty log.
    pub fn new() -> (r: Self)
        ensures
            r.msgs@.len() == 0,
    {
        LogMessages { msgs: Vec::new() }
    }

    /// Appends a message, keeping those before it.
    fn push_msg(&mut self, title: &str, msg: &str, msg_type: LogMessageType)
        ensures
            final(self).msgs@.len() == old(self).msgs@.len() + 1,
            final(self).msgs@.drop_last() == old(self).msgs@,
            is_message(final(self).msgs@.last(), title@, msg@, msg_type),
    {
        self.msgs.push(LogMessage { title: title.to_owned(), msg: msg.to_owned(), msg_type });
        assert(self.msgs@.drop_last() =~= old(self).msgs@);
    }

    /// Logs an informational message.
    pub fn info(&mut self, title: &str, msg: &str)
        ensures
            final(self).msgs@.len() == old(self).msgs@.len() + 1,
            final(self).msgs@.drop_last() == old(self).msgs@,
            is_message(final(self).msgs@.last(), title@, msg@, LogMessageType::Info),
    {
        self.push_msg(title, msg, LogMessageType::Info);
    }

    /// Logs a warning.
    pub fn warn(&mut self, title: &str, msg: &str)
        ensures
            final(self).msgs@.len() == old(self).msgs@.len() + 1,
            final(self).msgs@.drop_last() == old(self).msgs@,
            is_message(final(self).msgs@.last(), title@, msg@, LogMessageType::Warning),
    {
        self.push_msg(title, msg, LogMessageType::Warning);
    }

    /// Logs an error, shown as a popup when `popup` is set.
    pub fn error(&mut self, title: &str, msg: &str, popup: bool)
        ensures
            final(self).msgs@.len() == old(self).msgs@.len() + 1,
            final(self).msgs@.drop_last() == old(self).msgs@,
            is_message(final(self).msgs@.last(), title@, msg@, LogMessageType::Error { popup }),
    {
        self.push_msg(title, msg, LogMessageType::Error { popup });
    }
}

} // verus!

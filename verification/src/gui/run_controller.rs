//! What comes back from a run in the background: log lines and the outcome.
use std::collections::VecDeque;
use vstd::prelude::*;
use crate::args;
use crate::ffprobe::same_text;
use crate::text;

verus! {

#[derive(Clone, Copy, Debug, PartialEq, Eq, Structural)]
pub enum LogLevel {
    Error,
    Warn,
    Info,
    Debug,
    Trace,
}

#[derive(Clone, Debug)]
pub struct LogLine {
    pub level: LogLevel,
    pub message: String,
}

/// How a run ended: the output, or what went wrong.
#[derive(Clone, Debug)]
pub enum RunOutcome {
    Done(String),
    Failed(String),
}

/// The log keeps this many lines.
pub const LOG_BUFFER_CAP: usize = 2000;

/// The last lines of the log.
pub struct LogBuffer {
    pub lines: VecDeque<LogLine>,
}

/// The lines after another one: the oldest makes room.
pub open spec fn with_line(lines: Seq<LogLine>, line: LogLine) -> Seq<LogLine> {
    if lines.len() >= LOG_BUFFER_CAP {
        lines.skip(1).push(line)
    } else {
        lines.push(line)
    }
}

impl LogBuffer {
    pub fn new() -> (r: Self)
        ensures
            r.lines@.len() == 0,
    {
        LogBuffer { lines: VecDeque::new() }
    }

    pub fn push(&mut self, line: LogLine)
        ensures
            final(self).lines@ == with_line(old(self).lines@, line),
    {
        if self.lines.len() >= LOG_BUFFER_CAP {
            self.lines.pop_front();
            assert(self.lines@ =~= old(self).lines@.skip(1));
        }
        self.lines.push_back(line);
    }
}

/// The log never grows beyond its cap, and the newest line is always last.
pub proof fn law_log_is_bounded(lines: Seq<LogLine>, line: LogLine)
    requires
        lines.len() <= LOG_BUFFER_CAP,
    ensures
        with_line(lines, line).len() <= LOG_BUFFER_CAP,
        with_line(lines, line).last() == line,
{
}

/// Puts the fields of a log event together: its message first, the others
/// behind it.
pub struct MessageVisitor {
    pub main: Option<String>,
    pub extras: String,
}

/// A field that is not the message.
pub open spec fn extra(name: Seq<char>, value: Seq<char>) -> Seq<char> {
    " "@ + name + "="@ + value
}

/// Without the quotation marks around it, if it has them on both sides.
pub open spec fn unquoted(s: Seq<char>) -> Seq<char> {
    if s.len() >= 2 && s[0] == '"' && s.last() == '"' {
        s.subrange(1, s.len() - 1)
    } else {
        s
    }
}

impl MessageVisitor {
    pub fn new() -> (r: Self)
        ensures
            r.main is None,
            r.extras@.len() == 0,
    {
        MessageVisitor { main: None, extras: String::new() }
    }

    /// The visitor after a field.
    pub open spec fn takes(
        before: MessageVisitor,
        after: MessageVisitor,
        name: Seq<char>,
        message: Seq<char>,
        value: Seq<char>,
    ) -> bool {
        if name == "message"@ {
            args::opt_view(after.main) == Some(message) && after.extras@ == before.extras@
        } else {
            args::opt_view(after.main) == args::opt_view(before.main) && after.extras@
                == before.extras@ + extra(name, value)
        }
    }

    fn push_extra(&mut self, name: &str, value: &str)
        ensures
            final(self).main == old(self).main,
            final(self).extras@ == old(self).extras@ + extra(name@, value@),
    {
        let mut e = String::from_str(" ");
        e.append(name);
        e.append("=");
        e.append(value);
        self.extras.append(e.as_str());
    }

    /// Takes a field that is text.
    pub fn record_str(&mut self, name: &str, value: &str)
        ensures
            MessageVisitor::takes(*old(self), *final(self), name@, value@, value@),
    {
        if same_text(name, "message") {
            self.main = Some(String::from_str(value));
        } else {
            self.push_extra(name, value);
        }
    }

    /// Takes a field in its debug form; a message that is quoted loses its
    /// quotation marks.
    pub fn record_debug(&mut self, name: &str, formatted: &str)
        ensures
            MessageVisitor::takes(
                *old(self),
                *final(self),
                name@,
                unquoted(formatted@),
                formatted@,
            ),
    {
        if same_text(name, "message") {
            let chars = text::chars_of(formatted);
            let n: usize = chars.len();
            if n >= 2 && chars[0] == '"' && chars[n - 1] == '"' {
                self.main = Some(text::string_of(&chars, 1, n - 1));
            } else {
                self.main = Some(String::from_str(formatted));
            }
        } else {
            self.push_extra(name, formatted);
        }
    }

    /// The line: the message and the other fields.
    pub fn into_message(self) -> (r: String)
        ensures
            r@ == (match args::opt_view(self.main) {
                Some(m) => m,
                None => Seq::empty(),
            }) + self.extras@,
    {
        let mut out = match self.main {
            Some(m) => m,
            None => String::new(),
        };
        out.append(self.extras.as_str());
        out
    }
}

/// A new line comes last; the lines before it stay, but for the oldest once two
/// thousand are held.
pub proof fn law_newest_line_is_last(lines: Seq<LogLine>, line: LogLine)
    ensures
        with_line(lines, line).last() == line,
        lines.len() < 2000 ==> with_line(lines, line).drop_last() == lines,
        lines.len() >= 2000 ==> with_line(lines, line).drop_last() == lines.skip(1),
{
    assert(lines.push(line).drop_last() =~= lines);
    assert(lines.skip(1).push(line).drop_last() =~= lines.skip(1));
}

/// Quotes around a message are taken off, both or none.
pub proof fn law_unquoted(s: Seq<char>)
    ensures
        unquoted(seq!['"'] + s + seq!['"']) == s,
        s.len() > 0 && (s[0] != '"' || s.last() != '"') ==> unquoted(s) == s,
{
    let t = seq!['"'] + s + seq!['"'];
    assert(t.subrange(1, t.len() - 1) =~= s);
}

} // verus!

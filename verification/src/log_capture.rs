//! The in-game log: a bounded buffer keeping the most recent log lines, and
//! the colour each severity is shown in.
use vstd::prelude::*;
use std::collections::VecDeque;

verus! {

/// How many lines the log keeps.
pub const MAX_LINES: usize = 300;

/// Severity of a log line, most severe first.
#[derive(PartialEq, Eq, Structural, Clone, Copy, Debug)]
pub enum LogLevel {
    Error,
    Warn,
    Info,
    Debug,
    Trace,
}

/// One captured log message.
pub struct LogLine {
    pub level: LogLevel,
    pub msg: String,
}

/// The colour a line is drawn in: an RGB triple, or the UI's standard grey.
#[derive(PartialEq, Eq, Structural, Clone, Copy, Debug)]
pub enum LogColor {
    Rgb(u8, u8, u8),
    Gray,
}

/// Errors red, warnings amber, info pale green, everything else grey.
pub fn color_for(level: LogLevel) -> (c: LogColor)
    ensures
        c == match level {
            LogLevel::Error => LogColor::Rgb(240, 90, 90),
            LogLevel::Warn => LogColor::Rgb(240, 200, 90),
            LogLevel::Info => LogColor::Rgb(180, 220, 180),
            _ => LogColor::Gray,
        },
{
    if level == LogLevel::Error {
        LogColor::Rgb(240, 90, 90)
    } else if level == LogLevel::Warn {
        LogColor::Rgb(240, 200, 90)
    } else if level == LogLevel::Info {
        LogColor::Rgb(180, 220, 180)
    } else {
        LogColor::Gray
    }
}

/// The most recent lines of a log history: all of it while it is short,
/// otherwise its last `MAX_LINES` lines.
pub open spec fn last_lines(history: Seq<LogLine>) -> Seq<LogLine> {
    if history.len() <= MAX_LINES {
        history
    } else {
        history.subrange(history.len() - MAX_LINES, history.len() as int)
    }
}

/// The buffer after capturing `line`: the oldest line is dropped once the
/// buffer is full.
pub open spec fn after_capture(lines: Seq<LogLine>, line: LogLine) -> Seq<LogLine> {
    if lines.len() >= MAX_LINES {
        lines.drop_first().push(line)
    } else {
        lines.push(line)
    }
}

/// The captured log lines, oldest first, at most `MAX_LINES` of them.
pub struct LogStore {
    lines: VecDeque<LogLine>,
}

impl View for LogStore {
    type V = Seq<LogLine>;

    closed spec fn view(&self) -> Seq<LogLine> {
        self.lines@
    }
}

impl LogStore {
    /// An empty log.
    pub fn new() -> (s: Self)
        ensures
            s@ == Seq::<LogLine>::empty(),
    {
        LogStore { lines: VecDeque::new() }
    }

    /// Capture a line, dropping the oldest one once the buffer is full.
    pub fn push(&mut self, line: LogLine)
        ensures
            final(self)@ == after_capture(old(self)@, line),
    {
        if self.lines.len() >= MAX_LINES {
            self.lines.pop_front();
        }
        self.lines.push_back(line);
    }

    /// The captured lines, oldest first.
    pub fn lines(&self) -> (l: &VecDeque<LogLine>)
        ensures
            l@ == self@,
    {
        &self.lines
    }

    /// Number of captured lines.
    pub fn len(&self) -> (n: usize)
        ensures
            n == self@.len(),
    {
        self.lines.len()
    }
}

impl Default for LogStore {
    fn default() -> (s: Self)
        ensures
            s@ == Seq::<LogLine>::empty(),
    {
        LogStore::new()
    }
}

/// The buffer always holds the last `MAX_LINES` lines of everything captured:
/// if it held the tail of a history before a capture, it holds the tail of the
/// extended history after it.
pub proof fn law_keeps_last_lines(history: Seq<LogLine>, line: LogLine)
    ensures
        after_capture(last_lines(history), line) == last_lines(history.push(line)),
{
    let h2 = history.push(line);
    if history.len() < MAX_LINES {
    } else if history.len() == MAX_LINES {
        assert(history.drop_first().push(line) =~= h2.subrange(
            h2.len() - MAX_LINES,
            h2.len() as int,
        ));
    } else {
        let tail = history.subrange(history.len() - MAX_LINES, history.len() as int);
        assert(tail.drop_first().push(line) =~= h2.subrange(
            h2.len() - MAX_LINES,
            h2.len() as int,
        ));
    }
}

/// The buffer never grows past `MAX_LINES`.
pub proof fn law_bounded(lines: Seq<LogLine>, line: LogLine)
    requires
        lines.len() <= MAX_LINES,
    ensures
        after_capture(lines, line).len() <= MAX_LINES,
        after_capture(lines, line).last() == line,
{
}

} // verus!

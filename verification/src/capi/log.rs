//! Log lines for the caller's log callback.

use vstd::prelude::*;

use crate::text;

verus! {

/// The level of a log message.
#[derive(Clone, Copy, Debug, PartialEq, Eq, Structural)]
pub enum LogLevel {
    Error,
    Warn,
    Info,
    Debug,
    Trace,
}

/// 1 = error, 2 = warn, 3 = info, 4 = debug, 5 = trace.
pub open spec fn level_of(l: LogLevel) -> int {
    match l {
        LogLevel::Error => 1,
        LogLevel::Warn => 2,
        LogLevel::Info => 3,
        LogLevel::Debug => 4,
        LogLevel::Trace => 5,
    }
}

/// 1 = error, 2 = warn, 3 = info, 4 = debug, 5 = trace.
pub fn level_number(l: LogLevel) -> (out: i32)
    ensures
        out == level_of(l),
{
    match l {
        LogLevel::Error => 1,
        LogLevel::Warn => 2,
        LogLevel::Info => 3,
        LogLevel::Debug => 4,
        LogLevel::Trace => 5,
    }
}

/// Whether a message of this level is forwarded.
pub fn is_forwarded(l: LogLevel, max_level: i32) -> (yes: bool)
    ensures
        yes == (level_of(l) <= max_level),
{
    level_number(l) <= max_level
}

/// The message and the fields of a log event.
#[derive(Debug)]
pub struct Line {
    pub message: String,
    pub fields: String,
}

/// The message and the fields of a line after one more field: `message` replaces the
/// message, every other one is appended as ` name=value`.
pub open spec fn recorded(
    line: (Seq<char>, Seq<char>),
    name: Seq<char>,
    value: Seq<char>,
) -> (Seq<char>, Seq<char>) {
    if name == "message"@ {
        (value, line.1)
    } else {
        (line.0, line.1 + " "@ + name + "="@ + value)
    }
}

impl Line {
    /// An empty line.
    pub fn new() -> (out: Line)
        ensures
            out.message@ == Seq::<char>::empty(),
            out.fields@ == Seq::<char>::empty(),
    {
        Line { message: String::new(), fields: String::new() }
    }

    /// Add a field: `message` is the message, every other one is appended to the
    /// fields.
    pub fn record(&mut self, name: &str, value: &str)
        ensures
            (final(self).message@, final(self).fields@) == recorded(
                (old(self).message@, old(self).fields@),
                name@,
                value@,
            ),
    {
        if text::same(name, "message") {
            self.message = String::from_str(value);
        } else {
            self.fields.append(" ");
            self.fields.append(name);
            self.fields.append("=");
            self.fields.append(value);
        }
    }

    /// The line as a C string: the message, then the fields, NULs as spaces.
    pub fn text(&self) -> (out: String)
        ensures
            out@ == text::replace_char(self.message@ + self.fields@, '\0', ' '),
    {
        let mut t = self.message.clone();
        t.append(self.fields.as_str());
        text::from_chars(&text::replaced(t.as_str(), '\0', ' '))
    }
}

/// The levels are numbered from the errors to the traces.
pub proof fn levels_are_numbered(a: LogLevel, b: LogLevel)
    ensures
        level_of(a) == level_of(b) <==> a == b,
        level_of(LogLevel::Error) == 1,
        level_of(LogLevel::Error) < level_of(LogLevel::Warn) < level_of(LogLevel::Info) < level_of(
            LogLevel::Debug,
        ) < level_of(LogLevel::Trace),
        level_of(LogLevel::Trace) == 5,
{
}

/// A message replaces the one before and leaves the fields; a field is appended to the others
/// and leaves the message.
pub proof fn fields_are_recorded_in_order(
    line: (Seq<char>, Seq<char>),
    name: Seq<char>,
    value: Seq<char>,
)
    ensures
        name == "message"@ ==> recorded(line, name, value) == (value, line.1),
        name != "message"@ ==> recorded(line, name, value).0 == line.0 && recorded(
            line,
            name,
            value,
        ).1 == line.1 + seq![' '] + name + seq!['='] + value,
{
    reveal_strlit(" ");
    reveal_strlit("=");
    assert(" "@ =~= seq![' ']);
    assert("="@ =~= seq!['=']);
}

} // verus!

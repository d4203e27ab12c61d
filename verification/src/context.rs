//! What is known of a panic, and the text that is written about it.
//!
//! A report has up to three parts: a header line with the time and the place
//! in the source, the message followed by an empty line, and the stack
//! trace.

use vstd::prelude::*;
use vstd::string::StringExecFns;
use crate::text::{decimal_text, push_decimal};

verus! {

/// A place in the source.
#[derive(Debug, PartialEq, Eq)]
pub struct Location {
    pub file: String,
    pub line: u32,
}

/// What is known of one panic.
#[derive(Debug, PartialEq, Eq)]
pub struct CrashContext {
    /// Where the panic was raised, if known.
    pub location: Option<Location>,
    /// The panic's message, if it has one that is text.
    pub message: Option<String>,
    /// When the panic was caught, as universal time.
    pub timestamp: String,
    /// The stack at the time, one entry per line.
    pub backtrace: String,
}

/// A [`CrashContext`] with its texts as sequences of characters.
pub struct CrashContextView {
    pub location: Option<(Seq<char>, nat)>,
    pub message: Option<Seq<char>>,
    pub timestamp: Seq<char>,
    pub backtrace: Seq<char>,
}

/// The view of a place in the source, if there is one.
pub open spec fn location_view(location: Option<Location>) -> Option<(Seq<char>, nat)> {
    match location {
        Some(l) => Some((l.file@, l.line as nat)),
        None => None,
    }
}

/// The view of a message, if there is one.
pub open spec fn message_view(message: Option<String>) -> Option<Seq<char>> {
    match message {
        Some(m) => Some(m@),
        None => None,
    }
}

impl View for CrashContext {
    type V = CrashContextView;

    open spec fn view(&self) -> CrashContextView {
        CrashContextView {
            location: location_view(self.location),
            message: message_view(self.message),
            timestamp: self.timestamp@,
            backtrace: self.backtrace@,
        }
    }
}

/// The header line of a report.
pub open spec fn header_text(timestamp: Seq<char>, file: Seq<char>, line: nat) -> Seq<char> {
    "panic occurred on "@ + timestamp + " in file '"@ + file + "' at line "@ + decimal_text(line)
        + seq!['\n']
}

/// The message of a report, and the empty line after it.
pub open spec fn message_text(message: Seq<char>) -> Seq<char> {
    message + seq!['\n', '\n']
}

/// The stack trace of a report, closed by a line end.
pub open spec fn trace_text(backtrace: Seq<char>) -> Seq<char> {
    backtrace + seq!['\n']
}

impl CrashContextView {
    /// The header line, where the place is known.
    pub open spec fn header(self) -> Seq<Seq<char>> {
        match self.location {
            Some((file, line)) => seq![header_text(self.timestamp, file, line)],
            None => seq![],
        }
    }

    /// The message part, where there is a message.
    pub open spec fn body(self) -> Seq<Seq<char>> {
        match self.message {
            Some(m) => seq![message_text(m)],
            None => seq![],
        }
    }

    /// The parts of the report, in the order in which they are written.
    pub open spec fn texts(self) -> Seq<Seq<char>> {
        self.header() + self.body() + seq![trace_text(self.backtrace)]
    }
}

/// The time that std's `SystemTime::now()` reads from the clock, taken
/// over by chrono's `DateTime::<Utc>::from` and written by its `format` as
/// year, month, day, hour, minute and second. chrono takes a time before
/// 1970 as one before its epoch, and holds every time within 262,000 years
/// of it. Which time it is depends on the clock; whatever it is, chrono
/// writes the year in four characters or more and each other number in two,
/// with five separators between them.
#[verifier::external_body]
fn utc_timestamp() -> (text: String)
    ensures
        text@.len() >= 19,
{
    chrono::DateTime::<chrono::Utc>::from(std::time::SystemTime::now())
        .format("%Y-%m-%d %H:%M:%S")
        .to_string()
}

/// The stack of the calling thread, taken by `backtrace::Backtrace::new()`
/// and written through its `Debug` form. It depends on the process, so
/// nothing is claimed of the text.
#[verifier::external_body]
fn backtrace_text() -> (text: String) {
    format!("{:?}", backtrace::Backtrace::new())
}

/// The header line of a report: when and where the panic was raised.
pub fn header_line(timestamp: &str, file: &str, line: u32) -> (text: String)
    ensures
        text@ == header_text(timestamp@, file@, line as nat),
{
    let mut text = String::from_str("panic occurred on ");
    text.append(timestamp);
    text.append(" in file '");
    text.append(file);
    text.append("' at line ");
    push_decimal(&mut text, line);
    text.push('\n');
    assert(text@ == header_text(timestamp@, file@, line as nat));
    text
}

/// The message part of a report: the message and an empty line.
pub fn message_block(message: &str) -> (text: String)
    ensures
        text@ == message_text(message@),
{
    let mut text = String::from_str(message);
    text.push('\n');
    text.push('\n');
    assert(text@ == message_text(message@));
    text
}

/// The stack trace part of a report.
pub fn trace_block(backtrace: &str) -> (text: String)
    ensures
        text@ == trace_text(backtrace@),
{
    let mut text = String::from_str(backtrace);
    text.push('\n');
    assert(text@ == trace_text(backtrace@));
    text
}

impl CrashContext {
    /// What is known of a panic that was raised at `location` with
    /// `message`, together with the time now and the stack of the calling
    /// thread. The time is written as a date of ten characters or more, a
    /// space, and a time of day of eight.
    pub fn capture(location: Option<Location>, message: Option<String>) -> (ctx: CrashContext)
        ensures
            ctx@.location == location_view(location),
            ctx@.message == message_view(message),
            ctx@.timestamp.len() >= 19,
    {
        let backtrace = backtrace_text();
        let timestamp = utc_timestamp();
        CrashContext { location, message, timestamp, backtrace }
    }

    /// The parts of the report in the order in which they are written: the
    /// header line where the place is known, the message where there is one,
    /// then the stack trace.
    pub fn texts(&self) -> (parts: Vec<String>)
        ensures
            parts.deep_view() == self@.texts(),
    {
        let mut parts: Vec<String> = Vec::new();
        match &self.location {
            Some(l) => {
                parts.push(header_line(self.timestamp.as_str(), l.file.as_str(), l.line));
            },
            None => {},
        }
        assert(parts.deep_view() =~= self@.header());
        match &self.message {
            Some(m) => {
                parts.push(message_block(m.as_str()));
            },
            None => {},
        }
        assert(parts.deep_view() =~= self@.header() + self@.body());
        parts.push(trace_block(self.backtrace.as_str()));
        assert(parts.deep_view() =~= self@.texts());
        parts
    }
}

/// A report always ends with its stack trace, which is never empty, and
/// where the panic has a message the report holds it.
pub proof fn lemma_report_parts(ctx: CrashContextView)
    ensures
        ctx.texts().len() >= 1,
        ctx.texts().last() == trace_text(ctx.backtrace),
        ctx.texts().last().len() >= 1,
        ctx.message is Some ==> exists|i: int|
            0 <= i < ctx.texts().len() && ctx.texts()[i] == message_text(ctx.message->0),
        forall|m: Seq<char>| #[trigger] message_text(m).subrange(0, m.len() as int) == m,
{
    if ctx.message is Some {
        let i = ctx.header().len() as int;
        assert(ctx.texts()[i] == message_text(ctx.message->0));
    }
    assert forall|m: Seq<char>| #[trigger] message_text(m).subrange(0, m.len() as int) == m by {
        assert(message_text(m).subrange(0, m.len() as int) =~= m);
    }
}

} // verus!

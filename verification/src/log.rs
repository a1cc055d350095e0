//! Status lines for the terminal: which label, colour and stream each kind
//! of message has, and how a line is laid out.
use vstd::prelude::*;

use crate::text::push_str;

verus! {

/// A colour for a piece of terminal text.
#[derive(Clone, Copy, Debug, PartialEq, Eq, Structural)]
pub enum Tint {
    Plain,
    Red,
    Green,
    Yellow,
    Blue,
    Cyan,
    /// Yellow text on a red background.
    YellowOnRed,
}

/// Where a line goes.
#[derive(Clone, Copy, Debug, PartialEq, Eq, Structural)]
pub enum Stream {
    Stdout,
    Stderr,
}

/// The kinds of status line of the library's log.
#[derive(Clone, Copy, Debug, PartialEq, Eq, Structural)]
pub enum Level {
    Fatal,
    Error,
    Warn,
    Skip,
    Success,
    Info,
    Msg,
}

/// The kinds of status line of the commands' messages.
#[derive(Clone, Copy, Debug, PartialEq, Eq, Structural)]
pub enum Note {
    Error,
    Warn,
    Skip,
    Success,
    Info,
}

/// The label, colour and stream of a level of the log.
pub open spec fn level_style(l: Level) -> (Seq<char>, Tint, Stream) {
    match l {
        Level::Fatal => ("fatal"@, Tint::YellowOnRed, Stream::Stderr),
        Level::Error => ("error"@, Tint::Red, Stream::Stderr),
        Level::Warn => ("warn"@, Tint::Yellow, Stream::Stdout),
        Level::Skip => ("skipped"@, Tint::Yellow, Stream::Stdout),
        Level::Success => (" ok "@, Tint::Green, Stream::Stdout),
        Level::Info => ("info"@, Tint::Cyan, Stream::Stdout),
        Level::Msg => (" .. "@, Tint::Plain, Stream::Stdout),
    }
}

/// The label, colour and stream of a kind of command message.
pub open spec fn note_style(n: Note) -> (Seq<char>, Tint, Stream) {
    match n {
        Note::Error => (" eror "@, Tint::Red, Stream::Stderr),
        Note::Warn => (" warn "@, Tint::Yellow, Stream::Stderr),
        Note::Skip => (" skip "@, Tint::Yellow, Stream::Stdout),
        Note::Success => ("  ok  "@, Tint::Green, Stream::Stdout),
        Note::Info => (" info "@, Tint::Cyan, Stream::Stdout),
    }
}

impl Level {
    /// The label, colour and stream of this level.
    pub fn style(&self) -> (r: (String, Tint, Stream))
        ensures
            (r.0@, r.1, r.2) == level_style(*self),
    {
        match self {
            Level::Fatal => (String::from_str("fatal"), Tint::YellowOnRed, Stream::Stderr),
            Level::Error => (String::from_str("error"), Tint::Red, Stream::Stderr),
            Level::Warn => (String::from_str("warn"), Tint::Yellow, Stream::Stdout),
            Level::Skip => (String::from_str("skipped"), Tint::Yellow, Stream::Stdout),
            Level::Success => (String::from_str(" ok "), Tint::Green, Stream::Stdout),
            Level::Info => (String::from_str("info"), Tint::Cyan, Stream::Stdout),
            Level::Msg => (String::from_str(" .. "), Tint::Plain, Stream::Stdout),
        }
    }
}

impl Note {
    /// The label, colour and stream of this kind of message.
    pub fn style(&self) -> (r: (String, Tint, Stream))
        ensures
            (r.0@, r.1, r.2) == note_style(*self),
    {
        match self {
            Note::Error => (String::from_str(" eror "), Tint::Red, Stream::Stderr),
            Note::Warn => (String::from_str(" warn "), Tint::Yellow, Stream::Stderr),
            Note::Skip => (String::from_str(" skip "), Tint::Yellow, Stream::Stdout),
            Note::Success => (String::from_str("  ok  "), Tint::Green, Stream::Stdout),
            Note::Info => (String::from_str(" info "), Tint::Cyan, Stream::Stdout),
        }
    }
}

/// The layout of a status line: the status in brackets, then the message.
pub open spec fn status_line(status: Seq<char>, message: Seq<char>) -> Seq<char> {
    "["@ + status + "] -- "@ + message
}

/// A status line: `[status] -- message`.
pub fn log_line(status: &str, message: &str) -> (r: String)
    ensures
        r@ == status_line(status@, message@),
{
    let mut r = String::from_str("[");
    push_str(&mut r, status);
    push_str(&mut r, "] -- ");
    push_str(&mut r, message);
    r
}

/// The plain message line of the log: `[ .. ] -- message`.
pub fn msg(message: &str) -> (r: String)
    ensures
        r@ == status_line(level_style(Level::Msg).0, message@),
{
    log_line(" .. ", message)
}

} // verus!

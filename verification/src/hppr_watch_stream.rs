//! The decisions of reading a WATCH stream: what the first line after the
//! request says about the stream, and what each following line does: a
//! blob's close marker, the open marker of the next blob, a fatal error, or
//! an event to forward.
use vstd::prelude::*;

use crate::chars::str_chars;
use crate::text::{has_prefix_at, str_equals, trim, trim_bounds};

verus! {

/// The line that opens a blob of the stream: `⋯🖧: B` and a line feed.
pub open spec fn suffix_open() -> Seq<char> {
    "\u{22EF}\u{1F5A7}: B\n"@
}

/// The start of the line that closes a blob: `⋯🖧: B.`.
pub open spec fn suffix_close_prefix() -> Seq<char> {
    "\u{22EF}\u{1F5A7}: B."@
}

/// The start of a Null packet's mark line: `🖧: 0.`.
pub open spec fn null_mark_prefix() -> Seq<char> {
    "\u{1F5A7}: 0."@
}

/// What the first line after the request says.
#[derive(Clone, Debug, PartialEq, Eq)]
pub enum StreamMarker {
    /// The stream is open.
    Open,
    /// A Null packet follows, which holds the error.
    NullPacket,
    /// The server answered with this error line, trimmed.
    ErrorLine(String),
    /// Something else came, shown here trimmed.
    Unexpected(String),
}

/// The view of a marker outcome.
pub enum StreamMarkerView {
    Open,
    NullPacket,
    ErrorLine(Seq<char>),
    Unexpected(Seq<char>),
}

impl View for StreamMarker {
    type V = StreamMarkerView;

    open spec fn view(&self) -> StreamMarkerView {
        match self {
            StreamMarker::Open => StreamMarkerView::Open,
            StreamMarker::NullPacket => StreamMarkerView::NullPacket,
            StreamMarker::ErrorLine(s) => StreamMarkerView::ErrorLine(s@),
            StreamMarker::Unexpected(s) => StreamMarkerView::Unexpected(s@),
        }
    }
}

/// What the first line says: the open marker opens the stream; a Null
/// packet's mark line announces an error packet; a line starting `FATAL `
/// or `ERROR ` is the error; anything else is unexpected.
pub open spec fn stream_marker(line: Seq<char>) -> StreamMarkerView {
    if line == suffix_open() {
        StreamMarkerView::Open
    } else if null_mark_prefix().is_prefix_of(line) {
        StreamMarkerView::NullPacket
    } else if "FATAL "@.is_prefix_of(line) || "ERROR "@.is_prefix_of(line) {
        StreamMarkerView::ErrorLine(trim(line))
    } else {
        StreamMarkerView::Unexpected(trim(line))
    }
}

/// Whether `line` starts with `prefix`.
fn starts_with(line: &str, prefix: &str) -> (r: bool)
    ensures
        r == prefix@.is_prefix_of(line@),
{
    let s = str_chars(line);
    let p = str_chars(prefix);
    proof {
        assert(s@.subrange(0, s@.len() as int) =~= line@);
    }
    has_prefix_at(s.as_slice(), 0, s.len(), p.as_slice())
}

/// `line` trimmed of white space at both ends.
fn trimmed(line: &str) -> (r: String)
    ensures
        r@ == trim(line@),
{
    let s = str_chars(line);
    let n = s.len();
    let (a, b) = trim_bounds(s.as_slice(), 0, n);
    proof {
        assert(s@.subrange(0, n as int) =~= line@);
    }
    line.substring_char(a, b).to_string()
}

/// What the first line after the request says (see `stream_marker`).
pub fn stream_marker_outcome(line: &str) -> (r: StreamMarker)
    ensures
        r@ == stream_marker(line@),
{
    if str_equals(line, "\u{22EF}\u{1F5A7}: B\n") {
        StreamMarker::Open
    } else if starts_with(line, "\u{1F5A7}: 0.") {
        StreamMarker::NullPacket
    } else if starts_with(line, "FATAL ") || starts_with(line, "ERROR ") {
        StreamMarker::ErrorLine(trimmed(line))
    } else {
        StreamMarker::Unexpected(trimmed(line))
    }
}

/// Where the reader is in the stream.
#[derive(Clone, Copy, Debug, PartialEq, Eq, Structural)]
pub enum WatchStreamState {
    /// Reading event lines of a blob.
    InBlob,
    /// A blob was closed; the next line must open another.
    AfterClose,
}

/// What to do with a line of the stream.
#[derive(Clone, Debug, PartialEq, Eq)]
pub enum WatchLineAction {
    /// Forward this event, its line feed removed and its stream marks still
    /// escaped.
    Forward(String),
    /// Read on.
    Skip,
    /// The stream is over.
    Stop,
}

/// The view of a line action.
pub enum WatchLineActionView {
    Forward(Seq<char>),
    Skip,
    Stop,
}

impl View for WatchLineAction {
    type V = WatchLineActionView;

    open spec fn view(&self) -> WatchLineActionView {
        match self {
            WatchLineAction::Forward(s) => WatchLineActionView::Forward(s@),
            WatchLineAction::Skip => WatchLineActionView::Skip,
            WatchLineAction::Stop => WatchLineActionView::Stop,
        }
    }
}

/// `line` without one final line feed.
pub open spec fn without_line_feed(line: Seq<char>) -> Seq<char> {
    if line.len() > 0 && line.last() == '\n' {
        line.drop_last()
    } else {
        line
    }
}

/// What a line does (`None` is the end of the stream): in a blob, a close
/// marker ends the blob, a `FATAL ` line ends the stream, and other lines
/// are events; after a close marker, only an open marker goes on.
pub open spec fn watch_line(state: WatchStreamState, line: Option<Seq<char>>) -> (WatchStreamState, WatchLineActionView) {
    match line {
        None => (state, WatchLineActionView::Stop),
        Some(l) => match state {
            WatchStreamState::InBlob => if suffix_close_prefix().is_prefix_of(l) {
                (WatchStreamState::AfterClose, WatchLineActionView::Skip)
            } else if "FATAL "@.is_prefix_of(l) {
                (state, WatchLineActionView::Stop)
            } else {
                (state, WatchLineActionView::Forward(without_line_feed(l)))
            },
            WatchStreamState::AfterClose => if l == suffix_open() {
                (WatchStreamState::InBlob, WatchLineActionView::Skip)
            } else {
                (state, WatchLineActionView::Stop)
            },
        },
    }
}

/// What a line of the stream does (see `watch_line`).
pub fn watch_stream_line(state: WatchStreamState, line: Option<&str>) -> (r: (WatchStreamState, WatchLineAction))
    ensures
        (r.0, r.1@) == watch_line(
            state,
            match line {
                Some(l) => Some(l@),
                None => None,
            },
        ),
{
    let l = match line {
        Some(l) => l,
        None => {
            return (state, WatchLineAction::Stop);
        },
    };
    match state {
        WatchStreamState::InBlob => {
            if starts_with(l, "\u{22EF}\u{1F5A7}: B.") {
                (WatchStreamState::AfterClose, WatchLineAction::Skip)
            } else if starts_with(l, "FATAL ") {
                (state, WatchLineAction::Stop)
            } else {
                let n = l.unicode_len();
                let event = if n > 0 && l.get_char(n - 1) == '\n' {
                    proof {
                        assert(l@.subrange(0, n - 1) =~= l@.drop_last());
                    }
                    l.substring_char(0, n - 1).to_string()
                } else {
                    l.to_string()
                };
                (state, WatchLineAction::Forward(event))
            }
        },
        WatchStreamState::AfterClose => {
            if str_equals(l, "\u{22EF}\u{1F5A7}: B\n") {
                (WatchStreamState::InBlob, WatchLineAction::Skip)
            } else {
                (state, WatchLineAction::Stop)
            }
        },
    }
}

} // verus!

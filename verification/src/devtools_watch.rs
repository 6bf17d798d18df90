//! The decisions of the devtools watch actor, which reads and sets the
//! embedder's watch mode: which request asks the embedder what, and what
//! each answer, or its absence, is replied with.

use vstd::prelude::*;

use crate::text::str_equals;

verus! {

/// The watch modes: `off`, `notify`, `auto` and `dev`.
pub open spec fn is_watch_mode(mode: Seq<char>) -> bool {
    ||| mode == "off"@
    ||| mode == "notify"@
    ||| mode == "auto"@
    ||| mode == "dev"@
}

/// Whether `mode` names a watch mode.
pub fn is_valid_mode(mode: &str) -> (r: bool)
    ensures
        r == is_watch_mode(mode@),
{
    proof {
        reveal_strlit("off");
        reveal_strlit("notify");
        reveal_strlit("auto");
        reveal_strlit("dev");
    }
    str_equals(mode, "off") || str_equals(mode, "notify") || str_equals(mode, "auto") || str_equals(mode, "dev")
}

/// The `mode` parameter of a request, as the message carries it.
#[derive(Clone, Debug)]
pub enum ModeParameter {
    Missing,
    NotAString,
    Text(String),
}

/// The errors that a request can fail with.
#[derive(Clone, Copy, Debug, PartialEq, Eq)]
pub enum WatchActorError {
    MissingParameter,
    BadParameterType,
    UnrecognizedPacketType,
}

/// A reply to the client: the current mode, or an error message.
#[derive(Clone, Debug)]
pub enum WatchReply {
    Mode(String),
    Error(String),
}

/// What handling a request does first.
#[derive(Clone, Debug)]
pub enum WatchStep {
    /// Ask the embedder for its mode.
    QueryMode,
    /// Ask the embedder to switch to this mode.
    SetMode(String),
    /// Reply at once.
    Reply(WatchReply),
    /// Fail the request.
    Fail(WatchActorError),
}

/// The first step of a request of type `msg_type` with the given `mode`
/// parameter: `getMode` asks the embedder; `setMode` needs a string mode,
/// replies `invalid mode` to one that is no watch mode, and asks the
/// embedder to switch to a valid one; other types are not recognized.
pub fn watch_request(msg_type: &str, mode: ModeParameter) -> (r: WatchStep)
    ensures
        msg_type@ == "getMode"@ ==> r is QueryMode,
        msg_type@ == "setMode"@ ==> match mode {
            ModeParameter::Missing => r == WatchStep::Fail(WatchActorError::MissingParameter),
            ModeParameter::NotAString => r == WatchStep::Fail(WatchActorError::BadParameterType),
            ModeParameter::Text(m) => if is_watch_mode(m@) {
                r matches WatchStep::SetMode(s) && s@ == m@
            } else {
                r matches WatchStep::Reply(WatchReply::Error(e)) && e@ == "invalid mode"@
            },
        },
        msg_type@ != "getMode"@ && msg_type@ != "setMode"@ ==> r == WatchStep::Fail(
            WatchActorError::UnrecognizedPacketType,
        ),
{
    proof {
        reveal_strlit("getMode");
        reveal_strlit("setMode");
        assert("getMode"@[0] != "setMode"@[0]);
    }
    if str_equals(msg_type, "getMode") {
        return WatchStep::QueryMode;
    }
    if !str_equals(msg_type, "setMode") {
        return WatchStep::Fail(WatchActorError::UnrecognizedPacketType);
    }
    match mode {
        ModeParameter::Missing => WatchStep::Fail(WatchActorError::MissingParameter),
        ModeParameter::NotAString => WatchStep::Fail(WatchActorError::BadParameterType),
        ModeParameter::Text(m) => {
            if is_valid_mode(m.as_str()) {
                WatchStep::SetMode(m)
            } else {
                WatchStep::Reply(WatchReply::Error("invalid mode".to_string()))
            }
        },
    }
}

/// The answer to a `getMode` query: the embedder's mode becomes the cached
/// mode and the reply; without an answer in time, the reply is the cached
/// mode, or `off` where the cache cannot be read.
pub fn get_mode_answered(cached: Option<String>, answer: Option<String>) -> (r: (Option<String>, WatchReply))
    ensures
        answer matches Some(m) ==> (r.0 matches Some(c) && c@ == m@) && (r.1 matches WatchReply::Mode(x) && x@ == m@),
        answer is None ==> r.0 is None && match cached {
            Some(c) => r.1 matches WatchReply::Mode(x) && x@ == c@,
            None => r.1 matches WatchReply::Mode(x) && x@ == "off"@,
        },
{
    match answer {
        Some(mode) => {
            let reply = mode.clone();
            (Some(mode), WatchReply::Mode(reply))
        },
        None => {
            let mode = match cached {
                Some(c) => c,
                None => {
                    let off = "off";
                    proof {
                        reveal_strlit("off");
                    }
                    off.to_string()
                },
            };
            (None, WatchReply::Mode(mode))
        },
    }
}

/// The answer to a `setMode` request: the mode the embedder reports becomes
/// the cached mode and the reply; without an answer in time the reply is
/// `watch timeout` and the cache stays.
pub fn set_mode_answered(answer: Option<String>) -> (r: (Option<String>, WatchReply))
    ensures
        answer matches Some(m) ==> (r.0 matches Some(c) && c@ == m@) && (r.1 matches WatchReply::Mode(x) && x@ == m@),
        answer is None ==> r.0 is None && (r.1 matches WatchReply::Error(e) && e@ == "watch timeout"@),
{
    match answer {
        Some(mode) => {
            let reply = mode.clone();
            (Some(mode), WatchReply::Mode(reply))
        },
        None => {
            proof {
                reveal_strlit("watch timeout");
            }
            (None, WatchReply::Error("watch timeout".to_string()))
        },
    }
}

} // verus!

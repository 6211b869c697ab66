//! Talking to a model directly, in a terminal: no node, no chain.

use crate::json;
use crate::json::Json;
use crate::text;
use crate::turns;
use crate::ui;
use crate::ui::Skin;
use vstd::prelude::*;
use vstd::string::*;

verus! {

/// What a model is told of where it is.
pub const CHAT_RULES: &'static str = "\n\nYou are talking to your operator directly, in a terminal:\n- Always answer with SendMessage, even if you called nothing else. Never answer in plain text alone.\n- If you need a tool's output to answer, call it now and answer with SendMessage once its result comes back — don't guess at what it will say.";

/// What a model is told it is running on.
pub const CHAT_ABOUT: &'static str = "Where: kot chat — a terminal, no node, no chain";

/// What a line from the operator asks for.
pub enum Line {
    /// Nothing was typed.
    Nothing,
    Quit,
    /// The conversation is forgotten, and with it whatever is in flight.
    Clear,
    /// It goes to the model.
    Say(String),
}

/// What a line from the operator asks for.
pub fn read_line(line: &str) -> (r: Line)
    ensures
        ({
            let s = text::trimmed(line@);
            if s.len() == 0 {
                r is Nothing
            } else if s == "/quit"@ || s == "/exit"@ {
                r is Quit
            } else if s == "/clear"@ {
                r is Clear
            } else {
                r matches Line::Say(x) && x@ == s
            }
        }),
{
    let s = text::trim(line);
    if text::chars_of(s.as_str()).len() == 0 {
        return Line::Nothing;
    }
    if text::same(s.as_str(), "/quit") || text::same(s.as_str(), "/exit") {
        return Line::Quit;
    }
    if text::same(s.as_str(), "/clear") {
        return Line::Clear;
    }
    Line::Say(s)
}

/// The note a forgotten conversation starts with.
pub const CLEARED: &'static str = "operator /clear";

/// The one tool that is the terminal's own.
pub const CHAT_TOOL: &'static str = "SendMessage";

/// What is printed for a model's call of a tool: its message, where it sends
/// one. Any other tool is none of the terminal's.
pub fn dispatch(k: &Skin, name: &str, tool: &str, args: &Json) -> (r: Option<String>)
    ensures
        text::text_view(r) == (if tool@ == CHAT_TOOL@ {
            Some(
                turns::replied(
                    *k,
                    name@,
                    match json::text_at(*args, "body"@) {
                        Some(b) => b,
                        None => ""@,
                    },
                ),
            )
        } else {
            None
        }),
{
    if !text::same(tool, CHAT_TOOL) {
        return None;
    }
    let body = match args.text("body") {
        Some(b) => b,
        None => "".to_owned(),
    };
    Some(turns::reply(k, name, body.as_str()))
}

/// The first line: whom the operator talks to, as whom, and how to leave.
pub fn greeting(k: &Skin, label: &str, name: &str) -> (r: String)
    ensures
        r@ == "talking to "@ + label@ + " as "@ + ui::sealed_name(*k, name@) + " — "@ + ui::dimmed(
            *k,
            "/clear to start over · /quit or Ctrl-D to leave"@,
        ),
{
    "talking to ".to_owned().concat(label).concat(" as ").concat(ui::sealed(k, name).as_str()).concat(
        " — ",
    ).concat(ui::dim(k, "/clear to start over · /quit or Ctrl-D to leave").as_str())
}

/// The second line: how much the model can hold, where that is known.
pub fn window_line(k: &Skin, window: Option<u32>) -> (r: String)
    ensures
        r@ == ui::dimmed(
            *k,
            match window {
                Some(w) => "context window: "@ + text::dec(w as nat) + " tokens"@,
                None => "context window: unknown for this model — budget warnings won't fire"@,
            },
        ),
{
    match window {
        Some(w) => {
            let s = "context window: ".to_owned().concat(text::number(w as u64).as_str()).concat(
                " tokens",
            );
            ui::dim(k, s.as_str())
        },
        None => ui::dim(
            k,
            "context window: unknown for this model — budget warnings won't fire",
        ),
    }
}

} // verus!

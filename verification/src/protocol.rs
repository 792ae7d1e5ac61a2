//! What is said on the wire between the server and a player.

use crate::game::SnakeID;
use vstd::prelude::*;
use vstd::string::StringExecFns;
use vstd::utf8::decode_utf8;
use vstd::utf8::valid_utf8;

verus! {

/// Possible requests we can get from the clients.
#[derive(PartialEq, Eq, Structural, Copy, Clone, Debug)]
pub enum Request {
    /// Turn their snake left.
    Left,
    /// Turn their snake right.
    Right,
    /// Let their snake go forwards.
    Forward,
}

impl Request {
    /// The request that a line of text stands for, if it stands for one.
    pub open spec fn parsed(line: Seq<char>) -> Option<Request> {
        if line == "Forward"@ {
            Some(Request::Forward)
        } else if line == "Left"@ {
            Some(Request::Left)
        } else if line == "Right"@ {
            Some(Request::Right)
        } else {
            None
        }
    }

    /// Read a request from a line of text, without its line end. The three
    /// commands are `Forward`, `Left` and `Right`; anything else is none.
    pub fn parse(line: &str) -> (request: Option<Request>)
        ensures
            request == Request::parsed(line@),
    {
        let text = String::from_str(line);
        if text == String::from_str("Forward") {
            Some(Request::Forward)
        } else if text == String::from_str("Left") {
            Some(Request::Left)
        } else if text == String::from_str("Right") {
            Some(Request::Right)
        } else {
            None
        }
    }
}

/// Why a connection was turned away before it got a name.
#[derive(PartialEq, Eq, Structural, Copy, Clone, Debug)]
pub enum HandshakeError {
    /// The stream ended before it said anything.
    Closed,
    /// What the stream said is not text.
    NotText,
}

/// The text that the bytes spell in UTF-8, if they spell one.
///
/// Calls `String::from_utf8` of the standard library. It is taken on trust
/// that the call succeeds exactly on valid UTF-8 and then yields the text
/// that the bytes encode.
#[verifier::external_body]
fn text_of(bytes: Vec<u8>) -> (text: Option<String>)
    ensures
        text is Some <==> valid_utf8(bytes@),
        text matches Some(s) ==> s@ == decode_utf8(bytes@),
{
    String::from_utf8(bytes).ok()
}

/// Read the name that a player gives on its first line: the whole line as
/// it came, line end and all. A stream that ended without a byte, or a
/// line that is not text, gives no name.
pub fn read_name(line: Vec<u8>) -> (name: Result<String, HandshakeError>)
    ensures
        match name {
            Ok(text) => line@.len() > 0 && valid_utf8(line@) && text@ == decode_utf8(line@),
            Err(HandshakeError::Closed) => line@.len() == 0,
            Err(HandshakeError::NotText) => line@.len() > 0 && !valid_utf8(line@),
        },
{
    if line.len() == 0 {
        return Err(HandshakeError::Closed);
    }
    match text_of(line) {
        Some(text) => Ok(text),
        None => Err(HandshakeError::NotText),
    }
}

/// The character for a digit.
pub open spec fn digit(d: nat) -> char {
    if d == 0 {
        '0'
    } else if d == 1 {
        '1'
    } else if d == 2 {
        '2'
    } else if d == 3 {
        '3'
    } else if d == 4 {
        '4'
    } else if d == 5 {
        '5'
    } else if d == 6 {
        '6'
    } else if d == 7 {
        '7'
    } else if d == 8 {
        '8'
    } else {
        '9'
    }
}

/// A number written in decimal digits.
pub open spec fn decimal(n: nat) -> Seq<char>
    decreases n,
{
    if n < 10 {
        seq![digit(n)]
    } else {
        decimal(n / 10).push(digit(n % 10))
    }
}

/// The text of one digit.
fn digit_text(d: usize) -> (text: &'static str)
    requires
        d < 10,
    ensures
        text@ == seq![digit(d as nat)],
{
    proof {
        reveal_strlit("0");
        reveal_strlit("1");
        reveal_strlit("2");
        reveal_strlit("3");
        reveal_strlit("4");
        reveal_strlit("5");
        reveal_strlit("6");
        reveal_strlit("7");
        reveal_strlit("8");
        reveal_strlit("9");
    }
    let text = if d == 0 {
        "0"
    } else if d == 1 {
        "1"
    } else if d == 2 {
        "2"
    } else if d == 3 {
        "3"
    } else if d == 4 {
        "4"
    } else if d == 5 {
        "5"
    } else if d == 6 {
        "6"
    } else if d == 7 {
        "7"
    } else if d == 8 {
        "8"
    } else {
        "9"
    };
    assert(text@ =~= seq![digit(d as nat)]);
    text
}

/// Write a number in decimal digits.
pub fn to_decimal(n: usize) -> (text: String)
    ensures
        text@ == decimal(n as nat),
    decreases n,
{
    if n < 10 {
        String::from_str(digit_text(n))
    } else {
        let mut text = to_decimal(n / 10);
        text.append(digit_text(n % 10));
        assert(text@ =~= decimal(n as nat));
        text
    }
}

/// What a player is told once, when the game starts: the number of the snake.
pub open spec fn start_text(id: SnakeID) -> Seq<char> {
    "{\"state\":\"start\",\"id\":"@ + decimal(id as nat) + "}"@
}

/// What a player is told on every tick: the grid, and whether the snake
/// still plays.
pub open spec fn snapshot_text(alive: bool, grid_json: Seq<char>) -> Seq<char> {
    if alive {
        "{\"state\":\"playing\",\"map\":"@ + grid_json + "}"@
    } else {
        "{\"state\":\"dead\",\"map\":"@ + grid_json + "}"@
    }
}

/// What `serde_json` writes for a text: the text as a JSON string, or
/// nothing where it gives up.
pub uninterp spec fn json_string(text: Seq<char>) -> Option<Seq<char>>;

/// A text as a JSON string.
///
/// Calls `serde_json::to_string` on the text. Nothing is claimed of what
/// comes back but that it is what `serde_json` writes for this text, and
/// that the same text is always written the same way.
#[verifier::external_body]
fn quoted(text: &str) -> (json: Option<String>)
    ensures
        match json {
            Some(written) => json_string(text@) == Some(written@),
            None => json_string(text@) is None,
        },
{
    serde_json::to_string(text).ok()
}

/// What a player is told before being cut off for a fault. `reason_json`
/// is the reason as a JSON string; where there is none, the reason is the
/// empty string.
pub open spec fn error_text(reason_json: Option<Seq<char>>) -> Seq<char> {
    "{\"state\":\"error\",\"msg\":"@ + match reason_json {
        Some(reason) => reason,
        None => "\"\""@,
    } + "}"@
}

/// The message that tells a player the number of the snake, once, when the
/// game starts.
pub fn start_message(id: SnakeID) -> (message: String)
    ensures
        message@ == start_text(id),
{
    let mut message = String::from_str("{\"state\":\"start\",\"id\":");
    let number = to_decimal(id);
    message.append(number.as_str());
    message.append("}");
    message
}

/// The message that shows a player the grid on a tick. `grid_json` is the
/// grid as a JSON value. A player whose snake is gone is told so, and is
/// not asked for a command again.
pub fn snapshot_message(alive: bool, grid_json: &str) -> (message: String)
    ensures
        message@ == snapshot_text(alive, grid_json@),
{
    let mut message = if alive {
        String::from_str("{\"state\":\"playing\",\"map\":")
    } else {
        String::from_str("{\"state\":\"dead\",\"map\":")
    };
    message.append(grid_json);
    message.append("}");
    message
}

/// The message that tells a player of a fault, just before the connection
/// is closed, with the reason in words.
pub fn error_message(reason: &str) -> (message: String)
    ensures
        message@ == error_text(json_string(reason@)),
{
    error_frame(quoted(reason))
}

/// The message that tells a player of a fault, around a reason that is
/// already a JSON string. Without one, the reason is the empty string.
pub fn error_frame(reason_json: Option<String>) -> (message: String)
    ensures
        message@ == error_text(
            match reason_json {
                Some(reason) => Some(reason@),
                None => None,
            },
        ),
{
    let mut message = String::from_str("{\"state\":\"error\",\"msg\":");
    match reason_json {
        Some(reason) => message.append(reason.as_str()),
        None => message.append("\"\""),
    }
    message.append("}");
    message
}

/// The message that tells a player that the game is over.
pub fn done_message() -> (message: String)
    ensures
        message@ == "{\"state\":\"done\"}"@,
{
    String::from_str("{\"state\":\"done\"}")
}

/// A message as it goes on the wire: on a line of its own.
pub fn to_line(message: &str) -> (line: String)
    ensures
        line@ == message@ + "\n"@,
{
    let mut line = String::from_str(message);
    line.append("\n");
    line
}

} // verus!

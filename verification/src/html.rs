//! What the control panel says: which command a form asks for, how each
//! command's outcome is reported, and the page for an address that leads
//! nowhere.

use crate::room::RoomError;
use vstd::prelude::*;
use vstd::string::StringExecFns;

verus! {

/// What the control panel can be asked to do to a room or to the waiting
/// list.
#[derive(PartialEq, Eq, Structural, Copy, Clone, Debug)]
pub enum Command {
    /// Move a waiter into the room.
    Subscribe,
    /// Move a player of the room back to the waiting list.
    Unsubscribe,
    /// Drop a waiter.
    Kill,
    /// Drop all waiters.
    KillAll,
    /// Start the game.
    StartRoom,
    /// Reset the room.
    ResetRoom,
}

impl Command {
    /// The command that a form asks for. Each argument says whether the
    /// form holds the field of that name; where it holds several, the
    /// first in the order of the arguments counts.
    pub fn chosen(
        subscribe: bool,
        unsubscribe: bool,
        kill: bool,
        kill_all: bool,
        start_room: bool,
        reset_room: bool,
    ) -> (command: Option<Command>)
        ensures
            command == if subscribe {
                Some(Command::Subscribe)
            } else if unsubscribe {
                Some(Command::Unsubscribe)
            } else if kill {
                Some(Command::Kill)
            } else if kill_all {
                Some(Command::KillAll)
            } else if start_room {
                Some(Command::StartRoom)
            } else if reset_room {
                Some(Command::ResetRoom)
            } else {
                None
            },
    {
        if subscribe {
            Some(Command::Subscribe)
        } else if unsubscribe {
            Some(Command::Unsubscribe)
        } else if kill {
            Some(Command::Kill)
        } else if kill_all {
            Some(Command::KillAll)
        } else if start_room {
            Some(Command::StartRoom)
        } else if reset_room {
            Some(Command::ResetRoom)
        } else {
            None
        }
    }
}

/// A note for the top of a page: how it is to look, and what it says.
#[derive(Debug)]
pub struct Alert {
    /// How the note is to look: `success` or `danger`.
    pub class: String,
    /// What the note says.
    pub text: String,
}

/// A note that something went well.
pub fn to_alert_success(text: &str) -> (alert: Alert)
    ensures
        alert.class@ == "success"@,
        alert.text@ == text@,
{
    Alert { class: String::from_str("success"), text: String::from_str(text) }
}

/// A note that something went wrong.
pub fn to_alert_error(text: &str) -> (alert: Alert)
    ensures
        alert.class@ == "danger"@,
        alert.text@ == text@,
{
    Alert { class: String::from_str("danger"), text: String::from_str(text) }
}

/// The note for the outcome of moving a waiter into the room.
pub fn subscribed(outcome: Result<(), RoomError>) -> (alert: Alert)
    ensures
        match outcome {
            Ok(()) => alert.class@ == "success"@ && alert.text@
                == "Subscribed connection to room."@,
            Err(RoomError::NotQueued) => alert.class@ == "danger"@ && alert.text@
                == "address not in wait queue"@,
            Err(RoomError::InProgress) => alert.class@ == "danger"@ && alert.text@
                == "provided room is already in progress"@,
            Err(RoomError::NotInRoom) => alert.class@ == "danger"@ && alert.text@
                == "address not in room"@,
        },
{
    match outcome {
        Ok(()) => to_alert_success("Subscribed connection to room."),
        Err(e) => to_alert_error(e.message()),
    }
}

/// The note for the outcome of moving a player back to the waiting list.
pub fn unsubscribed(outcome: Result<(), RoomError>) -> (alert: Alert)
    ensures
        match outcome {
            Ok(()) => alert.class@ == "success"@ && alert.text@
                == "Removed connection from room."@,
            Err(RoomError::NotQueued) => alert.class@ == "danger"@ && alert.text@
                == "address not in wait queue"@,
            Err(RoomError::InProgress) => alert.class@ == "danger"@ && alert.text@
                == "provided room is already in progress"@,
            Err(RoomError::NotInRoom) => alert.class@ == "danger"@ && alert.text@
                == "address not in room"@,
        },
{
    match outcome {
        Ok(()) => to_alert_success("Removed connection from room."),
        Err(e) => to_alert_error(e.message()),
    }
}

/// The note for the outcome of dropping a waiter: it went well whether or
/// not there was one to drop.
pub fn killed(removed: bool) -> (alert: Alert)
    ensures
        alert.class@ == "success"@,
        alert.text@ == if removed {
            "Successfully killed the connection."@
        } else {
            "Nothing to do."@
        },
{
    if removed {
        to_alert_success("Successfully killed the connection.")
    } else {
        to_alert_success("Nothing to do.")
    }
}

/// The note for dropping all waiters.
pub fn killed_all() -> (alert: Alert)
    ensures
        alert.class@ == "success"@,
        alert.text@ == "Success!"@,
{
    to_alert_success("Success!")
}

/// The note for the outcome of starting a room.
pub fn room_started(started: bool) -> (alert: Alert)
    ensures
        alert.class@ == if started {
            "success"@
        } else {
            "danger"@
        },
        alert.text@ == if started {
            "Started room execution."@
        } else {
            "Room failed to start."@
        },
{
    if started {
        to_alert_success("Started room execution.")
    } else {
        to_alert_error("Room failed to start.")
    }
}

/// The note for the outcome of resetting a room. `signalled` says whether
/// a game that was on could be told to stop; it is true where none was on.
pub fn room_reset(signalled: bool) -> (alert: Alert)
    ensures
        alert.class@ == if signalled {
            "success"@
        } else {
            "danger"@
        },
        alert.text@ == if signalled {
            "Room reset successfully."@
        } else {
            "failed to send reset signal"@
        },
{
    if signalled {
        to_alert_success("Room reset successfully.")
    } else {
        to_alert_error("failed to send reset signal")
    }
}

/// The note for a form that names no waiter.
pub fn missing_waiter() -> (alert: Alert)
    ensures
        alert.class@ == "danger"@,
        alert.text@ == "missing field: waiter"@,
{
    to_alert_error("missing field: waiter")
}

/// What every page starts with, up to the place of its contents.
pub const PAGE_HEAD: &'static str =
    "<!DOCTYPE html><html lang=\"en\"><head><meta charset=\"utf-8\"><meta name=\"viewport\" content=\"width=device-width, initial-scale=1, shrink-to-fit=no\"><link rel=\"stylesheet\" href=\"https://stackpath.bootstrapcdn.com/bootstrap/4.3.1/css/bootstrap.min.css\" integrity=\"sha384-ggOyR0iXCbMQv3Xipma34MD+dH/1fQ784/j6cY/iJTQUOhcWr7x9JvoRxT2MZw1T\" crossorigin=\"anonymous\"><title>Snake Arena</title><style>nav {margin-bottom: 1.5rem;}</style></head><body><nav class=\"navbar navbar-expand-lg navbar-dark bg-dark\"><div class=\"container\"><a class=\"navbar-brand\" href=\"/\">Snake Arena</a></div></nav><main class=\"container\">";

/// What every page ends with, from the end of its contents on.
pub const PAGE_FOOT: &'static str =
    "</main><script src=\"https://code.jquery.com/jquery-3.3.1.slim.min.js\" crossorigin=\"anonymous\"></script><script src=\"https://cdnjs.cloudflare.com/ajax/libs/popper.js/1.14.7/umd/popper.min.js\" crossorigin=\"anonymous\"></script><script src=\"https://stackpath.bootstrapcdn.com/bootstrap/4.3.1/js/bootstrap.min.js\" crossorigin=\"anonymous\"></script></body></html>";

/// What the page for an address that leads nowhere says.
pub const NOT_FOUND: &'static str = "<p>This is not the page you were looking for.</p>";

/// The page for an address that leads nowhere: the frame of every page
/// around one sentence, with no note on top.
pub fn page_not_found() -> (page: String)
    ensures
        page@ == PAGE_HEAD@ + NOT_FOUND@ + PAGE_FOOT@,
{
    let mut page = String::from_str(PAGE_HEAD);
    page.append(NOT_FOUND);
    page.append(PAGE_FOOT);
    page
}

} // verus!

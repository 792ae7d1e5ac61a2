use snake_arena::html::killed;
use snake_arena::html::killed_all;
use snake_arena::html::missing_waiter;
use snake_arena::html::page_not_found;
use snake_arena::html::room_reset;
use snake_arena::html::room_started;
use snake_arena::html::subscribed;
use snake_arena::html::to_alert_error;
use snake_arena::html::to_alert_success;
use snake_arena::html::unsubscribed;
use snake_arena::html::Command;
use snake_arena::protocol::done_message;
use snake_arena::protocol::error_frame;
use snake_arena::protocol::error_message;
use snake_arena::protocol::snapshot_message;
use snake_arena::protocol::read_name;
use snake_arena::protocol::start_message;
use snake_arena::protocol::HandshakeError;
use snake_arena::protocol::to_decimal;
use snake_arena::protocol::to_line;
use snake_arena::protocol::Request;
use snake_arena::room::RoomError;

#[test]
fn the_three_commands_are_read() {
    assert_eq!(Request::parse("Forward"), Some(Request::Forward));
    assert_eq!(Request::parse("Left"), Some(Request::Left));
    assert_eq!(Request::parse("Right"), Some(Request::Right));
}

#[test]
fn anything_else_is_no_command() {
    for line in ["", "forward", "Left ", " Right", "Back", "Forward\n", "LeftRight"] {
        assert_eq!(Request::parse(line), None);
    }
}

#[test]
fn numbers_are_written_in_decimal() {
    assert_eq!(to_decimal(0), "0");
    assert_eq!(to_decimal(7), "7");
    assert_eq!(to_decimal(10), "10");
    assert_eq!(to_decimal(1203), "1203");
    assert_eq!(to_decimal(9876543210), "9876543210");
    assert_eq!(to_decimal(usize::MAX), usize::MAX.to_string());
}

#[test]
fn the_start_message_names_the_snake() {
    assert_eq!(start_message(0), "{\"state\":\"start\",\"id\":0}");
    assert_eq!(start_message(42), "{\"state\":\"start\",\"id\":42}");
    let value: serde_json::Value = serde_json::from_str(&start_message(13)).unwrap();
    assert_eq!(value["state"], "start");
    assert_eq!(value["id"], 13);
}

#[test]
fn the_snapshot_message_says_playing_or_dead() {
    assert_eq!(snapshot_message(true, "{\"width\":1}"), "{\"state\":\"playing\",\"map\":{\"width\":1}}");
    assert_eq!(snapshot_message(false, "{\"width\":1}"), "{\"state\":\"dead\",\"map\":{\"width\":1}}");
}

#[test]
fn the_error_message_carries_its_reason() {
    assert_eq!(error_message("bad line"), "{\"state\":\"error\",\"msg\":\"bad line\"}");
    let value: serde_json::Value = serde_json::from_str(&error_message("bad line")).unwrap();
    assert_eq!(value["state"], "error");
    assert_eq!(value["msg"], "bad line");
}

#[test]
fn the_reason_of_an_error_is_quoted_as_json() {
    assert_eq!(
        error_message("couldn't parse line: say \"hi\"\\now"),
        "{\"state\":\"error\",\"msg\":\"couldn't parse line: say \\\"hi\\\"\\\\now\"}"
    );
    let reason = "tab\tand \"quote\" and\nline";
    let value: serde_json::Value = serde_json::from_str(&error_message(reason)).unwrap();
    assert_eq!(value["msg"], reason);
    assert_eq!(error_message(""), "{\"state\":\"error\",\"msg\":\"\"}");
}

#[test]
fn the_error_frame_goes_around_a_json_string() {
    assert_eq!(
        error_frame(Some("\"bad line\"".to_string())),
        "{\"state\":\"error\",\"msg\":\"bad line\"}"
    );
    assert_eq!(error_frame(None), "{\"state\":\"error\",\"msg\":\"\"}");
}

#[test]
fn the_done_message_is_fixed() {
    assert_eq!(done_message(), "{\"state\":\"done\"}");
}

#[test]
fn a_message_goes_out_on_a_line_of_its_own() {
    assert_eq!(to_line(&done_message()), "{\"state\":\"done\"}\n");
    assert_eq!(to_line(""), "\n");
}

#[test]
fn the_first_field_of_a_form_decides() {
    assert_eq!(Command::chosen(false, false, false, false, false, false), None);
    assert_eq!(Command::chosen(true, true, true, true, true, true), Some(Command::Subscribe));
    assert_eq!(Command::chosen(false, true, true, true, true, true), Some(Command::Unsubscribe));
    assert_eq!(Command::chosen(false, false, true, true, true, true), Some(Command::Kill));
    assert_eq!(Command::chosen(false, false, false, true, true, true), Some(Command::KillAll));
    assert_eq!(Command::chosen(false, false, false, false, true, true), Some(Command::StartRoom));
    assert_eq!(Command::chosen(false, false, false, false, false, true), Some(Command::ResetRoom));
}

#[test]
fn notes_are_green_or_red() {
    let good = to_alert_success("fine");
    assert_eq!((good.class.as_str(), good.text.as_str()), ("success", "fine"));
    let bad = to_alert_error("oops");
    assert_eq!((bad.class.as_str(), bad.text.as_str()), ("danger", "oops"));
}

#[test]
fn each_outcome_has_its_note() {
    let note = |a: snake_arena::html::Alert| (a.class, a.text);
    assert_eq!(
        note(subscribed(Ok(()))),
        ("success".to_string(), "Subscribed connection to room.".to_string())
    );
    assert_eq!(
        note(subscribed(Err(RoomError::NotQueued))),
        ("danger".to_string(), "address not in wait queue".to_string())
    );
    assert_eq!(
        note(subscribed(Err(RoomError::InProgress))),
        ("danger".to_string(), "provided room is already in progress".to_string())
    );
    assert_eq!(
        note(unsubscribed(Ok(()))),
        ("success".to_string(), "Removed connection from room.".to_string())
    );
    assert_eq!(
        note(unsubscribed(Err(RoomError::NotInRoom))),
        ("danger".to_string(), "address not in room".to_string())
    );
    assert_eq!(
        note(killed(true)),
        ("success".to_string(), "Successfully killed the connection.".to_string())
    );
    assert_eq!(note(killed(false)), ("success".to_string(), "Nothing to do.".to_string()));
    assert_eq!(note(killed_all()), ("success".to_string(), "Success!".to_string()));
    assert_eq!(
        note(room_started(true)),
        ("success".to_string(), "Started room execution.".to_string())
    );
    assert_eq!(
        note(room_started(false)),
        ("danger".to_string(), "Room failed to start.".to_string())
    );
    assert_eq!(
        note(room_reset(true)),
        ("success".to_string(), "Room reset successfully.".to_string())
    );
    assert_eq!(
        note(room_reset(false)),
        ("danger".to_string(), "failed to send reset signal".to_string())
    );
    assert_eq!(
        note(missing_waiter()),
        ("danger".to_string(), "missing field: waiter".to_string())
    );
}

#[test]
fn the_page_for_nowhere_is_a_whole_page() {
    let page = page_not_found();
    assert!(page.starts_with("<!DOCTYPE html><html lang=\"en\"><head>"));
    assert!(page.contains("<title>Snake Arena</title>"));
    assert!(page.contains(
        "<main class=\"container\"><p>This is not the page you were looking for.</p></main>"
    ));
    assert!(page.ends_with("</body></html>"));
    assert_eq!(page.matches("<script ").count(), 3);
}

#[test]
fn a_name_is_the_first_line_as_it_came() {
    assert_eq!(read_name(b"ferris\n".to_vec()), Ok("ferris\n".to_string()));
    assert_eq!(read_name("zo\u{eb}\n".as_bytes().to_vec()), Ok("zo\u{eb}\n".to_string()));
    assert_eq!(read_name(b"\n".to_vec()), Ok("\n".to_string()));
}

#[test]
fn a_stream_that_says_nothing_gives_no_name() {
    assert_eq!(read_name(Vec::new()), Err(HandshakeError::Closed));
}

#[test]
fn bytes_that_are_not_text_give_no_name() {
    assert_eq!(read_name(vec![0x66, 0xff, 0x0a]), Err(HandshakeError::NotText));
    assert_eq!(read_name(vec![0xc3]), Err(HandshakeError::NotText));
}

use mudforge::color::Rgb;
use mudforge::command::CommandInput;
use mudforge::decoder::StyledRun;
use mudforge::script::show_script_result;
use mudforge::telnet::{TelnetClient, TransportError};

#[test]
fn submit_sends_line_and_records_history() {
    let mut input = CommandInput::new();
    let mut client = TelnetClient::new();
    client.on_connected();
    input.command = "look".to_string();
    assert_eq!(input.submit(&mut client), Some(Ok(())));
    assert_eq!(client.next_write(), Some(&b"look\n".to_vec()));
    assert_eq!(input.history, vec!["look\n".to_string()]);
    assert_eq!(input.index, 1);
    assert_eq!(input.command, "");
}

#[test]
fn repeated_command_is_kept_once() {
    let mut input = CommandInput::new();
    let mut client = TelnetClient::new();
    client.on_connected();
    input.command = "n".to_string();
    input.submit(&mut client);
    input.command = "n".to_string();
    input.submit(&mut client);
    assert_eq!(input.history.len(), 1);
    assert_eq!(client.pending_writes().len(), 2);
}

#[test]
fn empty_submit_sends_nothing() {
    let mut input = CommandInput::new();
    let mut client = TelnetClient::new();
    client.on_connected();
    assert_eq!(input.submit(&mut client), None);
    assert_eq!(input.command, " ");
    assert!(client.next_write().is_none());
}

#[test]
fn submit_without_connection_reports_it() {
    let mut input = CommandInput::new();
    let mut client = TelnetClient::new();
    input.command = "say hi".to_string();
    assert_eq!(input.submit(&mut client), Some(Err(TransportError::NotConnected)));
    assert_eq!(input.history, vec!["say hi\n".to_string()]);
}

#[test]
fn arrows_walk_history_trimmed() {
    let mut input = CommandInput::new();
    input.history = vec!["  north\n".to_string(), "south\n".to_string()];
    input.index = 2;
    input.history_up();
    assert_eq!(input.command, "south");
    input.history_up();
    assert_eq!(input.command, "north");
    assert_eq!(input.index, 0);
    input.history_up();
    assert_eq!(input.index, 0);
    input.history_down();
    assert_eq!(input.command, "south");
    input.history_down();
    assert_eq!(input.command, "");
    assert_eq!(input.index, 2);
}

#[test]
fn arrow_down_on_empty_history() {
    let mut input = CommandInput::new();
    input.command = "typed".to_string();
    input.history_down();
    assert_eq!(input.command, "");
    assert_eq!(input.index, 0);
}

#[test]
fn script_results_are_shown() {
    let mut client = TelnetClient::new();
    show_script_result(&mut client, &Ok("hi\n".to_string()));
    show_script_result(&mut client, &Err("boom".to_string()));
    assert_eq!(
        client.received_data().line(0),
        &vec![StyledRun { text: "hi\n".to_string(), color: Rgb { r: 240, g: 230, b: 140 } }]
    );
    assert_eq!(
        client.received_data().line(1),
        &vec![StyledRun {
            text: "Error executing Lua code: boom\n".to_string(),
            color: Rgb { r: 255, g: 0, b: 0 }
        }]
    );
}

#[test]
fn arrows_trim_unicode_white_space() {
    let mut input = CommandInput::new();
    input.history = vec!["\u{3000}\u{a0}west\t\u{2029}\n".to_string()];
    input.index = 1;
    input.history_up();
    assert_eq!(input.command, "west");
}

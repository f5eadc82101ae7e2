use mudforge::color::Rgb;
use mudforge::decoder::StyledRun;
use mudforge::scrollback::Scrollback;
use mudforge::telnet::{ReadOutcome, TelnetClient, TelnetEvent, TransportError, WriteOutcome};

fn rgb(r: u8, g: u8, b: u8) -> Rgb {
    Rgb { r, g, b }
}

fn white_run(text: &str) -> StyledRun {
    StyledRun { text: text.to_string(), color: rgb(255, 255, 255) }
}

#[test]
fn new_client_is_idle() {
    let c = TelnetClient::new();
    assert!(!c.is_connected());
    assert_eq!(c.received_data().len(), 0);
    assert!(c.next_write().is_none());
}

#[test]
fn write_without_connection_fails() {
    let mut c = TelnetClient::new();
    assert_eq!(c.write(b"look\n"), Err(TransportError::NotConnected));
    assert!(c.next_write().is_none());
}

#[test]
fn connecting_offers_terminal_type() {
    let mut c = TelnetClient::new();
    let offer = c.on_connected();
    assert_eq!(offer, Some(vec![255, 251, 24]));
    assert!(c.is_connected());
}

#[test]
fn blocked_write_stays_whole_at_front() {
    let mut c = TelnetClient::new();
    c.on_connected();
    assert_eq!(c.write(b"north\n"), Ok(()));
    assert_eq!(c.write(b"south\n"), Ok(()));
    for _ in 0..5 {
        assert_eq!(c.on_write(WriteOutcome::WouldBlock), Ok(false));
        assert_eq!(c.next_write(), Some(&b"north\n".to_vec()));
        assert_eq!(c.pending_writes().len(), 2);
    }
    assert_eq!(c.on_write(WriteOutcome::Written), Ok(true));
    assert_eq!(c.next_write(), Some(&b"south\n".to_vec()));
    assert_eq!(c.on_write(WriteOutcome::Written), Ok(false));
    assert!(c.next_write().is_none());
    assert_eq!(c.on_write(WriteOutcome::Written), Ok(false));
}

#[test]
fn failed_write_reports_and_keeps_connection() {
    let mut c = TelnetClient::new();
    c.on_connected();
    c.write(b"a").unwrap();
    c.write(b"b").unwrap();
    assert_eq!(c.on_write(WriteOutcome::Failed), Err(TransportError::ConnectionLost));
    assert!(c.is_connected());
    assert_eq!(c.next_write(), Some(&b"a".to_vec()));
    assert_eq!(c.pending_writes().len(), 2);
}

#[test]
fn disconnect_drops_queue_and_refuses_writes() {
    let mut c = TelnetClient::new();
    c.on_connected();
    c.write(b"say hi\n").unwrap();
    c.disconnect();
    assert!(!c.is_connected());
    assert!(c.next_write().is_none());
    assert_eq!(c.write(b"again\n"), Err(TransportError::NotConnected));
    assert!(c.next_write().is_none());
}

#[test]
fn read_failure_is_reported_once() {
    let mut c = TelnetClient::new();
    c.on_connected();
    c.write(b"x").unwrap();
    assert_eq!(c.on_read(ReadOutcome::Failed), Err(TransportError::ConnectionLost));
    assert!(!c.is_connected());
    assert!(c.next_write().is_none());
    assert_eq!(c.on_read(ReadOutcome::Failed), Err(TransportError::NotConnected));
    assert_eq!(c.on_read(ReadOutcome::WouldBlock), Err(TransportError::NotConnected));
}

#[test]
fn would_block_read_is_no_data() {
    let mut c = TelnetClient::new();
    c.on_connected();
    assert_eq!(c.on_read(ReadOutcome::WouldBlock), Ok(Vec::new()));
    assert_eq!(c.on_read(ReadOutcome::Closed), Ok(Vec::new()));
    assert!(c.is_connected());
    assert_eq!(c.received_data().len(), 0);
}

#[test]
fn inbound_data_becomes_lines_and_negotiation_is_answered() {
    let mut c = TelnetClient::new();
    c.on_connected();
    let mut data = vec![255, 253, 31];
    data.extend_from_slice(b"\x1b[1;32mhi\x1b[0m there\r\n");
    data.extend_from_slice(&[255, 251, 1]);
    data.extend_from_slice(b"prompt> ");
    let replies = c.on_read(ReadOutcome::Data(data)).unwrap();
    assert_eq!(replies, vec![vec![255, 252, 31], vec![255, 254, 1]]);
    assert_eq!(c.received_data().len(), 2);
    assert_eq!(
        c.received_data().line(0),
        &vec![StyledRun { text: "hi".to_string(), color: rgb(0, 255, 0) }, white_run(" there")]
    );
    assert_eq!(c.received_data().line(1), &vec![white_run("prompt> ")]);
}

#[test]
fn handled_events_join_data_and_keep_reply_order() {
    let mut c = TelnetClient::new();
    c.on_connected();
    let events = vec![
        TelnetEvent::Data(b"ab\x1b[1;3".to_vec()),
        TelnetEvent::Reply(vec![1]),
        TelnetEvent::Control,
        TelnetEvent::Data(b"1mcd\n".to_vec()),
        TelnetEvent::Reply(vec![2]),
    ];
    let replies = c.handle_telnet_events(events);
    assert_eq!(replies, vec![vec![1], vec![2]]);
    assert_eq!(
        c.received_data().line(0),
        &vec![white_run("ab"), StyledRun { text: "cd".to_string(), color: rgb(255, 0, 0) }]
    );
}

#[test]
fn append_helpers_add_lines() {
    let mut c = TelnetClient::new();
    c.append_text("plain", rgb(1, 2, 3));
    c.append_text_with_colours("fg", rgb(4, 5, 6), rgb(7, 8, 9));
    c.append_ansi_text("\x1b[0;31mred\nx");
    assert_eq!(c.received_data().len(), 4);
    assert_eq!(c.received_data().line(0), &vec![StyledRun { text: "plain".to_string(), color: rgb(1, 2, 3) }]);
    assert_eq!(c.received_data().line(1), &vec![StyledRun { text: "fg".to_string(), color: rgb(4, 5, 6) }]);
    assert_eq!(c.received_data().line(2), &vec![StyledRun { text: "red".to_string(), color: rgb(128, 0, 0) }]);
    assert_eq!(c.received_data().line(3), &vec![StyledRun { text: "x".to_string(), color: rgb(128, 0, 0) }]);
}

#[test]
fn scrollback_ranges_repeat() {
    let mut s = Scrollback::new();
    s.append(vec![white_run("one")]);
    s.append(vec![white_run("two")]);
    s.append(vec![white_run("three")]);
    let a = s.read_range(1, 3);
    let b = s.read_range(1, 3);
    assert_eq!(a, b);
    assert_eq!(a, vec![vec![white_run("two")], vec![white_run("three")]]);
    assert!(s.read_range(2, 2).is_empty());
}

#[test]
fn failed_write_keeps_buffer_until_written() {
    let mut c = TelnetClient::new();
    c.on_connected();
    c.write(b"first").unwrap();
    c.write(b"second").unwrap();
    assert_eq!(c.on_write(WriteOutcome::Failed), Err(TransportError::ConnectionLost));
    assert_eq!(c.on_write(WriteOutcome::WouldBlock), Ok(false));
    assert_eq!(c.next_write(), Some(&b"first".to_vec()));
    assert_eq!(c.on_write(WriteOutcome::Written), Ok(true));
    assert_eq!(c.next_write(), Some(&b"second".to_vec()));
    assert_eq!(c.on_write(WriteOutcome::Written), Ok(false));
    assert!(c.next_write().is_none());
}

#[test]
fn reconnecting_offers_terminal_type_again() {
    let mut c = TelnetClient::new();
    assert_eq!(c.on_connected(), Some(vec![255, 251, 24]));
    c.disconnect();
    assert_eq!(c.on_connected(), Some(vec![255, 251, 24]));
}

#[test]
fn partial_write_keeps_only_the_unsent_rest() {
    let mut c = TelnetClient::new();
    c.on_connected();
    c.write(b"abcdef").unwrap();
    c.write(b"gh").unwrap();
    let mut sent: Vec<u8> = Vec::new();
    sent.extend_from_slice(&b"abcdef"[..2]);
    assert_eq!(c.on_write(WriteOutcome::Partial(2)), Ok(false));
    assert_eq!(c.next_write(), Some(&b"cdef".to_vec()));
    assert_eq!(c.on_write(WriteOutcome::Partial(0)), Ok(false));
    assert_eq!(c.next_write(), Some(&b"cdef".to_vec()));
    sent.extend_from_slice(b"cdef");
    assert_eq!(c.on_write(WriteOutcome::Partial(4)), Ok(false));
    sent.extend_from_slice(b"gh");
    assert_eq!(c.on_write(WriteOutcome::Written), Ok(false));
    assert!(c.next_write().is_none());
    assert_eq!(sent, b"abcdefgh".to_vec());
}

#[test]
fn plain_read_passes_all_bytes_to_the_screen() {
    let mut c = TelnetClient::new();
    c.on_connected();
    assert_eq!(c.on_read(ReadOutcome::Data(b"one\ntw".to_vec())), Ok(Vec::new()));
    assert_eq!(c.on_read(ReadOutcome::Data(b"o\n".to_vec())), Ok(Vec::new()));
    assert_eq!(c.received_data().len(), 3);
    assert_eq!(c.received_data().line(0), &vec![white_run("one")]);
    assert_eq!(c.received_data().line(1), &vec![white_run("tw")]);
    assert_eq!(c.received_data().line(2), &vec![white_run("o")]);
}

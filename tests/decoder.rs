use mudforge::color::Rgb;
use mudforge::decoder::{DecoderState, EscapeDecoder, Piece, StyledRun};
use mudforge::telnet::parse_ansi_codes;

fn rgb(r: u8, g: u8, b: u8) -> Rgb {
    Rgb { r, g, b }
}

fn run(text: &str, color: Rgb) -> Piece {
    Piece::Run(StyledRun { text: text.to_string(), color })
}

fn chars(pieces: &[Piece]) -> Vec<Option<(char, Rgb)>> {
    let mut out = Vec::new();
    for p in pieces {
        match p {
            Piece::Run(r) => {
                for c in r.text.chars() {
                    out.push(Some((c, r.color)));
                }
            }
            Piece::LineBreak => out.push(None),
        }
    }
    out
}

#[test]
fn decodes_two_runs_and_a_line_break() {
    let mut d = EscapeDecoder::new();
    let out = d.feed(b"\x1b[1;31mHELLO\x1b[0mWORLD\n");
    assert_eq!(
        out,
        vec![run("HELLO", rgb(255, 0, 0)), run("WORLD", rgb(255, 255, 255)), Piece::LineBreak]
    );
    assert_eq!(d.state, DecoderState::Normal);
}

#[test]
fn carriage_return_is_dropped() {
    let mut d = EscapeDecoder::new();
    let out = d.feed(b"ab\r\ncd");
    assert_eq!(out, vec![run("ab", rgb(255, 255, 255)), Piece::LineBreak, run("cd", rgb(255, 255, 255))]);
}

#[test]
fn sequence_split_across_feeds_is_resumed() {
    let mut d = EscapeDecoder::new();
    let first = d.feed(b"ab\x1b[1;3");
    assert_eq!(first, vec![run("ab", rgb(255, 255, 255))]);
    assert_eq!(d.state, DecoderState::Parsing(b"1;3".to_vec()));
    let second = d.feed(b"2mcd");
    assert_eq!(second, vec![run("cd", rgb(0, 255, 0))]);
}

#[test]
fn chunked_feeding_shows_the_same_characters() {
    let input: &[u8] = b"x\x1b[0;34mblue text\nnext \x1b[38;5;196mred\x1b[zq\n";
    for split in 0..=input.len() {
        let mut whole = EscapeDecoder::new();
        let all = whole.feed(input);
        let mut parts = EscapeDecoder::new();
        let mut joined = parts.feed(&input[..split]);
        joined.extend(parts.feed(&input[split..]));
        assert_eq!(chars(&all), chars(&joined), "split at {}", split);
        assert_eq!(whole.state, parts.state);
        assert_eq!(whole.color, parts.color);
    }
}

#[test]
fn malformed_sequences_degrade_to_text() {
    let mut d = EscapeDecoder::new();
    let out = d.feed(b"\x1bXab\x1b[12;xcd\x1b[");
    assert_eq!(out, vec![run("ab", rgb(255, 255, 255)), run("cd", rgb(255, 255, 255))]);
    assert_eq!(d.state, DecoderState::Parsing(Vec::new()));
    let out = d.feed(b"?ok");
    assert_eq!(out, vec![run("ok", rgb(255, 255, 255))]);
    assert_eq!(d.state, DecoderState::Normal);
}

#[test]
fn trailing_escape_waits_for_next_feed() {
    let mut d = EscapeDecoder::new();
    assert_eq!(d.feed(b"\x1b"), vec![]);
    assert_eq!(d.state, DecoderState::Escaped);
}

#[test]
fn unknown_code_sets_white() {
    let mut d = EscapeDecoder::new();
    let out = d.feed(b"\x1b[1;32mgo\x1b[99;99mstop");
    assert_eq!(out, vec![run("go", rgb(0, 255, 0)), run("stop", rgb(255, 255, 255))]);
}

#[test]
fn high_bytes_read_as_latin1() {
    let mut d = EscapeDecoder::new();
    let out = d.feed(&[0x41, 0xe9]);
    assert_eq!(out, vec![run("A\u{e9}", rgb(255, 255, 255))]);
}

#[test]
fn parse_ansi_codes_forms_lines() {
    let lines = parse_ansi_codes(b"\x1b[1;31mHELLO\x1b[0mWORLD\n\nlast".to_vec());
    assert_eq!(lines.len(), 3);
    assert_eq!(
        lines[0],
        vec![
            StyledRun { text: "HELLO".to_string(), color: rgb(255, 0, 0) },
            StyledRun { text: "WORLD".to_string(), color: rgb(255, 255, 255) }
        ]
    );
    assert!(lines[1].is_empty());
    assert_eq!(lines[2], vec![StyledRun { text: "last".to_string(), color: rgb(255, 255, 255) }]);
}

#[test]
fn parse_ansi_codes_empty_input() {
    assert!(parse_ansi_codes(Vec::new()).is_empty());
}

#[test]
fn terminator_byte_ends_open_sequences() {
    for prefix in [&b"\x1b"[..], b"\x1b[", b"\x1b[1;3", b"plain \x1b[38;5"] {
        let mut bytes = prefix.to_vec();
        bytes.push(b'x');
        bytes.extend_from_slice(b"tail");
        let lines = parse_ansi_codes(bytes);
        let last = lines.last().unwrap().last().unwrap();
        assert!(last.text.ends_with("tail"), "prefix {:?}", prefix);
    }
}

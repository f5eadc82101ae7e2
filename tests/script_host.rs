use mudforge::color::Rgb;
use mudforge::decoder::StyledRun;
use mudforge::script::LuaFunctions;
use mudforge::telnet::TelnetClient;

fn rgb(r: u8, g: u8, b: u8) -> Rgb {
    Rgb { r, g, b }
}

fn line(text: &str, color: Rgb) -> Vec<StyledRun> {
    vec![StyledRun { text: text.to_string(), color }]
}

#[test]
fn print_appends_white_line_and_transcript() {
    let mut f = LuaFunctions::new();
    let mut c = TelnetClient::new();
    f.print(&mut c, "hi");
    assert_eq!(f.take_output(), "hi\n");
    assert_eq!(c.received_data().line(0), &line("hi", rgb(255, 255, 255)));
    assert_eq!(f.take_output(), "");
}

#[test]
fn color_print_names() {
    let mut f = LuaFunctions::new();
    let mut c = TelnetClient::new();
    f.color_print(&mut c, "a", "red");
    f.color_print(&mut c, "b", "green");
    f.color_print(&mut c, "c", "blue");
    f.color_print(&mut c, "d", "mauve");
    assert_eq!(c.received_data().line(0), &line("a", rgb(255, 0, 0)));
    assert_eq!(c.received_data().line(1), &line("b", rgb(0, 255, 0)));
    assert_eq!(c.received_data().line(2), &line("c", rgb(0, 0, 255)));
    assert_eq!(c.received_data().line(3), &line("d", rgb(255, 255, 255)));
    assert_eq!(f.take_output(), "a red\nb green\nc blue\nd mauve\n");
}

#[test]
fn note_and_tell() {
    let mut f = LuaFunctions::new();
    let mut c = TelnetClient::new();
    f.note(&mut c, "n");
    f.tell(&mut c, "t");
    assert_eq!(c.received_data().line(0), &line("n\n", rgb(255, 255, 255)));
    assert_eq!(c.received_data().line(1), &line("t", rgb(255, 255, 255)));
    assert_eq!(f.take_output(), "n\nt");
}

#[test]
fn colour_note_and_tell_use_table() {
    let mut f = LuaFunctions::new();
    let mut c = TelnetClient::new();
    f.colour_note(&mut c, "1;34", "0;30", "deep");
    f.colour_tell(&mut c, "nothing", "0;30", "plain");
    assert_eq!(c.received_data().line(0), &line("deep\n", rgb(0, 0, 255)));
    assert_eq!(c.received_data().line(1), &line("plain", rgb(255, 255, 255)));
    assert_eq!(f.take_output(), "1;34 0;30 deep\nnothing 0;30 plain");
}

#[test]
fn ansi_note_decodes() {
    let mut f = LuaFunctions::new();
    let mut c = TelnetClient::new();
    f.ansi_note(&mut c, "\x1b[1;33mgold");
    assert_eq!(c.received_data().line(0), &line("gold", rgb(255, 255, 0)));
    assert_eq!(f.take_output(), "\x1b[1;33mgold\n");
}

#[test]
fn colour_name_conversions() {
    let f = LuaFunctions::new();
    assert_eq!(f.colour_name_to_rgb("1;31"), 0xff0000);
    assert_eq!(f.colour_name_to_rgb("38;5;21"), 0x0000ff);
    assert_eq!(f.colour_name_to_rgb("unknown"), 0xffffff);
    assert_eq!(f.rgb_colour_to_name(0xff0000), "1;31");
    assert_eq!(f.rgb_colour_to_name(0x336699), "38;5;67");
    assert_eq!(f.rgb_colour_to_name(0x010203), "rgb(1,2,3)");
    assert_eq!(f.rgb_colour_to_name(-1), "1;37");
    let n = f.rgb_colour_to_name(0x808000);
    assert_eq!(f.colour_name_to_rgb(&n), 0x808000);
}

#[test]
fn ansi_escape_text() {
    let f = LuaFunctions::new();
    assert_eq!(f.ansi(31), "\x1b[31m");
    assert_eq!(f.ansi(0), "\x1b[0m");
    assert_eq!(f.ansi(-5), "\x1b[-5m");
    assert_eq!(f.ansi(-32768), "\x1b[-32768m");
}

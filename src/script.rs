use vstd::prelude::*;
use vstd::string::StringSliceAdditionalSpecFns;
use crate::color::{
    code_bytes, code_name, first_match, lookup, lookup_spec, name_for, rgb, white, white_rgb, Rgb,
};
use crate::decoder::Phase;
use crate::telnet::{decoded_lines, TelnetClient};
use crate::text::{dec_digits, latin1_text, push_char, push_latin1, push_signed_decimal, push_str, signed_dec_digits, decimal_bytes};

verus! {

/// The colour that `color_print` gives a colour name: red, green and blue
/// by name, white for anything else.
pub open spec fn print_color(name: Seq<u8>) -> Rgb {
    if name == seq![114u8, 101u8, 100u8] {
        rgb(255, 0, 0)
    } else if name == seq![103u8, 114u8, 101u8, 101u8, 110u8] {
        rgb(0, 255, 0)
    } else if name == seq![98u8, 108u8, 117u8, 101u8] {
        rgb(0, 0, 255)
    } else {
        white()
    }
}

/// A colour as one integer, red in the high byte: `0xRRGGBB`.
pub open spec fn packed_rgb(c: Rgb) -> int {
    c.r as int * 65536 + c.g as int * 256 + c.b as int
}

/// The colour in the low three bytes of a packed integer, red highest.
pub open spec fn unpacked_rgb(colour: i32) -> Rgb {
    rgb(((colour >> 16) & 0xff) as u8, ((colour >> 8) & 0xff) as u8, (colour & 0xff) as u8)
}

/// The name of a colour: the text of the first table code with exactly
/// that colour, else `rgb(r,g,b)`.
pub open spec fn colour_name(c: Rgb) -> Seq<char> {
    match first_match(c, 0) {
        Some(k) => latin1_text(code_bytes(k)),
        None => seq!['r', 'g', 'b', '('] + latin1_text(dec_digits(c.r as nat)) + seq![',']
            + latin1_text(dec_digits(c.g as nat)) + seq![','] + latin1_text(dec_digits(c.b as nat))
            + seq![')'],
    }
}

/// The escape sequence that selects SGR code `code`.
pub open spec fn ansi_escape(code: i16) -> Seq<char> {
    seq!['\x1b', '['] + latin1_text(signed_dec_digits(code as int)) + seq!['m']
}

/// The functions that scripts may call. Each one writes to the client's
/// scrollback, and records what it printed in a transcript of the running
/// script.
pub struct LuaFunctions {
    pub output: String,
}

fn named_print_color(name: &str) -> (c: Rgb)
    ensures
        c == print_color(name.spec_bytes()),
{
    let n = name.as_bytes();
    if n.len() == 3 && n[0] == 114 && n[1] == 101 && n[2] == 100 {
        assert(n@ =~= seq![114u8, 101u8, 100u8]);
        Rgb { r: 255, g: 0, b: 0 }
    } else if n.len() == 5 && n[0] == 103 && n[1] == 114 && n[2] == 101 && n[3] == 101 && n[4] == 110 {
        assert(n@ =~= seq![103u8, 114u8, 101u8, 101u8, 110u8]);
        Rgb { r: 0, g: 255, b: 0 }
    } else if n.len() == 4 && n[0] == 98 && n[1] == 108 && n[2] == 117 && n[3] == 101 {
        assert(n@ =~= seq![98u8, 108u8, 117u8, 101u8]);
        Rgb { r: 0, g: 0, b: 255 }
    } else {
        proof {
            if n@ == seq![114u8, 101u8, 100u8] {
                assert(n@[0] == 114u8 && n@[1] == 101u8 && n@[2] == 100u8);
            }
            if n@ == seq![103u8, 114u8, 101u8, 101u8, 110u8] {
                assert(n@[0] == 103u8 && n@[1] == 114u8 && n@[2] == 101u8 && n@[3] == 101u8);
                assert(n@[4] == 110u8);
            }
            if n@ == seq![98u8, 108u8, 117u8, 101u8] {
                assert(n@[0] == 98u8 && n@[1] == 108u8 && n@[2] == 117u8 && n@[3] == 101u8);
            }
        }
        white_rgb()
    }
}

/// `text` followed by a line end.
fn with_newline(text: &str) -> (s: String)
    ensures
        s@ == text@.push('\n'),
{
    let mut s = String::new();
    push_str(&mut s, text);
    push_char(&mut s, '\n');
    assert(s@ =~= text@.push('\n'));
    s
}

/// `a`, `b` and `c` joined by single spaces.
fn joined3(a: &str, b: &str, c: &str) -> (s: String)
    ensures
        s@ == a@ + seq![' '] + b@ + seq![' '] + c@,
{
    let mut s = String::new();
    push_str(&mut s, a);
    push_char(&mut s, ' ');
    push_str(&mut s, b);
    push_char(&mut s, ' ');
    push_str(&mut s, c);
    assert(s@ =~= a@ + seq![' '] + b@ + seq![' '] + c@);
    s
}

impl LuaFunctions {
    pub fn new() -> (f: Self)
        ensures
            f.output@ == Seq::<char>::empty(),
    {
        LuaFunctions { output: String::new() }
    }

    /// Hands over the transcript gathered so far and starts a new one.
    pub fn take_output(&mut self) -> (out: String)
        ensures
            out@ == old(self).output@,
            final(self).output@ == Seq::<char>::empty(),
    {
        let mut out = String::new();
        std::mem::swap(&mut out, &mut self.output);
        out
    }

    /// `print(text)`: a white line, and the text and a line end in the transcript.
    pub fn print(&mut self, client: &mut TelnetClient, text: &str)
        ensures
            final(client).lines() == old(client).lines().push(seq![(text@, white())]),
            final(client).is_open() == old(client).is_open(),
            final(client).queue() == old(client).queue(),
            final(self).output@ == old(self).output@ + text@ + seq!['\n'],
    {
        client.append_text(text, white_rgb());
        push_str(&mut self.output, text);
        push_char(&mut self.output, '\n');
        assert(self.output@ =~= old(self).output@ + text@ + seq!['\n']);
    }

    /// `color_print(text, color)`: a line in red, green or blue by name,
    /// else white; the transcript gets the text, a space, the colour name
    /// and a line end.
    pub fn color_print(&mut self, client: &mut TelnetClient, text: &str, color: &str)
        ensures
            final(client).lines()
                == old(client).lines().push(seq![(text@, print_color(color.spec_bytes()))]),
            final(client).is_open() == old(client).is_open(),
            final(client).queue() == old(client).queue(),
            final(self).output@ == old(self).output@ + text@ + seq![' '] + color@ + seq!['\n'],
    {
        let c = named_print_color(color);
        client.append_text(text, c);
        push_str(&mut self.output, text);
        push_char(&mut self.output, ' ');
        push_str(&mut self.output, color);
        push_char(&mut self.output, '\n');
        assert(self.output@ =~= old(self).output@ + text@ + seq![' '] + color@ + seq!['\n']);
    }

    /// `Note(text)`: a white line holding the text and a line end, which the
    /// transcript gets too.
    pub fn note(&mut self, client: &mut TelnetClient, text: &str)
        ensures
            final(client).lines()
                == old(client).lines().push(seq![(text@.push('\n'), white())]),
            final(client).is_open() == old(client).is_open(),
            final(client).queue() == old(client).queue(),
            final(self).output@ == old(self).output@ + text@.push('\n'),
    {
        let line = with_newline(text);
        client.append_text(line.as_str(), white_rgb());
        push_str(&mut self.output, line.as_str());
    }

    /// `Tell(text)`: a white line holding the text, which the transcript
    /// gets without a line end.
    pub fn tell(&mut self, client: &mut TelnetClient, text: &str)
        ensures
            final(client).lines() == old(client).lines().push(seq![(text@, white())]),
            final(client).is_open() == old(client).is_open(),
            final(client).queue() == old(client).queue(),
            final(self).output@ == old(self).output@ + text@,
    {
        client.append_text(text, white_rgb());
        push_str(&mut self.output, text);
    }

    /// `ColourNote(fg, bg, text)`: a line holding the text and a line end,
    /// in the colour that the code `fg` resolves to; the transcript gets the
    /// three arguments joined by spaces, and a line end.
    pub fn colour_note(&mut self, client: &mut TelnetClient, text_colour: &str, back_colour: &str, text: &str)
        ensures
            final(client).lines() == old(client).lines().push(
                seq![(text@.push('\n'), lookup_spec(text_colour.spec_bytes()))],
            ),
            final(client).is_open() == old(client).is_open(),
            final(client).queue() == old(client).queue(),
            final(self).output@ == old(self).output@ + text_colour@ + seq![' '] + back_colour@ + seq![' ']
                + text@ + seq!['\n'],
    {
        let fg = lookup(text_colour);
        let bg = lookup(back_colour);
        let line = with_newline(text);
        client.append_text_with_colours(line.as_str(), fg, bg);
        let joined = joined3(text_colour, back_colour, text);
        push_str(&mut self.output, joined.as_str());
        push_char(&mut self.output, '\n');
        assert(self.output@ =~= old(self).output@ + text_colour@ + seq![' '] + back_colour@ + seq![' ']
            + text@ + seq!['\n']);
    }

    /// `ColourTell(fg, bg, text)`: as `ColourNote`, with no line end in the
    /// line or the transcript.
    pub fn colour_tell(&mut self, client: &mut TelnetClient, text_colour: &str, back_colour: &str, text: &str)
        ensures
            final(client).lines() == old(client).lines().push(
                seq![(text@, lookup_spec(text_colour.spec_bytes()))],
            ),
            final(client).is_open() == old(client).is_open(),
            final(client).queue() == old(client).queue(),
            final(self).output@ == old(self).output@ + text_colour@ + seq![' '] + back_colour@ + seq![' ']
                + text@,
    {
        let fg = lookup(text_colour);
        let bg = lookup(back_colour);
        client.append_text_with_colours(text, fg, bg);
        let joined = joined3(text_colour, back_colour, text);
        push_str(&mut self.output, joined.as_str());
        assert(self.output@ =~= old(self).output@ + joined@);
    }

    /// `AnsiNote(text)`: the lines that `text` decodes to, colour codes and
    /// all; the transcript gets the raw text and a line end.
    pub fn ansi_note(&mut self, client: &mut TelnetClient, text: &str)
        ensures
            final(client).lines() == old(client).lines()
                + decoded_lines(Phase::Normal, white(), text.spec_bytes()),
            final(client).is_open() == old(client).is_open(),
            final(client).queue() == old(client).queue(),
            final(self).output@ == old(self).output@ + text@ + seq!['\n'],
    {
        client.append_ansi_text(text);
        push_str(&mut self.output, text);
        push_char(&mut self.output, '\n');
        assert(self.output@ =~= old(self).output@ + text@ + seq!['\n']);
    }

    /// `ColourNameToRGB(name)`: the colour that the code `name` resolves to,
    /// packed as `0xRRGGBB`.
    pub fn colour_name_to_rgb(&self, name: &str) -> (r: i32)
        ensures
            r as int == packed_rgb(lookup_spec(name.spec_bytes())),
    {
        let c = lookup(name);
        (c.r as i32) * 65536 + (c.g as i32) * 256 + (c.b as i32)
    }

    /// `RGBColourToName(colour)`: the name of the colour in the low three
    /// bytes of `colour`.
    pub fn rgb_colour_to_name(&self, colour: i32) -> (name: String)
        ensures
            name@ == colour_name(unpacked_rgb(colour)),
    {
        let c = Rgb {
            r: ((colour >> 16) & 0xff) as u8,
            g: ((colour >> 8) & 0xff) as u8,
            b: (colour & 0xff) as u8,
        };
        assert(c == unpacked_rgb(colour));
        match name_for(c) {
            Some(k) => code_name(k),
            None => {
                let mut s = String::new();
                push_str(&mut s, "rgb(");
                proof {
                    reveal_strlit("rgb(");
                }
                let r = decimal_bytes(c.r as u32);
                push_latin1(&mut s, r.as_slice());
                push_char(&mut s, ',');
                let g = decimal_bytes(c.g as u32);
                push_latin1(&mut s, g.as_slice());
                push_char(&mut s, ',');
                let b = decimal_bytes(c.b as u32);
                push_latin1(&mut s, b.as_slice());
                push_char(&mut s, ')');
                assert(s@ =~= colour_name(c));
                s
            },
        }
    }

    /// `ANSI(code)`: the escape sequence `ESC [ code m`.
    pub fn ansi(&self, code: i16) -> (s: String)
        ensures
            s@ == ansi_escape(code),
    {
        let mut s = String::new();
        push_char(&mut s, '\x1b');
        push_char(&mut s, '[');
        push_signed_decimal(&mut s, code as i32);
        push_char(&mut s, 'm');
        assert(s@ =~= ansi_escape(code));
        s
    }
}

/// The message shown for a script that failed.
pub open spec fn script_error_line(message: Seq<char>) -> Seq<char> {
    "Error executing Lua code: "@ + message + seq!['\n']
}

/// Shows what a script run gave: its transcript as one khaki line, or its
/// error message as one red line.
pub fn show_script_result(client: &mut TelnetClient, result: &Result<String, String>)
    ensures
        final(client).is_open() == old(client).is_open(),
        final(client).queue() == old(client).queue(),
        result matches Ok(out) ==> final(client).lines()
            == old(client).lines().push(seq![(out@, rgb(240, 230, 140))]),
        result matches Err(message) ==> final(client).lines()
            == old(client).lines().push(seq![(script_error_line(message@), rgb(255, 0, 0))]),
{
    match result {
        Ok(out) => client.append_text(out.as_str(), Rgb { r: 240, g: 230, b: 140 }),
        Err(message) => {
            let mut line = String::new();
            push_str(&mut line, "Error executing Lua code: ");
            push_str(&mut line, message.as_str());
            push_char(&mut line, '\n');
            assert(line@ =~= script_error_line(message@));
            client.append_text(line.as_str(), Rgb { r: 255, g: 0, b: 0 });
        },
    }
}

} // verus!

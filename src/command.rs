use vstd::prelude::*;
use vstd::utf8::encode_utf8;
use crate::telnet::{queue_after_send, send_result, TelnetClient, TransportError};
use crate::text::push_char;

verus! {

/// A character with the Unicode White_Space property, which is what
/// `char::is_whitespace` tests: these 25 code points.
pub open spec fn is_white_space(c: char) -> bool {
    ||| ('\u{9}' <= c && c <= '\u{d}')
    ||| c == ' '
    ||| c == '\u{85}'
    ||| c == '\u{a0}'
    ||| c == '\u{1680}'
    ||| ('\u{2000}' <= c && c <= '\u{200a}')
    ||| c == '\u{2028}'
    ||| c == '\u{2029}'
    ||| c == '\u{202f}'
    ||| c == '\u{205f}'
    ||| c == '\u{3000}'
}

/// The text without its leading white space.
pub open spec fn trim_start_of(s: Seq<char>) -> Seq<char>
    decreases s.len(),
{
    if s.len() > 0 && is_white_space(s[0]) {
        trim_start_of(s.drop_first())
    } else {
        s
    }
}

/// The text without its trailing white space.
pub open spec fn trim_end_of(s: Seq<char>) -> Seq<char>
    decreases s.len(),
{
    if s.len() > 0 && is_white_space(s.last()) {
        trim_end_of(s.drop_last())
    } else {
        s
    }
}

/// The text without leading and trailing white space.
pub open spec fn trim_of(s: Seq<char>) -> Seq<char> {
    trim_end_of(trim_start_of(s))
}

/// Relies on str::trim: the text without leading and trailing characters
/// for which `char::is_whitespace` holds.
#[verifier::external_body]
fn trimmed(s: &str) -> (r: String)
    ensures
        r@ == trim_of(s@),
{
    s.trim().to_string()
}

/// The command line being typed, the commands sent before, and the place in
/// that history that the arrow keys have reached (its length when none).
pub struct CommandInput {
    pub command: String,
    pub history: Vec<String>,
    pub index: usize,
}

pub open spec fn history_view(h: Seq<String>) -> Seq<Seq<char>> {
    h.map_values(|s: String| s@)
}

/// The history after `line` was sent: unchanged when `line` repeats the
/// newest entry, else with `line` added.
pub open spec fn history_after(h: Seq<Seq<char>>, line: Seq<char>) -> Seq<Seq<char>> {
    if h.len() > 0 && h.last() == line {
        h
    } else {
        h.push(line)
    }
}

impl CommandInput {
    pub open spec fn wf(&self) -> bool {
        self.index <= self.history@.len()
    }

    pub fn new() -> (c: Self)
        ensures
            c.wf(),
            c.command@ == Seq::<char>::empty(),
            c.history@.len() == 0,
            c.index == 0,
    {
        CommandInput { command: String::new(), history: Vec::new(), index: 0 }
    }

    /// Arrow up: steps back one command and puts it, trimmed, on the line;
    /// at the oldest command nothing changes.
    pub fn history_up(&mut self)
        requires
            old(self).wf(),
        ensures
            final(self).wf(),
            final(self).history == old(self).history,
            old(self).index > 0 ==> final(self).index == old(self).index - 1
                && final(self).command@ == trim_of(old(self).history@[old(self).index - 1]@),
            old(self).index == 0 ==> final(self).index == 0 && final(self).command@ == old(self).command@,
    {
        if self.index > 0 {
            self.index = self.index - 1;
            self.command = trimmed(self.history[self.index].as_str());
        }
    }

    /// Arrow down: steps forward one command and puts it, trimmed, on the
    /// line; past the newest command the line is cleared and the place goes
    /// back to the end of the history.
    pub fn history_down(&mut self)
        requires
            old(self).wf(),
        ensures
            final(self).wf(),
            final(self).history == old(self).history,
            old(self).index + 1 < old(self).history@.len() ==> final(self).index == old(self).index + 1
                && final(self).command@ == trim_of(old(self).history@[old(self).index + 1]@),
            old(self).index + 1 >= old(self).history@.len() ==> final(self).index == old(self).history@.len()
                && final(self).command@ == Seq::<char>::empty(),
    {
        if self.index < self.history.len() && self.index < self.history.len() - 1 {
            self.index = self.index + 1;
            self.command = trimmed(self.history[self.index].as_str());
        } else {
            self.command = String::new();
            self.index = self.history.len();
        }
    }

    /// Enter: a line that is not empty gets a line end and is handed to the
    /// client's `write`, whose result is returned; it joins the history
    /// unless it repeats the newest entry, the place goes to the end of the
    /// history and the line is cleared. An empty line gets a space instead
    /// and nothing is sent.
    pub fn submit(&mut self, client: &mut TelnetClient) -> (r: Option<Result<(), TransportError>>)
        requires
            old(self).wf(),
        ensures
            final(self).wf(),
            old(self).command@.len() == 0 ==> {
                &&& r is None
                &&& final(self).command@ == seq![' ']
                &&& final(self).history == old(self).history
                &&& final(self).index == old(self).index
                &&& *final(client) == *old(client)
            },
            old(self).command@.len() > 0 ==> {
                &&& r == Some(send_result(old(client).is_open()))
                &&& final(client).queue() == queue_after_send(
                    old(client).is_open(),
                    old(client).queue(),
                    encode_utf8(old(self).command@.push('\n')),
                )
                &&& final(client).is_open() == old(client).is_open()
                &&& final(client).lines() == old(client).lines()
                &&& history_view(final(self).history@)
                    == history_after(history_view(old(self).history@), old(self).command@.push('\n'))
                &&& final(self).index == final(self).history@.len()
                &&& final(self).command@ == Seq::<char>::empty()
            },
    {
        if self.command.as_str().is_empty() {
            push_char(&mut self.command, ' ');
            return None;
        }
        push_char(&mut self.command, '\n');
        let sent = client.write(self.command.as_str().as_bytes());
        let n = self.history.len();
        if n == 0 || self.history[n - 1] != self.command {
            let entry = self.command.clone();
            self.history.push(entry);
            assert(history_view(self.history@) =~= history_view(old(self).history@).push(entry@));
        } else {
            assert(history_view(self.history@) =~= history_view(old(self).history@));
        }
        self.index = self.history.len();
        self.command = String::new();
        Some(sent)
    }
}

} // verus!

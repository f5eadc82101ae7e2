use vstd::prelude::*;
use libmudtelnet::events::TelnetEvents;
use crate::color::{white, Rgb};
use crate::decoder::{ends_with, is_code_byte, is_plain_byte, lemma_text_after_terminator, feed_spans, feed_state, piece_is, pieces_are, EscapeDecoder, Phase, Piece, Span, StyledRun};
use crate::scrollback::{line_view, piece_item, split_into_lines, split_lines, lines_view, Scrollback};
use vstd::string::StringSliceAdditionalSpecFns;
use crate::text::{copy_bytes, copy_bytes_from, latin1_text};

verus! {

/// The telnet option for the terminal type.
pub const TERMINAL_TYPE: u8 = 24;

/// The telnet protocol parser of libmudtelnet, carried opaque.
#[verifier::external_type_specification]
#[verifier::external_body]
pub struct ExParser(libmudtelnet::Parser);

/// The options that a parser's table marks as supported on this side.
pub uninterp spec fn supported_local(p: libmudtelnet::Parser) -> Set<u8>;

/// The options that a parser's table marks as enabled on this side.
pub uninterp spec fn enabled_local(p: libmudtelnet::Parser) -> Set<u8>;

/// The inbound bytes that a parser holds back: the start of a protocol
/// sequence cut off at the end of earlier input.
pub uninterp spec fn held_bytes(p: libmudtelnet::Parser) -> Seq<u8>;

/// Relies on libmudtelnet::Parser::new: its table starts all zero, so no
/// option is supported or enabled, and its buffer starts empty.
pub assume_specification[ libmudtelnet::Parser::new ]() -> (r: libmudtelnet::Parser)
    ensures
        supported_local(r) == Set::<u8>::empty(),
        enabled_local(r) == Set::<u8>::empty(),
        held_bytes(r) == Seq::<u8>::empty(),
;

/// What the protocol layer hands up: payload for the screen, bytes to send
/// back at once (negotiation replies), or a command with no payload.
#[derive(Clone, Debug, PartialEq, Eq)]
pub enum TelnetEvent {
    Data(Vec<u8>),
    Reply(Vec<u8>),
    Control,
}

/// Relies on libmudtelnet::CompatibilityTable::support_local, reached through
/// the parser's public `options` table: sets the option's local-support bit
/// and keeps its other bits.
#[verifier::external_body]
fn support_local(parser: &mut libmudtelnet::Parser, option: u8)
    ensures
        supported_local(*final(parser)) == supported_local(*old(parser)).insert(option),
        enabled_local(*final(parser)) == enabled_local(*old(parser)),
        held_bytes(*final(parser)) == held_bytes(*old(parser)),
{
    parser.options.support_local(option)
}

/// Input that the parser passes through whole: it holds nothing, and the
/// bytes are not empty and hold no IAC (255).
pub open spec fn plain_input(p: libmudtelnet::Parser, data: Seq<u8>) -> bool {
    &&& held_bytes(p) == Seq::<u8>::empty()
    &&& data.len() > 0
    &&& forall|i: int| 0 <= i < data.len() ==> data[i] != 255
}

/// Whether `_will` would offer the option: supported here, not yet enabled.
pub open spec fn will_ready(p: libmudtelnet::Parser, option: u8) -> bool {
    supported_local(p).contains(option) && !enabled_local(p).contains(option)
}

/// Relies on libmudtelnet::Parser::_will: when the option is supported and
/// not yet enabled it marks it enabled and returns the negotiation
/// `IAC WILL option`; else it changes nothing and returns nothing.
#[verifier::external_body]
fn announce_will(parser: &mut libmudtelnet::Parser, option: u8) -> (r: Option<Vec<u8>>)
    ensures
        will_ready(*old(parser), option) ==> (r matches Some(b) && b@ == seq![255u8, 251u8, option]),
        will_ready(*old(parser), option)
            ==> enabled_local(*final(parser)) == enabled_local(*old(parser)).insert(option),
        !will_ready(*old(parser), option) ==> (r is None),
        !will_ready(*old(parser), option) ==> enabled_local(*final(parser)) == enabled_local(*old(parser)),
        supported_local(*final(parser)) == supported_local(*old(parser)),
        held_bytes(*final(parser)) == held_bytes(*old(parser)),
{
    parser._will(option).map(|e| e.to_bytes().to_vec())
}

/// Relies on libmudtelnet::Parser::receive: splits what the parser holds,
/// followed by `data`, into protocol events. When it holds nothing and
/// `data` is not empty and has no IAC (255) byte, the whole of `data` comes
/// out as one data event, and the parser holds nothing afterwards. Of other
/// input nothing is stated.
#[verifier::external_body]
fn telnet_receive(parser: &mut libmudtelnet::Parser, data: &[u8]) -> (r: Vec<TelnetEvent>)
    ensures
        plain_input(*old(parser), data@) ==> r@.len() == 1,
        plain_input(*old(parser), data@) ==> (r@[0] matches TelnetEvent::Data(d) && d@ == data@),
        plain_input(*old(parser), data@) ==> held_bytes(*final(parser)) == Seq::<u8>::empty(),
{
    parser.receive(data).into_iter().map(|e| match e {
        TelnetEvents::DataReceive(b) => TelnetEvent::Data(b.to_vec()),
        TelnetEvents::DataSend(b) => TelnetEvent::Reply(b.to_vec()),
        TelnetEvents::IAC(_) => TelnetEvent::Control,
        TelnetEvents::Negotiation(_) => TelnetEvent::Control,
        TelnetEvents::Subnegotiation(_) => TelnetEvent::Control,
        TelnetEvents::DecompressImmediate(_) => TelnetEvent::Control,
    }).collect()
}

/// Decoded output as runs (`Some`) and line ends (`None`).
pub open spec fn span_item(s: Span) -> Option<(Seq<char>, Rgb)> {
    match s {
        Span::Run(t, c) => Some((latin1_text(t), c)),
        Span::Break => None,
    }
}

/// The runs and line ends that decoding `bytes` from a phase and colour gives.
pub open spec fn decoded_items(phase: Phase, color: Rgb, bytes: Seq<u8>) -> Seq<Option<(Seq<char>, Rgb)>> {
    feed_spans(phase, color, bytes).map_values(|s: Span| span_item(s))
}

/// The lines that decoding `bytes` from a phase and colour gives.
pub open spec fn decoded_lines(phase: Phase, color: Rgb, bytes: Seq<u8>) -> Seq<Seq<(Seq<char>, Rgb)>> {
    split_lines(decoded_items(phase, color, bytes))
}

proof fn lemma_pieces_items(ps: Seq<Piece>, ss: Seq<Span>)
    requires
        pieces_are(ps, ss),
    ensures
        ps.map_values(|p: Piece| piece_item(p)) == ss.map_values(|s: Span| span_item(s)),
{
    assert forall|i: int| 0 <= i < ps.len() implies #[trigger] piece_item(ps[i]) == span_item(ss[i]) by {
        assert(piece_is(ps[i], ss[i]));
    }
    assert(ps.map_values(|p: Piece| piece_item(p)) =~= ss.map_values(|s: Span| span_item(s)));
}

/// Decodes a whole buffer from the initial state (white text, no sequence
/// open) into lines.
pub fn parse_ansi_codes(buffer: Vec<u8>) -> (r: Vec<Vec<StyledRun>>)
    ensures
        lines_view(r@) == decoded_lines(Phase::Normal, white(), buffer@),
{
    let mut d = EscapeDecoder::new();
    let pieces = d.feed(buffer.as_slice());
    proof {
        lemma_pieces_items(pieces@, feed_spans(Phase::Normal, white(), buffer@));
    }
    split_into_lines(pieces)
}

proof fn lemma_last_line_ends_with_last_run(items: Seq<Option<(Seq<char>, Rgb)>>)
    requires
        items.len() > 0,
        items.last() is Some,
    ensures
        split_lines(items).len() > 0,
        split_lines(items).last().len() > 0,
        split_lines(items).last().last() == items.last().unwrap(),
{
}

/// Whatever state the bytes `p` leave the decoder in, one byte `x` that
/// cannot go on an escape sequence ends it, so the last row that
/// `parse_ansi_codes` gives for `p`, `x` and then plain text `t` ends with
/// `t`.
pub proof fn lemma_rows_end_with_text_after_terminator(p: Seq<u8>, x: u8, t: Seq<u8>)
    requires
        x != 27,
        x != 91,
        !is_code_byte(x),
        t.len() > 0,
        forall|i: int| 0 <= i < t.len() ==> is_plain_byte(#[trigger] t[i]),
    ensures
        decoded_lines(Phase::Normal, white(), p.push(x) + t).len() > 0,
        decoded_lines(Phase::Normal, white(), p.push(x) + t).last().len() > 0,
        ends_with(decoded_lines(Phase::Normal, white(), p.push(x) + t).last().last().0, latin1_text(t)),
{
    let b = p.push(x) + t;
    lemma_text_after_terminator(Phase::Normal, white(), p, x, t);
    let spans = feed_spans(Phase::Normal, white(), b);
    let items = decoded_items(Phase::Normal, white(), b);
    assert(items.last() == span_item(spans.last()));
    lemma_last_line_ends_with_last_run(items);
    if let Span::Run(text, c) = spans.last() {
        let q = text.subrange(0, text.len() - t.len());
        assert(text =~= q + t);
        assert(latin1_text(text) =~= latin1_text(q) + latin1_text(t));
        let lt = latin1_text(text);
        assert(lt.subrange(lt.len() - t.len(), lt.len() as int) =~= latin1_text(t));
    }
}

/// The payload bytes of the data events, joined in order.
pub open spec fn data_of(events: Seq<TelnetEvent>) -> Seq<u8>
    decreases events.len(),
{
    if events.len() == 0 {
        seq![]
    } else {
        match events.last() {
            TelnetEvent::Data(d) => data_of(events.drop_last()) + d@,
            _ => data_of(events.drop_last()),
        }
    }
}

/// The negotiation replies among the events, in order.
pub open spec fn replies_of(events: Seq<TelnetEvent>) -> Seq<Seq<u8>>
    decreases events.len(),
{
    if events.len() == 0 {
        seq![]
    } else {
        match events.last() {
            TelnetEvent::Reply(b) => replies_of(events.drop_last()).push(b@),
            _ => replies_of(events.drop_last()),
        }
    }
}

pub open spec fn queue_view(q: Seq<Vec<u8>>) -> Seq<Seq<u8>> {
    q.map_values(|b: Vec<u8>| b@)
}

/// An error of the transport.
#[derive(Clone, Copy, Debug, PartialEq, Eq, Structural)]
pub enum TransportError {
    InvalidAddress,
    ConnectFailed,
    IoSetupFailed,
    NotConnected,
    ConnectionLost,
}

/// What one non-blocking read of the socket gave.
#[derive(Clone, Debug, PartialEq, Eq)]
pub enum ReadOutcome {
    Data(Vec<u8>),
    WouldBlock,
    Closed,
    Failed,
}

/// What one attempt to write the front of the queue gave: all of it
/// accepted, only its first bytes accepted before the socket would block,
/// nothing accepted because the socket would block, or an error.
#[derive(Clone, Copy, Debug, PartialEq, Eq, Structural)]
pub enum WriteOutcome {
    Written,
    Partial(usize),
    WouldBlock,
    Failed,
}

/// What `write` returns.
pub open spec fn send_result(connected: bool) -> Result<(), TransportError> {
    if connected {
        Ok(())
    } else {
        Err(TransportError::NotConnected)
    }
}

/// The queue after a buffer was handed to `write`.
pub open spec fn queue_after_send(connected: bool, q: Seq<Seq<u8>>, b: Seq<u8>) -> Seq<Seq<u8>> {
    if connected {
        q.push(b)
    } else {
        q
    }
}

/// The queue after an attempt to write its front buffer: the buffer leaves
/// only once it has been written whole; after a partial write the bytes the
/// socket accepted leave it and the rest stays at the front.
pub open spec fn queue_after_write(q: Seq<Seq<u8>>, outcome: WriteOutcome) -> Seq<Seq<u8>> {
    if q.len() == 0 {
        q
    } else {
        match outcome {
            WriteOutcome::Written => q.drop_first(),
            WriteOutcome::Partial(n) => if n >= q[0].len() {
                q.drop_first()
            } else {
                q.update(0, q[0].subrange(n as int, q[0].len() as int))
            },
            _ => q,
        }
    }
}

/// The bytes that the socket accepted in a write attempt.
pub open spec fn accepted_bytes(q: Seq<Seq<u8>>, outcome: WriteOutcome) -> Seq<u8> {
    if q.len() == 0 {
        seq![]
    } else {
        match outcome {
            WriteOutcome::Written => q[0],
            WriteOutcome::Partial(n) => if n >= q[0].len() {
                q[0]
            } else {
                q[0].subrange(0, n as int)
            },
            _ => seq![],
        }
    }
}

/// What `on_write` returns: an error for a failed write, else whether to
/// write again at once, which is after a whole buffer went out and more
/// are queued.
pub open spec fn write_result(q: Seq<Seq<u8>>, outcome: WriteOutcome) -> Result<bool, TransportError> {
    if q.len() == 0 {
        Ok(false)
    } else {
        match outcome {
            WriteOutcome::Failed => Err(TransportError::ConnectionLost),
            WriteOutcome::Written => Ok(q.len() > 1),
            _ => Ok(false),
        }
    }
}

/// The bytes of the queued buffers, in order.
pub open spec fn concat_all(q: Seq<Seq<u8>>) -> Seq<u8>
    decreases q.len(),
{
    if q.len() == 0 {
        seq![]
    } else {
        q[0] + concat_all(q.drop_first())
    }
}

/// The transport's state: whether a connection is open, the scrollback that
/// received text goes to, the protocol parser, the colour decoder, and the
/// queue of user writes not yet sent. The socket itself belongs to the
/// caller, which reports what each read and write gave.
pub struct TelnetClient {
    connected: bool,
    received_data: Scrollback,
    decoder: EscapeDecoder,
    write_queue: Vec<Vec<u8>>,
    parser: libmudtelnet::Parser,
}

impl TelnetClient {
    /// Whether a connection is open.
    pub closed spec fn is_open(&self) -> bool {
        self.connected
    }

    /// The writes waiting to be sent, oldest first.
    pub closed spec fn queue(&self) -> Seq<Seq<u8>> {
        queue_view(self.write_queue@)
    }

    /// The scrollback's lines.
    pub closed spec fn lines(&self) -> Seq<Seq<(Seq<char>, Rgb)>> {
        self.received_data@
    }

    /// The colour decoder's phase.
    pub closed spec fn decoder_phase(&self) -> Phase {
        self.decoder.state@
    }

    /// The colour the decoder gives text now.
    pub closed spec fn decoder_color(&self) -> Rgb {
        self.decoder.color
    }

    /// Whether the protocol parser holds no bytes back from earlier reads.
    pub closed spec fn parser_idle(&self) -> bool {
        held_bytes(self.parser) == Seq::<u8>::empty()
    }

    /// The scrollback, to read.
    pub fn received_data(&self) -> (s: &Scrollback)
        ensures
            s@ == self.lines(),
    {
        &self.received_data
    }

    /// The writes waiting to be sent, oldest first.
    pub fn pending_writes(&self) -> (q: &Vec<Vec<u8>>)
        ensures
            queue_view(q@) == self.queue(),
    {
        &self.write_queue
    }

    /// A client with no connection, an empty scrollback and an empty queue.
    pub fn new() -> (c: Self)
        ensures
            !c.is_open(),
            c.lines() == Seq::<Seq<(Seq<char>, Rgb)>>::empty(),
            c.queue() == Seq::<Seq<u8>>::empty(),
            c.decoder_phase() == Phase::Normal,
            c.decoder_color() == white(),
            c.parser_idle(),
    {
        let c = TelnetClient {
            connected: false,
            received_data: Scrollback::new(),
            decoder: EscapeDecoder::new(),
            write_queue: Vec::new(),
            parser: libmudtelnet::Parser::new(),
        };
        assert(c.queue() =~= Seq::<Seq<u8>>::empty());
        c
    }

    /// Adds one line holding `text` in `color`.
    pub fn append_text(&mut self, text: &str, color: Rgb)
        ensures
            final(self).lines() == old(self).lines().push(seq![(text@, color)]),
            final(self).is_open() == old(self).is_open(),
            final(self).queue() == old(self).queue(),
    {
        let run = StyledRun { text: text.to_owned(), color };
        let line = vec![run];
        assert(line_view(line@) =~= seq![(text@, color)]);
        self.received_data.append(line);
    }

    /// Adds one line holding `text` in `text_colour`; the background colour
    /// is not kept.
    pub fn append_text_with_colours(&mut self, text: &str, text_colour: Rgb, back_colour: Rgb)
        ensures
            final(self).lines() == old(self).lines().push(seq![(text@, text_colour)]),
            final(self).is_open() == old(self).is_open(),
            final(self).queue() == old(self).queue(),
    {
        self.append_text(text, text_colour)
    }

    /// Decodes `text` with its colour codes from the initial state and adds
    /// the lines it forms.
    pub fn append_ansi_text(&mut self, text: &str)
        ensures
            final(self).lines() == old(self).lines()
                + decoded_lines(Phase::Normal, white(), text.spec_bytes()),
            final(self).is_open() == old(self).is_open(),
            final(self).queue() == old(self).queue(),
    {
        let bytes = copy_bytes(text.as_bytes());
        let lines = parse_ansi_codes(bytes);
        self.received_data.append_all(lines);
    }

    pub fn is_connected(&self) -> (r: bool)
        ensures
            r == self.is_open(),
    {
        self.connected
    }

    /// Records that the socket is open: starts a fresh protocol parser that
    /// supports the terminal-type option and a fresh decoder, and returns
    /// the parser's offer `IAC WILL TERMINAL-TYPE`, to write to the socket
    /// at once.
    pub fn on_connected(&mut self) -> (offer: Option<Vec<u8>>)
        ensures
            final(self).is_open(),
            final(self).queue() == Seq::<Seq<u8>>::empty(),
            final(self).lines() == old(self).lines(),
            final(self).decoder_phase() == Phase::Normal,
            final(self).decoder_color() == white(),
            final(self).parser_idle(),
            offer matches Some(b) && b@ == seq![255u8, 251u8, TERMINAL_TYPE],
    {
        let mut parser = libmudtelnet::Parser::new();
        support_local(&mut parser, TERMINAL_TYPE);
        let offer = announce_will(&mut parser, TERMINAL_TYPE);
        self.parser = parser;
        self.decoder = EscapeDecoder::new();
        self.write_queue = Vec::new();
        self.connected = true;
        assert(self.queue() =~= Seq::<Seq<u8>>::empty());
        offer
    }

    /// Drops the connection. Writes still queued are discarded, not sent.
    pub fn disconnect(&mut self)
        ensures
            disconnected_from(*old(self), *final(self)),
    {
        self.connected = false;
        self.write_queue.clear();
        assert(self.queue() =~= Seq::<Seq<u8>>::empty());
    }

    /// Queues `buffer` behind the writes already waiting. Without a
    /// connection nothing is queued and `NotConnected` is returned.
    pub fn write(&mut self, buffer: &[u8]) -> (r: Result<(), TransportError>)
        ensures
            r == send_result(old(self).is_open()),
            final(self).queue() == queue_after_send(old(self).is_open(), old(self).queue(), buffer@),
            final(self).is_open() == old(self).is_open(),
            final(self).lines() == old(self).lines(),
    {
        if !self.connected {
            return Err(TransportError::NotConnected);
        }
        self.write_queue.push(copy_bytes(buffer));
        assert(self.queue() =~= old(self).queue().push(buffer@));
        Ok(())
    }

    /// The buffer to write next, whole: the front of the queue.
    pub fn next_write(&self) -> (r: Option<&Vec<u8>>)
        ensures
            r is None <==> self.queue().len() == 0,
            r matches Some(b) ==> b@ == self.queue()[0],
    {
        if self.write_queue.len() == 0 {
            None
        } else {
            Some(&self.write_queue[0])
        }
    }

    /// Takes what writing the front buffer gave. A finished write removes
    /// it. A partial write removes the bytes the socket accepted and leaves
    /// the rest at the front. A write that would block leaves it whole at
    /// the front, for the next attempt. A failed write leaves it there too
    /// and returns `ConnectionLost`; whether to drop the connection is the
    /// caller's call. `Ok(true)` tells the caller to write again at once.
    pub fn on_write(&mut self, outcome: WriteOutcome) -> (r: Result<bool, TransportError>)
        ensures
            final(self).queue() == queue_after_write(old(self).queue(), outcome),
            r == write_result(old(self).queue(), outcome),
            final(self).is_open() == old(self).is_open(),
            final(self).lines() == old(self).lines(),
    {
        if self.write_queue.len() == 0 {
            return Ok(false);
        }
        match outcome {
            WriteOutcome::WouldBlock => Ok(false),
            WriteOutcome::Written => {
                self.write_queue.remove(0);
                assert(self.queue() =~= old(self).queue().drop_first());
                Ok(self.write_queue.len() > 0)
            },
            WriteOutcome::Partial(n) => {
                let front = self.write_queue.remove(0);
                if n < front.len() {
                    let rest = copy_bytes_from(front.as_slice(), n);
                    self.write_queue.insert(0, rest);
                    assert(self.queue() =~= old(self).queue().update(
                        0,
                        old(self).queue()[0].subrange(n as int, old(self).queue()[0].len() as int),
                    ));
                } else {
                    assert(self.queue() =~= old(self).queue().drop_first());
                }
                Ok(false)
            },
            WriteOutcome::Failed => Err(TransportError::ConnectionLost),
        }
    }

    /// Takes the protocol events of one read: the payload of the data events,
    /// joined, goes through the colour decoder and the lines it forms are
    /// added to the scrollback; the negotiation replies are returned, in
    /// order, to be written to the socket at once, ahead of queued writes.
    pub fn handle_telnet_events(&mut self, events: Vec<TelnetEvent>) -> (replies: Vec<Vec<u8>>)
        ensures
            queue_view(replies@) == replies_of(events@),
            final(self).lines() == old(self).lines()
                + decoded_lines(old(self).decoder_phase(), old(self).decoder_color(), data_of(events@)),
            (final(self).decoder_phase(), final(self).decoder_color())
                == feed_state(old(self).decoder_phase(), old(self).decoder_color(), data_of(events@)),
            final(self).is_open() == old(self).is_open(),
            final(self).queue() == old(self).queue(),
            final(self).parser_idle() == old(self).parser_idle(),
    {
        let mut data: Vec<u8> = Vec::new();
        let mut replies: Vec<Vec<u8>> = Vec::new();
        let mut i: usize = 0;
        while i < events.len()
            invariant
                0 <= i <= events@.len(),
                data@ == data_of(events@.subrange(0, i as int)),
                queue_view(replies@) == replies_of(events@.subrange(0, i as int)),
            decreases events@.len() - i,
        {
            let ghost pre = events@.subrange(0, i as int);
            assert(events@.subrange(0, i + 1).drop_last() =~= pre);
            assert(events@.subrange(0, i + 1).last() == events@[i as int]);
            match &events[i] {
                TelnetEvent::Data(d) => {
                    let mut more = copy_bytes(d.as_slice());
                    data.append(&mut more);
                },
                TelnetEvent::Reply(b) => {
                    replies.push(copy_bytes(b.as_slice()));
                    assert(queue_view(replies@) =~= replies_of(pre).push(b@));
                },
                TelnetEvent::Control => {},
            }
            i = i + 1;
        }
        assert(events@.subrange(0, i as int) =~= events@);
        let pieces = self.decoder.feed(data.as_slice());
        proof {
            lemma_pieces_items(
                pieces@,
                feed_spans(old(self).decoder_phase(), old(self).decoder_color(), data@),
            );
        }
        let lines = split_into_lines(pieces);
        self.received_data.append_all(lines);
        replies
    }

    /// Takes what one non-blocking read of the socket gave. Without a
    /// connection it returns `NotConnected` and changes nothing. Data goes
    /// through the protocol parser and then as `handle_telnet_events` says;
    /// the negotiation replies are returned. A read that would block, or
    /// found the stream at its end, changes nothing. A failed read drops the
    /// connection and returns `ConnectionLost`, once: later calls find no
    /// connection.
    pub fn on_read(&mut self, outcome: ReadOutcome) -> (r: Result<Vec<Vec<u8>>, TransportError>)
        ensures
            (old(self).is_open() && (outcome is Data) && plain_read(*old(self), outcome->Data_0@)) ==> {
                &&& r matches Ok(replies) && replies@.len() == 0
                &&& final(self).lines() == old(self).lines()
                    + decoded_lines(old(self).decoder_phase(), old(self).decoder_color(), outcome->Data_0@)
                &&& (final(self).decoder_phase(), final(self).decoder_color())
                    == feed_state(old(self).decoder_phase(), old(self).decoder_color(), outcome->Data_0@)
                &&& final(self).parser_idle()
            },
            !old(self).is_open() ==> r == Err::<Vec<Vec<u8>>, TransportError>(TransportError::NotConnected)
                && final(self).is_open() == old(self).is_open()
                && final(self).queue() == old(self).queue()
                && final(self).lines() == old(self).lines(),
            old(self).is_open() ==> match outcome {
                ReadOutcome::Data(d) => {
                    &&& final(self).is_open()
                    &&& final(self).queue() == old(self).queue()
                    &&& r matches Ok(replies) && exists|events: Seq<TelnetEvent>| #![auto]
                        queue_view(replies@) == replies_of(events)
                        && final(self).lines() == old(self).lines()
                            + decoded_lines(old(self).decoder_phase(), old(self).decoder_color(), data_of(events))
                },
                ReadOutcome::Failed => {
                    &&& r == Err::<Vec<Vec<u8>>, TransportError>(TransportError::ConnectionLost)
                    &&& !final(self).is_open()
                    &&& final(self).queue() == Seq::<Seq<u8>>::empty()
                    &&& final(self).lines() == old(self).lines()
                },
                _ => {
                    &&& r matches Ok(replies) && replies@.len() == 0
                    &&& final(self).is_open()
                    &&& final(self).queue() == old(self).queue()
                    &&& final(self).lines() == old(self).lines()
                },
            },
    {
        if !self.connected {
            return Err(TransportError::NotConnected);
        }
        match outcome {
            ReadOutcome::Data(d) => {
                let events = telnet_receive(&mut self.parser, d.as_slice());
                proof {
                    if plain_read(*old(self), d@) {
                        assert(plain_input(old(self).parser, d@));
                        let evs = events@;
                        assert(evs.len() == 1);
                        assert(evs.drop_last() =~= Seq::<TelnetEvent>::empty());
                        assert(data_of(Seq::<TelnetEvent>::empty()) == Seq::<u8>::empty());
                        assert(replies_of(Seq::<TelnetEvent>::empty()) == Seq::<Seq<u8>>::empty());
                        assert(data_of(evs) =~= d@);
                        assert(replies_of(evs) =~= Seq::<Seq<u8>>::empty());
                    }
                }
                let replies = self.handle_telnet_events(events);
                Ok(replies)
            },
            ReadOutcome::Failed => {
                self.disconnect();
                Err(TransportError::ConnectionLost)
            },
            _ => Ok(Vec::new()),
        }
    }
}

/// The queue after `n` write attempts that would all block.
pub open spec fn blocked_times(q: Seq<Seq<u8>>, n: nat) -> Seq<Seq<u8>>
    decreases n,
{
    if n == 0 {
        q
    } else {
        queue_after_write(blocked_times(q, (n - 1) as nat), WriteOutcome::WouldBlock)
    }
}

/// A buffer handed to `write` on a connection stays whole, behind the
/// buffers queued before it, however many write attempts would block; on an
/// empty queue it stays at the front until a write that goes through
/// removes it, leaving the queue empty.
pub proof fn lemma_blocked_write_keeps_buffer(q: Seq<Seq<u8>>, b: Seq<u8>, n: nat)
    ensures
        blocked_times(queue_after_send(true, q, b), n) == q.push(b),
        q.len() == 0 ==> blocked_times(queue_after_send(true, q, b), n)[0] == b,
        q.len() == 0 ==> queue_after_write(blocked_times(queue_after_send(true, q, b), n), WriteOutcome::Written)
            == Seq::<Seq<u8>>::empty(),
    decreases n,
{
    if n > 0 {
        lemma_blocked_write_keeps_buffer(q, b, (n - 1) as nat);
    }
    if q.len() == 0 {
        assert(q.push(b).drop_first() =~= Seq::<Seq<u8>>::empty());
    }
}

/// The queue after `k` write attempts that all went through.
pub open spec fn written_times(q: Seq<Seq<u8>>, k: nat) -> Seq<Seq<u8>>
    decreases k,
{
    if k == 0 {
        q
    } else {
        queue_after_write(written_times(q, (k - 1) as nat), WriteOutcome::Written)
    }
}

proof fn lemma_written_prefix(q: Seq<Seq<u8>>, k: nat)
    requires
        k <= q.len(),
    ensures
        written_times(q, k) == q.subrange(k as int, q.len() as int),
    decreases k,
{
    if k == 0 {
        assert(q.subrange(0, q.len() as int) =~= q);
    } else {
        lemma_written_prefix(q, (k - 1) as nat);
        assert(q.subrange(k - 1, q.len() as int).drop_first() =~= q.subrange(k as int, q.len() as int));
    }
}

/// Writes that go through drain the queue in order: after `k` of them the
/// first `k` buffers are gone, the next one to write is buffer `k`, and
/// after one per buffer the queue is empty. So each buffer reaches the
/// socket once, whole, and after those queued before it.
pub proof fn lemma_written_drains_in_order(q: Seq<Seq<u8>>, k: nat)
    requires
        k <= q.len(),
    ensures
        written_times(q, k) == q.subrange(k as int, q.len() as int),
        k < q.len() ==> written_times(q, k)[0] == q[k as int],
        written_times(q, q.len()) == Seq::<Seq<u8>>::empty(),
{
    lemma_written_prefix(q, k);
    lemma_written_prefix(q, q.len());
    assert(q.subrange(q.len() as int, q.len() as int) =~= Seq::<Seq<u8>>::empty());
}

proof fn lemma_concat_all_push(q: Seq<Seq<u8>>, b: Seq<u8>)
    ensures
        concat_all(q.push(b)) == concat_all(q) + b,
    decreases q.len(),
{
    if q.len() == 0 {
        assert(q.push(b).drop_first() =~= Seq::<Seq<u8>>::empty());
        assert(concat_all(Seq::<Seq<u8>>::empty()) == Seq::<u8>::empty());
        assert(b + Seq::<u8>::empty() =~= b);
        assert(Seq::<u8>::empty() + b =~= b);
    } else {
        lemma_concat_all_push(q.drop_first(), b);
        assert(q.push(b).drop_first() =~= q.drop_first().push(b));
        assert(q.push(b)[0] == q[0]);
        assert(q[0] + (concat_all(q.drop_first()) + b) =~= (q[0] + concat_all(q.drop_first())) + b);
    }
}

/// No byte handed to `write` is lost, sent twice or sent out of order: if
/// the bytes the socket has accepted, followed by the queued bytes, are the
/// stream handed to `write` so far, then so they stay after a further
/// `write` and after any write attempt, which only moves bytes from the
/// front of the queue to the accepted part.
pub proof fn lemma_stream_kept(
    accepted: Seq<u8>,
    q: Seq<Seq<u8>>,
    stream: Seq<u8>,
    b: Seq<u8>,
    outcome: WriteOutcome,
)
    requires
        accepted + concat_all(q) == stream,
    ensures
        accepted + concat_all(queue_after_send(true, q, b)) == stream + b,
        (accepted + accepted_bytes(q, outcome)) + concat_all(queue_after_write(q, outcome)) == stream,
{
    lemma_concat_all_push(q, b);
    assert(accepted + (concat_all(q) + b) =~= (accepted + concat_all(q)) + b);
    if q.len() > 0 {
        let rest = concat_all(q.drop_first());
        match outcome {
            WriteOutcome::Partial(n) => {
                if n < q[0].len() {
                    let q2 = q.update(0, q[0].subrange(n as int, q[0].len() as int));
                    assert(q2.drop_first() =~= q.drop_first());
                    assert(q[0].subrange(0, n as int) + q[0].subrange(n as int, q[0].len() as int) =~= q[0]);
                    assert((accepted + q[0].subrange(0, n as int)) + (q2[0] + rest)
                        =~= accepted + (q[0] + rest));
                } else {
                    assert((accepted + q[0]) + rest =~= accepted + (q[0] + rest));
                }
            },
            WriteOutcome::Written => {
                assert((accepted + q[0]) + rest =~= accepted + (q[0] + rest));
            },
            _ => {
                assert(accepted + Seq::<u8>::empty() =~= accepted);
            },
        }
    } else {
        assert(accepted + Seq::<u8>::empty() =~= accepted);
    }
}

/// A read whose bytes the parser passes through whole: it holds nothing
/// back, and the bytes are not empty and hold no IAC (255).
pub open spec fn plain_read(c: TelnetClient, data: Seq<u8>) -> bool {
    &&& c.parser_idle()
    &&& data.len() > 0
    &&& forall|i: int| 0 <= i < data.len() ==> data[i] != 255
}

/// The client `after` is `before` with its connection dropped: no
/// connection, no queued writes, the same scrollback.
pub open spec fn disconnected_from(before: TelnetClient, after: TelnetClient) -> bool {
    &&& !after.is_open()
    &&& after.queue() == Seq::<Seq<u8>>::empty()
    &&& after.lines() == before.lines()
}

/// After `disconnect`, the client reports no connection, and a write fails
/// with `NotConnected` and queues nothing.
pub proof fn lemma_send_after_disconnect(before: TelnetClient, after: TelnetClient, b: Seq<u8>)
    requires
        disconnected_from(before, after),
    ensures
        !after.is_open(),
        send_result(after.is_open()) == Err::<(), TransportError>(TransportError::NotConnected),
        queue_after_send(after.is_open(), after.queue(), b) == Seq::<Seq<u8>>::empty(),
{
}

} // verus!

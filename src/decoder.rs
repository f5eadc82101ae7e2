use vstd::prelude::*;
use crate::color::{lookup_bytes, lookup_spec, white, white_rgb, Rgb};
use crate::text::{latin1_text, push_latin1};

verus! {

/// A stretch of text in one foreground colour.
#[derive(Clone, Debug, PartialEq, Eq)]
pub struct StyledRun {
    pub text: String,
    pub color: Rgb,
}

/// One item of decoded output: a run of text, or the end of a line.
#[derive(Clone, Debug, PartialEq, Eq)]
pub enum Piece {
    Run(StyledRun),
    LineBreak,
}

/// Where the decoder stands between two bytes.
#[derive(Clone, Debug, PartialEq, Eq)]
pub enum DecoderState {
    Normal,
    Escaped,
    Parsing(Vec<u8>),
}

/// The mathematical form of `DecoderState`.
pub enum Phase {
    Normal,
    Escaped,
    Parsing(Seq<u8>),
}

impl View for DecoderState {
    type V = Phase;

    open spec fn view(&self) -> Phase {
        match self {
            DecoderState::Normal => Phase::Normal,
            DecoderState::Escaped => Phase::Escaped,
            DecoderState::Parsing(buf) => Phase::Parsing(buf@),
        }
    }
}

/// The mathematical form of a `Piece`, with its text as bytes.
pub enum Span {
    Run(Seq<u8>, Rgb),
    Break,
}

/// One character with its colour, or the end of a line.
pub enum Atom {
    Char(u8, Rgb),
    Break,
}

/// The decoder in the middle of a chunk: its phase and colour, and the plain
/// text gathered since the last run was emitted.
pub struct DecState {
    pub phase: Phase,
    pub color: Rgb,
    pub pending: Seq<u8>,
}

pub open spec fn dec_state(phase: Phase, color: Rgb, pending: Seq<u8>) -> DecState {
    DecState { phase, color, pending }
}

pub open spec fn is_code_byte(b: u8) -> bool {
    (48 <= b <= 57) || b == 59
}

/// The run that the pending text forms, if there is any.
pub open spec fn flush_spans(st: DecState) -> Seq<Span> {
    run_of(st.pending, st.color)
}

/// A run of the given text, or nothing when the text is empty.
pub open spec fn run_of(text: Seq<u8>, color: Rgb) -> Seq<Span> {
    if text.len() == 0 {
        seq![]
    } else {
        seq![Span::Run(text, color)]
    }
}

/// One byte through the decoder: the next state and what it emits.
pub open spec fn step(st: DecState, b: u8) -> (DecState, Seq<Span>) {
    match st.phase {
        Phase::Normal => {
            if b == 27 {
                (DecState { phase: Phase::Escaped, pending: seq![], ..st }, flush_spans(st))
            } else if b == 13 {
                (st, seq![])
            } else if b == 10 {
                (DecState { pending: seq![], ..st }, flush_spans(st).push(Span::Break))
            } else {
                (DecState { pending: st.pending.push(b), ..st }, seq![])
            }
        },
        Phase::Escaped => {
            if b == 91 {
                (DecState { phase: Phase::Parsing(seq![]), ..st }, seq![])
            } else {
                (DecState { phase: Phase::Normal, ..st }, seq![])
            }
        },
        Phase::Parsing(buf) => {
            if b == 109 {
                (DecState { phase: Phase::Normal, color: lookup_spec(buf), ..st }, seq![])
            } else if is_code_byte(b) {
                (DecState { phase: Phase::Parsing(buf.push(b)), ..st }, seq![])
            } else {
                (DecState { phase: Phase::Normal, ..st }, seq![])
            }
        },
    }
}

/// A sequence of bytes through the decoder, one at a time.
pub open spec fn run(st: DecState, bytes: Seq<u8>) -> (DecState, Seq<Span>)
    decreases bytes.len(),
{
    if bytes.len() == 0 {
        (st, seq![])
    } else {
        let (s1, o1) = run(st, bytes.drop_last());
        let (s2, o2) = step(s1, bytes.last());
        (s2, o1 + o2)
    }
}

/// What one call of `feed` emits from phase `phase` and colour `color`: the
/// bytes decoded, and then any text still gathered as a final run.
pub open spec fn feed_spans(phase: Phase, color: Rgb, bytes: Seq<u8>) -> Seq<Span> {
    let (s, o) = run(DecState { phase, color, pending: seq![] }, bytes);
    o + flush_spans(s)
}

/// The phase and colour in which one call of `feed` leaves the decoder.
pub open spec fn feed_state(phase: Phase, color: Rgb, bytes: Seq<u8>) -> (Phase, Rgb) {
    let (s, o) = run(DecState { phase, color, pending: seq![] }, bytes);
    (s.phase, s.color)
}

pub open spec fn piece_is(p: Piece, s: Span) -> bool {
    match (p, s) {
        (Piece::Run(r), Span::Run(t, c)) => r.text@ == latin1_text(t) && r.color == c,
        (Piece::LineBreak, Span::Break) => true,
        _ => false,
    }
}

pub open spec fn pieces_are(ps: Seq<Piece>, ss: Seq<Span>) -> bool {
    &&& ps.len() == ss.len()
    &&& forall|i: int| 0 <= i < ps.len() ==> piece_is(#[trigger] ps[i], ss[i])
}

/// A stateful decoder of SGR colour sequences.
pub struct EscapeDecoder {
    pub state: DecoderState,
    pub color: Rgb,
}

proof fn lemma_pieces_concat(a: Seq<Piece>, x: Seq<Span>, b: Seq<Piece>, y: Seq<Span>)
    requires
        pieces_are(a, x),
        pieces_are(b, y),
    ensures
        pieces_are(a + b, x + y),
{
    assert forall|i: int| 0 <= i < (a + b).len() implies piece_is(#[trigger] (a + b)[i], (x + y)[i]) by {
        if i < a.len() {
            assert(piece_is(a[i], x[i]));
        } else {
            assert(piece_is(b[i - a.len()], y[i - a.len()]));
        }
    }
}

/// Emits the gathered text as one run, if there is any, and empties it.
fn flush_run(color: Rgb, pending: &mut Vec<u8>, out: &mut Vec<Piece>)
    ensures
        final(pending)@ == Seq::<u8>::empty(),
        (exists|extra: Seq<Piece>| #![auto]
            final(out)@ == old(out)@ + extra && pieces_are(extra, run_of(old(pending)@, color))),
{
    if pending.len() > 0 {
        let mut text = String::new();
        push_latin1(&mut text, pending.as_slice());
        out.push(Piece::Run(StyledRun { text, color }));
        let ghost extra = seq![out@.last()];
        assert(out@ =~= old(out)@ + extra);
        assert(piece_is(extra[0], run_of(old(pending)@, color)[0]));
        pending.clear();
    } else {
        assert(out@ =~= old(out)@ + Seq::<Piece>::empty());
    }
}

impl EscapeDecoder {
    pub fn new() -> (d: Self)
        ensures
            d.state@ == Phase::Normal,
            d.color == white(),
    {
        EscapeDecoder { state: DecoderState::Normal, color: white_rgb() }
    }

    /// Takes one byte; `pending` holds the plain text gathered so far in this chunk.
    fn step_byte(&mut self, b: u8, pending: &mut Vec<u8>, out: &mut Vec<Piece>)
        requires
            old(pending)@.len() > 0 ==> old(self).state@ is Normal,
        ensures
            final(pending)@.len() > 0 ==> final(self).state@ is Normal,
            step(dec_state(old(self).state@, old(self).color, old(pending)@), b).0
                == dec_state(final(self).state@, final(self).color, final(pending)@),
            (exists|extra: Seq<Piece>| #![auto]
                final(out)@ == old(out)@ + extra
                && pieces_are(extra, step(dec_state(old(self).state@, old(self).color, old(pending)@), b).1)),
    {
        let mut st = DecoderState::Normal;
        std::mem::swap(&mut self.state, &mut st);
        match st {
            DecoderState::Normal => {
                if b == 27 {
                    flush_run(self.color, pending, out);
                    self.state = DecoderState::Escaped;
                } else if b == 13 {
                    assert(out@ =~= old(out)@ + Seq::<Piece>::empty());
                } else if b == 10 {
                    flush_run(self.color, pending, out);
                    let ghost mid = out@;
                    out.push(Piece::LineBreak);
                    proof {
                        let extra1 = choose|extra: Seq<Piece>| #![auto]
                            mid == old(out)@ + extra && pieces_are(extra, run_of(old(pending)@, self.color));
                        let tail = seq![Piece::LineBreak];
                        assert(pieces_are(tail, seq![Span::Break]));
                        lemma_pieces_concat(extra1, run_of(old(pending)@, self.color), tail, seq![Span::Break]);
                        assert(out@ =~= old(out)@ + (extra1 + tail));
                        assert(run_of(old(pending)@, self.color) + seq![Span::Break]
                            =~= run_of(old(pending)@, self.color).push(Span::Break));
                    }
                } else {
                    pending.push(b);
                    assert(out@ =~= old(out)@ + Seq::<Piece>::empty());
                }
            },
            DecoderState::Escaped => {
                if b == 91 {
                    self.state = DecoderState::Parsing(Vec::new());
                }
                assert(out@ =~= old(out)@ + Seq::<Piece>::empty());
            },
            DecoderState::Parsing(mut buf) => {
                if b == 109 {
                    self.color = lookup_bytes(buf.as_slice());
                } else if (b >= 48 && b <= 57) || b == 59 {
                    buf.push(b);
                    self.state = DecoderState::Parsing(buf);
                }
                assert(out@ =~= old(out)@ + Seq::<Piece>::empty());
            },
        }
    }

    /// Decodes one chunk of bytes. An escape sequence cut off at the end of
    /// the chunk is kept and resumed by the next call; plain text is never
    /// held back, so any text at the end of the chunk comes out as a run.
    pub fn feed(&mut self, bytes: &[u8]) -> (out: Vec<Piece>)
        ensures
            pieces_are(out@, feed_spans(old(self).state@, old(self).color, bytes@)),
            (final(self).state@, final(self).color) == feed_state(old(self).state@, old(self).color, bytes@),
    {
        let ghost start = DecState { phase: self.state@, color: self.color, pending: seq![] };
        let mut out: Vec<Piece> = Vec::new();
        let mut pending: Vec<u8> = Vec::new();
        let mut i: usize = 0;
        while i < bytes.len()
            invariant
                0 <= i <= bytes@.len(),
                pending@.len() > 0 ==> self.state@ is Normal,
                run(start, bytes@.subrange(0, i as int)).0
                    == dec_state(self.state@, self.color, pending@),
                pieces_are(out@, run(start, bytes@.subrange(0, i as int)).1),
            decreases bytes@.len() - i,
        {
            let ghost pre = bytes@.subrange(0, i as int);
            let ghost next = bytes@.subrange(0, i + 1);
            let ghost out0 = out@;
            self.step_byte(bytes[i], &mut pending, &mut out);
            proof {
                assert(next.drop_last() =~= pre);
                let st1 = run(start, pre).0;
                let o2 = step(st1, bytes@[i as int]).1;
                let extra = choose|extra: Seq<Piece>| #![auto]
                    out@ == out0 + extra && pieces_are(extra, o2);
                lemma_pieces_concat(out0, run(start, pre).1, extra, o2);
            }
            i = i + 1;
        }
        assert(bytes@.subrange(0, i as int) =~= bytes@);
        let ghost out0 = out@;
        flush_run(self.color, &mut pending, &mut out);
        proof {
            let o = run(start, bytes@).1;
            let extra = choose|extra: Seq<Piece>| #![auto]
                out@ == out0 + extra && pieces_are(extra, run_of(run(start, bytes@).0.pending, self.color));
            lemma_pieces_concat(out0, o, extra, run_of(run(start, bytes@).0.pending, self.color));
        }
        out
    }
}

/// The characters of a span, each with its colour.
pub open spec fn span_atoms(s: Span) -> Seq<Atom> {
    match s {
        Span::Run(t, c) => t.map_values(|b: u8| Atom::Char(b, c)),
        Span::Break => seq![Atom::Break],
    }
}

/// The characters of a sequence of spans, each with its colour, and the line
/// ends among them: what a reader sees, whatever the grouping into runs.
pub open spec fn atoms_of(ss: Seq<Span>) -> Seq<Atom>
    decreases ss.len(),
{
    if ss.len() == 0 {
        seq![]
    } else {
        atoms_of(ss.drop_last()) + span_atoms(ss.last())
    }
}

proof fn lemma_atoms_concat(a: Seq<Span>, b: Seq<Span>)
    ensures
        atoms_of(a + b) == atoms_of(a) + atoms_of(b),
    decreases b.len(),
{
    if b.len() == 0 {
        assert(a + b =~= a);
        assert(atoms_of(a) + atoms_of(b) =~= atoms_of(a));
    } else {
        lemma_atoms_concat(a, b.drop_last());
        assert((a + b).drop_last() =~= a + b.drop_last());
        assert((a + b).last() == b.last());
        assert(atoms_of(a) + atoms_of(b.drop_last()) + span_atoms(b.last())
            =~= atoms_of(a) + (atoms_of(b.drop_last()) + span_atoms(b.last())));
    }
}

proof fn lemma_atoms_single(x: Span)
    ensures
        atoms_of(seq![x]) == span_atoms(x),
{
    assert(seq![x].drop_last() =~= Seq::<Span>::empty());
    assert(atoms_of(Seq::<Span>::empty()) + span_atoms(x) =~= span_atoms(x));
}

proof fn lemma_run_of_push(t: Seq<u8>, b: u8, c: Rgb)
    ensures
        atoms_of(run_of(t.push(b), c)) == atoms_of(run_of(t, c)) + seq![Atom::Char(b, c)],
{
    lemma_atoms_single(Span::Run(t.push(b), c));
    if t.len() == 0 {
        assert(atoms_of(Seq::<Span>::empty()) == Seq::<Atom>::empty());
        assert(t.push(b).map_values(|x: u8| Atom::Char(x, c)) =~= seq![Atom::Char(b, c)]);
        assert(Seq::<Atom>::empty() + seq![Atom::Char(b, c)] =~= seq![Atom::Char(b, c)]);
    } else {
        lemma_atoms_single(Span::Run(t, c));
        assert(t.push(b).map_values(|x: u8| Atom::Char(x, c))
            =~= t.map_values(|x: u8| Atom::Char(x, c)).push(Atom::Char(b, c)));
    }
}

/// Running two pieces of input one after the other is running them joined.
proof fn lemma_run_append(st: DecState, b1: Seq<u8>, b2: Seq<u8>)
    ensures
        run(st, b1 + b2) == (run(run(st, b1).0, b2).0, run(st, b1).1 + run(run(st, b1).0, b2).1),
    decreases b2.len(),
{
    if b2.len() == 0 {
        assert(b1 + b2 =~= b1);
        assert(run(st, b1).1 + Seq::<Span>::empty() =~= run(st, b1).1);
    } else {
        lemma_run_append(st, b1, b2.drop_last());
        assert((b1 + b2).drop_last() =~= b1 + b2.drop_last());
        assert((b1 + b2).last() == b2.last());
        let s1 = run(st, b1);
        let s2 = run(s1.0, b2.drop_last());
        let s3 = step(s2.0, b2.last());
        assert(s1.1 + s2.1 + s3.1 =~= s1.1 + (s2.1 + s3.1));
    }
}

/// Decoding with gathered text differs from decoding without it only in
/// that text, which comes out first; the phase and colour are the same.
#[verifier::rlimit(80)]
proof fn lemma_run_pending(st: DecState, b: Seq<u8>)
    requires
        st.pending.len() > 0 ==> st.phase is Normal,
    ensures
        ({
            let (e, o) = run(st, b);
            let (e0, o0) = run(DecState { pending: seq![], ..st }, b);
            &&& e.phase == e0.phase
            &&& e.color == e0.color
            &&& e.pending.len() > 0 ==> e.phase is Normal
            &&& e0.pending.len() > 0 ==> e0.phase is Normal
            &&& atoms_of(o) + atoms_of(run_of(e.pending, e.color))
                == atoms_of(run_of(st.pending, st.color)) + atoms_of(o0) + atoms_of(run_of(e0.pending, e0.color))
        }),
    decreases b.len(),
{
    let st0 = DecState { pending: seq![], ..st };
    if b.len() == 0 {
        assert(atoms_of(Seq::<Span>::empty()) == Seq::<Atom>::empty());
        assert(run_of(st0.pending, st0.color) =~= Seq::<Span>::empty());
        assert(atoms_of(run_of(st.pending, st.color)) + Seq::<Atom>::empty() + Seq::<Atom>::empty()
            =~= atoms_of(run_of(st.pending, st.color)));
        assert(Seq::<Atom>::empty() + atoms_of(run_of(st.pending, st.color))
            =~= atoms_of(run_of(st.pending, st.color)));
    } else {
        let pre = b.drop_last();
        let x = b.last();
        lemma_run_pending(st, pre);
        let (e1, o1) = run(st, pre);
        let (f1, q1) = run(st0, pre);
        let (e, o2) = step(e1, x);
        let (f, q2) = step(f1, x);
        let pend0 = atoms_of(run_of(st.pending, st.color));
        lemma_atoms_concat(o1, o2);
        lemma_atoms_concat(q1, q2);
        let a_o1 = atoms_of(o1);
        let a_q1 = atoms_of(q1);
        let pe1 = atoms_of(run_of(e1.pending, e1.color));
        let pf1 = atoms_of(run_of(f1.pending, f1.color));
        assert(a_o1 + pe1 == pend0 + a_q1 + pf1);
        match e1.phase {
            Phase::Normal => {
                if x == 27 || x == 10 {
                    let tail = if x == 27 { Seq::<Span>::empty() } else { seq![Span::Break] };
                    assert(o2 =~= run_of(e1.pending, e1.color) + tail);
                    assert(q2 =~= run_of(f1.pending, f1.color) + tail);
                    lemma_atoms_concat(run_of(e1.pending, e1.color), tail);
                    lemma_atoms_concat(run_of(f1.pending, f1.color), tail);
                    assert(run_of(e.pending, e.color) =~= Seq::<Span>::empty());
                    assert(run_of(f.pending, f.color) =~= Seq::<Span>::empty());
                    assert(atoms_of(Seq::<Span>::empty()) == Seq::<Atom>::empty());
                    assert(a_o1 + (pe1 + atoms_of(tail)) + Seq::<Atom>::empty()
                        =~= (a_o1 + pe1) + atoms_of(tail));
                    assert(pend0 + (a_q1 + (pf1 + atoms_of(tail))) + Seq::<Atom>::empty()
                        =~= (pend0 + a_q1 + pf1) + atoms_of(tail));
                } else if x == 13 {
                    assert(atoms_of(Seq::<Span>::empty()) == Seq::<Atom>::empty());
                    assert(a_o1 + Seq::<Atom>::empty() =~= a_o1);
                    assert(a_q1 + Seq::<Atom>::empty() =~= a_q1);
                } else {
                    lemma_run_of_push(e1.pending, x, e1.color);
                    lemma_run_of_push(f1.pending, x, f1.color);
                    assert(atoms_of(Seq::<Span>::empty()) == Seq::<Atom>::empty());
                    assert(a_o1 + Seq::<Atom>::empty() =~= a_o1);
                    assert(a_q1 + Seq::<Atom>::empty() =~= a_q1);
                    assert(a_o1 + (pe1 + seq![Atom::Char(x, e1.color)])
                        =~= (a_o1 + pe1) + seq![Atom::Char(x, e1.color)]);
                    assert(pend0 + a_q1 + (pf1 + seq![Atom::Char(x, e1.color)])
                        =~= (pend0 + a_q1 + pf1) + seq![Atom::Char(x, e1.color)]);
                }
            },
            _ => {
                assert(e1.pending.len() == 0);
                assert(f1.pending.len() == 0);
                assert(e.pending == e1.pending);
                assert(f.pending == f1.pending);
                assert(atoms_of(Seq::<Span>::empty()) == Seq::<Atom>::empty());
                assert(a_o1 + Seq::<Atom>::empty() =~= a_o1);
                assert(a_q1 + Seq::<Atom>::empty() =~= a_q1);
            },
        }
    }
}

/// Feeding input in two chunks shows the reader the same coloured characters
/// and line ends as feeding it whole, and leaves the decoder in the same
/// state: an escape sequence cut at the split is resumed, not lost.
pub proof fn lemma_feed_chunking(phase: Phase, color: Rgb, b1: Seq<u8>, b2: Seq<u8>)
    ensures
        ({
            let (mid_phase, mid_color) = feed_state(phase, color, b1);
            &&& atoms_of(feed_spans(phase, color, b1 + b2))
                == atoms_of(feed_spans(phase, color, b1)) + atoms_of(feed_spans(mid_phase, mid_color, b2))
            &&& feed_state(phase, color, b1 + b2) == feed_state(mid_phase, mid_color, b2)
        }),
{
    let start = DecState { phase, color, pending: seq![] };
    lemma_run_append(start, b1, b2);
    let (e1, o1) = run(start, b1);
    let (e12, o2) = run(e1, b2);
    lemma_run_pending(start, b1);
    assert(DecState { pending: seq![], ..start } == start);
    lemma_run_pending(e1, b2);
    let start2 = DecState { phase: e1.phase, color: e1.color, pending: seq![] };
    assert(DecState { pending: seq![], ..e1 } == start2);
    let (e2, q2) = run(start2, b2);
    lemma_atoms_concat(o1 + o2, run_of(e12.pending, e12.color));
    lemma_atoms_concat(o1, o2);
    lemma_atoms_concat(o1, run_of(e1.pending, e1.color));
    lemma_atoms_concat(q2, run_of(e2.pending, e2.color));
    let a1 = atoms_of(o1);
    let a2 = atoms_of(o2);
    let r12 = atoms_of(run_of(e12.pending, e12.color));
    let r1 = atoms_of(run_of(e1.pending, e1.color));
    let aq = atoms_of(q2);
    let r2 = atoms_of(run_of(e2.pending, e2.color));
    assert(a2 + r12 == r1 + aq + r2);
    assert(a1 + a2 + r12 =~= a1 + (a2 + r12));
    assert(a1 + (r1 + aq + r2) =~= (a1 + r1) + (aq + r2));
}

/// Any byte other than ESC, `[`, a digit or `;` brings the decoder back to
/// the normal phase, whatever state it was in: no sequence, however
/// malformed, holds it beyond its next such byte.
pub proof fn lemma_step_recovers(st: DecState, b: u8)
    requires
        b != 27,
        b != 91,
        !is_code_byte(b),
    ensures
        step(st, b).0.phase is Normal,
{
}

/// A chunk that does not end in ESC leaves the decoder in the normal phase
/// or inside a colour sequence that the next chunk resumes; only a trailing
/// ESC leaves it waiting for the `[`.
pub proof fn lemma_feed_ends_resumable(phase: Phase, color: Rgb, bytes: Seq<u8>)
    requires
        bytes.len() > 0,
        bytes.last() != 27,
    ensures
        feed_state(phase, color, bytes).0 is Normal || feed_state(phase, color, bytes).0 is Parsing,
{
}

/// Whether `a` ends with `b`.
pub open spec fn ends_with<T>(a: Seq<T>, b: Seq<T>) -> bool {
    a.len() >= b.len() && a.subrange(a.len() - b.len(), a.len() as int) == b
}

/// A byte that plain text may hold: not ESC, carriage return or line feed.
pub open spec fn is_plain_byte(b: u8) -> bool {
    b != 27 && b != 13 && b != 10
}

proof fn lemma_run_plain(st: DecState, t: Seq<u8>)
    requires
        st.phase is Normal,
        forall|i: int| 0 <= i < t.len() ==> is_plain_byte(#[trigger] t[i]),
    ensures
        run(st, t) == (dec_state(st.phase, st.color, st.pending + t), Seq::<Span>::empty()),
    decreases t.len(),
{
    if t.len() == 0 {
        assert(st.pending + t =~= st.pending);
    } else {
        let pre = t.drop_last();
        assert forall|i: int| 0 <= i < pre.len() implies is_plain_byte(#[trigger] pre[i]) by {
            assert(pre[i] == t[i]);
        }
        lemma_run_plain(st, pre);
        assert(is_plain_byte(t[t.len() - 1]));
        assert((st.pending + pre).push(t.last()) =~= st.pending + t);
        assert(Seq::<Span>::empty() + Seq::<Span>::empty() =~= Seq::<Span>::empty());
    }
}

/// Whatever state `p` leaves the decoder in, one byte `x` that cannot go on
/// an escape sequence returns it to plain text, so the plain text `t` that
/// follows comes out at the end of the last run: no escape state leaks past
/// `x`.
pub proof fn lemma_text_after_terminator(phase: Phase, color: Rgb, p: Seq<u8>, x: u8, t: Seq<u8>)
    requires
        x != 27,
        x != 91,
        !is_code_byte(x),
        t.len() > 0,
        forall|i: int| 0 <= i < t.len() ==> is_plain_byte(#[trigger] t[i]),
    ensures
        feed_spans(phase, color, p.push(x) + t).len() > 0,
        feed_spans(phase, color, p.push(x) + t).last() matches Span::Run(text, _) && ends_with(text, t),
{
    let start = DecState { phase, color, pending: seq![] };
    lemma_run_append(start, p.push(x), t);
    assert(p.push(x).drop_last() =~= p);
    let s0 = run(start, p).0;
    lemma_step_recovers(s0, x);
    let (s1, o1) = run(start, p.push(x));
    lemma_run_plain(s1, t);
    let q = s1.pending + t;
    assert(o1 + Seq::<Span>::empty() =~= o1);
    assert(run_of(q, s1.color) == seq![Span::Run(q, s1.color)]);
    assert(q.subrange(q.len() - t.len(), q.len() as int) =~= t);
}

} // verus!

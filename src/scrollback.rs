use vstd::prelude::*;
use crate::color::Rgb;
use crate::decoder::{Piece, StyledRun};

verus! {

/// A run as its characters and colour.
pub open spec fn run_view(r: StyledRun) -> (Seq<char>, Rgb) {
    (r.text@, r.color)
}

/// A line as the sequence of its runs.
pub open spec fn line_view(l: Seq<StyledRun>) -> Seq<(Seq<char>, Rgb)> {
    l.map_values(|r: StyledRun| run_view(r))
}

pub open spec fn lines_view(ls: Seq<Vec<StyledRun>>) -> Seq<Seq<(Seq<char>, Rgb)>> {
    ls.map_values(|l: Vec<StyledRun>| line_view(l@))
}

/// Decoded output as a sequence of runs (`Some`) and line ends (`None`).
pub open spec fn piece_item(p: Piece) -> Option<(Seq<char>, Rgb)> {
    match p {
        Piece::Run(r) => Some(run_view(r)),
        Piece::LineBreak => None,
    }
}

/// The finished lines and the line in progress after reading `items`.
pub open spec fn split_acc(items: Seq<Option<(Seq<char>, Rgb)>>) -> (Seq<Seq<(Seq<char>, Rgb)>>, Seq<(Seq<char>, Rgb)>)
    decreases items.len(),
{
    if items.len() == 0 {
        (seq![], seq![])
    } else {
        let (done, cur) = split_acc(items.drop_last());
        match items.last() {
            Some(r) => (done, cur.push(r)),
            None => (done.push(cur), seq![]),
        }
    }
}

/// The lines that decoded output forms: each line end closes a line (which
/// may be empty), and runs after the last line end form one more line.
pub open spec fn split_lines(items: Seq<Option<(Seq<char>, Rgb)>>) -> Seq<Seq<(Seq<char>, Rgb)>> {
    let (done, cur) = split_acc(items);
    if cur.len() > 0 {
        done.push(cur)
    } else {
        done
    }
}

/// Copies a run; the copy is equal to it.
pub fn copy_run(r: &StyledRun) -> (c: StyledRun)
    ensures
        c == *r,
{
    StyledRun { text: r.text.clone(), color: r.color }
}

/// Copies a line run by run.
pub fn copy_line(l: &Vec<StyledRun>) -> (c: Vec<StyledRun>)
    ensures
        c@ == l@,
{
    let mut c: Vec<StyledRun> = Vec::new();
    let mut i: usize = 0;
    while i < l.len()
        invariant
            0 <= i <= l@.len(),
            c@ == l@.subrange(0, i as int),
        decreases l@.len() - i,
    {
        c.push(copy_run(&l[i]));
        assert(c@ =~= l@.subrange(0, i + 1));
        i = i + 1;
    }
    assert(l@.subrange(0, i as int) =~= l@);
    c
}

/// Groups decoded output into lines.
pub fn split_into_lines(pieces: Vec<Piece>) -> (r: Vec<Vec<StyledRun>>)
    ensures
        lines_view(r@) == split_lines(pieces@.map_values(|p: Piece| piece_item(p))),
{
    let ghost items = pieces@.map_values(|p: Piece| piece_item(p));
    let mut done: Vec<Vec<StyledRun>> = Vec::new();
    let mut cur: Vec<StyledRun> = Vec::new();
    let mut i: usize = 0;
    while i < pieces.len()
        invariant
            0 <= i <= pieces@.len(),
            items == pieces@.map_values(|p: Piece| piece_item(p)),
            split_acc(items.subrange(0, i as int)) == (lines_view(done@), line_view(cur@)),
        decreases pieces@.len() - i,
    {
        let ghost pre = items.subrange(0, i as int);
        assert(items.subrange(0, i + 1).drop_last() =~= pre);
        assert(items.subrange(0, i + 1).last() == piece_item(pieces@[i as int]));
        match &pieces[i] {
            Piece::Run(r) => {
                cur.push(copy_run(r));
                assert(line_view(cur@) =~= split_acc(pre).1.push(run_view(*r)));
            },
            Piece::LineBreak => {
                let mut line: Vec<StyledRun> = Vec::new();
                std::mem::swap(&mut line, &mut cur);
                done.push(line);
                assert(lines_view(done@) =~= split_acc(pre).0.push(split_acc(pre).1));
                assert(line_view(cur@) =~= Seq::<(Seq<char>, Rgb)>::empty());
            },
        }
        i = i + 1;
    }
    assert(items.subrange(0, i as int) =~= items);
    if cur.len() > 0 {
        done.push(cur);
        assert(lines_view(done@) =~= split_acc(items).0.push(split_acc(items).1));
    }
    done
}

/// The scrollback: lines in the order they were added, never changed once
/// added.
pub struct Scrollback {
    lines: Vec<Vec<StyledRun>>,
}

impl View for Scrollback {
    type V = Seq<Seq<(Seq<char>, Rgb)>>;

    closed spec fn view(&self) -> Self::V {
        lines_view(self.lines@)
    }
}

impl Scrollback {
    pub fn new() -> (s: Self)
        ensures
            s@ == Seq::<Seq<(Seq<char>, Rgb)>>::empty(),
    {
        let s = Scrollback { lines: Vec::new() };
        assert(s@ =~= Seq::<Seq<(Seq<char>, Rgb)>>::empty());
        s
    }

    pub fn len(&self) -> (n: usize)
        ensures
            n == self@.len(),
    {
        self.lines.len()
    }

    /// Adds a line at the end.
    pub fn append(&mut self, line: Vec<StyledRun>)
        ensures
            final(self)@ == old(self)@.push(line_view(line@)),
    {
        self.lines.push(line);
        assert(final(self)@ =~= old(self)@.push(line_view(line@)));
    }

    /// Adds lines at the end, in order.
    pub fn append_all(&mut self, lines: Vec<Vec<StyledRun>>)
        ensures
            final(self)@ == old(self)@ + lines_view(lines@),
    {
        let mut lines = lines;
        let ghost added = lines@;
        self.lines.append(&mut lines);
        assert(final(self)@ =~= old(self)@ + lines_view(added));
    }

    /// The line at position `i`.
    pub fn line(&self, i: usize) -> (l: &Vec<StyledRun>)
        requires
            i < self@.len(),
        ensures
            line_view(l@) == self@[i as int],
    {
        &self.lines[i]
    }

    /// Copies of the lines from `from` up to, not including, `to`. Reading
    /// the same range again gives the same lines.
    pub fn read_range(&self, from: usize, to: usize) -> (r: Vec<Vec<StyledRun>>)
        requires
            from <= to <= self@.len(),
        ensures
            lines_view(r@) == self@.subrange(from as int, to as int),
    {
        let mut r: Vec<Vec<StyledRun>> = Vec::new();
        let mut i: usize = from;
        while i < to
            invariant
                from <= i <= to <= self.lines@.len(),
                lines_view(r@) == self@.subrange(from as int, i as int),
            decreases to - i,
        {
            let l = copy_line(&self.lines[i]);
            assert(line_view(l@) == self@[i as int]);
            let ghost r0 = r@;
            r.push(l);
            assert(r@ == r0.push(l));
            assert(lines_view(r@) =~= lines_view(r0).push(line_view(l@)));
            assert(lines_view(r@) =~= self@.subrange(from as int, i + 1));
            i = i + 1;
        }
        r
    }
}

} // verus!

//! One unbounded tape: a sparse store of cells, a head, and the window of
//! positions that rendering walks.

use crate::cell::Cell;
use std::collections::HashMap;
use vstd::prelude::*;
use vstd::string::StringExecFns;

verus! {

/// The mathematical content of a tape.
pub struct TapeView {
    /// The populated positions. A position outside the domain is blank.
    pub cells: Map<int, Cell>,
    /// Left end of the window.
    pub min: int,
    /// Right end of the window.
    pub max: int,
    /// Where the next read or write happens.
    pub head: int,
}

/// Walking right from `lo`, the first position that is populated, or `hi` if
/// none before it is.
pub open spec fn first_kept(cells: Map<int, Cell>, lo: int, hi: int) -> int
    decreases hi - lo,
{
    if lo < hi && !cells.contains_key(lo) {
        first_kept(cells, lo + 1, hi)
    } else {
        lo
    }
}

/// Walking left from `hi`, the first position that is populated, or `lo` if
/// none after it is.
pub open spec fn last_kept(cells: Map<int, Cell>, lo: int, hi: int) -> int
    decreases hi - lo,
{
    if lo < hi && !cells.contains_key(hi) {
        last_kept(cells, lo, hi - 1)
    } else {
        hi
    }
}

/// The cells at positions `lo` to `hi`, both included, left to right.
pub open spec fn span(cells: Map<int, Cell>, lo: int, hi: int) -> Seq<Cell> {
    Seq::new(
        if lo <= hi {
            (hi - lo + 1) as nat
        } else {
            0
        },
        |i: int|
            if cells.contains_key(lo + i) {
                cells[lo + i]
            } else {
                Cell::Blank
            },
    )
}

/// The glyphs of a run of cells.
pub open spec fn glyphs(cells: Seq<Cell>) -> Seq<char> {
    Seq::new(cells.len(), |i: int| cells[i].glyph())
}

impl TapeView {
    /// The window is not empty, no stored cell is blank, and every stored
    /// cell lies inside the window.
    pub open spec fn wf(self) -> bool {
        &&& self.min <= self.max
        &&& forall|p: int| #[trigger] self.cells.contains_key(p) ==> self.cells[p] != Cell::Blank
        &&& forall|p: int| #[trigger] self.cells.contains_key(p) ==> self.min <= p <= self.max
    }

    /// The window has no blank cell at either end, unless it is a single cell.
    pub open spec fn tight(self) -> bool {
        self.min == self.max || (self.cells.contains_key(self.min) && self.cells.contains_key(
            self.max,
        ))
    }

    /// The window is as the tape's own operations leave it: tight, and on a
    /// tape without a populated cell the single cell under the head.
    pub open spec fn settled(self) -> bool {
        &&& self.tight()
        &&& self.cells == Map::<int, Cell>::empty() ==> self.min == self.head && self.max
            == self.head
    }

    /// What position `p` holds.
    pub open spec fn cell_at(self, p: int) -> Cell {
        if self.cells.contains_key(p) {
            self.cells[p]
        } else {
            Cell::Blank
        }
    }

    /// What the head reads.
    pub open spec fn read(self) -> Cell {
        self.cell_at(self.head)
    }

    /// The leftmost position that rendering shows: the window's left end, or
    /// the head where it stands further left.
    pub open spec fn lo(self) -> int {
        if self.head < self.min {
            self.head
        } else {
            self.min
        }
    }

    /// The rightmost position that rendering shows.
    pub open spec fn hi(self) -> int {
        if self.head > self.max {
            self.head
        } else {
            self.max
        }
    }

    /// The window shrunk past blank cells at its ends, never below one cell.
    ///
    /// When the head stands at or right of the left end, the window first
    /// reaches out to the head on the right, then the left end moves in, then
    /// the right end. When the head stands left of the window, the window
    /// reaches out to it on the left, then the right end moves in, then the
    /// left end. With no populated cell in reach the single cell that is left
    /// is therefore the end that was treated second.
    pub open spec fn trim(self) -> TapeView {
        if self.head >= self.min {
            let hi = self.hi();
            let lo = first_kept(self.cells, self.min, hi);
            TapeView { min: lo, max: last_kept(self.cells, lo, hi), ..self }
        } else {
            let lo = self.head;
            let hi = last_kept(self.cells, lo, self.max);
            TapeView { min: first_kept(self.cells, lo, hi), max: hi, ..self }
        }
    }

    /// The head moved one position to the left.
    pub open spec fn left(self) -> TapeView {
        TapeView { head: self.head - 1, ..self }.trim()
    }

    /// The head moved one position to the right.
    pub open spec fn right(self) -> TapeView {
        TapeView { head: self.head + 1, ..self }.trim()
    }

    /// `cell` written under the head: a blank clears the position, a symbol
    /// is stored and the window reaches out to it.
    pub open spec fn write(self, cell: Cell) -> TapeView {
        match cell {
            Cell::Blank => TapeView { cells: self.cells.remove(self.head), ..self }.trim(),
            Cell::Symbol(_) => TapeView {
                cells: self.cells.insert(self.head, cell),
                min: self.lo(),
                max: self.hi(),
                head: self.head,
            }.trim(),
        }
    }

    /// The cells that rendering shows, left to right: the window, reaching
    /// out to the head where it stands outside.
    pub open spec fn shown(self) -> Seq<Cell> {
        span(self.cells, self.lo(), self.hi())
    }

    /// The tape as text: one glyph per shown cell.
    pub open spec fn rendered(self) -> Seq<char> {
        glyphs(self.shown())
    }

    /// The tape as text with `state` spliced in just before the glyph under
    /// the head.
    pub open spec fn rendered_with_state(self, state: Seq<char>) -> Seq<char> {
        let text = self.rendered();
        let k = self.head - self.lo();
        text.subrange(0, k) + state + text.subrange(k, text.len() as int)
    }

    /// The tape with nothing on it.
    pub open spec fn empty() -> TapeView {
        TapeView { cells: Map::empty(), min: 0, max: 0, head: 0 }
    }

    /// The tape that holds `text` from position 0 on, the head on position 0.
    /// The reserved glyph leaves its position blank.
    pub open spec fn from_text(text: Seq<char>) -> TapeView {
        TapeView {
            cells: Map::new(
                |p: int| 0 <= p < text.len() && Cell::of_glyph(text[p]) != Cell::Blank,
                |p: int| Cell::of_glyph(text[p]),
            ),
            min: 0,
            max: if text.len() == 0 {
                0
            } else {
                text.len() - 1
            },
            head: 0,
        }
    }
}

/// `first_kept` stays in range, stops on a populated cell or on `hi`, and
/// passes over blank cells only.
pub proof fn lemma_first_kept(cells: Map<int, Cell>, lo: int, hi: int)
    requires
        lo <= hi,
    ensures
        lo <= first_kept(cells, lo, hi) <= hi,
        first_kept(cells, lo, hi) == hi || cells.contains_key(first_kept(cells, lo, hi)),
        forall|p: int| lo <= p < first_kept(cells, lo, hi) ==> !cells.contains_key(p),
    decreases hi - lo,
{
    if lo < hi && !cells.contains_key(lo) {
        lemma_first_kept(cells, lo + 1, hi);
    }
}

/// `last_kept` stays in range, stops on a populated cell or on `lo`, and
/// passes over blank cells only.
pub proof fn lemma_last_kept(cells: Map<int, Cell>, lo: int, hi: int)
    requires
        lo <= hi,
    ensures
        lo <= last_kept(cells, lo, hi) <= hi,
        last_kept(cells, lo, hi) == lo || cells.contains_key(last_kept(cells, lo, hi)),
        forall|p: int| last_kept(cells, lo, hi) < p <= hi ==> !cells.contains_key(p),
    decreases hi - lo,
{
    if lo < hi && !cells.contains_key(hi) {
        lemma_last_kept(cells, lo, hi - 1);
    }
}

/// Trimming touches the window only, keeps a well-formed tape well formed,
/// and leaves the window tight.
pub proof fn lemma_trim(v: TapeView)
    requires
        v.wf(),
    ensures
        v.trim().cells == v.cells,
        v.trim().head == v.head,
        v.trim().wf(),
        v.trim().tight(),
        v.lo() <= v.trim().min <= v.trim().max <= v.hi(),
{
    if v.head >= v.min {
        let hi = v.hi();
        lemma_first_kept(v.cells, v.min, hi);
        let lo = first_kept(v.cells, v.min, hi);
        lemma_last_kept(v.cells, lo, hi);
    } else {
        let lo = v.head;
        lemma_last_kept(v.cells, lo, v.max);
        let hi = last_kept(v.cells, lo, v.max);
        lemma_first_kept(v.cells, lo, hi);
    }
}

/// On a tape with no populated cell, trimming leaves the single cell that is
/// the far end in the order of treatment: the right end of the reach when the
/// head stands at or right of the window's left end, the head itself when it
/// stands left of the window.
pub proof fn lemma_trim_blank_tape(v: TapeView)
    requires
        v.min <= v.max,
        v.cells == Map::<int, Cell>::empty(),
    ensures
        v.head >= v.min ==> v.trim().min == v.hi() && v.trim().max == v.hi(),
        v.head < v.min ==> v.trim().min == v.head && v.trim().max == v.head,
{
    if v.head >= v.min {
        let hi = v.hi();
        lemma_first_kept(v.cells, v.min, hi);
        lemma_last_kept(v.cells, first_kept(v.cells, v.min, hi), hi);
    } else {
        lemma_last_kept(v.cells, v.head, v.max);
        lemma_first_kept(v.cells, v.head, last_kept(v.cells, v.head, v.max));
    }
}

/// What was written under the head is what the head then reads, blank or
/// symbol alike.
pub proof fn lemma_write_then_read(v: TapeView, cell: Cell)
    requires
        v.wf(),
    ensures
        v.write(cell).read() == cell,
{
    match cell {
        Cell::Blank => {
            lemma_trim(TapeView { cells: v.cells.remove(v.head), ..v });
        },
        Cell::Symbol(_) => {
            lemma_trim(
                TapeView { cells: v.cells.insert(v.head, cell), min: v.lo(), max: v.hi(), head: v.head },
            );
        },
    }
}

/// A write changes the position under the head and no other, and leaves the
/// head where it was.
pub proof fn lemma_write_frame(v: TapeView, cell: Cell, p: int)
    requires
        v.wf(),
        p != v.head,
    ensures
        v.write(cell).cell_at(p) == v.cell_at(p),
        v.write(cell).head == v.head,
{
    match cell {
        Cell::Blank => {
            lemma_trim(TapeView { cells: v.cells.remove(v.head), ..v });
        },
        Cell::Symbol(_) => {
            lemma_trim(
                TapeView { cells: v.cells.insert(v.head, cell), min: v.lo(), max: v.hi(), head: v.head },
            );
        },
    }
}

/// Every mutation keeps a well-formed tape well formed, so its window never
/// becomes empty, and leaves the window tight.
pub proof fn lemma_mutations_keep_wf(v: TapeView, cell: Cell)
    requires
        v.wf(),
    ensures
        v.left().wf() && v.left().tight() && v.left().min <= v.left().max,
        v.right().wf() && v.right().tight() && v.right().min <= v.right().max,
        v.write(cell).wf() && v.write(cell).tight() && v.write(cell).min <= v.write(cell).max,
{
    lemma_trim(TapeView { head: v.head - 1, ..v });
    lemma_trim(TapeView { head: v.head + 1, ..v });
    match cell {
        Cell::Blank => {
            lemma_trim(TapeView { cells: v.cells.remove(v.head), ..v });
        },
        Cell::Symbol(_) => {
            lemma_trim(
                TapeView { cells: v.cells.insert(v.head, cell), min: v.lo(), max: v.hi(), head: v.head },
            );
        },
    }
}

/// Moving the head changes no cell, and a move to one side undoes a move to
/// the other as far as the head and the cells go.
pub proof fn lemma_moves(v: TapeView)
    requires
        v.wf(),
    ensures
        v.left().cells == v.cells,
        v.right().cells == v.cells,
        v.left().head == v.head - 1,
        v.right().head == v.head + 1,
        v.left().right().head == v.head,
        v.right().left().head == v.head,
{
    lemma_trim(TapeView { head: v.head - 1, ..v });
    lemma_trim(TapeView { head: v.head + 1, ..v });
    lemma_trim(TapeView { head: v.left().head + 1, ..v.left() });
    lemma_trim(TapeView { head: v.right().head - 1, ..v.right() });
}

/// On a tape with a populated cell and a tight window, trimming leaves the
/// window as it is, wherever the head stands.
pub proof fn lemma_trim_keeps_tight_window(v: TapeView)
    requires
        v.wf(),
        v.tight(),
        v.cells != Map::<int, Cell>::empty(),
    ensures
        v.trim().min == v.min,
        v.trim().max == v.max,
{
    assert(v.cells.contains_key(v.min) && v.cells.contains_key(v.max)) by {
        if v.min == v.max {
            if !v.cells.contains_key(v.min) {
                assert(v.cells =~= Map::<int, Cell>::empty());
            }
        }
    }
    if v.head >= v.min {
        let hi = v.hi();
        assert(first_kept(v.cells, v.min, hi) == v.min);
        lemma_last_kept(v.cells, v.min, hi);
    } else {
        assert(last_kept(v.cells, v.head, v.max) == v.max);
        lemma_first_kept(v.cells, v.head, v.max);
    }
}

/// A new tape and a tape made of a text are settled, the latter unless the
/// text begins or ends with the reserved glyph.
pub proof fn lemma_settled_start(text: Seq<char>)
    ensures
        TapeView::empty().wf() && TapeView::empty().settled(),
        TapeView::from_text(text).wf(),
        text.len() == 0 || (Cell::of_glyph(text[0]) != Cell::Blank && Cell::of_glyph(text.last())
            != Cell::Blank) ==> TapeView::from_text(text).settled(),
{
    let t = TapeView::from_text(text);
    if text.len() == 0 {
        assert(t.cells =~= Map::<int, Cell>::empty());
    } else if Cell::of_glyph(text[0]) != Cell::Blank && Cell::of_glyph(text.last()) != Cell::Blank {
        assert(t.cells.contains_key(0));
        assert(t.cells.contains_key(text.len() - 1));
    }
}

/// On a settled tape the moves undo each other altogether: after a move to
/// one side and a move back the tape is as it was, cells, head and window,
/// and so is its rendered text. Every operation keeps a settled tape
/// settled.
pub proof fn lemma_settled(v: TapeView, cell: Cell)
    requires
        v.wf(),
        v.settled(),
    ensures
        v.left().settled(),
        v.right().settled(),
        v.write(cell).settled(),
        v.left().right() == v,
        v.right().left() == v,
        v.left().right().rendered() == v.rendered(),
        v.right().left().rendered() == v.rendered(),
{
    let l = TapeView { head: v.head - 1, ..v };
    let r = TapeView { head: v.head + 1, ..v };
    lemma_trim(l);
    lemma_trim(r);
    if v.cells == Map::<int, Cell>::empty() {
        lemma_trim_blank_tape(l);
        lemma_trim_blank_tape(r);
        let lr = TapeView { head: v.head, ..v.left() };
        let rl = TapeView { head: v.head, ..v.right() };
        lemma_trim_blank_tape(lr);
        lemma_trim_blank_tape(rl);
    } else {
        lemma_trim_keeps_tight_window(l);
        lemma_trim_keeps_tight_window(r);
        let lr = TapeView { head: v.head, ..v.left() };
        let rl = TapeView { head: v.head, ..v.right() };
        lemma_trim_keeps_tight_window(lr);
        lemma_trim_keeps_tight_window(rl);
    }
    match cell {
        Cell::Blank => {
            let w = TapeView { cells: v.cells.remove(v.head), ..v };
            lemma_trim(w);
            if w.cells == Map::<int, Cell>::empty() {
                assert(v.min == v.head && v.max == v.head) by {
                    if v.cells != Map::<int, Cell>::empty() {
                        assert forall|p: int| v.cells.contains_key(p) implies p == v.head by {
                            if p != v.head {
                                assert(w.cells.contains_key(p));
                            }
                        }
                        if !v.cells.contains_key(v.head) {
                            assert(v.cells =~= Map::<int, Cell>::empty());
                        }
                    }
                }
                lemma_trim_blank_tape(w);
            }
        },
        Cell::Symbol(_) => {
            let w = TapeView {
                cells: v.cells.insert(v.head, cell),
                min: v.lo(),
                max: v.hi(),
                head: v.head,
            };
            lemma_trim(w);
            assert(w.cells.contains_key(v.head));
        },
    }
}

/// The populated positions of a store keyed by machine integers.
pub open spec fn cells_of(store: Map<isize, Cell>) -> Map<int, Cell> {
    Map::new(
        |p: int| isize::MIN <= p <= isize::MAX && store.contains_key(p as isize),
        |p: int| store[p as isize],
    )
}

/// An unbounded tape of cells with a read/write head.
pub struct Tape {
    tape: HashMap<isize, Cell>,
    min: isize,
    max: isize,
    head: isize,
}

impl View for Tape {
    type V = TapeView;

    closed spec fn view(&self) -> TapeView {
        TapeView {
            cells: cells_of(self.tape@),
            min: self.min as int,
            max: self.max as int,
            head: self.head as int,
        }
    }
}

impl Tape {
    /// The tape's invariant: that of its content.
    pub open spec fn wf(&self) -> bool {
        self@.wf()
    }

    /// An empty tape: window `[0, 0]`, head on 0.
    pub fn new() -> (tape: Tape)
        ensures
            tape.wf(),
            tape@ == TapeView::empty(),
    {
        let tape = Tape { tape: HashMap::new(), min: 0, max: 0, head: 0 };
        assert(tape@.cells =~= Map::<int, Cell>::empty());
        tape
    }

    /// Moves the head one position to the left.
    pub fn left(&mut self)
        requires
            old(self).wf(),
            old(self)@.head > isize::MIN,
        ensures
            final(self).wf(),
            final(self)@ == old(self)@.left(),
    {
        self.head -= 1;
        self.trim();
    }

    /// Moves the head one position to the right.
    pub fn right(&mut self)
        requires
            old(self).wf(),
            old(self)@.head < isize::MAX,
        ensures
            final(self).wf(),
            final(self)@ == old(self)@.right(),
    {
        self.head += 1;
        self.trim();
    }

    /// The position of the head.
    pub fn head(&self) -> (head: isize)
        ensures
            head == self@.head,
    {
        self.head
    }

    /// The cell under the head; blank where nothing is stored.
    pub fn get(&self) -> (cell: &Cell)
        ensures
            *cell == self@.read(),
    {
        match self.tape.get(&self.head) {
            Some(cell) => cell,
            None => &Cell::Blank,
        }
    }

    /// Writes `cell` under the head.
    pub fn write(&mut self, cell: Cell)
        requires
            old(self).wf(),
        ensures
            final(self).wf(),
            final(self)@ == old(self)@.write(cell),
    {
        match cell {
            Cell::Blank => {
                self.tape.remove(&self.head);
                assert(self@.cells =~= old(self)@.cells.remove(old(self)@.head));
            },
            Cell::Symbol(_) => {
                self.tape.insert(self.head, cell);
                if self.head > self.max {
                    self.max = self.head;
                } else if self.head < self.min {
                    self.min = self.head;
                }
                assert(self@.cells =~= old(self)@.cells.insert(old(self)@.head, cell));
            },
        }
        self.trim();
    }

    /// Shrinks the window past blank cells at its ends.
    fn trim(&mut self)
        requires
            old(self).wf(),
        ensures
            final(self).wf(),
            final(self)@ == old(self)@.trim(),
    {
        proof {
            lemma_trim(old(self)@);
        }
        if self.head >= self.min {
            if self.head > self.max {
                self.max = self.head;
            }
            let ghost lo0 = old(self)@.min;
            let ghost hi0 = old(self)@.hi();
            while self.min < self.max && !self.tape.contains_key(&self.min)
                invariant
                    self.tape == old(self).tape,
                    self.head == old(self).head,
                    self.max == hi0,
                    lo0 <= self.min <= hi0,
                    first_kept(self@.cells, self.min as int, hi0) == first_kept(
                        self@.cells,
                        lo0,
                        hi0,
                    ),
                decreases self.max - self.min,
            {
                self.min += 1;
            }
            let ghost lo1 = self.min as int;
            while self.min < self.max && !self.tape.contains_key(&self.max)
                invariant
                    self.tape == old(self).tape,
                    self.head == old(self).head,
                    self.min == lo1,
                    lo1 <= self.max <= hi0,
                    last_kept(self@.cells, lo1, self.max as int) == last_kept(
                        self@.cells,
                        lo1,
                        hi0,
                    ),
                decreases self.max - self.min,
            {
                self.max -= 1;
            }
        } else {
            self.min = self.head;
            let ghost lo0 = self.head as int;
            let ghost hi0 = old(self)@.max;
            while self.min < self.max && !self.tape.contains_key(&self.max)
                invariant
                    self.tape == old(self).tape,
                    self.head == old(self).head,
                    self.min == lo0,
                    lo0 <= self.max <= hi0,
                    last_kept(self@.cells, lo0, self.max as int) == last_kept(
                        self@.cells,
                        lo0,
                        hi0,
                    ),
                decreases self.max - self.min,
            {
                self.max -= 1;
            }
            let ghost hi1 = self.max as int;
            while self.min < self.max && !self.tape.contains_key(&self.min)
                invariant
                    self.tape == old(self).tape,
                    self.head == old(self).head,
                    self.max == hi1,
                    lo0 <= self.min <= hi1,
                    first_kept(self@.cells, self.min as int, hi1) == first_kept(
                        self@.cells,
                        lo0,
                        hi1,
                    ),
                decreases self.max - self.min,
            {
                self.min += 1;
            }
        }
    }

    /// A cursor over the cells that rendering shows, left to right.
    pub fn iter(&self) -> (it: TapeIter<'_>)
        ensures
            it.remaining() == self@.shown(),
    {
        TapeIter::new(&self.tape, self.min, self.max, self.head)
    }

    /// The number of positions in the window.
    pub fn len(&self) -> (n: usize)
        requires
            self.wf(),
            self@.max - self@.min < usize::MAX,
        ensures
            n == self@.max - self@.min + 1,
    {
        (self.max as i128 - self.min as i128 + 1) as usize
    }

    /// The tape as text: the glyph of every shown cell, left to right.
    pub fn to_string(&self) -> (text: String)
        ensures
            text@ == self@.rendered(),
    {
        let mut text = String::new();
        let mut it = self.iter();
        let ghost shown = self@.shown();
        loop
            invariant
                shown == self@.shown(),
                text@.len() + it.remaining().len() == shown.len(),
                text@ == glyphs(shown.take(text@.len() as int)),
                it.remaining() == shown.skip(text@.len() as int),
            ensures
                text@ == self@.rendered(),
            decreases it.remaining().len(),
        {
            match it.next() {
                Some(cell) => {
                    text.push(cell.to_char());
                    assert(text@ =~= glyphs(shown.take(text@.len() as int)));
                    assert(it.remaining() =~= shown.skip(text@.len() as int));
                },
                None => {
                    assert(shown.take(text@.len() as int) =~= shown);
                    break ;
                },
            }
        }
        text
    }

    /// The tape as text, with `state` spliced in just before the glyph under
    /// the head.
    pub fn to_string_with_state(&self, state: &str) -> (text: String)
        ensures
            text@ == self@.rendered_with_state(state@),
    {
        let lo = if self.head < self.min {
            self.head
        } else {
            self.min
        };
        let hi = if self.head > self.max {
            self.head
        } else {
            self.max
        };
        let ghost full = self@.rendered();
        let ghost k = self@.head - self@.lo();
        let mut text = String::new();
        let mut p = lo;
        loop
            invariant_except_break
                lo <= p <= hi,
                p <= self.head ==> text@ == full.subrange(0, p - lo),
                p > self.head ==> text@ == full.subrange(0, k) + state@ + full.subrange(k, p - lo),
            invariant
                lo == self@.lo(),
                hi == self@.hi(),
                lo <= self.head <= hi,
                full == self@.rendered(),
                k == self.head - lo,
            ensures
                text@ == self@.rendered_with_state(state@),
            decreases hi - p,
        {
            if p == self.head {
                text.append(state);
            }
            let cell = match self.tape.get(&p) {
                Some(cell) => *cell,
                None => Cell::Blank,
            };
            text.push(cell.to_char());
            assert(full[p - lo] == cell.glyph());
            if p < self.head {
                assert(text@ =~= full.subrange(0, p - lo + 1));
            } else {
                assert(text@ =~= full.subrange(0, k) + state@ + full.subrange(k, p - lo + 1));
            }
            if p == hi {
                break ;
            }
            p += 1;
        }
        text
    }

    /// The tape that holds `text` from position 0 on, one cell per character,
    /// with the head on position 0.
    pub fn from(value: &str) -> (tape: Tape)
        requires
            value@.len() <= isize::MAX,
        ensures
            tape.wf(),
            tape@ == TapeView::from_text(value@),
    {
        broadcast use vstd::string::group_string_axioms;

        let mut store: HashMap<isize, Cell> = HashMap::new();
        let mut n: isize = 0;
        for ch in it: value.chars()
            invariant
                it.seq() == value@,
                value@.len() <= isize::MAX,
                n == it.index(),
                cells_of(store@) =~= TapeView::from_text(value@.take(n as int)).cells,
        {
            let ghost before = TapeView::from_text(value@.take(n as int)).cells;
            let cell = Cell::from_char(ch);
            if cell != Cell::Blank {
                store.insert(n, cell);
            }
            n += 1;
            proof {
                let after = TapeView::from_text(value@.take(n as int)).cells;
                assert(ch == value@[n - 1]);
                assert forall|p: int| 0 <= p < n - 1 implies value@.take(n as int)[p] == value@.take(
                    n - 1,
                )[p] by {}
                assert(value@.take(n as int)[n - 1] == ch);
                if cell != Cell::Blank {
                    assert(after =~= before.insert(n - 1, cell));
                } else {
                    assert(after =~= before);
                }
            }
        }
        assert(value@.take(n as int) =~= value@);
        let max = if n == 0 {
            0
        } else {
            n - 1
        };
        Tape { tape: store, min: 0, max, head: 0 }
    }
}

/// A cursor over a run of tape positions, left to right.
pub struct TapeIter<'a> {
    tape: &'a HashMap<isize, Cell>,
    index: isize,
    max: isize,
    done: bool,
}

impl<'a> TapeIter<'a> {
    /// The cells that the cursor has yet to hand out.
    pub closed spec fn remaining(&self) -> Seq<Cell> {
        if self.done {
            Seq::empty()
        } else {
            span(cells_of(self.tape@), self.index as int, self.max as int)
        }
    }

    /// A cursor over the window `[min, max]` of `tape`, reaching out to
    /// `head` where it lies outside.
    pub fn new(tape: &'a HashMap<isize, Cell>, min: isize, max: isize, head: isize) -> (it: Self)
        ensures
            it.remaining() == span(
                cells_of(tape@),
                if head < min {
                    head as int
                } else {
                    min as int
                },
                if head > max {
                    head as int
                } else {
                    max as int
                },
            ),
    {
        Self {
            tape,
            index: if head < min {
                head
            } else {
                min
            },
            max: if head > max {
                head
            } else {
                max
            },
            done: false,
        }
    }

    /// Hands out the next cell, blank where nothing is stored, or `None`
    /// once the run is exhausted.
    pub fn next(&mut self) -> (cell: Option<Cell>)
        ensures
            old(self).remaining().len() == 0 ==> cell.is_none() && final(self).remaining()
                == old(self).remaining(),
            old(self).remaining().len() > 0 ==> cell == Some(old(self).remaining()[0])
                && final(self).remaining() == old(self).remaining().drop_first(),
    {
        if self.done || self.index > self.max {
            return None;
        }
        let cell = match self.tape.get(&self.index) {
            Some(cell) => *cell,
            None => Cell::Blank,
        };
        if self.index == self.max {
            self.done = true;
        } else {
            self.index += 1;
        }
        assert(self.remaining() =~= old(self).remaining().drop_first());
        Some(cell)
    }
}

} // verus!

//! Transition rules: for one tape (`Command`) and for several (`MultiCommand`).

use crate::cell::Cell;
use crate::error::Error;
use vstd::prelude::*;

verus! {

/// Where a head moves after a write: one position to the left, not at all,
/// or one position to the right.
#[derive(Clone, Copy, Debug, PartialEq, Eq, Structural)]
pub enum Direction {
    Left,
    Stay,
    Right,
}

impl Direction {
    /// The letter that denotes a direction: `L`, `N` (no move) or `R`.
    pub open spec fn letter(self) -> char {
        match self {
            Direction::Left => 'L',
            Direction::Stay => 'N',
            Direction::Right => 'R',
        }
    }

    /// How far the head moves: -1, 0 or +1.
    pub open spec fn delta(self) -> int {
        match self {
            Direction::Left => -1,
            Direction::Stay => 0,
            Direction::Right => 1,
        }
    }

    /// The direction that a letter denotes; every character but `L`, `N` and
    /// `R` is refused.
    pub fn from_char(ch: char) -> (r: Result<Direction, Error>)
        ensures
            ch == 'L' ==> r == Ok::<Direction, Error>(Direction::Left),
            ch == 'N' ==> r == Ok::<Direction, Error>(Direction::Stay),
            ch == 'R' ==> r == Ok::<Direction, Error>(Direction::Right),
            ch != 'L' && ch != 'N' && ch != 'R' ==> r == Err::<Direction, Error>(
                Error::InvalidChar,
            ),
    {
        match ch {
            'L' => Ok(Direction::Left),
            'N' => Ok(Direction::Stay),
            'R' => Ok(Direction::Right),
            _ => Err(Error::InvalidChar),
        }
    }

    /// The letter that denotes this direction.
    pub fn to_char(&self) -> (ch: char)
        ensures
            ch == self.letter(),
    {
        match self {
            Direction::Left => 'L',
            Direction::Stay => 'N',
            Direction::Right => 'R',
        }
    }

    /// The letter that denotes this direction, as a string.
    pub fn to_string(&self) -> (text: String)
        ensures
            text@ == seq![self.letter()],
    {
        let mut text = String::new();
        text.push(self.to_char());
        assert(text@ =~= seq![self.letter()]);
        text
    }
}

/// A direction's letter reads back as that direction.
pub proof fn lemma_letter_round_trip(d: Direction)
    ensures
        d.letter() == 'L' <==> d == Direction::Left,
        d.letter() == 'N' <==> d == Direction::Stay,
        d.letter() == 'R' <==> d == Direction::Right,
{
}

/// A rule of a one-tape machine: in state `istate` reading `icell`, write
/// `ocell`, move the head by `direction` and go to state `ostate`.
#[derive(Clone, Debug, PartialEq)]
pub struct Command {
    pub istate: String,
    pub icell: Cell,
    pub ostate: String,
    pub ocell: Cell,
    pub direction: Direction,
}

impl Command {
    /// The rule made of the given parts.
    pub fn new(istate: String, icell: Cell, ostate: String, ocell: Cell, direction: Direction) -> (cmd:
        Command)
        ensures
            cmd.istate == istate,
            cmd.icell == icell,
            cmd.ostate == ostate,
            cmd.ocell == ocell,
            cmd.direction == direction,
    {
        Command { istate, icell, ostate, ocell, direction }
    }

    /// The same rule in the form of a rule for several tapes.
    pub open spec fn widened(self) -> RuleView {
        RuleView {
            istate: self.istate@,
            icells: seq![self.icell],
            ostate: self.ostate@,
            ocells: seq![self.ocell],
            directions: seq![self.direction],
        }
    }
}

/// The mathematical content of a rule for any number of tapes.
pub struct RuleView {
    /// The state in which the rule applies.
    pub istate: Seq<char>,
    /// The cells under the heads on which it applies, one per tape.
    pub icells: Seq<Cell>,
    /// The state that it leads to.
    pub ostate: Seq<char>,
    /// The cells that it writes, one per tape.
    pub ocells: Seq<Cell>,
    /// The moves that it makes, one per tape.
    pub directions: Seq<Direction>,
}

impl RuleView {
    /// The rule is for at least one tape and its three tuples are equally
    /// long.
    pub open spec fn wf(self) -> bool {
        &&& self.icells.len() >= 1
        &&& self.ocells.len() == self.icells.len()
        &&& self.directions.len() == self.icells.len()
    }

    /// The number of tapes that the rule is for.
    pub open spec fn tapes(self) -> nat {
        self.icells.len()
    }

    /// The rule for `n` tapes with empty states that reads blanks, writes
    /// blanks and does not move.
    pub open spec fn blank(n: nat) -> RuleView {
        RuleView {
            istate: Seq::empty(),
            icells: Seq::new(n, |j: int| Cell::Blank),
            ostate: Seq::empty(),
            ocells: Seq::new(n, |j: int| Cell::Blank),
            directions: Seq::new(n, |j: int| Direction::Stay),
        }
    }

    /// The rule with one more tape, on which it reads a blank, writes a blank
    /// and does not move.
    pub open spec fn with_tape_added(self) -> RuleView {
        RuleView {
            icells: self.icells.push(Cell::Blank),
            ocells: self.ocells.push(Cell::Blank),
            directions: self.directions.push(Direction::Stay),
            ..self
        }
    }

    /// The rule without its last tape; a rule for one tape stays as it is.
    pub open spec fn with_tape_removed(self) -> RuleView {
        if self.icells.len() == 1 {
            self
        } else {
            RuleView {
                icells: self.icells.drop_last(),
                ocells: self.ocells.drop_last(),
                directions: self.directions.drop_last(),
                ..self
            }
        }
    }
}

/// A rule of a machine with one tape or more: in state `istate`, with the
/// given cells under the heads, write a cell on each tape, move each head and
/// go to state `ostate`.
#[derive(Clone, Debug, PartialEq)]
pub struct MultiCommand {
    pub istate: String,
    icells: Vec<Cell>,
    pub ostate: String,
    ocells: Vec<Cell>,
    directions: Vec<Direction>,
    length: usize,
}

impl View for MultiCommand {
    type V = RuleView;

    closed spec fn view(&self) -> RuleView {
        RuleView {
            istate: self.istate@,
            icells: self.icells@,
            ostate: self.ostate@,
            ocells: self.ocells@,
            directions: self.directions@,
        }
    }
}

impl MultiCommand {
    /// The rule's invariant: that of its content, and the recorded number of
    /// tapes is the true one.
    pub closed spec fn wf(&self) -> bool {
        &&& self@.wf()
        &&& self.length == self.icells@.len()
    }

    /// A well-formed rule has a well-formed content.
    pub proof fn lemma_wf_view(&self)
        requires
            self.wf(),
        ensures
            self@.wf(),
    {
    }

    /// The rule made of the given parts. It is refused when it is for no tape
    /// or when the three tuples differ in length.
    pub fn new(
        istate: String,
        icells: Vec<Cell>,
        ostate: String,
        ocells: Vec<Cell>,
        directions: Vec<Direction>,
    ) -> (r: Result<MultiCommand, Error>)
        ensures
            match r {
                Ok(cmd) => {
                    &&& cmd.wf()
                    &&& cmd@ == (RuleView {
                        istate: istate@,
                        icells: icells@,
                        ostate: ostate@,
                        ocells: ocells@,
                        directions: directions@,
                    })
                },
                Err(e) => e == Error::InvalidLength,
            },
            r.is_ok() <==> icells@.len() >= 1 && ocells@.len() == icells@.len() && directions@.len()
                == icells@.len(),
    {
        let length = icells.len();
        if length == 0 || length != ocells.len() || length != directions.len() {
            Err(Error::InvalidLength)
        } else {
            Ok(MultiCommand { istate, icells, ostate, ocells, directions, length })
        }
    }

    /// Adds a tape on which the rule reads a blank, writes a blank and does
    /// not move.
    pub fn add_tape(&mut self)
        requires
            old(self).wf(),
        ensures
            final(self).wf(),
            final(self)@ == old(self)@.with_tape_added(),
    {
        self.icells.push(Cell::Blank);
        self.ocells.push(Cell::Blank);
        self.directions.push(Direction::Stay);
        self.length = self.icells.len();
    }

    /// Removes the last tape, unless it is the only one.
    pub fn remove_tape(&mut self)
        requires
            old(self).wf(),
        ensures
            final(self).wf(),
            final(self)@ == old(self)@.with_tape_removed(),
    {
        if self.length == 1 {
            return ;
        }
        self.icells.pop();
        self.ocells.pop();
        self.directions.pop();
        self.length -= 1;
    }

    /// The cell that the rule reads on tape `n`, to be changed in place.
    pub fn get_mut_icell(&mut self, n: usize) -> (cell: Option<&mut Cell>)
        requires
            old(self).wf(),
        ensures
            n >= old(self)@.tapes() ==> cell.is_none() && *final(self) == *old(self),
            n < old(self)@.tapes() ==> cell.is_some() && *cell.unwrap() == old(self)@.icells[n as int]
                && final(self).wf() && final(self)@ == (RuleView {
                icells: old(self)@.icells.update(n as int, *final(cell.unwrap())),
                ..old(self)@
            }),
    {
        if n < self.icells.len() {
            Some(&mut self.icells[n])
        } else {
            None
        }
    }

    /// The cell that the rule writes on tape `n`, to be changed in place.
    pub fn get_mut_ocell(&mut self, n: usize) -> (cell: Option<&mut Cell>)
        requires
            old(self).wf(),
        ensures
            n >= old(self)@.tapes() ==> cell.is_none() && *final(self) == *old(self),
            n < old(self)@.tapes() ==> cell.is_some() && *cell.unwrap() == old(self)@.ocells[n as int]
                && final(self).wf() && final(self)@ == (RuleView {
                ocells: old(self)@.ocells.update(n as int, *final(cell.unwrap())),
                ..old(self)@
            }),
    {
        if n < self.ocells.len() {
            Some(&mut self.ocells[n])
        } else {
            None
        }
    }

    /// The move that the rule makes on tape `n`, to be changed in place.
    pub fn get_mut_direction(&mut self, n: usize) -> (direction: Option<&mut Direction>)
        requires
            old(self).wf(),
        ensures
            n >= old(self)@.tapes() ==> direction.is_none() && *final(self) == *old(self),
            n < old(self)@.tapes() ==> direction.is_some() && *direction.unwrap()
                == old(self)@.directions[n as int] && final(self).wf() && final(self)@ == (RuleView {
                directions: old(self)@.directions.update(n as int, *final(direction.unwrap())),
                ..old(self)@
            }),
    {
        if n < self.directions.len() {
            Some(&mut self.directions[n])
        } else {
            None
        }
    }

    /// The rule taken apart: state, cells read, next state, cells written,
    /// moves.
    pub fn unpack(self) -> (parts: (String, Vec<Cell>, String, Vec<Cell>, Vec<Direction>))
        ensures
            parts.0@ == self@.istate,
            parts.1@ == self@.icells,
            parts.2@ == self@.ostate,
            parts.3@ == self@.ocells,
            parts.4@ == self@.directions,
    {
        (self.istate, self.icells, self.ostate, self.ocells, self.directions)
    }

    /// A rule for `n` tapes with empty states that reads blanks, writes
    /// blanks and does not move.
    pub fn blank(n: usize) -> (cmd: MultiCommand)
        requires
            n >= 1,
        ensures
            cmd.wf(),
            cmd@ == RuleView::blank(n as nat),
    {
        let mut icells: Vec<Cell> = Vec::new();
        let mut ocells: Vec<Cell> = Vec::new();
        let mut directions: Vec<Direction> = Vec::new();
        let mut i: usize = 0;
        while i < n
            invariant
                i <= n,
                icells@ == Seq::new(i as nat, |j: int| Cell::Blank),
                ocells@ == Seq::new(i as nat, |j: int| Cell::Blank),
                directions@ == Seq::new(i as nat, |j: int| Direction::Stay),
            decreases n - i,
        {
            icells.push(Cell::Blank);
            ocells.push(Cell::Blank);
            directions.push(Direction::Stay);
            i += 1;
            assert(icells@ =~= Seq::new(i as nat, |j: int| Cell::Blank));
            assert(ocells@ =~= Seq::new(i as nat, |j: int| Cell::Blank));
            assert(directions@ =~= Seq::new(i as nat, |j: int| Direction::Stay));
        }
        let cmd = MultiCommand {
            istate: String::new(),
            icells,
            ostate: String::new(),
            ocells,
            directions,
            length: n,
        };
        cmd
    }

    /// A copy of the rule.
    pub fn duplicate(&self) -> (copy: MultiCommand)
        requires
            self.wf(),
        ensures
            copy.wf(),
            copy@ == self@,
    {
        let mut icells: Vec<Cell> = Vec::new();
        let mut ocells: Vec<Cell> = Vec::new();
        let mut directions: Vec<Direction> = Vec::new();
        let mut i: usize = 0;
        while i < self.length
            invariant
                self.wf(),
                i <= self.length,
                icells@ == self.icells@.take(i as int),
                ocells@ == self.ocells@.take(i as int),
                directions@ == self.directions@.take(i as int),
            decreases self.length - i,
        {
            icells.push(self.icells[i]);
            ocells.push(self.ocells[i]);
            directions.push(self.directions[i]);
            i += 1;
            assert(icells@ =~= self.icells@.take(i as int));
            assert(ocells@ =~= self.ocells@.take(i as int));
            assert(directions@ =~= self.directions@.take(i as int));
        }
        assert(icells@ =~= self.icells@);
        assert(ocells@ =~= self.ocells@);
        assert(directions@ =~= self.directions@);
        MultiCommand {
            istate: self.istate.clone(),
            icells,
            ostate: self.ostate.clone(),
            ocells,
            directions,
            length: self.length,
        }
    }

    /// Replaces the state in which the rule applies.
    pub fn set_input_state(&mut self, state: String)
        requires
            old(self).wf(),
        ensures
            final(self).wf(),
            final(self)@ == (RuleView { istate: state@, ..old(self)@ }),
    {
        self.istate = state;
    }

    /// Replaces the state that the rule leads to.
    pub fn set_output_state(&mut self, state: String)
        requires
            old(self).wf(),
        ensures
            final(self).wf(),
            final(self)@ == (RuleView { ostate: state@, ..old(self)@ }),
    {
        self.ostate = state;
    }

    /// The state in which the rule applies.
    pub fn input_state(&self) -> (state: &String)
        ensures
            state@ == self@.istate,
    {
        &self.istate
    }

    /// The number of tapes that the rule is for.
    pub fn len(&self) -> (n: usize)
        requires
            self.wf(),
        ensures
            n == self@.tapes(),
            n >= 1,
    {
        self.length
    }
}

impl MultiCommand {
    /// The rule of a one-tape machine as a rule for several tapes.
    pub fn from(value: Command) -> (cmd: MultiCommand)
        ensures
            cmd.wf(),
            cmd@ == value.widened(),
    {
        let icells = vec![value.icell];
        let ocells = vec![value.ocell];
        let directions = vec![value.direction];
        assert(icells@ =~= seq![value.icell]);
        assert(ocells@ =~= seq![value.ocell]);
        assert(directions@ =~= seq![value.direction]);
        MultiCommand { istate: value.istate, icells, ostate: value.ostate, ocells, directions, length: 1 }
    }
}

/// Whether a character is the letter of a direction.
pub open spec fn is_letter(ch: char) -> bool {
    ch == 'L' || ch == 'N' || ch == 'R'
}

/// The direction that a letter denotes.
pub open spec fn direction_of(ch: char) -> Direction {
    if ch == 'L' {
        Direction::Left
    } else if ch == 'R' {
        Direction::Right
    } else {
        Direction::Stay
    }
}

/// The directions that a run of letters denotes.
pub open spec fn directions_of(letters: Seq<char>) -> Seq<Direction> {
    Seq::new(letters.len(), |i: int| direction_of(letters[i]))
}

/// A one-tape rule in short: states as text, the move as its letter.
pub fn tm_cmd(istate: &str, icell: Cell, ostate: &str, ocell: Cell, dir: char) -> (cmd: Command)
    requires
        is_letter(dir),
    ensures
        cmd.istate@ == istate@,
        cmd.icell == icell,
        cmd.ostate@ == ostate@,
        cmd.ocell == ocell,
        cmd.direction == direction_of(dir),
{
    let direction = match Direction::from_char(dir) {
        Ok(direction) => direction,
        Err(_) => vstd::pervasive::unreached(),
    };
    Command::new(istate.to_owned(), icell, ostate.to_owned(), ocell, direction)
}

/// A rule for several tapes in short: states as text, the moves as their
/// letters.
pub fn tm_mcmd(istate: &str, icells: Vec<Cell>, ostate: &str, ocells: Vec<Cell>, dirs: Vec<char>) -> (cmd:
    MultiCommand)
    requires
        icells@.len() >= 1,
        ocells@.len() == icells@.len(),
        dirs@.len() == icells@.len(),
        forall|i: int| 0 <= i < dirs@.len() ==> is_letter(#[trigger] dirs@[i]),
    ensures
        cmd.wf(),
        cmd@ == (RuleView {
            istate: istate@,
            icells: icells@,
            ostate: ostate@,
            ocells: ocells@,
            directions: directions_of(dirs@),
        }),
{
    let mut directions: Vec<Direction> = Vec::new();
    let mut i: usize = 0;
    while i < dirs.len()
        invariant
            i <= dirs@.len(),
            directions@.len() == i,
            forall|j: int| 0 <= j < dirs@.len() ==> is_letter(#[trigger] dirs@[j]),
            forall|j: int| 0 <= j < i ==> directions@[j] == direction_of(dirs@[j]),
        decreases dirs@.len() - i,
    {
        let direction = match Direction::from_char(dirs[i]) {
            Ok(direction) => direction,
            Err(_) => vstd::pervasive::unreached(),
        };
        directions.push(direction);
        i += 1;
    }
    assert(directions@ =~= directions_of(dirs@));
    match MultiCommand::new(istate.to_owned(), icells, ostate.to_owned(), ocells, directions) {
        Ok(cmd) => cmd,
        Err(_) => vstd::pervasive::unreached(),
    }
}

} // verus!

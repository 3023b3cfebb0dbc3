//! The machine: tapes, a current state and a program, stepped one rule at a
//! time.

use crate::cell::Cell;
use crate::error::Error;
use crate::program::{
    all_actions_fit, all_keys_fit, lemma_program_of_fits, program_of, refusal, Action, Program,
    ProgramView,
};
use crate::rules::{Command, Direction, MultiCommand, RuleView};
use crate::tape::{Tape, TapeView};
use vstd::prelude::*;

verus! {

/// The tape after its head has moved as `direction` says.
pub open spec fn moved(tape: TapeView, direction: Direction) -> TapeView {
    match direction {
        Direction::Left => tape.left(),
        Direction::Stay => tape,
        Direction::Right => tape.right(),
    }
}

/// The texts of a run of string slices.
pub open spec fn texts(slices: Seq<&str>) -> Seq<Seq<char>> {
    Seq::new(slices.len(), |i: int| slices[i]@)
}

/// The texts of a run of strings.
pub open spec fn texts_of(strings: Seq<String>) -> Seq<Seq<char>> {
    Seq::new(strings.len(), |i: int| strings[i]@)
}

/// Every text is short enough for its characters to be numbered by machine
/// integers.
pub open spec fn numberable(texts: Seq<Seq<char>>) -> bool {
    forall|i: int| 0 <= i < texts.len() ==> (#[trigger] texts[i]).len() <= isize::MAX
}

/// The mathematical content of a machine.
pub struct MachineView {
    /// The tapes, in order.
    pub tapes: Seq<TapeView>,
    /// The current state.
    pub state: Seq<char>,
    /// The rules.
    pub program: ProgramView,
}

impl MachineView {
    /// The machine has a tape, its tapes are well formed, and every rule of
    /// its program is for as many tapes as it has.
    pub open spec fn wf(self) -> bool {
        &&& self.tapes.len() >= 1
        &&& forall|i: int| 0 <= i < self.tapes.len() ==> (#[trigger] self.tapes[i]).wf()
        &&& all_keys_fit(self.program, self.tapes.len())
        &&& all_actions_fit(self.program, self.tapes.len())
    }

    /// The machine in `state`, with `program`, on fresh tapes that hold the
    /// given texts.
    pub open spec fn fresh(texts: Seq<Seq<char>>, state: Seq<char>, program: ProgramView) -> MachineView {
        MachineView {
            tapes: Seq::new(texts.len(), |i: int| TapeView::from_text(texts[i])),
            state,
            program,
        }
    }

    /// The cells under the heads, one per tape.
    pub open spec fn scanned(self) -> Seq<Cell> {
        Seq::new(self.tapes.len(), |i: int| self.tapes[i].read())
    }

    /// A rule applies: the program has one for the current state and the
    /// cells under the heads. Where none applies the machine has halted.
    pub open spec fn enabled(self) -> bool {
        self.program.contains_key(self.state) && self.program[self.state].contains_key(
            self.scanned(),
        )
    }

    /// What the rule that applies does.
    pub open spec fn action(self) -> Action {
        self.program[self.state][self.scanned()]
    }

    /// The machine after the rule that applies has been carried out: on each
    /// tape the rule's cell is written and then the head is moved, and the
    /// state is the rule's next state.
    pub open spec fn step(self) -> MachineView {
        let action = self.action();
        MachineView {
            tapes: Seq::new(
                self.tapes.len(),
                |i: int| moved(self.tapes[i].write(action.cells[i]), action.directions[i]),
            ),
            state: action.state,
            program: self.program,
        }
    }

    /// Each tape as text, with the current state spliced in before its head.
    pub open spec fn snapshot(self) -> Seq<Seq<char>> {
        Seq::new(self.tapes.len(), |i: int| self.tapes[i].rendered_with_state(self.state))
    }

    /// The machine after `k` steps, each of which is taken as if a rule
    /// applied.
    pub open spec fn after(self, k: nat) -> MachineView
        decreases k,
    {
        if k == 0 {
            self
        } else {
            self.after((k - 1) as nat).step()
        }
    }

    /// A rule applies in each of the first `k` machines on the way from
    /// this one, and every head in them can move.
    pub open spec fn runs_for(self, k: nat) -> bool {
        forall|j: nat| j < k ==> (#[trigger] self.after(j)).enabled() && self.after(j).movable()
    }

    /// How many steps a run of at most `limit` steps takes: it ends where no
    /// rule applies, or where a head has no room to move.
    pub open spec fn run_length(self, limit: nat) -> nat
        decreases limit,
    {
        if limit == 0 || !self.enabled() || !self.movable() {
            0
        } else {
            1 + self.step().run_length((limit - 1) as nat)
        }
    }

    /// Every head can move one position either way without leaving the
    /// machine integers.
    pub open spec fn movable(self) -> bool {
        forall|i: int|
            0 <= i < self.tapes.len() ==> isize::MIN < (#[trigger] self.tapes[i]).head < isize::MAX
    }
}

/// A deterministic Turing machine with one tape or more.
pub struct TuringMachine {
    tapes: Vec<Tape>,
    current_state: String,
    program: Program,
}

impl View for TuringMachine {
    type V = MachineView;

    closed spec fn view(&self) -> MachineView {
        MachineView {
            tapes: Seq::new(self.tapes@.len(), |i: int| self.tapes@[i]@),
            state: self.current_state@,
            program: self.program@,
        }
    }
}

/// Fresh tapes that hold the given texts.
fn tapes_from(start_tapes: &[&str]) -> (tapes: Vec<Tape>)
    requires
        numberable(texts(start_tapes@)),
    ensures
        tapes@.len() == start_tapes@.len(),
        forall|i: int|
            0 <= i < tapes@.len() ==> (#[trigger] tapes@[i]).wf() && tapes@[i]@ == TapeView::from_text(
                start_tapes@[i]@,
            ),
{
    let mut tapes: Vec<Tape> = Vec::new();
    let mut i: usize = 0;
    while i < start_tapes.len()
        invariant
            numberable(texts(start_tapes@)),
            i <= start_tapes@.len(),
            tapes@.len() == i,
            forall|j: int|
                0 <= j < i ==> (#[trigger] tapes@[j]).wf() && tapes@[j]@ == TapeView::from_text(
                    start_tapes@[j]@,
                ),
        decreases start_tapes@.len() - i,
    {
        assert(texts(start_tapes@)[i as int] == start_tapes@[i as int]@);
        tapes.push(Tape::from(start_tapes[i]));
        i += 1;
    }
    tapes
}

impl TuringMachine {
    /// The machine's invariant: that of its content and of its program's
    /// store.
    pub closed spec fn wf(&self) -> bool {
        &&& self@.wf()
        &&& self.program.wf()
    }

    /// A well-formed machine has a well-formed content.
    pub proof fn lemma_wf_view(&self)
        requires
            self.wf(),
        ensures
            self@.wf(),
    {
    }

    /// A machine in state `start_state` with the rules of `program`, on
    /// tapes that hold `start_tapes`. It is refused where the program holds
    /// no rule, or a rule that is not for as many tapes as were given, or
    /// where no tape was given.
    pub fn new(start_tapes: &[&str], start_state: String, program: Program) -> (r: Result<
        TuringMachine,
        Error,
    >)
        requires
            program.wf(),
            numberable(texts(start_tapes@)),
        ensures
            match r {
                Ok(tm) => {
                    &&& refusal(program@, start_tapes@.len()).is_none()
                    &&& tm.wf()
                    &&& tm@ == MachineView::fresh(texts(start_tapes@), start_state@, program@)
                },
                Err(e) => refusal(program@, start_tapes@.len()) == Some(e),
            },
    {
        match program.check(start_tapes.len()) {
            Some(e) => Err(e),
            None => {
                let tapes = tapes_from(start_tapes);
                let tm = TuringMachine { tapes, current_state: start_state, program };
                assert(tm@.tapes =~= MachineView::fresh(
                    texts(start_tapes@),
                    start_state@,
                    program@,
                ).tapes);
                Ok(tm)
            },
        }
    }

    /// Puts the machine in state `start_state` on fresh tapes that hold
    /// `start_tapes`, with the rules it has. It is refused, and the machine
    /// left as it is, where the number of tapes differs from the machine's.
    pub fn restart(&mut self, start_tapes: &[&str], start_state: String) -> (r: Result<(), Error>)
        requires
            old(self).wf(),
            numberable(texts(start_tapes@)),
        ensures
            final(self).wf(),
            start_tapes@.len() == old(self)@.tapes.len() ==> r.is_ok() && final(self)@
                == MachineView::fresh(texts(start_tapes@), start_state@, old(self)@.program),
            start_tapes@.len() != old(self)@.tapes.len() ==> r == Err::<(), Error>(
                Error::InvalidStartTapes,
            ) && final(self)@ == old(self)@,
    {
        if start_tapes.len() != self.tapes.len() {
            return Err(Error::InvalidStartTapes);
        }
        self.tapes = tapes_from(start_tapes);
        self.current_state = start_state;
        assert(self@.tapes =~= MachineView::fresh(
            texts(start_tapes@),
            start_state@,
            old(self)@.program,
        ).tapes);
        Ok(())
    }

    /// Each tape as text, with the current state spliced in before the glyph
    /// under its head.
    pub fn to_strings(&self) -> (strings: Vec<String>)
        ensures
            texts_of(strings@) == self@.snapshot(),
    {
        let mut strings: Vec<String> = Vec::new();
        let mut i: usize = 0;
        while i < self.tapes.len()
            invariant
                i <= self.tapes@.len(),
                strings@.len() == i,
                forall|j: int|
                    0 <= j < i ==> (#[trigger] strings@[j])@ == self.tapes@[j]@.rendered_with_state(
                        self.current_state@,
                    ),
            decreases self.tapes@.len() - i,
        {
            strings.push(self.tapes[i].to_string_with_state(self.current_state.as_str()));
            i += 1;
        }
        assert(texts_of(strings@) =~= self@.snapshot());
        strings
    }
}

impl TuringMachine {
    /// The cells under the heads, one per tape.
    fn scan(&self) -> (cells: Vec<Cell>)
        ensures
            cells@ == self@.scanned(),
    {
        let mut cells: Vec<Cell> = Vec::new();
        let mut i: usize = 0;
        while i < self.tapes.len()
            invariant
                i <= self.tapes@.len(),
                cells@.len() == i,
                forall|j: int| 0 <= j < i ==> cells@[j] == self.tapes@[j]@.read(),
            decreases self.tapes@.len() - i,
        {
            cells.push(*self.tapes[i].get());
            i += 1;
        }
        assert(cells@ =~= self@.scanned());
        cells
    }

    /// Carries out the rule that applies to the current state and the cells
    /// under the heads, and returns the tapes as text. Where no rule applies
    /// the machine has halted: nothing changes and nothing is returned.
    pub fn next(&mut self) -> (snapshot: Option<Vec<String>>)
        requires
            old(self).wf(),
            old(self)@.movable(),
        ensures
            final(self).wf(),
            !old(self)@.enabled() ==> snapshot.is_none() && final(self)@ == old(self)@,
            old(self)@.enabled() ==> final(self)@ == old(self)@.step() && snapshot.is_some()
                && texts_of(snapshot.unwrap()@) == old(self)@.step().snapshot(),
    {
        let instructions = match self.program.get(&self.current_state) {
            Some(instructions) => instructions,
            None => {
                return None;
            },
        };
        let icells = self.scan();
        let (state, ocells, directions) = match instructions.get(&icells) {
            Some(action) => action,
            None => {
                return None;
            },
        };
        let ghost before = self@;
        let ghost action = before.action();
        let n = self.tapes.len();
        let mut i: usize = 0;
        assert forall|j: int| 0 <= j < n implies (#[trigger] self.tapes@[j]).wf() by {
            assert(before.tapes[j].wf());
        }
        while i < n
            invariant
                before == old(self)@,
                before.wf(),
                before.movable(),
                before.enabled(),
                action == before.action(),
                action.cells == ocells@,
                action.directions == directions@,
                n == before.tapes.len(),
                self.tapes@.len() == n,
                i <= n,
                self.program == old(self).program,
                self.current_state == old(self).current_state,
                forall|j: int| 0 <= j < n ==> (#[trigger] self.tapes@[j]).wf(),
                forall|j: int|
                    0 <= j < i ==> (#[trigger] self.tapes@[j])@ == moved(
                        before.tapes[j].write(action.cells[j]),
                        action.directions[j],
                    ),
                forall|j: int| i <= j < n ==> (#[trigger] self.tapes@[j])@ == before.tapes[j],
            decreases n - i,
        {
            proof {
                let t = before.tapes[i as int];
                assert(self.tapes@[i as int]@ == t);
                crate::tape::lemma_write_frame(t, ocells@[i as int], t.head + 1);
            }
            self.tapes[i].write(ocells[i]);
            match directions[i] {
                Direction::Left => self.tapes[i].left(),
                Direction::Stay => {},
                Direction::Right => self.tapes[i].right(),
            }
            i += 1;
        }
        self.current_state = state.clone();
        assert(self@.tapes =~= before.step().tapes);
        let strings = self.to_strings();
        Some(strings)
    }
}

/// The contents of a list of rules.
pub open spec fn rule_views(commands: Seq<MultiCommand>) -> Seq<RuleView> {
    Seq::new(commands.len(), |i: int| commands[i]@)
}

/// The contents of a list of one-tape rules, each as a rule for several
/// tapes.
pub open spec fn widened_views(commands: Seq<Command>) -> Seq<RuleView> {
    Seq::new(commands.len(), |i: int| commands[i].widened())
}

/// Every rule of the list is for `n` tapes.
pub open spec fn uniform(rules: Seq<RuleView>, n: nat) -> bool {
    forall|i: int| 0 <= i < rules.len() ==> (#[trigger] rules[i]).tapes() == n
}

impl TuringMachine {
    /// A one-tape machine on a tape that holds `start_tape`, with the given
    /// rules, in the state of the first of them. An empty list is refused.
    pub fn from(start_tape: &str, commands: Vec<Command>) -> (r: Result<TuringMachine, Error>)
        requires
            start_tape@.len() <= isize::MAX,
        ensures
            match r {
                Ok(tm) => {
                    &&& commands@.len() > 0
                    &&& tm.wf()
                    &&& tm@ == MachineView::fresh(
                        seq![start_tape@],
                        commands@[0].istate@,
                        program_of(widened_views(commands@)),
                    )
                },
                Err(e) => commands@.len() == 0 && e == Error::NoCommands,
            },
    {
        broadcast use vstd::std_specs::vec::axiom_spec_into_iter;

        if commands.len() == 0 {
            return Err(Error::NoCommands);
        }
        let start_state = commands[0].istate.clone();
        let ghost rules = widened_views(commands@);
        let mut program = Program::new();
        for cmd in it: commands.into_iter()
            invariant
                it.seq() == commands@,
                rules == widened_views(commands@),
                program.wf(),
                program@ == program_of(rules.take(it.index() as int)),
        {
            let ghost done = rules.take(it.index() as int);
            let ghost rule = cmd.widened();
            assert(rule == rules[it.index() as int]);
            assert(rules.take(it.index() + 1).drop_last() =~= done);
            let icells = vec![cmd.icell];
            let ocells = vec![cmd.ocell];
            let directions = vec![cmd.direction];
            assert(icells@ =~= rule.icells);
            assert(ocells@ =~= rule.ocells);
            assert(directions@ =~= rule.directions);
            program.add_rule(cmd.istate, icells, (cmd.ostate, ocells, directions));
        }
        assert(rules.take(rules.len() as int) =~= rules);
        proof {
            lemma_program_of_fits(rules, 1);
        }
        let tape = Tape::from(start_tape);
        let tapes = vec![tape];
        let tm = TuringMachine { tapes, current_state: start_state, program };
        assert(tm@.tapes =~= MachineView::fresh(
            seq![start_tape@],
            commands@[0].istate@,
            program_of(rules),
        ).tapes);
        Ok(tm)
    }

    /// A machine on tapes that hold `start_tapes`, with the given rules, in
    /// the state of the first of them. It is built exactly when the list is
    /// not empty and every rule is for as many tapes as were given.
    pub fn from_multi(start_tapes: &[&str], commands: Vec<MultiCommand>) -> (r: Result<
        TuringMachine,
        Error,
    >)
        requires
            forall|i: int| 0 <= i < commands@.len() ==> (#[trigger] commands@[i]).wf(),
            numberable(texts(start_tapes@)),
        ensures
            match r {
                Ok(tm) => {
                    &&& commands@.len() > 0
                    &&& uniform(rule_views(commands@), start_tapes@.len())
                    &&& tm.wf()
                    &&& tm@ == MachineView::fresh(
                        texts(start_tapes@),
                        commands@[0]@.istate,
                        program_of(rule_views(commands@)),
                    )
                },
                Err(e) => if commands@.len() == 0 {
                    e == Error::NoCommands
                } else {
                    !uniform(rule_views(commands@), start_tapes@.len()) && e
                        == Error::InvalidTapesLength
                },
            },
    {
        broadcast use vstd::std_specs::vec::axiom_spec_into_iter;

        if commands.len() == 0 {
            return Err(Error::NoCommands);
        }
        let length = commands[0].len();
        let start_state = commands[0].input_state().clone();
        let ghost rules = rule_views(commands@);
        assert(rules[0] == commands@[0]@);
        if length != start_tapes.len() {
            return Err(Error::InvalidTapesLength);
        }
        let mut program = Program::new();
        for cmd in it: commands.into_iter()
            invariant
                it.seq() == commands@,
                rules == rule_views(commands@),
                forall|i: int| 0 <= i < commands@.len() ==> (#[trigger] commands@[i]).wf(),
                length == start_tapes@.len(),
                program.wf(),
                program@ == program_of(rules.take(it.index() as int)),
                uniform(rules.take(it.index() as int), length as nat),
        {
            let ghost done = rules.take(it.index() as int);
            let ghost rule = cmd@;
            assert(cmd == commands@[it.index() as int]);
            assert(rule == rules[it.index() as int]);
            assert(rules.take(it.index() + 1).drop_last() =~= done);
            if length != cmd.len() {
                return Err(Error::InvalidTapesLength);
            }
            let (istate, icells, ostate, ocells, directions) = cmd.unpack();
            program.add_rule(istate, icells, (ostate, ocells, directions));
        }
        assert(rules.take(rules.len() as int) =~= rules);
        proof {
            assert forall|i: int| 0 <= i < rules.len() implies (#[trigger] rules[i]).icells.len()
                == length && rules[i].ocells.len() == length && rules[i].directions.len()
                == length by {
                commands@[i].lemma_wf_view();
            }
            lemma_program_of_fits(rules, length as nat);
        }
        let tapes = tapes_from(start_tapes);
        let tm = TuringMachine { tapes, current_state: start_state, program };
        assert(tm@.tapes =~= MachineView::fresh(
            texts(start_tapes@),
            commands@[0]@.istate,
            program_of(rules),
        ).tapes);
        Ok(tm)
    }
}

impl TuringMachine {
    /// The number of tapes.
    pub fn tape_count(&self) -> (n: usize)
        ensures
            n == self@.tapes.len(),
    {
        self.tapes.len()
    }

    /// Whether the machine has halted: no rule applies to its state and the
    /// cells under its heads.
    pub fn is_halted(&self) -> (halted: bool)
        requires
            self.wf(),
        ensures
            halted == !self@.enabled(),
    {
        match self.program.get(&self.current_state) {
            Some(instructions) => {
                let icells = self.scan();
                instructions.get(&icells).is_none()
            },
            None => true,
        }
    }

    /// Whether every head has room to move one position either way.
    pub fn is_movable(&self) -> (movable: bool)
        ensures
            movable == self@.movable(),
    {
        let mut i: usize = 0;
        while i < self.tapes.len()
            invariant
                i <= self.tapes@.len(),
                forall|j: int|
                    0 <= j < i ==> isize::MIN < (#[trigger] self@.tapes[j]).head < isize::MAX,
            decreases self.tapes@.len() - i,
        {
            let head = self.tapes[i].head();
            if head == isize::MIN || head == isize::MAX {
                assert(self@.tapes[i as int].head == head);
                return false;
            }
            assert(self@.tapes[i as int].head == head);
            i += 1;
        }
        true
    }

    /// Steps the machine until it halts, but at most `limit` times, and
    /// returns the number of steps taken. It also stops, short of `limit`
    /// and not halted, where a head has reached the end of the machine
    /// integers.
    pub fn run(&mut self, limit: usize) -> (steps: usize)
        requires
            old(self).wf(),
        ensures
            final(self).wf(),
            steps <= limit,
            steps == old(self)@.run_length(limit as nat),
            old(self)@.runs_for(steps as nat),
            final(self)@ == old(self)@.after(steps as nat),
            final(self)@.program == old(self)@.program,
            final(self)@.tapes.len() == old(self)@.tapes.len(),
            steps < limit ==> !final(self)@.enabled() || !final(self)@.movable(),
    {
        let mut steps: usize = 0;
        while steps < limit
            invariant_except_break
                steps <= limit,
            invariant
                self.wf(),
                old(self)@.runs_for(steps as nat),
                self@ == old(self)@.after(steps as nat),
                self@.program == old(self)@.program,
                self@.tapes.len() == old(self)@.tapes.len(),
            ensures
                steps <= limit,
                steps < limit ==> !self@.enabled() || !self@.movable(),
            decreases limit - steps,
        {
            if !self.is_movable() {
                break ;
            }
            if self.next().is_none() {
                break ;
            }
            steps += 1;
        }
        proof {
            lemma_run_length(old(self)@, limit as nat, steps as nat);
        }
        steps
    }
}

/// Taking a step first and `k` steps after it is taking `k` steps and one
/// more.
pub proof fn lemma_after_step(m: MachineView, k: nat)
    ensures
        m.step().after(k) == m.after(k + 1),
    decreases k,
{
    if k > 0 {
        lemma_after_step(m, (k - 1) as nat);
    } else {
        assert(m.after(1) == m.after(0).step());
    }
}

/// A run may be taken in two batches: it is as long as its first batch if
/// that stops early, and else as long as both batches together, the second
/// taken from where the first ended.
pub proof fn lemma_run_in_batches(m: MachineView, first: nat, second: nat)
    ensures
        m.run_length(first + second) == if m.run_length(first) < first {
            m.run_length(first)
        } else {
            first + m.after(first).run_length(second)
        },
        m.run_length(first) <= first,
    decreases first,
{
    if first > 0 && m.enabled() && m.movable() {
        lemma_run_in_batches(m.step(), (first - 1) as nat, second);
        lemma_after_step(m, (first - 1) as nat);
        assert(first + second - 1 == (first - 1) as nat + second);
    }
}

/// A run that took `k` steps, each with a rule that applied and heads that
/// could move, and then stopped or reached its limit, has the length that
/// `run_length` gives.
pub proof fn lemma_run_length(m: MachineView, limit: nat, k: nat)
    requires
        k <= limit,
        m.runs_for(k),
        k < limit ==> !m.after(k).enabled() || !m.after(k).movable(),
    ensures
        m.run_length(limit) == k,
    decreases k,
{
    if k > 0 {
        assert(m.after(0).enabled() && m.after(0).movable());
        let next = m.step();
        assert forall|j: nat| j < k - 1 implies (#[trigger] next.after(j)).enabled() && next.after(
            j,
        ).movable() by {
            lemma_after_step(m, j);
            assert(m.after(j + 1).enabled() && m.after(j + 1).movable());
        }
        lemma_after_step(m, (k - 1) as nat);
        lemma_run_length(next, (limit - 1) as nat, (k - 1) as nat);
    }
}

/// Stepping is deterministic: two machines with the same program, in the
/// same state and with the same cells under their heads, agree on whether a
/// rule applies and, where one does, on the next state, the cells written and
/// the moves made.
pub proof fn lemma_step_deterministic(a: MachineView, b: MachineView)
    requires
        a.program == b.program,
        a.state == b.state,
        a.scanned() == b.scanned(),
    ensures
        a.enabled() == b.enabled(),
        a.enabled() ==> a.action() == b.action() && a.step().state == b.step().state,
{
}

/// Two well-formed machines with the same program, in the same state and
/// with the same cells under their heads, step alike, however their tapes
/// and head positions differ otherwise: a rule applies in both, they end in
/// the same state, and on each tape they write the same cell where the head
/// stood and move the head the same way.
pub proof fn lemma_step_agrees(a: MachineView, b: MachineView)
    requires
        a.wf(),
        b.wf(),
        a.program == b.program,
        a.state == b.state,
        a.scanned() == b.scanned(),
        a.enabled(),
    ensures
        b.enabled(),
        a.tapes.len() == b.tapes.len(),
        a.step().state == b.step().state,
        forall|i: int|
            0 <= i < a.tapes.len() ==> (#[trigger] a.step().tapes[i]).cell_at(a.tapes[i].head)
                == b.step().tapes[i].cell_at(b.tapes[i].head),
        forall|i: int|
            0 <= i < a.tapes.len() ==> (#[trigger] a.step().tapes[i]).head - a.tapes[i].head
                == b.step().tapes[i].head - b.tapes[i].head,
{
    assert(a.scanned().len() == b.scanned().len());
    lemma_step(a);
    lemma_step(b);
}

/// Running is a function of the machine: machines that are equal stay equal
/// step by step, and run equally long.
pub proof fn lemma_run_deterministic(a: MachineView, b: MachineView, k: nat)
    requires
        a == b,
    ensures
        a.after(k) == b.after(k),
        a.run_length(k) == b.run_length(k),
        a.after(k).enabled() == b.after(k).enabled(),
        a.after(k).snapshot() == b.after(k).snapshot(),
{
}

/// A step keeps a well-formed machine well formed, keeps its program and the
/// number of its tapes, writes the rule's cell where each head stood, and
/// moves each head by at most one position, as the rule says.
pub proof fn lemma_step(m: MachineView)
    requires
        m.wf(),
        m.enabled(),
    ensures
        m.step().wf(),
        m.step().program == m.program,
        m.step().tapes.len() == m.tapes.len(),
        m.step().state == m.action().state,
        forall|i: int|
            0 <= i < m.tapes.len() ==> (#[trigger] m.step().tapes[i]).head == m.tapes[i].head
                + m.action().directions[i].delta(),
        forall|i: int|
            0 <= i < m.tapes.len() ==> (#[trigger] m.step().tapes[i]).cell_at(m.tapes[i].head)
                == m.action().cells[i],
{
    let action = m.action();
    assert forall|i: int| 0 <= i < m.tapes.len() implies (#[trigger] m.step().tapes[i]).wf()
        && m.step().tapes[i].head == m.tapes[i].head + action.directions[i].delta()
        && m.step().tapes[i].cell_at(m.tapes[i].head) == action.cells[i] by {
        let t = m.tapes[i];
        assert(t.wf());
        let w = t.write(action.cells[i]);
        crate::tape::lemma_mutations_keep_wf(t, action.cells[i]);
        crate::tape::lemma_write_then_read(t, action.cells[i]);
        crate::tape::lemma_write_frame(t, action.cells[i], t.head + 1);
        crate::tape::lemma_moves(w);
        crate::tape::lemma_mutations_keep_wf(w, Cell::Blank);
    }
}

/// After `k` steps no head is more than `k` positions from where it
/// started.
pub proof fn lemma_heads_after(m: MachineView, k: nat)
    requires
        m.wf(),
        forall|j: nat| j < k ==> (#[trigger] m.after(j)).enabled(),
    ensures
        m.after(k).wf(),
        m.after(k).tapes.len() == m.tapes.len(),
        m.after(k).program == m.program,
        forall|i: int|
            0 <= i < m.tapes.len() ==> m.tapes[i].head - k <= (#[trigger] m.after(k).tapes[i]).head
                <= m.tapes[i].head + k,
    decreases k,
{
    if k > 0 {
        let earlier = (k - 1) as nat;
        assert forall|j: nat| j < earlier implies (#[trigger] m.after(j)).enabled() by {}
        lemma_heads_after(m, earlier);
        assert(m.after(earlier).enabled());
        lemma_step(m.after(earlier));
    }
}

} // verus!

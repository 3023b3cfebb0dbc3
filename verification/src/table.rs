//! A table of rules under edit. All its rules are for the same number of
//! tapes, so a machine can be built from it whenever it holds a rule.

use crate::cell::Cell;
use crate::error::Error;
use crate::machine::{rule_views, uniform, MachineView, TuringMachine};
use crate::program::{
    lemma_overwritten_bounded, lemma_program_of_lookup, overwritten, program_of, Program,
};
use crate::rules::{Direction, MultiCommand, RuleView};
use crate::survey::padded;
use vstd::prelude::*;

verus! {

/// The mathematical content of a table of rules.
pub struct TableView {
    /// The rules, in order.
    pub rules: Seq<RuleView>,
    /// The number of tapes that each rule is for.
    pub tapes: nat,
}

impl TableView {
    /// The table is for at least one tape, and each of its rules is well
    /// formed and for as many tapes as the table.
    pub open spec fn wf(self) -> bool {
        &&& self.tapes >= 1
        &&& forall|i: int|
            0 <= i < self.rules.len() ==> (#[trigger] self.rules[i]).wf() && self.rules[i].tapes()
                == self.tapes
    }
}

/// A table of rules for a fixed number of tapes, to be edited.
pub struct RuleTable {
    commands: Vec<MultiCommand>,
    num_tapes: usize,
}

impl View for RuleTable {
    type V = TableView;

    closed spec fn view(&self) -> TableView {
        TableView { rules: rule_views(self.commands@), tapes: self.num_tapes as nat }
    }
}

impl RuleTable {
    /// The table's invariant: that of its content and of each rule's store.
    pub closed spec fn wf(&self) -> bool {
        &&& self@.wf()
        &&& forall|i: int| 0 <= i < self.commands@.len() ==> (#[trigger] self.commands@[i]).wf()
    }

    /// A well-formed table has a well-formed content.
    pub proof fn lemma_wf_view(&self)
        requires
            self.wf(),
        ensures
            self@.wf(),
    {
    }

    /// The table of the given rules, if each of them is for `num_tapes`
    /// tapes and `num_tapes` is not 0.
    pub fn new(commands: Vec<MultiCommand>, num_tapes: usize) -> (table: Option<RuleTable>)
        requires
            forall|i: int| 0 <= i < commands@.len() ==> (#[trigger] commands@[i]).wf(),
        ensures
            table.is_some() == (num_tapes >= 1 && uniform(rule_views(commands@), num_tapes as nat)),
            table.is_some() ==> table.unwrap().wf() && table.unwrap()@ == (TableView {
                rules: rule_views(commands@),
                tapes: num_tapes as nat,
            }),
    {
        if num_tapes == 0 {
            return None;
        }
        let mut i: usize = 0;
        while i < commands.len()
            invariant
                i <= commands@.len(),
                forall|j: int| 0 <= j < commands@.len() ==> (#[trigger] commands@[j]).wf(),
                forall|j: int| 0 <= j < i ==> (#[trigger] rule_views(commands@)[j]).tapes() == num_tapes,
            decreases commands@.len() - i,
        {
            if commands[i].len() != num_tapes {
                assert(rule_views(commands@)[i as int].tapes() != num_tapes);
                return None;
            }
            assert(rule_views(commands@)[i as int] == commands@[i as int]@);
            i += 1;
        }
        let table = RuleTable { commands, num_tapes };
        assert forall|j: int| 0 <= j < table@.rules.len() implies (#[trigger] table@.rules[j]).wf()
            && table@.rules[j].tapes() == table@.tapes by {
            commands@[j].lemma_wf_view();
            assert(rule_views(commands@)[j].tapes() == num_tapes);
        }
        Some(table)
    }

    /// The number of tapes that the rules are for.
    pub fn num_tapes(&self) -> (n: usize)
        ensures
            n == self@.tapes,
    {
        self.num_tapes
    }

    /// The number of rules.
    pub fn len(&self) -> (n: usize)
        ensures
            n == self@.rules.len(),
    {
        self.commands.len()
    }

    /// The rules, in order.
    pub fn commands(&self) -> (commands: &Vec<MultiCommand>)
        ensures
            rule_views(commands@) == self@.rules,
            self.wf() ==> forall|i: int|
                0 <= i < commands@.len() ==> (#[trigger] commands@[i]).wf(),
    {
        &self.commands
    }

    /// Appends a rule with empty states that reads blanks, writes blanks and
    /// does not move.
    pub fn add_command(&mut self)
        requires
            old(self).wf(),
        ensures
            final(self).wf(),
            final(self)@ == (TableView {
                rules: old(self)@.rules.push(RuleView::blank(old(self)@.tapes)),
                ..old(self)@
            }),
    {
        self.commands.push(MultiCommand::blank(self.num_tapes));
        assert(self@.rules =~= old(self)@.rules.push(RuleView::blank(old(self)@.tapes)));
    }

    /// Removes the last rule, if there is one.
    pub fn remove_command(&mut self)
        requires
            old(self).wf(),
        ensures
            final(self).wf(),
            final(self)@ == (TableView {
                rules: if old(self)@.rules.len() == 0 {
                    old(self)@.rules
                } else {
                    old(self)@.rules.drop_last()
                },
                ..old(self)@
            }),
    {
        self.commands.pop();
        assert(self@.rules =~= if old(self)@.rules.len() == 0 {
            old(self)@.rules
        } else {
            old(self)@.rules.drop_last()
        });
    }

    /// Adds a tape to every rule: on it each reads a blank, writes a blank
    /// and does not move.
    pub fn add_tape(&mut self)
        requires
            old(self).wf(),
            old(self)@.tapes < usize::MAX,
        ensures
            final(self).wf(),
            final(self)@ == (TableView {
                rules: Seq::new(
                    old(self)@.rules.len(),
                    |i: int| old(self)@.rules[i].with_tape_added(),
                ),
                tapes: old(self)@.tapes + 1,
            }),
    {
        let ghost before = self@.rules;
        let n = self.commands.len();
        let mut i: usize = 0;
        while i < n
            invariant
                i <= n,
                n == self.commands@.len(),
                before == old(self)@.rules,
                before.len() == n,
                self.num_tapes == old(self).num_tapes,
                forall|j: int| 0 <= j < n ==> (#[trigger] self.commands@[j]).wf(),
                forall|j: int| 0 <= j < i ==> (#[trigger] self.commands@[j])@ == before[j].with_tape_added(),
                forall|j: int| i <= j < n ==> (#[trigger] self.commands@[j])@ == before[j],
            decreases n - i,
        {
            self.commands[i].add_tape();
            i += 1;
        }
        self.num_tapes += 1;
        assert(self@.rules =~= Seq::new(before.len(), |i: int| before[i].with_tape_added()));
        assert forall|j: int| 0 <= j < self@.rules.len() implies (#[trigger] self@.rules[j]).wf()
            && self@.rules[j].tapes() == self@.tapes by {
            assert(before[j].wf() && before[j].tapes() == old(self)@.tapes);
        }
    }

    /// Removes the last tape from every rule, unless it is the only one.
    pub fn remove_tape(&mut self)
        requires
            old(self).wf(),
        ensures
            final(self).wf(),
            final(self)@ == (TableView {
                rules: Seq::new(
                    old(self)@.rules.len(),
                    |i: int| old(self)@.rules[i].with_tape_removed(),
                ),
                tapes: if old(self)@.tapes == 1 {
                    1
                } else {
                    (old(self)@.tapes - 1) as nat
                },
            }),
    {
        let ghost before = self@.rules;
        if self.num_tapes == 1 {
            assert(self@.rules =~= Seq::new(before.len(), |i: int| before[i].with_tape_removed())) by {
                assert forall|j: int| 0 <= j < before.len() implies before[j]
                    == before[j].with_tape_removed() by {
                    assert(before[j].tapes() == 1);
                }
            }
            return ;
        }
        self.num_tapes -= 1;
        let n = self.commands.len();
        let mut i: usize = 0;
        while i < n
            invariant
                i <= n,
                n == self.commands@.len(),
                before == old(self)@.rules,
                before.len() == n,
                self.num_tapes == old(self).num_tapes - 1,
                forall|j: int| 0 <= j < n ==> (#[trigger] self.commands@[j]).wf(),
                forall|j: int| 0 <= j < i ==> (#[trigger] self.commands@[j])@ == before[j].with_tape_removed(),
                forall|j: int| i <= j < n ==> (#[trigger] self.commands@[j])@ == before[j],
            decreases n - i,
        {
            self.commands[i].remove_tape();
            i += 1;
        }
        assert(self@.rules =~= Seq::new(before.len(), |i: int| before[i].with_tape_removed()));
        assert forall|j: int| 0 <= j < self@.rules.len() implies (#[trigger] self@.rules[j]).wf()
            && self@.rules[j].tapes() == self@.tapes by {
            assert(before[j].wf() && before[j].tapes() == old(self)@.tapes);
        }
    }

    /// How many of the table's rules replace an earlier rule for the same
    /// state and the same cells. A machine built from the table does not
    /// know the replaced rules.
    pub fn overwritten(&self) -> (count: usize)
        requires
            self.wf(),
        ensures
            count == overwritten(self@.rules),
    {
        let ghost rules = self@.rules;
        let mut program = Program::new();
        let mut count: usize = 0;
        let mut i: usize = 0;
        while i < self.commands.len()
            invariant
                self.wf(),
                rules == self@.rules,
                i <= self.commands@.len(),
                program.wf(),
                program@ == program_of(rules.take(i as int)),
                count == overwritten(rules.take(i as int)),
                count <= i,
            decreases self.commands@.len() - i,
        {
            let ghost done = rules.take(i as int);
            let ghost next = rules.take(i + 1);
            assert(next.drop_last() =~= done);
            assert(next.last() == self.commands@[i as int]@);
            proof {
                lemma_program_of_lookup(done, next.last().istate, next.last().icells);
                lemma_overwritten_bounded(next);
            }
            let (istate, icells, ostate, ocells, directions) = self.commands[i].duplicate().unpack();
            if program.add_rule(istate, icells, (ostate, ocells, directions)) {
                count += 1;
            }
            i += 1;
        }
        assert(rules.take(rules.len() as int) =~= rules);
        count
    }

    /// A machine with the table's rules, in the state of the first of them,
    /// on the input `input`: it goes on the first tape, the others start
    /// empty. There is none for a table without rules.
    pub fn start(&self, input: &str) -> (r: Result<TuringMachine, Error>)
        requires
            self.wf(),
            input@.len() <= isize::MAX,
        ensures
            match r {
                Ok(tm) => {
                    &&& self@.rules.len() > 0
                    &&& tm.wf()
                    &&& tm@ == MachineView::fresh(
                        padded(input@, self@.tapes),
                        self@.rules[0].istate,
                        program_of(self@.rules),
                    )
                },
                Err(e) => self@.rules.len() == 0 && e == Error::NoCommands,
            },
    {
        proof {
            reveal_strlit("");
        }
        let mut tapes: Vec<&str> = Vec::new();
        tapes.push(input);
        while tapes.len() < self.num_tapes
            invariant
                1 <= tapes@.len() <= self.num_tapes,
                tapes@[0]@ == input@,
                forall|i: int| 1 <= i < tapes@.len() ==> (#[trigger] tapes@[i])@.len() == 0,
            decreases self.num_tapes - tapes@.len(),
        {
            proof {
                reveal_strlit("");
            }
            tapes.push("");
        }
        assert(crate::machine::texts(tapes@) =~= padded(input@, self.num_tapes as nat)) by {
            assert forall|i: int| 0 <= i < self.num_tapes implies crate::machine::texts(tapes@)[i]
                == padded(input@, self.num_tapes as nat)[i] by {
                if i > 0 {
                    assert(tapes@[i]@ =~= Seq::<char>::empty());
                }
            }
        }
        let mut commands: Vec<MultiCommand> = Vec::new();
        let mut i: usize = 0;
        while i < self.commands.len()
            invariant
                self.wf(),
                i <= self.commands@.len(),
                commands@.len() == i,
                forall|j: int| 0 <= j < i ==> (#[trigger] commands@[j]).wf() && commands@[j]@
                    == self.commands@[j]@,
            decreases self.commands@.len() - i,
        {
            commands.push(self.commands[i].duplicate());
            i += 1;
        }
        assert(rule_views(commands@) =~= self@.rules);
        assert(uniform(rule_views(commands@), self.num_tapes as nat));
        TuringMachine::from_multi(tapes.as_slice(), commands)
    }
}

impl RuleTable {
    /// Replaces the state in which rule `index` applies.
    /// Nothing changes, and `false` is returned, where the table has no such
    /// place.
    pub fn set_istate(&mut self, index: usize, state: String) -> (done: bool)
        requires
            old(self).wf(),
        ensures
            final(self).wf(),
            done == (index < old(self)@.rules.len()),
            !done ==> final(self)@ == old(self)@,
            done ==> final(self)@ == (TableView {
                rules: old(self)@.rules.update(
                    index as int,
                    (RuleView { istate: state@, ..old(self)@.rules[index as int] }),
                ),
                ..old(self)@
            }),
    {
        if index >= self.commands.len() {
            return false;
        }
        let ghost before = self@.rules;
        assert(before[index as int] == self.commands@[index as int]@);
        assert(before[index as int].wf() && before[index as int].tapes() == self.num_tapes);
        self.commands[index].set_input_state(state);
        assert(self@.rules =~= before.update(index as int, self.commands@[index as int]@));
        assert forall|j: int| 0 <= j < self@.rules.len() implies (#[trigger] self@.rules[j]).wf()
            && self@.rules[j].tapes() == self@.tapes by {
            if j != index {
                assert(self@.rules[j] == before[j]);
            }
        }
        true
    }

    /// Replaces the state that rule `index` leads to.
    /// Nothing changes, and `false` is returned, where the table has no such
    /// place.
    pub fn set_ostate(&mut self, index: usize, state: String) -> (done: bool)
        requires
            old(self).wf(),
        ensures
            final(self).wf(),
            done == (index < old(self)@.rules.len()),
            !done ==> final(self)@ == old(self)@,
            done ==> final(self)@ == (TableView {
                rules: old(self)@.rules.update(
                    index as int,
                    (RuleView { ostate: state@, ..old(self)@.rules[index as int] }),
                ),
                ..old(self)@
            }),
    {
        if index >= self.commands.len() {
            return false;
        }
        let ghost before = self@.rules;
        assert(before[index as int] == self.commands@[index as int]@);
        assert(before[index as int].wf() && before[index as int].tapes() == self.num_tapes);
        self.commands[index].set_output_state(state);
        assert(self@.rules =~= before.update(index as int, self.commands@[index as int]@));
        assert forall|j: int| 0 <= j < self@.rules.len() implies (#[trigger] self@.rules[j]).wf()
            && self@.rules[j].tapes() == self@.tapes by {
            if j != index {
                assert(self@.rules[j] == before[j]);
            }
        }
        true
    }

    /// Replaces the cell that rule `index` reads on tape `tape`.
    /// Nothing changes, and `false` is returned, where the table has no such
    /// place.
    pub fn set_icell(&mut self, index: usize, tape: usize, cell: Cell) -> (done: bool)
        requires
            old(self).wf(),
        ensures
            final(self).wf(),
            done == (index < old(self)@.rules.len() && tape < old(self)@.tapes),
            !done ==> final(self)@ == old(self)@,
            done ==> final(self)@ == (TableView {
                rules: old(self)@.rules.update(
                    index as int,
                    (RuleView {
                        icells: old(self)@.rules[index as int].icells.update(tape as int, cell),
                        ..old(self)@.rules[index as int]
                    }),
                ),
                ..old(self)@
            }),
    {
        if index >= self.commands.len() || tape >= self.num_tapes {
            return false;
        }
        let ghost before = self@.rules;
        assert(before[index as int] == self.commands@[index as int]@);
        assert(before[index as int].wf() && before[index as int].tapes() == self.num_tapes);
        match self.commands[index].get_mut_icell(tape) {
            Some(place) => {
                *place = cell;
            },
            None => {},
        }
        assert(self@.rules =~= before.update(index as int, self.commands@[index as int]@));
        assert forall|j: int| 0 <= j < self@.rules.len() implies (#[trigger] self@.rules[j]).wf()
            && self@.rules[j].tapes() == self@.tapes by {
            if j != index {
                assert(self@.rules[j] == before[j]);
            }
        }
        true
    }

    /// Replaces the cell that rule `index` writes on tape `tape`.
    /// Nothing changes, and `false` is returned, where the table has no such
    /// place.
    pub fn set_ocell(&mut self, index: usize, tape: usize, cell: Cell) -> (done: bool)
        requires
            old(self).wf(),
        ensures
            final(self).wf(),
            done == (index < old(self)@.rules.len() && tape < old(self)@.tapes),
            !done ==> final(self)@ == old(self)@,
            done ==> final(self)@ == (TableView {
                rules: old(self)@.rules.update(
                    index as int,
                    (RuleView {
                        ocells: old(self)@.rules[index as int].ocells.update(tape as int, cell),
                        ..old(self)@.rules[index as int]
                    }),
                ),
                ..old(self)@
            }),
    {
        if index >= self.commands.len() || tape >= self.num_tapes {
            return false;
        }
        let ghost before = self@.rules;
        assert(before[index as int] == self.commands@[index as int]@);
        assert(before[index as int].wf() && before[index as int].tapes() == self.num_tapes);
        match self.commands[index].get_mut_ocell(tape) {
            Some(place) => {
                *place = cell;
            },
            None => {},
        }
        assert(self@.rules =~= before.update(index as int, self.commands@[index as int]@));
        assert forall|j: int| 0 <= j < self@.rules.len() implies (#[trigger] self@.rules[j]).wf()
            && self@.rules[j].tapes() == self@.tapes by {
            if j != index {
                assert(self@.rules[j] == before[j]);
            }
        }
        true
    }

    /// Replaces the move that rule `index` makes on tape `tape`.
    /// Nothing changes, and `false` is returned, where the table has no such
    /// place.
    pub fn set_direction(&mut self, index: usize, tape: usize, direction: Direction) -> (done: bool)
        requires
            old(self).wf(),
        ensures
            final(self).wf(),
            done == (index < old(self)@.rules.len() && tape < old(self)@.tapes),
            !done ==> final(self)@ == old(self)@,
            done ==> final(self)@ == (TableView {
                rules: old(self)@.rules.update(
                    index as int,
                    (RuleView {
                        directions: old(self)@.rules[index as int].directions.update(
                            tape as int,
                            direction,
                        ),
                        ..old(self)@.rules[index as int]
                    }),
                ),
                ..old(self)@
            }),
    {
        if index >= self.commands.len() || tape >= self.num_tapes {
            return false;
        }
        let ghost before = self@.rules;
        assert(before[index as int] == self.commands@[index as int]@);
        assert(before[index as int].wf() && before[index as int].tapes() == self.num_tapes);
        match self.commands[index].get_mut_direction(tape) {
            Some(place) => {
                *place = direction;
            },
            None => {},
        }
        assert(self@.rules =~= before.update(index as int, self.commands@[index as int]@));
        assert forall|j: int| 0 <= j < self@.rules.len() implies (#[trigger] self@.rules[j]).wf()
            && self@.rules[j].tapes() == self@.tapes by {
            if j != index {
                assert(self@.rules[j] == before[j]);
            }
        }
        true
    }
}

} // verus!

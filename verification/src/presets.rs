//! Two ready-made machines that decide whether a word has the form
//! a^n b^m c^n with m, n >= 1 and n != m: one with a single tape, one with
//! two. Each answers by leaving `1` or `0` on its first tape.

use crate::cell::Cell;
use crate::machine::rule_views;
use crate::rules::{direction_of, directions_of, is_letter, tm_cmd, tm_mcmd, MultiCommand, RuleView};
use vstd::prelude::*;

verus! {

/// Every rule of the list is well formed and for `n` tapes.
pub open spec fn all_for(rules: Seq<MultiCommand>, n: nat) -> bool {
    forall|i: int| 0 <= i < rules.len() ==> (#[trigger] rules[i]).wf() && rules[i]@.tapes() == n
}

/// The blank cell.
pub const B: Cell = Cell::Blank;

/// The cell that holds `ch`.
pub open spec fn sym(ch: char) -> Cell {
    Cell::Symbol(ch)
}

/// The one-tape rule: in `istate` on `icell`, write `ocell`, move as the
/// letter `dir` says and go to `ostate`.
pub open spec fn one(istate: &str, icell: Cell, ostate: &str, ocell: Cell, dir: char) -> RuleView {
    RuleView {
        istate: istate@,
        icells: seq![icell],
        ostate: ostate@,
        ocells: seq![ocell],
        directions: seq![direction_of(dir)],
    }
}

/// The two-tape rule: in `istate` on `icell0` and `icell1`, write `ocell0`
/// and `ocell1`, move as the letters `dir0` and `dir1` say and go to
/// `ostate`.
pub open spec fn two(
    istate: &str,
    icell0: Cell,
    icell1: Cell,
    ostate: &str,
    ocell0: Cell,
    ocell1: Cell,
    dir0: char,
    dir1: char,
) -> RuleView {
    RuleView {
        istate: istate@,
        icells: seq![icell0, icell1],
        ostate: ostate@,
        ocells: seq![ocell0, ocell1],
        directions: seq![direction_of(dir0), direction_of(dir1)],
    }
}

/// The rules of the one-tape machine, in order. It marks the letters off
/// against each other in sweeps over the tape, then wipes the tape and
/// writes its answer.
pub open spec fn one_tape_rules() -> Seq<RuleView> {
    Seq::<RuleView>::empty()
        // In state q0.
        .push(one("q0", B, "qz", sym('0'), 'N'))
        .push(one("q0", sym('b'), "q18", sym('b'), 'N'))
        .push(one("q0", sym('c'), "q18", sym('c'), 'N'))
        .push(one("q0", sym('a'), "q1", sym('A'), 'R'))
        // In state q1.
        .push(one("q1", B, "q19", B, 'L'))
        .push(one("q1", sym('a'), "q1", sym('a'), 'R'))
        .push(one("q1", sym('c'), "q18", sym('c'), 'N'))
        .push(one("q1", sym('B'), "q2", sym('B'), 'N'))
        .push(one("q1", sym('b'), "q2", sym('b'), 'N'))
        // In state q2.
        .push(one("q2", B, "q19", B, 'L'))
        .push(one("q2", sym('a'), "q18", sym('a'), 'N'))
        .push(one("q2", sym('B'), "q2", sym('B'), 'R'))
        .push(one("q2", sym('b'), "q3", sym('B'), 'L'))
        .push(one("q2", sym('c'), "q8", sym('c'), 'L'))
        // In state q3.
        .push(one("q3", sym('B'), "q3", sym('B'), 'L'))
        .push(one("q3", sym('a'), "q4", sym('a'), 'N'))
        .push(one("q3", sym('A'), "q7", sym('A'), 'R'))
        // In state q4.
        .push(one("q4", sym('a'), "q4", sym('a'), 'L'))
        .push(one("q4", sym('A'), "q5", sym('A'), 'R'))
        // In state q5.
        .push(one("q5", sym('a'), "q1", sym('A'), 'R'))
        // In state q7.
        .push(one("q7", B, "q19", B, 'L'))
        .push(one("q7", sym('a'), "q18", sym('a'), 'N'))
        .push(one("q7", sym('B'), "q7", sym('B'), 'R'))
        .push(one("q7", sym('b'), "q7", sym('b'), 'R'))
        .push(one("q7", sym('c'), "q6", sym('c'), 'L'))
        // In state q6.
        .push(one("q6", sym('A'), "q6", sym('A'), 'L'))
        .push(one("q6", sym('B'), "q6", sym('B'), 'L'))
        .push(one("q6", B, "q18", B, 'R'))
        .push(one("q6", sym('b'), "q8", sym('b'), 'L'))
        .push(one("q6", sym('a'), "q8", sym('a'), 'L'))
        // In state q8.
        .push(one("q8", sym('b'), "q8", sym('b'), 'L'))
        .push(one("q8", sym('B'), "q8", sym('B'), 'L'))
        .push(one("q8", sym('a'), "q8", sym('a'), 'L'))
        .push(one("q8", sym('A'), "q8", sym('a'), 'L'))
        .push(one("q8", B, "q9", B, 'R'))
        // In state q9.
        .push(one("q9", sym('a'), "q10", sym('A'), 'R'))
        // In state q10.
        .push(one("q10", sym('a'), "q10", sym('a'), 'R'))
        .push(one("q10", sym('b'), "q11", sym('b'), 'N'))
        .push(one("q10", sym('B'), "q11", sym('B'), 'N'))
        // In state q11.
        .push(one("q11", sym('B'), "q11", sym('B'), 'R'))
        .push(one("q11", sym('b'), "q11", sym('b'), 'R'))
        .push(one("q11", sym('c'), "q12", sym('c'), 'N'))
        .push(one("q11", sym('C'), "q12", sym('C'), 'N'))
        // In state q12.
        .push(one("q12", sym('a'), "q18", sym('a'), 'N'))
        .push(one("q12", B, "q19", B, 'L'))
        .push(one("q12", sym('C'), "q12", sym('C'), 'R'))
        .push(one("q12", sym('c'), "q13", sym('C'), 'L'))
        // In state q13.
        .push(one("q13", sym('C'), "q13", sym('C'), 'L'))
        .push(one("q13", sym('B'), "q14", sym('B'), 'N'))
        .push(one("q13", sym('b'), "q14", sym('b'), 'N'))
        // In state q14.
        .push(one("q14", sym('B'), "q14", sym('B'), 'L'))
        .push(one("q14", sym('b'), "q14", sym('b'), 'L'))
        .push(one("q14", sym('A'), "q15", sym('A'), 'R'))
        .push(one("q14", sym('a'), "q16", sym('a'), 'L'))
        // In state q15.
        .push(one("q15", sym('b'), "q15", sym('b'), 'R'))
        .push(one("q15", sym('B'), "q15", sym('B'), 'R'))
        .push(one("q15", sym('c'), "q17", sym('c'), 'N'))
        .push(one("q15", sym('C'), "q17", sym('C'), 'N'))
        // In state q17.
        .push(one("q17", sym('C'), "q17", sym('C'), 'R'))
        .push(one("q17", sym('c'), "q18", sym('c'), 'N'))
        .push(one("q17", sym('a'), "q18", sym('a'), 'N'))
        .push(one("q17", sym('b'), "q18", sym('b'), 'N'))
        .push(one("q17", B, "q21", B, 'L'))
        // In state q16.
        .push(one("q16", sym('a'), "q16", sym('a'), 'L'))
        .push(one("q16", sym('A'), "q9", sym('A'), 'R'))
        // In state q18.
        .push(one("q18", sym('a'), "q18", sym('a'), 'R'))
        .push(one("q18", sym('b'), "q18", sym('b'), 'R'))
        .push(one("q18", sym('c'), "q18", sym('c'), 'R'))
        .push(one("q18", sym('A'), "q18", sym('A'), 'R'))
        .push(one("q18", sym('B'), "q18", sym('B'), 'R'))
        .push(one("q18", sym('C'), "q18", sym('C'), 'R'))
        .push(one("q18", B, "q19", B, 'L'))
        // In state q19.
        .push(one("q19", sym('a'), "q19", B, 'L'))
        .push(one("q19", sym('b'), "q19", B, 'L'))
        .push(one("q19", sym('c'), "q19", B, 'L'))
        .push(one("q19", sym('A'), "q19", B, 'L'))
        .push(one("q19", sym('B'), "q19", B, 'L'))
        .push(one("q19", sym('C'), "q19", B, 'L'))
        .push(one("q19", B, "q20", B, 'R'))
        // In state q20.
        .push(one("q20", B, "qz", sym('0'), 'N'))
        // In state q21.
        .push(one("q21", sym('C'), "q21", B, 'L'))
        .push(one("q21", sym('b'), "q21", B, 'L'))
        .push(one("q21", sym('B'), "q21", B, 'L'))
        .push(one("q21", sym('A'), "q21", B, 'L'))
        .push(one("q21", B, "q22", B, 'R'))
        // In state q22.
        .push(one("q22", B, "qz", sym('1'), 'N'))
}

/// The rules of the two-tape machine, in order. It counts the `a`s on its
/// second tape and holds the `b`s and the `c`s against that count.
pub open spec fn multitape_rules() -> Seq<RuleView> {
    Seq::<RuleView>::empty()
        // In state q0.
        .push(two("q0", B, B, "qz", sym('0'), B, 'N', 'N'))
        .push(two("q0", sym('b'), B, "q6", sym('b'), B, 'R', 'N'))
        .push(two("q0", sym('c'), B, "q6", sym('c'), B, 'R', 'N'))
        .push(two("q0", sym('a'), B, "q1", sym('a'), sym('X'), 'R', 'R'))
        // In state q1.
        .push(two("q1", sym('a'), B, "q1", sym('a'), sym('X'), 'R', 'R'))
        .push(two("q1", sym('b'), B, "q2", sym('b'), B, 'N', 'L'))
        .push(two("q1", sym('c'), B, "q6", sym('c'), B, 'R', 'N'))
        .push(two("q1", B, B, "q7", B, B, 'L', 'N'))
        // In state q2.
        .push(two("q2", sym('b'), sym('X'), "q2", sym('b'), sym('X'), 'R', 'L'))
        .push(two("q2", sym('b'), B, "q3", sym('b'), B, 'R', 'R'))
        .push(two("q2", sym('c'), sym('X'), "q5", sym('c'), sym('X'), 'N', 'N'))
        .push(two("q2", sym('c'), B, "q6", sym('c'), B, 'R', 'N'))
        .push(two("q2", B, sym('X'), "q7", B, B, 'L', 'N'))
        .push(two("q2", B, B, "q7", B, B, 'L', 'N'))
        .push(two("q2", sym('a'), sym('X'), "q6", sym('a'), B, 'R', 'N'))
        .push(two("q2", sym('a'), B, "q6", sym('a'), B, 'R', 'N'))
        // In state q3.
        .push(two("q3", sym('b'), sym('X'), "q3", sym('b'), sym('X'), 'R', 'N'))
        .push(two("q3", sym('c'), sym('X'), "q4", sym('c'), sym('X'), 'N', 'N'))
        .push(two("q3", sym('a'), sym('X'), "q6", sym('a'), B, 'R', 'N'))
        .push(two("q3", B, sym('X'), "q7", B, B, 'L', 'N'))
        // In state q4.
        .push(two("q4", sym('c'), sym('X'), "q4", sym('c'), sym('X'), 'R', 'R'))
        .push(two("q4", B, B, "q9", B, B, 'L', 'N'))
        .push(two("q4", B, sym('X'), "q7", B, B, 'L', 'N'))
        .push(two("q4", sym('a'), sym('X'), "q6", sym('a'), B, 'R', 'N'))
        .push(two("q4", sym('a'), B, "q6", sym('a'), B, 'R', 'N'))
        .push(two("q4", sym('b'), sym('X'), "q6", sym('b'), B, 'R', 'N'))
        .push(two("q4", sym('b'), B, "q6", sym('b'), B, 'R', 'N'))
        .push(two("q4", sym('c'), B, "q6", sym('c'), B, 'R', 'N'))
        // In state q5.
        .push(two("q5", sym('c'), sym('X'), "q5", sym('c'), sym('X'), 'N', 'L'))
        .push(two("q5", sym('c'), B, "q4", sym('c'), B, 'N', 'R'))
        // In state q6.
        .push(two("q6", sym('a'), B, "q6", sym('a'), B, 'R', 'N'))
        .push(two("q6", sym('b'), B, "q6", sym('b'), B, 'R', 'N'))
        .push(two("q6", sym('c'), B, "q6", sym('c'), B, 'R', 'N'))
        .push(two("q6", B, B, "q7", B, B, 'L', 'N'))
        // In state q7.
        .push(two("q7", sym('c'), B, "q7", B, B, 'L', 'N'))
        .push(two("q7", sym('b'), B, "q7", B, B, 'L', 'N'))
        .push(two("q7", sym('a'), B, "q7", B, B, 'L', 'N'))
        .push(two("q7", B, B, "q8", B, B, 'R', 'N'))
        // In state q8.
        .push(two("q8", B, B, "qz", sym('0'), B, 'N', 'N'))
        // In state q9.
        .push(two("q9", sym('a'), B, "q9", B, B, 'L', 'N'))
        .push(two("q9", sym('b'), B, "q9", B, B, 'L', 'N'))
        .push(two("q9", sym('c'), B, "q9", B, B, 'L', 'N'))
        .push(two("q9", B, B, "q10", B, B, 'R', 'N'))
        // In state q10.
        .push(two("q10", B, B, "qz", sym('1'), B, 'N', 'N'))
}

/// The cell that holds `ch`.
fn s(ch: char) -> (cell: Cell)
    ensures
        cell == sym(ch),
{
    Cell::Symbol(ch)
}

/// Appends a one-tape rule.
fn add_one(
    rules: &mut Vec<MultiCommand>,
    istate: &str,
    icell: Cell,
    ostate: &str,
    ocell: Cell,
    dir: char,
)
    requires
        is_letter(dir),
        all_for(old(rules)@, 1),
    ensures
        all_for(final(rules)@, 1),
        final(rules)@.len() == old(rules)@.len() + 1,
        rule_views(final(rules)@) == rule_views(old(rules)@).push(
            one(istate, icell, ostate, ocell, dir),
        ),
{
    rules.push(MultiCommand::from(tm_cmd(istate, icell, ostate, ocell, dir)));
    assert(rule_views(rules@) =~= rule_views(old(rules)@).push(
        one(istate, icell, ostate, ocell, dir),
    ));
}

/// Appends a two-tape rule.
fn add_two(
    rules: &mut Vec<MultiCommand>,
    istate: &str,
    icell0: Cell,
    icell1: Cell,
    ostate: &str,
    ocell0: Cell,
    ocell1: Cell,
    dir0: char,
    dir1: char,
)
    requires
        is_letter(dir0),
        is_letter(dir1),
        all_for(old(rules)@, 2),
    ensures
        all_for(final(rules)@, 2),
        final(rules)@.len() == old(rules)@.len() + 1,
        rule_views(final(rules)@) == rule_views(old(rules)@).push(
            two(istate, icell0, icell1, ostate, ocell0, ocell1, dir0, dir1),
        ),
{
    let icells = vec![icell0, icell1];
    let ocells = vec![ocell0, ocell1];
    let dirs = vec![dir0, dir1];
    assert(icells@ =~= seq![icell0, icell1]);
    assert(ocells@ =~= seq![ocell0, ocell1]);
    assert(directions_of(dirs@) =~= seq![direction_of(dir0), direction_of(dir1)]);
    rules.push(tm_mcmd(istate, icells, ostate, ocells, dirs));
    assert(rule_views(rules@) =~= rule_views(old(rules)@).push(
        two(istate, icell0, icell1, ostate, ocell0, ocell1, dir0, dir1),
    ));
}

/// The rules of the one-tape machine.
pub fn preset_one_tape() -> (rules: Vec<MultiCommand>)
    ensures
        rule_views(rules@) == one_tape_rules(),
        rules@.len() == 86,
        all_for(rules@, 1),
{
    let mut rules: Vec<MultiCommand> = Vec::new();
    assert(rule_views(rules@) =~= Seq::<RuleView>::empty());
    // In state q0.
    add_one(&mut rules, "q0", B, "qz", s('0'), 'N');
    add_one(&mut rules, "q0", s('b'), "q18", s('b'), 'N');
    add_one(&mut rules, "q0", s('c'), "q18", s('c'), 'N');
    add_one(&mut rules, "q0", s('a'), "q1", s('A'), 'R');

    // In state q1.
    add_one(&mut rules, "q1", B, "q19", B, 'L');
    add_one(&mut rules, "q1", s('a'), "q1", s('a'), 'R');
    add_one(&mut rules, "q1", s('c'), "q18", s('c'), 'N');
    add_one(&mut rules, "q1", s('B'), "q2", s('B'), 'N');
    add_one(&mut rules, "q1", s('b'), "q2", s('b'), 'N');

    // In state q2.
    add_one(&mut rules, "q2", B, "q19", B, 'L');
    add_one(&mut rules, "q2", s('a'), "q18", s('a'), 'N');
    add_one(&mut rules, "q2", s('B'), "q2", s('B'), 'R');
    add_one(&mut rules, "q2", s('b'), "q3", s('B'), 'L');
    add_one(&mut rules, "q2", s('c'), "q8", s('c'), 'L');

    // In state q3.
    add_one(&mut rules, "q3", s('B'), "q3", s('B'), 'L');
    add_one(&mut rules, "q3", s('a'), "q4", s('a'), 'N');
    add_one(&mut rules, "q3", s('A'), "q7", s('A'), 'R');

    // In state q4.
    add_one(&mut rules, "q4", s('a'), "q4", s('a'), 'L');
    add_one(&mut rules, "q4", s('A'), "q5", s('A'), 'R');

    // In state q5.
    add_one(&mut rules, "q5", s('a'), "q1", s('A'), 'R');

    // In state q7.
    add_one(&mut rules, "q7", B, "q19", B, 'L');
    add_one(&mut rules, "q7", s('a'), "q18", s('a'), 'N');
    add_one(&mut rules, "q7", s('B'), "q7", s('B'), 'R');
    add_one(&mut rules, "q7", s('b'), "q7", s('b'), 'R');
    add_one(&mut rules, "q7", s('c'), "q6", s('c'), 'L');

    // In state q6.
    add_one(&mut rules, "q6", s('A'), "q6", s('A'), 'L');
    add_one(&mut rules, "q6", s('B'), "q6", s('B'), 'L');
    add_one(&mut rules, "q6", B, "q18", B, 'R');
    add_one(&mut rules, "q6", s('b'), "q8", s('b'), 'L');
    add_one(&mut rules, "q6", s('a'), "q8", s('a'), 'L');

    // In state q8.
    add_one(&mut rules, "q8", s('b'), "q8", s('b'), 'L');
    add_one(&mut rules, "q8", s('B'), "q8", s('B'), 'L');
    add_one(&mut rules, "q8", s('a'), "q8", s('a'), 'L');
    add_one(&mut rules, "q8", s('A'), "q8", s('a'), 'L');
    add_one(&mut rules, "q8", B, "q9", B, 'R');

    // In state q9.
    add_one(&mut rules, "q9", s('a'), "q10", s('A'), 'R');

    // In state q10.
    add_one(&mut rules, "q10", s('a'), "q10", s('a'), 'R');
    add_one(&mut rules, "q10", s('b'), "q11", s('b'), 'N');
    add_one(&mut rules, "q10", s('B'), "q11", s('B'), 'N');

    // In state q11.
    add_one(&mut rules, "q11", s('B'), "q11", s('B'), 'R');
    add_one(&mut rules, "q11", s('b'), "q11", s('b'), 'R');
    add_one(&mut rules, "q11", s('c'), "q12", s('c'), 'N');
    add_one(&mut rules, "q11", s('C'), "q12", s('C'), 'N');

    // In state q12.
    add_one(&mut rules, "q12", s('a'), "q18", s('a'), 'N');
    add_one(&mut rules, "q12", B, "q19", B, 'L');
    add_one(&mut rules, "q12", s('C'), "q12", s('C'), 'R');
    add_one(&mut rules, "q12", s('c'), "q13", s('C'), 'L');

    // In state q13.
    add_one(&mut rules, "q13", s('C'), "q13", s('C'), 'L');
    add_one(&mut rules, "q13", s('B'), "q14", s('B'), 'N');
    add_one(&mut rules, "q13", s('b'), "q14", s('b'), 'N');

    // In state q14.
    add_one(&mut rules, "q14", s('B'), "q14", s('B'), 'L');
    add_one(&mut rules, "q14", s('b'), "q14", s('b'), 'L');
    add_one(&mut rules, "q14", s('A'), "q15", s('A'), 'R');
    add_one(&mut rules, "q14", s('a'), "q16", s('a'), 'L');

    // In state q15.
    add_one(&mut rules, "q15", s('b'), "q15", s('b'), 'R');
    add_one(&mut rules, "q15", s('B'), "q15", s('B'), 'R');
    add_one(&mut rules, "q15", s('c'), "q17", s('c'), 'N');
    add_one(&mut rules, "q15", s('C'), "q17", s('C'), 'N');

    // In state q17.
    add_one(&mut rules, "q17", s('C'), "q17", s('C'), 'R');
    add_one(&mut rules, "q17", s('c'), "q18", s('c'), 'N');
    add_one(&mut rules, "q17", s('a'), "q18", s('a'), 'N');
    add_one(&mut rules, "q17", s('b'), "q18", s('b'), 'N');
    add_one(&mut rules, "q17", B, "q21", B, 'L');

    // In state q16.
    add_one(&mut rules, "q16", s('a'), "q16", s('a'), 'L');
    add_one(&mut rules, "q16", s('A'), "q9", s('A'), 'R');

    // In state q18.
    add_one(&mut rules, "q18", s('a'), "q18", s('a'), 'R');
    add_one(&mut rules, "q18", s('b'), "q18", s('b'), 'R');
    add_one(&mut rules, "q18", s('c'), "q18", s('c'), 'R');
    add_one(&mut rules, "q18", s('A'), "q18", s('A'), 'R');
    add_one(&mut rules, "q18", s('B'), "q18", s('B'), 'R');
    add_one(&mut rules, "q18", s('C'), "q18", s('C'), 'R');
    add_one(&mut rules, "q18", B, "q19", B, 'L');

    // In state q19.
    add_one(&mut rules, "q19", s('a'), "q19", B, 'L');
    add_one(&mut rules, "q19", s('b'), "q19", B, 'L');
    add_one(&mut rules, "q19", s('c'), "q19", B, 'L');
    add_one(&mut rules, "q19", s('A'), "q19", B, 'L');
    add_one(&mut rules, "q19", s('B'), "q19", B, 'L');
    add_one(&mut rules, "q19", s('C'), "q19", B, 'L');
    add_one(&mut rules, "q19", B, "q20", B, 'R');

    // In state q20.
    add_one(&mut rules, "q20", B, "qz", s('0'), 'N');

    // In state q21.
    add_one(&mut rules, "q21", s('C'), "q21", B, 'L');
    add_one(&mut rules, "q21", s('b'), "q21", B, 'L');
    add_one(&mut rules, "q21", s('B'), "q21", B, 'L');
    add_one(&mut rules, "q21", s('A'), "q21", B, 'L');
    add_one(&mut rules, "q21", B, "q22", B, 'R');

    // In state q22.
    add_one(&mut rules, "q22", B, "qz", s('1'), 'N');
    rules
}

/// The rules of the two-tape machine.
pub fn preset_multitape() -> (rules: Vec<MultiCommand>)
    ensures
        rule_views(rules@) == multitape_rules(),
        rules@.len() == 44,
        all_for(rules@, 2),
{
    let mut rules: Vec<MultiCommand> = Vec::new();
    assert(rule_views(rules@) =~= Seq::<RuleView>::empty());
    // In state q0.
    add_two(&mut rules, "q0", B, B, "qz", s('0'), B, 'N', 'N');
    add_two(&mut rules, "q0", s('b'), B, "q6", s('b'), B, 'R', 'N');
    add_two(&mut rules, "q0", s('c'), B, "q6", s('c'), B, 'R', 'N');
    add_two(&mut rules, "q0", s('a'), B, "q1", s('a'), s('X'), 'R', 'R');

    // In state q1.
    add_two(&mut rules, "q1", s('a'), B, "q1", s('a'), s('X'), 'R', 'R');
    add_two(&mut rules, "q1", s('b'), B, "q2", s('b'), B, 'N', 'L');
    add_two(&mut rules, "q1", s('c'), B, "q6", s('c'), B, 'R', 'N');
    add_two(&mut rules, "q1", B, B, "q7", B, B, 'L', 'N');

    // In state q2.
    add_two(&mut rules, "q2", s('b'), s('X'), "q2", s('b'), s('X'), 'R', 'L');
    add_two(&mut rules, "q2", s('b'), B, "q3", s('b'), B, 'R', 'R');
    add_two(&mut rules, "q2", s('c'), s('X'), "q5", s('c'), s('X'), 'N', 'N');
    add_two(&mut rules, "q2", s('c'), B, "q6", s('c'), B, 'R', 'N');
    add_two(&mut rules, "q2", B, s('X'), "q7", B, B, 'L', 'N');
    add_two(&mut rules, "q2", B, B, "q7", B, B, 'L', 'N');
    add_two(&mut rules, "q2", s('a'), s('X'), "q6", s('a'), B, 'R', 'N');
    add_two(&mut rules, "q2", s('a'), B, "q6", s('a'), B, 'R', 'N');

    // In state q3.
    add_two(&mut rules, "q3", s('b'), s('X'), "q3", s('b'), s('X'), 'R', 'N');
    add_two(&mut rules, "q3", s('c'), s('X'), "q4", s('c'), s('X'), 'N', 'N');
    add_two(&mut rules, "q3", s('a'), s('X'), "q6", s('a'), B, 'R', 'N');
    add_two(&mut rules, "q3", B, s('X'), "q7", B, B, 'L', 'N');

    // In state q4.
    add_two(&mut rules, "q4", s('c'), s('X'), "q4", s('c'), s('X'), 'R', 'R');
    add_two(&mut rules, "q4", B, B, "q9", B, B, 'L', 'N');
    add_two(&mut rules, "q4", B, s('X'), "q7", B, B, 'L', 'N');
    add_two(&mut rules, "q4", s('a'), s('X'), "q6", s('a'), B, 'R', 'N');
    add_two(&mut rules, "q4", s('a'), B, "q6", s('a'), B, 'R', 'N');
    add_two(&mut rules, "q4", s('b'), s('X'), "q6", s('b'), B, 'R', 'N');
    add_two(&mut rules, "q4", s('b'), B, "q6", s('b'), B, 'R', 'N');
    add_two(&mut rules, "q4", s('c'), B, "q6", s('c'), B, 'R', 'N');

    // In state q5.
    add_two(&mut rules, "q5", s('c'), s('X'), "q5", s('c'), s('X'), 'N', 'L');
    add_two(&mut rules, "q5", s('c'), B, "q4", s('c'), B, 'N', 'R');

    // In state q6.
    add_two(&mut rules, "q6", s('a'), B, "q6", s('a'), B, 'R', 'N');
    add_two(&mut rules, "q6", s('b'), B, "q6", s('b'), B, 'R', 'N');
    add_two(&mut rules, "q6", s('c'), B, "q6", s('c'), B, 'R', 'N');
    add_two(&mut rules, "q6", B, B, "q7", B, B, 'L', 'N');

    // In state q7.
    add_two(&mut rules, "q7", s('c'), B, "q7", B, B, 'L', 'N');
    add_two(&mut rules, "q7", s('b'), B, "q7", B, B, 'L', 'N');
    add_two(&mut rules, "q7", s('a'), B, "q7", B, B, 'L', 'N');
    add_two(&mut rules, "q7", B, B, "q8", B, B, 'R', 'N');

    // In state q8.
    add_two(&mut rules, "q8", B, B, "qz", s('0'), B, 'N', 'N');

    // In state q9.
    add_two(&mut rules, "q9", s('a'), B, "q9", B, B, 'L', 'N');
    add_two(&mut rules, "q9", s('b'), B, "q9", B, B, 'L', 'N');
    add_two(&mut rules, "q9", s('c'), B, "q9", B, B, 'L', 'N');
    add_two(&mut rules, "q9", B, B, "q10", B, B, 'R', 'N');

    // In state q10.
    add_two(&mut rules, "q10", B, B, "qz", s('1'), B, 'N', 'N');
    rules
}

/// Both machines start in `q0`, and the lists are as long as they look.
#[verifier::rlimit(30)]
pub proof fn lemma_preset_starts()
    ensures
        one_tape_rules().len() == 86,
        multitape_rules().len() == 44,
        one_tape_rules()[0] == one("q0", B, "qz", sym('0'), 'N'),
        multitape_rules()[0] == two("q0", B, B, "qz", sym('0'), B, 'N', 'N'),
{
}

} // verus!

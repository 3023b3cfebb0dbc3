use turing_machine::alphabet::{filter_input, sanitize_alphabet};
use turing_machine::cell::{Cell, BLANK_CHAR};
use turing_machine::error::Error;
use turing_machine::machine::TuringMachine;
use turing_machine::program::{Instructions, Program};
use turing_machine::rules::{tm_cmd, tm_mcmd, Command, Direction, MultiCommand};
use turing_machine::survey::{begin, probe, resume, worst_case};
use turing_machine::table::RuleTable;
use turing_machine::tape::{Tape, TapeIter};
use turing_machine::trace::protocol_text;
use turing_machine::words::{ExhaustiveWordsIter, GetExhaustiveWords};

fn blank() -> String {
    BLANK_CHAR.to_string()
}

/// The rules that flip a binary word, walk back and stop in `qz`.
fn complement() -> Vec<Command> {
    vec![
        tm_cmd("q0", Cell::Symbol('0'), "q0", Cell::Symbol('1'), 'R'),
        tm_cmd("q0", Cell::Symbol('1'), "q0", Cell::Symbol('0'), 'R'),
        tm_cmd("q0", Cell::Blank, "q1", Cell::Blank, 'L'),
        tm_cmd("q1", Cell::Symbol('0'), "q1", Cell::Symbol('0'), 'L'),
        tm_cmd("q1", Cell::Symbol('1'), "q1", Cell::Symbol('1'), 'L'),
        tm_cmd("q1", Cell::Blank, "qz", Cell::Blank, 'R'),
    ]
}

fn two_tape_rule(istate: &str, ostate: &str) -> MultiCommand {
    tm_mcmd(
        istate,
        vec![Cell::Blank, Cell::Blank],
        ostate,
        vec![Cell::Symbol('0'), Cell::Blank],
        vec!['N', 'N'],
    )
}

// ---- cells

#[test]
fn reserved_glyph_reads_back_as_blank() {
    assert_eq!(Cell::from(BLANK_CHAR), Cell::Blank);
    assert_eq!(char::from(Cell::Symbol(BLANK_CHAR)), BLANK_CHAR);
    assert_eq!(Cell::from(char::from(Cell::Symbol(BLANK_CHAR))), Cell::Blank);
    assert_eq!(Cell::from(char::from(Cell::Symbol('x'))), Cell::Symbol('x'));
    assert_eq!(BLANK_CHAR, '\u{03BB}');
}

// ---- tapes

#[test]
fn write_then_read_gives_back_what_was_written() {
    let mut t = Tape::from("abc");
    t.write(Cell::Blank);
    assert_eq!(t.get(), &Cell::Blank);
    t.write(Cell::Symbol('z'));
    assert_eq!(t.get(), &Cell::Symbol('z'));
    t.left();
    t.left();
    t.write(Cell::Symbol('y'));
    assert_eq!(t.get(), &Cell::Symbol('y'));
    t.write(Cell::Blank);
    assert_eq!(t.get(), &Cell::Blank);
}

#[test]
fn window_is_never_empty() {
    let mut t = Tape::new();
    assert_eq!(t.len(), 1);
    t.left();
    assert_eq!(t.len(), 1);
    t.right();
    t.right();
    assert_eq!(t.len(), 1);
    t.write(Cell::Symbol('a'));
    assert_eq!(t.len(), 1);
    t.write(Cell::Blank);
    assert_eq!(t.len(), 1);
    t.write(Cell::Symbol('a'));
    t.right();
    t.right();
    t.write(Cell::Symbol('b'));
    assert_eq!(t.len(), 3);
    t.write(Cell::Blank);
    assert_eq!(t.len(), 1);
}

#[test]
fn window_of_a_text_spans_its_characters() {
    assert_eq!(Tape::from("abcd").len(), 4);
    assert_eq!(Tape::from("").len(), 1);
    assert_eq!(Tape::from("\u{3b1}\u{3b2}").len(), 2);
    assert_eq!(Tape::from("\u{3b1}\u{3b2}").to_string(), "\u{3b1}\u{3b2}");
}

#[test]
fn blank_two_cell_window_collapses_to_the_end_treated_second() {
    let two_blanks = format!("{BLANK_CHAR}{BLANK_CHAR}");

    // Head at the left end: the left end moves in first, the window ends up
    // on the right cell, and rendering reaches back to the head.
    let mut t = Tape::from(&two_blanks);
    assert_eq!(t.len(), 2);
    t.write(Cell::Blank);
    assert_eq!(t.len(), 1);
    assert_eq!(t.to_string(), two_blanks);
    assert_eq!(t.to_string_with_state("q"), format!("q{BLANK_CHAR}{BLANK_CHAR}"));

    // Head left of the window: the right end moves in first, and the window
    // ends up on the head.
    let mut t = Tape::from(&two_blanks);
    t.left();
    assert_eq!(t.len(), 1);
    assert_eq!(t.to_string(), blank());
    assert_eq!(t.to_string_with_state("q"), format!("q{BLANK_CHAR}"));
}

#[test]
fn tape_cursor_walks_the_shown_cells() {
    let mut t = Tape::from("ab");
    t.right();
    t.right();
    t.right();
    let mut it = t.iter();
    assert_eq!(it.next(), Some(Cell::Symbol('a')));
    assert_eq!(it.next(), Some(Cell::Symbol('b')));
    assert_eq!(it.next(), Some(Cell::Blank));
    assert_eq!(it.next(), Some(Cell::Blank));
    assert_eq!(it.next(), None);
    assert_eq!(it.next(), None);
    assert_eq!(t.head(), 3);

    let store = std::collections::HashMap::from([(2isize, Cell::Symbol('x'))]);
    let mut it = TapeIter::new(&store, 1, 2, 0);
    assert_eq!(it.next(), Some(Cell::Blank));
    assert_eq!(it.next(), Some(Cell::Blank));
    assert_eq!(it.next(), Some(Cell::Symbol('x')));
    assert_eq!(it.next(), None);
}

#[test]
fn reserved_glyph_in_a_text_leaves_its_cell_blank() {
    let mut t = Tape::from(&format!("a{BLANK_CHAR}b"));
    assert_eq!(t.to_string(), format!("a{BLANK_CHAR}b"));
    t.right();
    assert_eq!(t.get(), &Cell::Blank);
    t.right();
    t.write(Cell::Blank);
    assert_eq!(t.to_string(), format!("a{BLANK_CHAR}{BLANK_CHAR}"));
    assert_eq!(t.len(), 1);
}

// ---- rules

#[test]
fn direction_letters() {
    assert_eq!(Direction::from_char('L'), Ok(Direction::Left));
    assert_eq!(Direction::from_char('N'), Ok(Direction::Stay));
    assert_eq!(Direction::from_char('R'), Ok(Direction::Right));
    assert_eq!(Direction::from_char('l'), Err(Error::InvalidChar));
    assert_eq!(Direction::from_char('x'), Err(Error::InvalidChar));
    assert_eq!(Direction::Left.to_string(), "L");
    assert_eq!(Direction::Stay.to_string(), "N");
    assert_eq!(Direction::Right.to_string(), "R");
    assert_eq!(Direction::Right.to_char(), 'R');
}

#[test]
fn rule_with_unequal_parts_is_refused() {
    let r = MultiCommand::new("q".into(), vec![], "q".into(), vec![], vec![]);
    assert_eq!(r.err(), Some(Error::InvalidLength));
    let r = MultiCommand::new(
        "q".into(),
        vec![Cell::Blank],
        "q".into(),
        vec![Cell::Blank],
        vec![Direction::Stay, Direction::Stay],
    );
    assert_eq!(r.err(), Some(Error::InvalidLength));
    assert_eq!(Error::InvalidLength.to_string(), "invalid length");
    assert_eq!(Error::InvalidChar.message(), "invalid char");
}

#[test]
fn adding_and_removing_a_tape() {
    let mut cmd = MultiCommand::from(tm_cmd("p", Cell::Symbol('a'), "q", Cell::Symbol('b'), 'R'));
    assert_eq!(cmd.len(), 1);
    cmd.remove_tape();
    assert_eq!(cmd.len(), 1);
    cmd.add_tape();
    assert_eq!(cmd.len(), 2);
    assert_eq!(cmd.get_mut_icell(1), Some(&mut Cell::Blank));
    assert_eq!(cmd.get_mut_ocell(1), Some(&mut Cell::Blank));
    assert_eq!(cmd.get_mut_direction(1), Some(&mut Direction::Stay));
    assert_eq!(cmd.get_mut_icell(2), None);
    assert_eq!(cmd.get_mut_ocell(2), None);
    assert_eq!(cmd.get_mut_direction(2), None);
    *cmd.get_mut_icell(1).unwrap() = Cell::Symbol('x');
    *cmd.get_mut_direction(0).unwrap() = Direction::Left;
    let copy = cmd.duplicate();
    assert_eq!(copy, cmd);
    let (istate, icells, ostate, ocells, directions) = cmd.unpack();
    assert_eq!(istate, "p");
    assert_eq!(icells, vec![Cell::Symbol('a'), Cell::Symbol('x')]);
    assert_eq!(ostate, "q");
    assert_eq!(ocells, vec![Cell::Symbol('b'), Cell::Blank]);
    assert_eq!(directions, vec![Direction::Left, Direction::Stay]);
    let mut copy = copy;
    copy.remove_tape();
    assert_eq!(copy.len(), 1);
    assert_eq!(copy.input_state(), "p");
    let blank = MultiCommand::blank(3);
    assert_eq!(blank.len(), 3);
    assert_eq!(
        blank.unpack(),
        (
            String::new(),
            vec![Cell::Blank; 3],
            String::new(),
            vec![Cell::Blank; 3],
            vec![Direction::Stay; 3]
        )
    );
}

// ---- programs

#[test]
fn a_later_rule_replaces_an_earlier_one_for_the_same_key() {
    let commands = vec![
        tm_cmd("q0", Cell::Symbol('a'), "q0", Cell::Symbol('x'), 'R'),
        tm_cmd("q0", Cell::Symbol('a'), "q1", Cell::Symbol('y'), 'N'),
    ];
    let mut tm = TuringMachine::from("a", commands).unwrap();
    assert_eq!(tm.next(), Some(vec!["q1y".to_string()]));
    assert_eq!(tm.next(), None);

    let mut program = Program::new();
    let first = ("q0".to_string(), vec![Cell::Symbol('x')], vec![Direction::Right]);
    let second = ("q1".to_string(), vec![Cell::Symbol('y')], vec![Direction::Stay]);
    assert!(!program.add_rule("q0".into(), vec![Cell::Symbol('a')], first.clone()));
    assert!(program.add_rule("q0".into(), vec![Cell::Symbol('a')], second.clone()));
    assert!(!program.add_rule("q0".into(), vec![Cell::Symbol('b')], first.clone()));
    let rules = program.get(&"q0".to_string()).unwrap();
    assert_eq!(rules.len(), 2);
    assert_eq!(rules.get(&vec![Cell::Symbol('a')]), Some(&second));
    assert_eq!(rules.get(&vec![Cell::Symbol('b')]), Some(&first));
    assert_eq!(rules.get(&vec![Cell::Blank]), None);
    assert!(program.get(&"q1".to_string()).is_none());

    let mut ins = Instructions::new();
    assert_eq!(ins.insert(vec![Cell::Blank], first.clone()), None);
    assert_eq!(ins.insert(vec![Cell::Blank], second.clone()), Some(first));
    assert_eq!(ins.len(), 1);
    assert_eq!(ins.fits(1), (true, true));
    assert_eq!(ins.fits(2), (false, false));
    assert!(program.insert("q0".into(), ins).is_some());
    assert_eq!(program.get(&"q0".to_string()).unwrap().len(), 1);
    assert_eq!(program.check(1), None);
}

// ---- machines: construction

fn program_with(key: Vec<Cell>, cells: Vec<Cell>, directions: Vec<Direction>) -> Program {
    let mut program = Program::new();
    program.add_rule("q0".into(), key, ("q0".into(), cells, directions));
    program
}

#[test]
fn program_without_rules_is_refused() {
    let r = TuringMachine::new(&["a"], "q0".into(), Program::new());
    assert_eq!(r.err(), Some(Error::NoInstructions));
    let mut program = Program::new();
    program.insert("q0".into(), Instructions::new());
    assert_eq!(program.check(1), Some(Error::NoInstructions));
    let r = TuringMachine::new(&["a"], "q0".into(), program);
    assert_eq!(r.err(), Some(Error::NoInstructions));
    assert_eq!(Error::NoInstructions.message(), "there's no instructions");
}

#[test]
fn program_for_another_number_of_tapes_is_refused() {
    let program = program_with(vec![Cell::Blank], vec![Cell::Blank], vec![Direction::Stay]);
    let r = TuringMachine::new(&["a", "b"], "q0".into(), program);
    assert_eq!(r.err(), Some(Error::TapeCountMismatch));
    let program = program_with(vec![Cell::Blank], vec![Cell::Blank], vec![Direction::Stay]);
    let r = TuringMachine::new(&[], "q0".into(), program);
    assert_eq!(r.err(), Some(Error::TapeCountMismatch));
    assert_eq!(
        Error::TapeCountMismatch.message(),
        "length of instructions and tapes does not equal"
    );
}

#[test]
fn program_with_a_lopsided_rule_is_refused() {
    let program = program_with(
        vec![Cell::Blank],
        vec![Cell::Blank, Cell::Blank],
        vec![Direction::Stay],
    );
    let r = TuringMachine::new(&["a"], "q0".into(), program);
    assert_eq!(r.err(), Some(Error::InvalidInstructionLength));
    let program = program_with(vec![Cell::Blank], vec![Cell::Blank], vec![]);
    let r = TuringMachine::new(&["a"], "q0".into(), program);
    assert_eq!(r.err(), Some(Error::InvalidInstructionLength));
    assert_eq!(Error::InvalidInstructionLength.message(), "invalid instructions length");
}

#[test]
fn program_keyed_by_the_empty_tuple_is_refused() {
    let program = program_with(vec![], vec![], vec![]);
    let r = TuringMachine::new(&[], "q0".into(), program);
    assert_eq!(r.err(), Some(Error::ZeroLengthKey));
    let program = program_with(vec![], vec![], vec![]);
    let r = TuringMachine::new(&["a"], "q0".into(), program);
    assert_eq!(r.err(), Some(Error::TapeCountMismatch));
}

#[test]
fn empty_rule_list_is_refused() {
    assert_eq!(TuringMachine::from("a", vec![]).err(), Some(Error::NoCommands));
    assert_eq!(TuringMachine::from_multi(&["a"], vec![]).err(), Some(Error::NoCommands));
    assert_eq!(TuringMachine::from_multi(&[], vec![]).err(), Some(Error::NoCommands));
    assert_eq!(Error::NoCommands.message(), "no commands");
}

#[test]
fn uniform_rules_and_matching_tapes_build_a_machine() {
    for tapes in 1..4usize {
        let mut rule = MultiCommand::blank(1);
        for _ in 1..tapes {
            rule.add_tape();
        }
        let rules = vec![rule.duplicate(), rule.duplicate(), rule];
        let start = vec!["ab"; tapes];
        let tm = TuringMachine::from_multi(&start, rules).unwrap();
        assert_eq!(tm.tape_count(), tapes);
        assert_eq!(tm.to_strings(), vec!["ab"; tapes]);
    }
}

#[test]
fn mismatched_lengths_build_no_machine() {
    let r = TuringMachine::from_multi(&["", "", ""], vec![two_tape_rule("q0", "qz")]);
    assert_eq!(r.err(), Some(Error::InvalidTapesLength));
    let r = TuringMachine::from_multi(&[""], vec![two_tape_rule("q0", "qz")]);
    assert_eq!(r.err(), Some(Error::InvalidTapesLength));
    let one = MultiCommand::from(tm_cmd("q0", Cell::Blank, "q0", Cell::Blank, 'N'));
    let r = TuringMachine::from_multi(&["", ""], vec![two_tape_rule("q0", "qz"), one]);
    assert_eq!(r.err(), Some(Error::InvalidTapesLength));
    assert_eq!(Error::InvalidTapesLength.message(), "invalid tapes length");
}

// ---- machines: stepping

#[test]
fn scenario_single_tape_rewrites_and_halts() {
    let rules = vec![tm_cmd("q0", Cell::Symbol('a'), "q0", Cell::Symbol('b'), 'R')];
    let mut tm = TuringMachine::from("aaa", rules).unwrap();
    assert!(!tm.is_halted());
    assert!(tm.is_movable());
    assert_eq!(tm.next(), Some(vec!["bq0aa".to_string()]));
    assert_eq!(tm.next(), Some(vec!["bbq0a".to_string()]));
    assert_eq!(tm.next(), Some(vec![format!("bbbq0{BLANK_CHAR}")]));
    assert!(tm.is_halted());
    assert_eq!(tm.next(), None);
    assert_eq!(tm.next(), None);
    assert_eq!(tm.to_strings(), vec![format!("bbbq0{BLANK_CHAR}")]);
}

#[test]
fn scenario_two_tapes_one_step() {
    let mut tm = TuringMachine::from_multi(&["", ""], vec![two_tape_rule("q0", "qz")]).unwrap();
    assert_eq!(
        tm.to_strings(),
        vec![format!("q0{BLANK_CHAR}"), format!("q0{BLANK_CHAR}")]
    );
    assert_eq!(
        tm.next(),
        Some(vec!["qz0".to_string(), format!("qz{BLANK_CHAR}")])
    );
    assert_eq!(tm.next(), None);
    assert!(tm.is_halted());
}

#[test]
fn scenario_binary_complement() {
    let mut tm = TuringMachine::from("101101", complement()).unwrap();
    let steps = tm.run(1000);
    assert_eq!(steps, 14);
    assert!(tm.is_halted());
    assert_eq!(tm.to_strings(), vec!["qz010010"]);
}

#[test]
fn stepping_is_deterministic() {
    let mut a = TuringMachine::from("101101", complement()).unwrap();
    let mut b = TuringMachine::from("101101", complement()).unwrap();
    loop {
        let x = a.next();
        let y = b.next();
        assert_eq!(x, y);
        if x.is_none() {
            break;
        }
    }
    // The same state over the same cell, reached from different inputs and
    // at different places, is followed by the same state and the same
    // written cell.
    let mut c = TuringMachine::from("1", complement()).unwrap();
    let mut d = TuringMachine::from("10", complement()).unwrap();
    assert_eq!(c.next(), Some(vec![format!("0q0{BLANK_CHAR}")]));
    assert_eq!(d.next(), Some(vec!["0q00".to_string()]));
}

#[test]
fn run_stops_at_its_limit() {
    let spin = vec![tm_cmd("q0", Cell::Blank, "q0", Cell::Blank, 'N')];
    let mut tm = TuringMachine::from("", spin).unwrap();
    assert_eq!(tm.run(0), 0);
    assert_eq!(tm.run(7), 7);
    assert_eq!(tm.run(500), 500);
    assert!(!tm.is_halted());
    let mut tm = TuringMachine::from("101101", complement()).unwrap();
    assert_eq!(tm.run(4), 4);
    assert_eq!(tm.to_strings(), vec!["0100q001"]);
    assert_eq!(tm.run(4), 4);
    assert_eq!(tm.run(100), 6);
    assert_eq!(tm.run(100), 0);
}

#[test]
fn restart_keeps_the_rules() {
    let mut tm = TuringMachine::from("10", complement()).unwrap();
    assert_eq!(tm.run(100), 6);
    assert_eq!(tm.to_strings(), vec!["qz01"]);
    assert_eq!(tm.restart(&["0011"], "q0".into()), Ok(()));
    assert_eq!(tm.to_strings(), vec!["q00011"]);
    assert_eq!(tm.run(100), 10);
    assert_eq!(tm.to_strings(), vec!["qz1100"]);
    assert_eq!(tm.restart(&["1"], "q1".into()), Ok(()));
    assert_eq!(tm.to_strings(), vec!["q11"]);
    assert_eq!(tm.next(), Some(vec![format!("q1{BLANK_CHAR}1")]));
}

#[test]
fn restart_with_another_number_of_tapes_is_refused() {
    let mut tm = TuringMachine::from("10", complement()).unwrap();
    tm.next();
    assert_eq!(tm.restart(&["0", "1"], "q0".into()), Err(Error::InvalidStartTapes));
    assert_eq!(tm.restart(&[], "q0".into()), Err(Error::InvalidStartTapes));
    assert_eq!(tm.to_strings(), vec!["0q00"]);
    assert_eq!(Error::InvalidStartTapes.message(), "invalid start tapes");
    assert_eq!(Error::ZeroLengthKey.to_string(), "zero-length instruction key");
}

// ---- words

fn all_words(alphabet: &[char], length: usize) -> Vec<String> {
    let mut it = alphabet.get_exhaustive_words(length);
    let mut words = Vec::new();
    while let Some(word) = it.next() {
        words.push(word);
    }
    assert_eq!(it.next(), None);
    words
}

#[test]
fn words_are_counted_distinct_and_ordered() {
    for (alphabet, length, count) in [
        ("ab", 1usize, 2usize),
        ("ab", 2, 4),
        ("abc", 3, 27),
        ("abcd", 4, 256),
        ("x", 5, 1),
        ("zyx", 2, 9),
    ] {
        let chars: Vec<char> = alphabet.chars().collect();
        let words = all_words(&chars, length);
        assert_eq!(words.len(), count);
        for word in &words {
            assert_eq!(word.chars().count(), length);
            assert!(word.chars().all(|ch| chars.contains(&ch)));
        }
        let rank = |word: &String| -> Vec<usize> {
            word.chars().map(|ch| chars.iter().position(|c| *c == ch).unwrap()).collect()
        };
        for pair in words.windows(2) {
            assert!(rank(&pair[0]) < rank(&pair[1]));
        }
    }
    assert_eq!(all_words(&['a', 'b'], 2), vec!["aa", "ab", "ba", "bb"]);
    assert_eq!(all_words(&['b', 'a'], 2), vec!["bb", "ba", "ab", "aa"]);
}

#[test]
fn length_zero_yields_no_word() {
    assert_eq!(all_words(&['a', 'b', 'c'], 0), Vec::<String>::new());
    let chars = ['a'];
    let mut it = ExhaustiveWordsIter::new(&chars, 0);
    assert_eq!(it.next(), None);
    assert_eq!(it.next(), None);
}

#[test]
fn empty_alphabet_yields_no_word() {
    assert_eq!(all_words(&[], 0), Vec::<String>::new());
    assert_eq!(all_words(&[], 3), Vec::<String>::new());
}

// ---- probing for the hardest input

#[test]
fn probe_counts_the_steps_on_one_word() {
    let mut tm = TuringMachine::from("", complement()).unwrap();
    let state = "q0".to_string();
    assert_eq!(probe(&mut tm, "101101", &state, 1000), 14);
    assert_eq!(tm.to_strings(), vec!["qz010010"]);
    assert_eq!(probe(&mut tm, "", &state, 1000), 2);
    assert_eq!(probe(&mut tm, "1", &state, 1000), 4);
    assert_eq!(probe(&mut tm, "101101", &state, 6), 6);
    assert_eq!(probe(&mut tm, "101101", &"qz".to_string(), 6), 0);
    let mut two = TuringMachine::from_multi(&["", ""], vec![two_tape_rule("q0", "qz")]).unwrap();
    assert_eq!(probe(&mut two, "", &state, 10), 1);
    assert_eq!(two.to_strings(), vec!["qz0".to_string(), format!("qz{BLANK_CHAR}")]);
    assert_eq!(probe(&mut two, "a", &state, 10), 0);
}

#[test]
fn scenario_worst_case_per_length_stays_under_the_cap() {
    let alphabet = ['0', '1'];
    let state = "q0".to_string();
    let mut tm = TuringMachine::from("", complement()).unwrap();
    // The machine walks over the word, turns, walks back and turns again:
    // 2 L + 2 steps on every word of length L.
    for length in 1..6usize {
        assert_eq!(worst_case(&mut tm, &alphabet, length, &state, 10_000), 2 * length + 2);
    }
    assert_eq!(worst_case(&mut tm, &alphabet, 5, &state, 9), 9);
    assert_eq!(worst_case(&mut tm, &alphabet, 5, &state, 0), 0);
    assert_eq!(worst_case(&mut tm, &alphabet, 0, &state, 10_000), 0);
    assert_eq!(worst_case(&mut tm, &[], 3, &state, 10_000), 0);

    // Over {a, b} only the leading run of a's is rewritten.
    let rewrite = vec![tm_cmd("q0", Cell::Symbol('a'), "q0", Cell::Symbol('b'), 'R')];
    let mut tm = TuringMachine::from("", rewrite).unwrap();
    assert_eq!(worst_case(&mut tm, &['a', 'b'], 2, &state, 100), 2);
    assert_eq!(worst_case(&mut tm, &['b', 'a'], 3, &state, 100), 3);
    assert_eq!(worst_case(&mut tm, &['b'], 3, &state, 100), 0);
    assert_eq!(worst_case(&mut tm, &['a', 'b'], 2, &state, 1), 1);
}

#[test]
fn scenario_sweep_can_be_cancelled_between_words() {
    let alphabet = ['a', 'b', 'c'];
    let state = "q0".to_string();
    let spin = vec![
        tm_cmd("q0", Cell::Symbol('a'), "q0", Cell::Symbol('a'), 'N'),
        tm_cmd("q0", Cell::Symbol('b'), "qz", Cell::Symbol('b'), 'N'),
    ];
    let mut tm = TuringMachine::from("", spin).unwrap();
    let cap = 500;
    let mut recorded = Vec::new();
    let mut probed = 0;
    'lengths: for length in 1..4usize {
        let mut worst = 0;
        let mut words = alphabet.get_exhaustive_words(length);
        while let Some(word) = words.next() {
            let cancelled = probed == 7;
            if cancelled {
                break 'lengths;
            }
            let steps = probe(&mut tm, &word, &state, cap);
            assert!(steps <= cap);
            probed += 1;
            worst = worst.max(steps);
        }
        assert_eq!(worst, worst_case(&mut tm, &alphabet, length, &state, cap));
        recorded.push((length, worst));
    }
    assert_eq!(probed, 7);
    assert_eq!(recorded, vec![(1, 500)]);
}

// ---- the table under edit

#[test]
fn table_keeps_its_rules_uniform() {
    assert!(RuleTable::new(vec![two_tape_rule("q0", "qz")], 1).is_none());
    assert!(RuleTable::new(vec![two_tape_rule("q0", "qz")], 0).is_none());
    assert!(RuleTable::new(vec![], 0).is_none());
    let mut table = RuleTable::new(vec![two_tape_rule("q0", "qz")], 2).unwrap();
    assert_eq!(table.num_tapes(), 2);
    assert_eq!(table.len(), 1);
    table.add_command();
    assert_eq!(table.len(), 2);
    assert_eq!(table.commands()[1], MultiCommand::blank(2));
    table.add_tape();
    assert_eq!(table.num_tapes(), 3);
    assert!(table.commands().iter().all(|cmd| cmd.len() == 3));
    table.remove_tape();
    table.remove_tape();
    table.remove_tape();
    assert_eq!(table.num_tapes(), 1);
    assert!(table.commands().iter().all(|cmd| cmd.len() == 1));
    table.remove_command();
    table.remove_command();
    table.remove_command();
    assert_eq!(table.len(), 0);
    assert_eq!(table.start("a").err(), Some(Error::NoCommands));
}

#[test]
fn table_edits_and_starts_a_machine() {
    let mut table = RuleTable::new(vec![], 2).unwrap();
    table.add_command();
    assert!(table.set_istate(0, "q0".into()));
    assert!(table.set_ostate(0, "q1".into()));
    assert!(table.set_icell(0, 0, Cell::Symbol('a')));
    assert!(table.set_ocell(0, 0, Cell::Symbol('b')));
    assert!(table.set_ocell(0, 1, Cell::Symbol('c')));
    assert!(table.set_direction(0, 0, Direction::Right));
    assert!(table.set_direction(0, 1, Direction::Left));
    assert!(!table.set_istate(1, "q".into()));
    assert!(!table.set_ostate(1, "q".into()));
    assert!(!table.set_icell(0, 2, Cell::Blank));
    assert!(!table.set_ocell(1, 0, Cell::Blank));
    assert!(!table.set_direction(0, 2, Direction::Stay));
    assert_eq!(
        table.commands()[0],
        tm_mcmd(
            "q0",
            vec![Cell::Symbol('a'), Cell::Blank],
            "q1",
            vec![Cell::Symbol('b'), Cell::Symbol('c')],
            vec!['R', 'L']
        )
    );
    let mut tm = table.start("aa").unwrap();
    assert_eq!(tm.to_strings(), vec!["q0aa".to_string(), format!("q0{BLANK_CHAR}")]);
    assert_eq!(
        tm.next(),
        Some(vec!["bq1a".to_string(), format!("q1{BLANK_CHAR}c")])
    );
    assert_eq!(tm.next(), None);
    assert_eq!(table.len(), 1);
}

// ---- alphabets and the record of a run

#[test]
fn typed_alphabet_is_sanitized() {
    assert_eq!(sanitize_alphabet("abca", "01"), "abc");
    assert_eq!(sanitize_alphabet("a0b1c", "01"), "abc");
    assert_eq!(sanitize_alphabet(&format!("a{BLANK_CHAR}b{BLANK_CHAR}"), ""), "ab");
    assert_eq!(sanitize_alphabet("", "abc"), "");
    assert_eq!(sanitize_alphabet("aaaa", ""), "a");
    assert_eq!(sanitize_alphabet("cba", "b"), "ca");
    assert_eq!(sanitize_alphabet("abc", "abc"), "");
}

#[test]
fn typed_input_is_held_to_the_alphabet() {
    assert_eq!(filter_input("abxcay", "abc"), "abca");
    assert_eq!(filter_input("xyz", "abc"), "");
    assert_eq!(filter_input("", "abc"), "");
    assert_eq!(filter_input("abc", ""), "");
    assert_eq!(filter_input("aabb", "ba"), "aabb");
}

#[test]
fn record_of_a_run_as_text() {
    assert_eq!(protocol_text(&vec![]), None);
    let one = vec![vec!["q0aaa".to_string()], vec!["bq0aa".to_string()]];
    assert_eq!(protocol_text(&one), Some("q0aaa\nbq0aa\n".to_string()));
    let two = vec![
        vec!["q0a".to_string(), "q0b".to_string(), "q0c".to_string()],
        vec!["qza".to_string(), "qzb".to_string(), "qzc".to_string()],
    ];
    assert_eq!(protocol_text(&two), Some("q0a q0b q0c\nqza qzb qzc\n".to_string()));
    assert_eq!(protocol_text(&vec![vec![]]), Some("\n".to_string()));

    let mut tm = TuringMachine::from("aa", vec![tm_cmd("q0", Cell::Symbol('a'), "q0", Cell::Blank, 'R')])
        .unwrap();
    let mut protocol = vec![tm.to_strings()];
    while let Some(strings) = tm.next() {
        protocol.push(strings);
    }
    assert_eq!(
        protocol_text(&protocol),
        Some(format!("q0aa\nq0a\nq0{BLANK_CHAR}\n"))
    );
}

#[test]
fn table_counts_the_rules_that_replace_another() {
    let rule = |istate: &str, icell: char, ostate: &str| {
        MultiCommand::from(tm_cmd(istate, Cell::Symbol(icell), ostate, Cell::Blank, 'N'))
    };
    let table = RuleTable::new(vec![], 1).unwrap();
    assert_eq!(table.overwritten(), 0);
    let table = RuleTable::new(
        vec![rule("q0", 'a', "q1"), rule("q0", 'b', "q1"), rule("q1", 'a', "q1")],
        1,
    )
    .unwrap();
    assert_eq!(table.overwritten(), 0);
    let table = RuleTable::new(
        vec![
            rule("q0", 'a', "q1"),
            rule("q0", 'a', "q2"),
            rule("q1", 'a', "q1"),
            rule("q0", 'a', "q3"),
            rule("q1", 'a', "q0"),
        ],
        1,
    )
    .unwrap();
    assert_eq!(table.overwritten(), 3);
    let mut tm = table.start("a").unwrap();
    assert_eq!(tm.next(), Some(vec![format!("q3{BLANK_CHAR}")]));
}

#[test]
fn trial_in_batches_stops_at_the_cap() {
    let state = "q0".to_string();
    let spin = vec![tm_cmd("q0", Cell::Blank, "q0", Cell::Blank, 'N')];
    let mut tm = TuringMachine::from("x", spin).unwrap();
    begin(&mut tm, "", &state);
    assert_eq!(tm.to_strings(), vec![format!("q0{BLANK_CHAR}")]);
    assert_eq!(resume(&mut tm, 0, 1200, 500), (500, true));
    assert_eq!(resume(&mut tm, 500, 1200, 500), (1000, true));
    assert_eq!(resume(&mut tm, 1000, 1200, 500), (1200, false));
    assert_eq!(resume(&mut tm, 1200, 1200, 500), (1200, false));
    assert_eq!(resume(&mut tm, 0, 1000, 500), (500, true));
    assert_eq!(resume(&mut tm, 500, 1000, 500), (1000, false));
    assert_eq!(resume(&mut tm, 3, 10, 0), (3, false));

    // A trial that halts closes short of its batch, and taking it in batches
    // takes as many steps as taking it at once.
    let mut tm = TuringMachine::from("", complement()).unwrap();
    begin(&mut tm, "101101", &state);
    assert_eq!(resume(&mut tm, 0, 100, 5), (5, true));
    assert_eq!(resume(&mut tm, 5, 100, 5), (10, true));
    assert_eq!(resume(&mut tm, 10, 100, 5), (14, false));
    assert_eq!(tm.to_strings(), vec!["qz010010"]);
    assert_eq!(probe(&mut tm, "101101", &state, 100), 14);

    let mut two = TuringMachine::from_multi(&["x", "y"], vec![two_tape_rule("q0", "qz")]).unwrap();
    begin(&mut two, "ab", &state);
    assert_eq!(two.to_strings(), vec!["q0ab".to_string(), format!("q0{BLANK_CHAR}")]);
}

#[test]
fn moves_on_a_settled_tape_undo_each_other() {
    for text in ["", "a", "abc"] {
        let mut t = Tape::from(text);
        for round in 0..4 {
            let before = (t.to_string_with_state("q"), *t.get(), t.len(), t.head());
            t.left();
            assert_eq!(t.head(), before.3 - 1);
            assert!(t.len() >= 1);
            t.right();
            assert_eq!((t.to_string_with_state("q"), *t.get(), t.len(), t.head()), before);
            t.right();
            assert_eq!(t.head(), before.3 + 1);
            t.left();
            assert_eq!((t.to_string_with_state("q"), *t.get(), t.len(), t.head()), before);
            if round % 2 == 0 {
                t.write(Cell::Symbol('z'));
                t.right();
                t.right();
            } else {
                t.write(Cell::Blank);
                t.left();
            }
        }
    }
}

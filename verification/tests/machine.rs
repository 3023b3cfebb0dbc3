use turing_machine::cell::{Cell, BLANK_CHAR};
use turing_machine::machine::TuringMachine;
use turing_machine::program::{Instructions, Program};
use turing_machine::rules::{Command, Direction};

#[test]
fn turing_machine_test_1() {
    let mut q0 = Instructions::new();
    q0.insert(
        vec![Cell::Symbol('a')],
        ("q0".into(), vec![Cell::Symbol('b')], vec![Direction::Right]),
    );
    let mut program = Program::new();
    program.insert("q0".into(), q0);
    let mut tm = TuringMachine::new(&["aaa"], "q0".into(), program).unwrap();
    assert_eq!(tm.to_strings(), vec!["q0aaa"]);
    assert_eq!(tm.next(), Some(vec!["bq0aa".into()]));
    assert_eq!(tm.next(), Some(vec!["bbq0a".into()]));
    assert_eq!(tm.next(), Some(vec![format!("bbbq0{BLANK_CHAR}")]));
    assert_eq!(tm.next(), None);
}

#[test]
fn turing_machine_test_2() {
    let mut q0 = Instructions::new();
    q0.insert(
        vec![Cell::Symbol('0')],
        ("q0".into(), vec![Cell::Symbol('1')], vec![Direction::Right]),
    );
    q0.insert(
        vec![Cell::Symbol('1')],
        ("q0".into(), vec![Cell::Symbol('0')], vec![Direction::Right]),
    );
    q0.insert(
        vec![Cell::Blank],
        ("q1".into(), vec![Cell::Blank], vec![Direction::Left]),
    );
    let mut q1 = Instructions::new();
    q1.insert(
        vec![Cell::Symbol('0')],
        ("q1".into(), vec![Cell::Symbol('0')], vec![Direction::Left]),
    );
    q1.insert(
        vec![Cell::Symbol('1')],
        ("q1".into(), vec![Cell::Symbol('1')], vec![Direction::Left]),
    );
    q1.insert(
        vec![Cell::Blank],
        ("qz".into(), vec![Cell::Blank], vec![Direction::Right]),
    );
    let mut program = Program::new();
    program.insert("q0".into(), q0);
    program.insert("q1".into(), q1);
    let mut tm = TuringMachine::new(&["101101"], "q0".into(), program).unwrap();
    assert_eq!(tm.to_strings(), vec!["q0101101"]);
    assert_eq!(tm.next().unwrap(), vec!["0q001101"]);
    assert_eq!(tm.next().unwrap(), vec!["01q01101"]);
    assert_eq!(tm.next().unwrap(), vec!["010q0101"]);
    assert_eq!(tm.next().unwrap(), vec!["0100q001"]);
    assert_eq!(tm.next().unwrap(), vec!["01001q01"]);
    assert_eq!(tm.next().unwrap(), vec![format!("010010q0{BLANK_CHAR}")]);
    assert_eq!(tm.next().unwrap(), vec!["01001q10"]);
    assert_eq!(tm.next().unwrap(), vec!["0100q110"]);
    assert_eq!(tm.next().unwrap(), vec!["010q1010"]);
    assert_eq!(tm.next().unwrap(), vec!["01q10010"]);
    assert_eq!(tm.next().unwrap(), vec!["0q110010"]);
    assert_eq!(tm.next().unwrap(), vec!["q1010010"]);
    assert_eq!(tm.next().unwrap(), vec![format!("q1{BLANK_CHAR}010010")]);
    assert_eq!(tm.next().unwrap(), vec!["qz010010"]);
    assert_eq!(tm.next(), None);
}

#[test]
fn turing_machine_test_3() {
    let mut tm = TuringMachine::from(
        "aaa",
        vec![Command::new(
            "q0".into(),
            Cell::Symbol('a'),
            "q0".into(),
            Cell::Symbol('b'),
            Direction::Right,
        )],
    )
    .unwrap();
    assert_eq!(tm.to_strings(), vec!["q0aaa"]);
    assert_eq!(tm.next(), Some(vec!["bq0aa".into()]));
    assert_eq!(tm.next(), Some(vec!["bbq0a".into()]));
    assert_eq!(tm.next(), Some(vec![format!("bbbq0{BLANK_CHAR}")]));
    assert_eq!(tm.next(), None);
}

#[test]
fn turing_machine_test_4() {
    let cmds = vec![
        Command::new(
            "q0".into(),
            Cell::Symbol('0'),
            "q0".into(),
            Cell::Symbol('1'),
            Direction::Right,
        ),
        Command::new(
            "q0".into(),
            Cell::Symbol('1'),
            "q0".into(),
            Cell::Symbol('0'),
            Direction::Right,
        ),
        Command::new(
            "q0".into(),
            Cell::Blank,
            "q1".into(),
            Cell::Blank,
            Direction::Left,
        ),
        Command::new(
            "q1".into(),
            Cell::Symbol('0'),
            "q1".into(),
            Cell::Symbol('0'),
            Direction::Left,
        ),
        Command::new(
            "q1".into(),
            Cell::Symbol('1'),
            "q1".into(),
            Cell::Symbol('1'),
            Direction::Left,
        ),
        Command::new(
            "q1".into(),
            Cell::Blank,
            "qz".into(),
            Cell::Blank,
            Direction::Right,
        ),
    ];
    let mut tm = TuringMachine::from("101101", cmds).unwrap();
    assert_eq!(tm.to_strings(), vec!["q0101101"]);
    assert_eq!(tm.next().unwrap(), vec!["0q001101"]);
    assert_eq!(tm.next().unwrap(), vec!["01q01101"]);
    assert_eq!(tm.next().unwrap(), vec!["010q0101"]);
    assert_eq!(tm.next().unwrap(), vec!["0100q001"]);
    assert_eq!(tm.next().unwrap(), vec!["01001q01"]);
    assert_eq!(tm.next().unwrap(), vec![format!("010010q0{BLANK_CHAR}")]);
    assert_eq!(tm.next().unwrap(), vec!["01001q10"]);
    assert_eq!(tm.next().unwrap(), vec!["0100q110"]);
    assert_eq!(tm.next().unwrap(), vec!["010q1010"]);
    assert_eq!(tm.next().unwrap(), vec!["01q10010"]);
    assert_eq!(tm.next().unwrap(), vec!["0q110010"]);
    assert_eq!(tm.next().unwrap(), vec!["q1010010"]);
    assert_eq!(tm.next().unwrap(), vec![format!("q1{BLANK_CHAR}010010")]);
    assert_eq!(tm.next().unwrap(), vec!["qz010010"]);
    assert_eq!(tm.next(), None);
}

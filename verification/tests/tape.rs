use turing_machine::cell::{Cell, BLANK_CHAR};
use turing_machine::tape::Tape;

#[test]
fn test_to_string_1() {
    let mut t = Tape::new();
    t.write('a'.into());
    t.right();
    t.write('b'.into());
    assert_eq!(t.to_string(), "ab");
}

#[test]
fn test_to_string_2() {
    let t = Tape::new();
    assert_eq!(t.to_string(), format!("{BLANK_CHAR}"));
}

#[test]
fn test_to_string_3() {
    let mut t = Tape::new();
    t.left();
    t.write(Cell::Symbol('a'));
    assert_eq!(t.to_string(), "a");
}

#[test]
fn test_to_string_4() {
    let mut t = Tape::new();
    t.left();
    t.left();
    assert_eq!(t.to_string(), format!("{BLANK_CHAR}"));
}

#[test]
fn test_to_string_5() {
    let mut t = Tape::new();
    t.left();
    t.left();
    t.write(Cell::Symbol('a'));
    assert_eq!(t.to_string(), "a");
}

#[test]
fn test_to_string_6() {
    let mut t = Tape::new();
    t.write(Cell::Symbol('b'));
    t.left();
    t.left();
    t.left();
    t.write(Cell::Symbol('a'));
    assert_eq!(t.to_string(), format!("a{BLANK_CHAR}{BLANK_CHAR}b"));
}

#[test]
fn test_to_string_with_state_1() {
    let mut t = Tape::new();
    t.left();
    assert_eq!(t.to_string_with_state("q0"), format!("q0{BLANK_CHAR}"));
}

#[test]
fn test_to_string_with_state_2() {
    let mut t = Tape::new();
    t.left();
    t.left();
    assert_eq!(t.to_string_with_state("q0"), format!("q0{BLANK_CHAR}"));
}

#[test]
fn test_to_string_with_state_3() {
    let t = Tape::new();
    assert_eq!(t.to_string_with_state("q0"), format!("q0{BLANK_CHAR}"));
}

#[test]
fn test_to_string_with_state_4() {
    let mut t = Tape::new();
    t.write(Cell::Blank);
    assert_eq!(t.to_string_with_state("q0"), format!("q0{BLANK_CHAR}"));
}

#[test]
fn test_to_string_with_state_5() {
    let mut t = Tape::new();
    t.write(Cell::Symbol('a'));
    assert_eq!(t.to_string_with_state("q0"), "q0a");
}

#[test]
fn test_to_string_with_state_6() {
    let mut t = Tape::new();
    t.write(Cell::Symbol('a'));
    t.right();
    t.write(Cell::Symbol('b'));
    assert_eq!(t.to_string_with_state("q0"), "aq0b");
}

#[test]
fn test_to_string_with_state_7() {
    let mut t = Tape::new();
    t.write(Cell::Symbol('a'));
    t.right();
    t.write(Cell::Blank);
    assert_eq!(t.to_string_with_state("q0"), format!("aq0{BLANK_CHAR}"));
}

#[test]
fn test_to_string_with_state_8() {
    let mut t = Tape::new();
    t.write(Cell::Symbol('a'));
    t.right();
    t.right();
    t.right();
    assert_eq!(
        t.to_string_with_state("q0"),
        format!("a{BLANK_CHAR}{BLANK_CHAR}q0{BLANK_CHAR}")
    );
}

#[test]
fn test_to_string_with_state_9() {
    let mut t = Tape::new();
    t.write(Cell::Symbol('a'));
    t.right();
    t.right();
    t.right();
    t.write(Cell::Symbol('b'));
    assert_eq!(
        t.to_string_with_state("q0"),
        format!("a{BLANK_CHAR}{BLANK_CHAR}q0b")
    );
}

#[test]
fn test_get_1() {
    let t = Tape::new();
    assert_eq!(t.get(), &Cell::Blank);
}

#[test]
fn test_get_2() {
    let mut t = Tape::new();
    t.write(Cell::Symbol('a'));
    assert_eq!(t.get(), &Cell::Symbol('a'));
}

#[test]
fn test_get_3() {
    let mut t = Tape::new();
    t.right();
    t.write(Cell::Symbol('a'));
    assert_eq!(t.get(), &Cell::Symbol('a'));
}

#[test]
fn test_get_4() {
    let mut t = Tape::new();
    t.right();
    t.write(Cell::Symbol('a'));
    t.right();
    assert_eq!(t.get(), &Cell::Blank);
}

#[test]
fn test_get_5() {
    let mut t = Tape::new();
    t.right();
    t.write(Cell::Symbol('a'));
    t.right();
    t.left();
    assert_eq!(t.get(), &Cell::Symbol('a'));
}

#[test]
fn test_get_6() {
    let mut t = Tape::new();
    t.right();
    t.write(Cell::Symbol('a'));
    t.right();
    t.left();
    t.left();
    assert_eq!(t.get(), &Cell::Blank);
}

#[test]
fn test_from_1() {
    let t = Tape::from("");
    assert_eq!(t.to_string_with_state("q0"), format!("q0{BLANK_CHAR}"));
}

#[test]
fn test_from_2() {
    let t = Tape::from("aaa");
    assert_eq!(t.to_string_with_state("q0"), "q0aaa");
}

#[test]
fn test_from_3() {
    let mut t = Tape::from("abcd");
    t.right();
    t.write(Cell::Symbol('X'));
    assert_eq!(t.to_string_with_state("q0"), "aq0Xcd");
}

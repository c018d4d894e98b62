use brainfunct::ops::{CompileError, Op};
use brainfunct::parse::parse;

#[test]
fn function_count_equals_separator_count() {
    let p = parse(b"/+/-/><").unwrap();
    assert_eq!(p.funs.len(), 3);
    assert_eq!(p.funs[0], vec![Op::Increment]);
    assert_eq!(p.funs[1], vec![Op::Decrement]);
    assert_eq!(p.funs[2], vec![Op::MoveRight, Op::MoveLeft]);
}

#[test]
fn leading_fragment_before_first_separator_is_discarded() {
    let p = parse(b"+-./,@").unwrap();
    assert_eq!(p.funs.len(), 1);
    assert_eq!(p.funs[0], vec![Op::Read, Op::Call]);
}

#[test]
fn all_seven_operators_are_accepted() {
    let p = parse(b"/><+-.,@").unwrap();
    assert_eq!(p.funs.len(), 1);
    assert_eq!(
        p.funs[0],
        vec![
            Op::MoveRight,
            Op::MoveLeft,
            Op::Increment,
            Op::Decrement,
            Op::Write,
            Op::Read,
            Op::Call,
        ]
    );
}

#[test]
fn empty_source_has_no_functions() {
    let r = parse(b"");
    match r {
        Err(e) => assert_eq!(e, CompileError::NoFunctionsDefined),
        Ok(_) => panic!("an empty program defines no function"),
    }
}

#[test]
fn disallowed_byte_reports_its_position() {
    let r = parse(b"/++a+");
    match r {
        Err(e) => assert_eq!(e, CompileError::InvalidCharacter { position: 3 }),
        Ok(_) => panic!("the byte 'a' is not an operator"),
    }
}

#[test]
fn disallowed_byte_before_any_separator_still_rejects() {
    let r = parse(b"x/+");
    match r {
        Err(e) => assert_eq!(e, CompileError::InvalidCharacter { position: 0 }),
        Ok(_) => panic!("the byte 'x' is not an operator"),
    }
}

#[test]
fn two_hundred_fifty_five_functions_are_accepted() {
    let program = vec![b'/'; 255];
    let p = parse(&program).unwrap();
    assert_eq!(p.funs.len(), 255);
}

#[test]
fn two_hundred_fifty_six_separators_are_rejected() {
    let program = vec![b'/'; 256];
    let r = parse(&program);
    match r {
        Err(e) => assert_eq!(e, CompileError::TooManyFunctions),
        Ok(_) => panic!("256 functions exceed the ceiling"),
    }
}

#[test]
fn function_ceiling_wins_over_a_later_disallowed_byte() {
    let mut program = vec![b'/'; 256];
    program.push(b'x');
    let r = parse(&program);
    match r {
        Err(e) => assert_eq!(e, CompileError::TooManyFunctions),
        Ok(_) => panic!("the 256th separator is reached before the bad byte"),
    }
}

#[test]
fn earlier_disallowed_byte_wins_over_the_function_ceiling() {
    let mut program = vec![b'x'];
    program.extend(vec![b'/'; 256]);
    let r = parse(&program);
    match r {
        Err(e) => assert_eq!(e, CompileError::InvalidCharacter { position: 0 }),
        Ok(_) => panic!("the bad byte is scanned before the 256th separator"),
    }
}

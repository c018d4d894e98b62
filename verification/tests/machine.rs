use brainfunct::ops::CompileError;
use brainfunct::semantics::{
    prim_decrement, prim_increment, prim_move_left, prim_move_right, prim_read, prim_write,
    Machine,
};

#[test]
fn cursor_wraps_from_last_cell_to_first() {
    let mut m = Machine::new(Vec::new(), Vec::new());
    m = prim_move_left(m);
    assert_eq!(m.cursor, 65535);
    m = prim_move_right(m);
    assert_eq!(m.cursor, 0);
}

#[test]
fn incrementing_255_wraps_to_zero() {
    let mut m = Machine::new(Vec::new(), Vec::new());
    for _ in 0..255 {
        m = prim_increment(m);
    }
    assert_eq!(m.tape[0], 255);
    m = prim_increment(m);
    assert_eq!(m.tape[0], 0);
}

#[test]
fn decrementing_zero_wraps_to_255() {
    let mut m = Machine::new(Vec::new(), Vec::new());
    let m = prim_decrement(m);
    assert_eq!(m.tape[0], 255);
}

#[test]
fn read_fills_the_cell_and_advances() {
    let m = Machine::new(vec![7, 9], Vec::new());
    let m = prim_read(m).unwrap();
    assert_eq!(m.tape[0], 7);
    assert_eq!(m.in_pos, 1);
    let m = prim_read(m).unwrap();
    assert_eq!(m.tape[0], 9);
    let r = prim_read(m);
    match r {
        Err(e) => assert_eq!(e, CompileError::InputExhausted),
        Ok(_) => panic!("the two input bytes are already consumed"),
    }
}

#[test]
fn write_compares_against_the_expected_stream_in_place() {
    let m = Machine::new(Vec::new(), vec![0, 3]);
    let m = prim_write(m).unwrap();
    assert_eq!(m.out_pos, 1);
    let r = prim_write(m);
    match r {
        Err(e) => assert_eq!(
            e,
            CompileError::OutputMismatch { position: 1, expected: Some(3), actual: Some(0) }
        ),
        Ok(_) => panic!("the zero cell cannot match the expected 3"),
    }
}

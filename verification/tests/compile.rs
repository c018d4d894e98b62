use brainfunct::compile;
use brainfunct::ops::CompileError;

#[test]
fn no_functions_defined_without_separator() {
    let r = compile(b"+.", b"", b"\x01");
    match r {
        Err(e) => assert_eq!(e, CompileError::NoFunctionsDefined),
        Ok(_) => panic!("a program without a separator must be rejected"),
    }
}

#[test]
fn single_function_increment_and_emit_succeeds() {
    let r = compile(b"/+.", b"", b"\x01");
    assert!(r.is_ok());
}

#[test]
fn compiled_artifact_reruns_on_both_backends() {
    let a = compile(b"/+.", b"", b"\x01").unwrap();
    assert!(a.run_tape_vm(b"", b"\x01").is_ok());
    assert!(a.run_chains(b"", b"\x01").is_ok());
}

#[test]
fn read_then_call_increments_before_emitting() {
    // The called function increments the read byte before emitting it, so
    // the produced byte is 2, not the 1 that was read.
    let r = compile(b"/+./,@", b"\x01", b"\x01");
    match r {
        Err(e) => assert_eq!(
            e,
            CompileError::OutputMismatch { position: 0, expected: Some(1), actual: Some(2) }
        ),
        Ok(_) => panic!("the emitted byte 2 cannot match the expected byte 1"),
    }
}

#[test]
fn read_then_call_succeeds_with_incremented_expectation() {
    let r = compile(b"/+./,@", b"\x01", b"\x02");
    assert!(r.is_ok());
}

#[test]
fn wrong_expected_byte_is_an_output_mismatch() {
    let r = compile(b"/+.", b"", b"\x02");
    match r {
        Err(e) => assert_eq!(
            e,
            CompileError::OutputMismatch { position: 0, expected: Some(2), actual: Some(1) }
        ),
        Ok(_) => panic!("a mismatched byte must fail compilation"),
    }
}

#[test]
fn reading_from_empty_input_is_input_exhausted() {
    let r = compile(b"/,", b"", b"");
    match r {
        Err(e) => assert_eq!(e, CompileError::InputExhausted),
        Ok(_) => panic!("a read with no input left must trap"),
    }
}

#[test]
fn two_hundred_fifty_seven_separators_are_too_many_functions() {
    let program = vec![b'/'; 257];
    let r = compile(&program, b"", b"");
    match r {
        Err(e) => assert_eq!(e, CompileError::TooManyFunctions),
        Ok(_) => panic!("257 functions must be rejected"),
    }
}

#[test]
fn expected_stream_longer_than_output_is_a_mismatch() {
    // The program emits one byte and stops; the second expected byte is
    // never produced.
    let r = compile(b"/.", b"", b"\x00\x00");
    match r {
        Err(e) => assert_eq!(
            e,
            CompileError::OutputMismatch { position: 1, expected: Some(0), actual: None }
        ),
        Ok(_) => panic!("a shorter-than-expected output must fail compilation"),
    }
}

#[test]
fn output_longer_than_expected_stream_is_a_mismatch() {
    let r = compile(b"/..", b"", b"\x00");
    match r {
        Err(e) => assert_eq!(
            e,
            CompileError::OutputMismatch { position: 1, expected: None, actual: Some(0) }
        ),
        Ok(_) => panic!("a longer-than-expected output must fail compilation"),
    }
}

#[test]
fn call_on_zero_cell_is_undefined() {
    let r = compile(b"/@", b"", b"");
    match r {
        Err(e) => assert_eq!(e, CompileError::UndefinedFunctionCall { id: 0 }),
        Ok(_) => panic!("identifier 0 names no function"),
    }
}

#[test]
fn call_naming_the_entry_function_is_undefined() {
    // With one user function the entry point has identifier 1, and the
    // entry function is not a callable target.
    let r = compile(b"/+@", b"", b"");
    match r {
        Err(e) => assert_eq!(e, CompileError::UndefinedFunctionCall { id: 1 }),
        Ok(_) => panic!("the entry function cannot be called"),
    }
}

#[test]
fn unbounded_recursion_overflows_the_call_stack() {
    // Function 1 calls function 1 forever; the call stack's capacity is
    // exhausted after 65536 nested calls.
    let r = compile(b"/@/+@", b"", b"");
    match r {
        Err(e) => assert_eq!(e, CompileError::UnbalancedCallStack),
        Ok(_) => panic!("unbounded recursion must trap"),
    }
}

#[test]
fn tape_pointer_wraps_around_the_tape() {
    // Move left from cell 0 to cell 65535, increment there, move right
    // back to cell 0, and emit its untouched zero.
    let r = compile(b"/<+>.", b"", b"\x00");
    assert!(r.is_ok());
}

#[test]
fn incrementing_a_cell_256_times_wraps_to_zero() {
    let mut program = vec![b'/'];
    program.extend(std::iter::repeat(b'+').take(256));
    program.push(b'.');
    let r = compile(&program, b"", b"\x00");
    assert!(r.is_ok());
}

#[test]
fn decrementing_a_zero_cell_wraps_to_255() {
    let r = compile(b"/-.", b"", b"\xff");
    assert!(r.is_ok());
}

#[test]
fn both_backends_agree_on_success() {
    let a = compile(b"/+./,@", b"\x01", b"\x02").unwrap();
    let vm = a.run_tape_vm(b"\x01", b"\x02");
    let ch = a.run_chains(b"\x01", b"\x02");
    assert_eq!(vm.is_ok(), ch.is_ok());
    assert!(vm.is_ok());
}

#[test]
fn both_backends_agree_on_the_same_trap() {
    let a = compile(b"/+.", b"", b"\x01").unwrap();
    let vm = a.run_tape_vm(b"", b"\x02");
    let ch = a.run_chains(b"", b"\x02");
    match (vm, ch) {
        (Err(e1), Err(e2)) => {
            assert_eq!(e1, e2);
            assert_eq!(
                e1,
                CompileError::OutputMismatch { position: 0, expected: Some(2), actual: Some(1) }
            );
        },
        _ => panic!("both backends must report the same mismatch"),
    }
}

#[test]
fn empty_function_with_empty_expectation_succeeds() {
    let r = compile(b"/", b"", b"");
    assert!(r.is_ok());
}

#[test]
fn backends_agree_across_a_program_sweep() {
    // Each program is first compiled with a triple it verifies against;
    // the artifact is then re-run by both backends against several other
    // inputs and expectations, matching or not, and the two backends must
    // return identical results every time.
    let artifacts: Vec<(&[u8], &[u8], &[u8])> = vec![
        (b"/", b"", b""),
        (b"/+.", b"", b"\x01"),
        (b"/,.", b"\x09", b"\x09"),
        (b"/+./,@", b"\x01", b"\x02"),
        (b"/>+<.", b"", b"\x00"),
        (b"/-.", b"", b"\xff"),
    ];
    let probes: Vec<(&[u8], &[u8])> = vec![
        (b"", b""),
        (b"", b"\x01"),
        (b"\x01", b"\x01"),
        (b"\x01", b"\x02"),
        (b"\x09", b"\x09"),
        (b"", b"\x00\x00"),
        (b"\x02\x03", b"\xff"),
    ];
    for (program, input, expected) in artifacts {
        let a = compile(program, input, expected).unwrap();
        for &(probe_in, probe_out) in &probes {
            let vm = a.run_tape_vm(probe_in, probe_out);
            let ch = a.run_chains(probe_in, probe_out);
            assert_eq!(vm, ch);
        }
    }
}

#[test]
fn both_backends_agree_on_undefined_calls() {
    let a = compile(b"/+.", b"", b"\x01").unwrap();
    let vm = a.run_tape_vm(b"", b"");
    let ch = a.run_chains(b"", b"");
    match (vm, ch) {
        (Err(e1), Err(e2)) => assert_eq!(e1, e2),
        _ => panic!("both backends must fail against an empty expectation"),
    }
}

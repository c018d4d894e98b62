use vstd::prelude::*;

use crate::ops::{Op, CompileError, TAPE_LEN, CALL_DEPTH};

verus! {

/// The mathematical state of the tape machine: the tape with its cursor,
/// the input stream with its read position, and the expected-output stream
/// with the position of the next byte to be produced. No output is
/// buffered: each produced byte is compared against the expected stream at
/// the moment it is written, so `out_pos` is both the output cursor and the
/// count of bytes produced so far.
#[verifier::ext_equal]
pub struct MachineView {
    pub tape: Seq<u8>,
    pub cursor: nat,
    pub input: Seq<u8>,
    pub in_pos: nat,
    pub expected: Seq<u8>,
    pub out_pos: nat,
}

/// The byte under the cursor.
pub open spec fn cell(m: MachineView) -> u8 {
    m.tape[m.cursor as int]
}

/// Incrementing a cell wraps modulo 256: a cell at 255 yields 0.
pub open spec fn wrap_inc(b: u8) -> u8 {
    if b == 255 {
        0
    } else {
        (b + 1) as u8
    }
}

/// Decrementing a cell wraps modulo 256: a cell at 0 yields 255.
pub open spec fn wrap_dec(b: u8) -> u8 {
    if b == 0 {
        255
    } else {
        (b - 1) as u8
    }
}

/// A machine state is well formed when its tape has the fixed capacity and
/// its stream positions have not run past their streams.
pub open spec fn mv_wf(m: MachineView) -> bool {
    &&& m.tape.len() == TAPE_LEN
    &&& m.cursor < TAPE_LEN
    &&& m.in_pos <= m.input.len()
    &&& m.out_pos <= m.expected.len()
}

/// What one non-call operation does to the machine, or the trap it raises.
pub enum StepOutcome {
    Next(MachineView),
    Trap(CompileError),
}

/// The meaning of the six primitive operations. The tape cursor wraps at
/// the tape's capacity; cells wrap modulo 256; a read past the end of the
/// input traps; a write compares the produced byte against the expected
/// stream in place and traps on the first deviation, including a byte
/// produced after the expected stream is exhausted.
pub open spec fn step_op(op: Op, m: MachineView) -> StepOutcome {
    match op {
        Op::MoveRight => StepOutcome::Next(
            MachineView {
                cursor: if m.cursor + 1 == TAPE_LEN {
                    0nat
                } else {
                    (m.cursor + 1) as nat
                },
                ..m
            },
        ),
        Op::MoveLeft => StepOutcome::Next(
            MachineView {
                cursor: if m.cursor == 0 {
                    (TAPE_LEN - 1) as nat
                } else {
                    (m.cursor - 1) as nat
                },
                ..m
            },
        ),
        Op::Increment => StepOutcome::Next(
            MachineView { tape: m.tape.update(m.cursor as int, wrap_inc(cell(m))), ..m },
        ),
        Op::Decrement => StepOutcome::Next(
            MachineView { tape: m.tape.update(m.cursor as int, wrap_dec(cell(m))), ..m },
        ),
        Op::Read => if m.in_pos >= m.input.len() {
            StepOutcome::Trap(CompileError::InputExhausted)
        } else {
            StepOutcome::Next(
                MachineView {
                    tape: m.tape.update(m.cursor as int, m.input[m.in_pos as int]),
                    in_pos: (m.in_pos + 1) as nat,
                    ..m
                },
            )
        },
        Op::Write => if m.out_pos >= m.expected.len() {
            StepOutcome::Trap(
                CompileError::OutputMismatch {
                    position: m.out_pos as usize,
                    expected: None,
                    actual: Some(cell(m)),
                },
            )
        } else if m.expected[m.out_pos as int] != cell(m) {
            StepOutcome::Trap(
                CompileError::OutputMismatch {
                    position: m.out_pos as usize,
                    expected: Some(m.expected[m.out_pos as int]),
                    actual: Some(cell(m)),
                },
            )
        } else {
            StepOutcome::Next(MachineView { out_pos: (m.out_pos + 1) as nat, ..m })
        },
        // A call is interpreted by `run_ops`, never as a single step, and
        // a boundary never stands inside a parsed body: both are the
        // defensive trap for a byte that cannot be stepped.
        Op::Call => StepOutcome::Trap(CompileError::UnbalancedCallStack),
        Op::FunctionBoundary => StepOutcome::Trap(CompileError::UnbalancedCallStack),
    }
}

/// The result of running a sequence of operations to completion.
pub enum RunOutcome {
    Done(MachineView),
    Trapped(CompileError),
}

/// The big-step semantics shared by both backends: run the operations of
/// `ops` in order against machine `m`, where `funs` is the program's
/// function table. A call dispatches on the byte under the cursor: it must
/// name one of the callable functions (identifiers 1 up to the function
/// count exclusive — the entry function is not a callable target), the
/// callee's whole body runs, and the caller resumes. `depth` bounds the
/// call nesting that the bounded call stack can hold; exhausting it traps.
pub open spec fn run_ops(funs: Seq<Seq<Op>>, ops: Seq<Op>, m: MachineView, depth: nat) -> RunOutcome
    decreases depth, ops.len(),
{
    if ops.len() == 0 {
        RunOutcome::Done(m)
    } else if ops[0] == Op::Call {
        let id = cell(m);
        if id == 0 || id as int >= funs.len() {
            RunOutcome::Trapped(CompileError::UndefinedFunctionCall { id })
        } else if depth == 0 {
            RunOutcome::Trapped(CompileError::UnbalancedCallStack)
        } else {
            match run_ops(funs, funs[id as int - 1], m, (depth - 1) as nat) {
                RunOutcome::Done(m2) => run_ops(funs, ops.drop_first(), m2, depth),
                RunOutcome::Trapped(t) => RunOutcome::Trapped(t),
            }
        }
    } else {
        match step_op(ops[0], m) {
            StepOutcome::Next(m2) => run_ops(funs, ops.drop_first(), m2, depth),
            StepOutcome::Trap(t) => RunOutcome::Trapped(t),
        }
    }
}

/// Execution never rewrites the streams themselves: however a run ends or
/// traps, the input and expected streams of the resulting machine are
/// those it started from (only the positions advance).
pub proof fn lemma_run_ops_streams(funs: Seq<Seq<Op>>, ops: Seq<Op>, m: MachineView, depth: nat)
    ensures
        match run_ops(funs, ops, m, depth) {
            RunOutcome::Done(m2) => m2.input == m.input && m2.expected == m.expected
                && m2.input.len() == m.input.len() && m2.expected.len() == m.expected.len(),
            RunOutcome::Trapped(_) => true,
        },
    decreases depth, ops.len(),
{
    if ops.len() == 0 {
    } else if ops[0] == Op::Call {
        let id = cell(m);
        if id == 0 || id as int >= funs.len() {
        } else if depth == 0 {
        } else {
            lemma_run_ops_streams(funs, funs[id as int - 1], m, (depth - 1) as nat);
            match run_ops(funs, funs[id as int - 1], m, (depth - 1) as nat) {
                RunOutcome::Done(m2) => {
                    lemma_run_ops_streams(funs, ops.drop_first(), m2, depth);
                },
                RunOutcome::Trapped(_) => {},
            }
        }
    } else {
        match step_op(ops[0], m) {
            StepOutcome::Next(m2) => {
                lemma_run_ops_streams(funs, ops.drop_first(), m2, depth);
            },
            StepOutcome::Trap(_) => {},
        }
    }
}

/// The machine every execution starts from: a zeroed tape, the cursor at
/// cell 0, and both stream positions at 0.
pub open spec fn init_machine(input: Seq<u8>, expected: Seq<u8>) -> MachineView {
    MachineView {
        tape: Seq::new(TAPE_LEN as nat, |i: int| 0u8),
        cursor: 0,
        input,
        in_pos: 0,
        expected,
        out_pos: 0,
    }
}

/// The verdict of the whole verification pass: run the entry function (the
/// last-defined one) from the initial machine; any trap is fatal, and a run
/// that completes without producing the whole expected stream is an output
/// mismatch at the first unproduced position. `None` means the program was
/// verified: it produced exactly the expected bytes.
pub open spec fn program_verdict(funs: Seq<Seq<Op>>, input: Seq<u8>, expected: Seq<u8>) -> Option<
    CompileError,
> {
    match run_ops(funs, funs.last(), init_machine(input, expected), CALL_DEPTH as nat) {
        RunOutcome::Trapped(t) => Some(t),
        RunOutcome::Done(m) => if m.out_pos == expected.len() {
            None
        } else {
            Some(
                CompileError::OutputMismatch {
                    position: m.out_pos as usize,
                    expected: Some(expected[m.out_pos as int]),
                    actual: None,
                },
            )
        },
    }
}

/// The runtime machine state threaded, by value, through the primitive
/// operations: each primitive consumes a state and returns the next one.
pub struct Machine {
    pub tape: Vec<u8>,
    pub cursor: u16,
    pub input: Vec<u8>,
    pub in_pos: usize,
    pub expected: Vec<u8>,
    pub out_pos: usize,
}

impl View for Machine {
    type V = MachineView;

    open spec fn view(&self) -> MachineView {
        MachineView {
            tape: self.tape@,
            cursor: self.cursor as nat,
            input: self.input@,
            in_pos: self.in_pos as nat,
            expected: self.expected@,
            out_pos: self.out_pos as nat,
        }
    }
}

impl Machine {
    pub open spec fn wf(&self) -> bool {
        mv_wf(self@)
    }

    /// The initial machine for one verification pass.
    pub fn new(input: Vec<u8>, expected: Vec<u8>) -> (m: Machine)
        ensures
            m.wf(),
            m@ == init_machine(input@, expected@),
    {
        let mut tape: Vec<u8> = Vec::new();
        while tape.len() < TAPE_LEN
            invariant
                tape@.len() <= TAPE_LEN,
                forall|j: int| 0 <= j < tape@.len() ==> tape@[j] == 0u8,
            decreases TAPE_LEN - tape@.len(),
        {
            tape.push(0u8);
        }
        let m = Machine { tape, cursor: 0, input, in_pos: 0, expected, out_pos: 0 };
        proof {
            assert(m@ =~= init_machine(m.input@, m.expected@));
        }
        m
    }
}

/// Advance the cursor one cell to the right, wrapping at the tape's end.
pub fn prim_move_right(m: Machine) -> (r: Machine)
    requires
        m.wf(),
    ensures
        r.wf(),
        step_op(Op::MoveRight, m@) == StepOutcome::Next(r@),
        r@.cursor == if m@.cursor + 1 == TAPE_LEN {
            0nat
        } else {
            (m@.cursor + 1) as nat
        },
{
    let mut m = m;
    let ghost m0 = m@;
    if m.cursor == 65535 {
        m.cursor = 0;
    } else {
        m.cursor = m.cursor + 1;
    }
    proof {
        assert(step_op(Op::MoveRight, m0) == StepOutcome::Next(m@)) by {
            assert(m@ =~= MachineView {
                cursor: if m0.cursor + 1 == TAPE_LEN {
                    0nat
                } else {
                    (m0.cursor + 1) as nat
                },
                ..m0
            });
        }
    }
    m
}

/// Retreat the cursor one cell to the left, wrapping at the tape's start.
pub fn prim_move_left(m: Machine) -> (r: Machine)
    requires
        m.wf(),
    ensures
        r.wf(),
        step_op(Op::MoveLeft, m@) == StepOutcome::Next(r@),
        r@.cursor == if m@.cursor == 0 {
            (TAPE_LEN - 1) as nat
        } else {
            (m@.cursor - 1) as nat
        },
{
    let mut m = m;
    let ghost m0 = m@;
    if m.cursor == 0 {
        m.cursor = 65535;
    } else {
        m.cursor = m.cursor - 1;
    }
    proof {
        assert(step_op(Op::MoveLeft, m0) == StepOutcome::Next(m@)) by {
            assert(m@ =~= MachineView {
                cursor: if m0.cursor == 0 {
                    (TAPE_LEN - 1) as nat
                } else {
                    (m0.cursor - 1) as nat
                },
                ..m0
            });
        }
    }
    m
}

/// Increment the cell under the cursor, wrapping 255 to 0.
pub fn prim_increment(m: Machine) -> (r: Machine)
    requires
        m.wf(),
    ensures
        r.wf(),
        step_op(Op::Increment, m@) == StepOutcome::Next(r@),
        r@.tape[m@.cursor as int] == wrap_inc(cell(m@)),
{
    let mut m = m;
    let ghost m0 = m@;
    let idx: usize = m.cursor as usize;
    let c: u8 = m.tape[idx];
    let c2: u8 = if c == 255 {
        0
    } else {
        c + 1
    };
    m.tape[idx] = c2;
    proof {
        assert(step_op(Op::Increment, m0) == StepOutcome::Next(m@)) by {
            assert(m@ =~= MachineView {
                tape: m0.tape.update(m0.cursor as int, wrap_inc(cell(m0))),
                ..m0
            });
        }
    }
    m
}

/// Decrement the cell under the cursor, wrapping 0 to 255.
pub fn prim_decrement(m: Machine) -> (r: Machine)
    requires
        m.wf(),
    ensures
        r.wf(),
        step_op(Op::Decrement, m@) == StepOutcome::Next(r@),
        r@.tape[m@.cursor as int] == wrap_dec(cell(m@)),
{
    let mut m = m;
    let ghost m0 = m@;
    let idx: usize = m.cursor as usize;
    let c: u8 = m.tape[idx];
    let c2: u8 = if c == 0 {
        255
    } else {
        c - 1
    };
    m.tape[idx] = c2;
    proof {
        assert(step_op(Op::Decrement, m0) == StepOutcome::Next(m@)) by {
            assert(m@ =~= MachineView {
                tape: m0.tape.update(m0.cursor as int, wrap_dec(cell(m0))),
                ..m0
            });
        }
    }
    m
}

/// Read the next input byte into the cell under the cursor; trap when the
/// input stream is exhausted.
pub fn prim_read(m: Machine) -> (r: Result<Machine, CompileError>)
    requires
        m.wf(),
    ensures
        match r {
            Ok(m2) => m2.wf() && step_op(Op::Read, m@) == StepOutcome::Next(m2@),
            Err(e) => step_op(Op::Read, m@) == StepOutcome::Trap(e),
        },
{
    let mut m = m;
    let ghost m0 = m@;
    if m.in_pos >= m.input.len() {
        return Err(CompileError::InputExhausted);
    }
    let idx: usize = m.cursor as usize;
    let b: u8 = m.input[m.in_pos];
    m.tape[idx] = b;
    m.in_pos = m.in_pos + 1;
    proof {
        assert(step_op(Op::Read, m0) == StepOutcome::Next(m@)) by {
            assert(m@ =~= MachineView {
                tape: m0.tape.update(m0.cursor as int, m0.input[m0.in_pos as int]),
                in_pos: (m0.in_pos + 1) as nat,
                ..m0
            });
        }
    }
    Ok(m)
}

/// Produce the cell under the cursor: compare it, in place, against the
/// next byte of the expected stream, trapping on the first deviation.
pub fn prim_write(m: Machine) -> (r: Result<Machine, CompileError>)
    requires
        m.wf(),
    ensures
        match r {
            Ok(m2) => m2.wf() && step_op(Op::Write, m@) == StepOutcome::Next(m2@),
            Err(e) => step_op(Op::Write, m@) == StepOutcome::Trap(e),
        },
{
    let mut m = m;
    let ghost m0 = m@;
    let idx: usize = m.cursor as usize;
    let c: u8 = m.tape[idx];
    if m.out_pos >= m.expected.len() {
        return Err(
            CompileError::OutputMismatch { position: m.out_pos, expected: None, actual: Some(c) },
        );
    }
    let want: u8 = m.expected[m.out_pos];
    if want != c {
        return Err(
            CompileError::OutputMismatch {
                position: m.out_pos,
                expected: Some(want),
                actual: Some(c),
            },
        );
    }
    m.out_pos = m.out_pos + 1;
    proof {
        assert(step_op(Op::Write, m0) == StepOutcome::Next(m@)) by {
            assert(m@ =~= MachineView { out_pos: (m0.out_pos + 1) as nat, ..m0 });
        }
    }
    Ok(m)
}

/// Run one non-call operation: the dispatch shared by both backends.
pub fn apply_simple(op: Op, m: Machine) -> (r: Result<Machine, CompileError>)
    requires
        m.wf(),
        op != Op::Call,
    ensures
        match r {
            Ok(m2) => m2.wf() && step_op(op, m@) == StepOutcome::Next(m2@),
            Err(e) => step_op(op, m@) == StepOutcome::Trap(e),
        },
{
    match op {
        Op::MoveRight => Ok(prim_move_right(m)),
        Op::MoveLeft => Ok(prim_move_left(m)),
        Op::Increment => Ok(prim_increment(m)),
        Op::Decrement => Ok(prim_decrement(m)),
        Op::Read => prim_read(m),
        Op::Write => prim_write(m),
        Op::Call => Err(CompileError::UnbalancedCallStack),
        Op::FunctionBoundary => Err(CompileError::UnbalancedCallStack),
    }
}

} // verus!

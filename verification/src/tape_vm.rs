use vstd::prelude::*;

use crate::ops::{Op, CompileError, CALL_DEPTH, MAX_FUNCTIONS};
use crate::parse::ParsedProgram;
use crate::semantics::{
    Machine, MachineView, RunOutcome, StepOutcome, apply_simple, cell, lemma_run_ops_streams,
    init_machine, program_verdict, run_ops, step_op,
};

verus! {

/// The tape-machine backend's compiled form: the whole program as one flat
/// instruction array with the `/` boundary markers retained, a call table
/// mapping each function to the index of the `/` that opens its body, and
/// the index of the `/` opening the entry function. During execution a
/// boundary marker acts as the return instruction at the end of the body
/// before it.
pub struct TapeVmProgram {
    pub ops: Vec<Op>,
    pub table: Vec<usize>,
    pub main_index: usize,
    /// The function table this form was compiled from, kept for
    /// specification purposes only.
    pub funs: Ghost<Seq<Seq<Op>>>,
}

impl TapeVmProgram {
    /// The flat layout is faithful to the function table: function `k`'s
    /// body sits, boundary-free, directly after the boundary marker at
    /// `table[k]`, each body is followed by the next function's boundary
    /// (the last by the end of the array), and the entry point is the
    /// last-defined function.
    pub open spec fn wf(&self) -> bool {
        let funs = self.funs@;
        let t = self.table@;
        let o = self.ops@;
        let n = funs.len() as int;
        &&& t.len() == n
        &&& 1 <= n <= MAX_FUNCTIONS
        &&& forall|k: int|
            0 <= k < n ==> 0 <= #[trigger] t[k] < o.len() && o[t[k] as int]
                == Op::FunctionBoundary
        &&& forall|k: int|
            0 <= k < n ==> t[k] + 1 + (#[trigger] funs[k]).len() == if k + 1 < n {
                t[k + 1] as int
            } else {
                o.len() as int
            }
        &&& forall|k: int, j: int|
            0 <= k < n && 0 <= j < funs[k].len() ==> #[trigger] o[t[k] + 1 + j] == funs[k][j]
        &&& forall|k: int, j: int|
            0 <= k < n && 0 <= j < funs[k].len() ==> #[trigger] funs[k][j] != Op::FunctionBoundary
        &&& self.main_index == t[n - 1]
    }
}

/// Compile a parsed program for the tape-machine backend: concatenate each
/// function's opening boundary and body into one flat array, recording the
/// boundary indexes in the call table.
pub fn compile_tape_vm(p: &ParsedProgram) -> (vm: TapeVmProgram)
    requires
        p.wf(),
    ensures
        vm.wf(),
        vm.funs@ == p.funs_view(),
{
    let ghost funs = p.funs_view();
    let mut ops: Vec<Op> = Vec::new();
    let mut table: Vec<usize> = Vec::new();
    let n = p.funs.len();
    let mut k: usize = 0;
    while k < n
        invariant
            p.wf(),
            funs == p.funs_view(),
            n == funs.len(),
            k <= n,
            table@.len() == k,
            forall|x: int|
                0 <= x < k ==> 0 <= #[trigger] table@[x] < ops@.len() && ops@[table@[x] as int]
                    == Op::FunctionBoundary,
            forall|x: int|
                0 <= x < k ==> table@[x] + 1 + (#[trigger] funs[x]).len() == if x + 1 < k {
                    table@[x + 1] as int
                } else {
                    ops@.len() as int
                },
            forall|x: int, j: int|
                0 <= x < k && 0 <= j < funs[x].len() ==> #[trigger] ops@[table@[x] + 1 + j]
                    == funs[x][j],
        decreases n - k,
    {
        table.push(ops.len());
        ops.push(Op::FunctionBoundary);
        let body: &Vec<Op> = &p.funs[k];
        let mut o: usize = 0;
        while o < body.len()
            invariant
                p.wf(),
                funs == p.funs_view(),
                n == funs.len(),
                k < n,
                body@ == funs[k as int],
                o <= body@.len(),
                table@.len() == k + 1,
                table@[k as int] + 1 + o == ops@.len(),
                forall|x: int|
                    0 <= x <= k ==> 0 <= #[trigger] table@[x] < ops@.len() && ops@[table@[x] as int]
                        == Op::FunctionBoundary,
                forall|x: int|
                    0 <= x < k ==> table@[x] + 1 + (#[trigger] funs[x]).len() == if x + 1 < k + 1 {
                        table@[x + 1] as int
                    } else {
                        ops@.len() as int
                    },
                forall|x: int, j: int|
                    0 <= x < k && 0 <= j < funs[x].len() ==> #[trigger] ops@[table@[x] + 1 + j]
                        == funs[x][j],
                forall|j: int|
                    0 <= j < o ==> #[trigger] ops@[table@[k as int] + 1 + j] == funs[k as int][j],
            decreases body@.len() - o,
        {
            ops.push(body[o]);
            o = o + 1;
        }
        k = k + 1;
    }
    let main_index = table[n - 1];
    let vm = TapeVmProgram { ops, table, main_index, funs: Ghost(funs) };
    vm
}

/// The operation suffixes still to run in each suspended frame, innermost
/// first: a frame suspended at the call at offset `o` of function `k`
/// resumes with the rest of that body, `funs[k]` from `o + 1` on.
pub open spec fn suffixes_of(funs: Seq<Seq<Op>>, gstack: Seq<(int, int)>) -> Seq<Seq<Op>> {
    Seq::new(gstack.len(), |i: int| funs[gstack[i].0].skip(gstack[i].1 + 1))
}

/// Run a stack of suspended frames to completion, innermost first: finish
/// the first frame's remaining operations, then resume the next with one
/// more unit of call depth available, as its call consumed one.
pub open spec fn run_frames(
    funs: Seq<Seq<Op>>,
    frames: Seq<Seq<Op>>,
    m: MachineView,
    depth: nat,
) -> RunOutcome
    decreases frames.len(),
{
    if frames.len() == 0 {
        RunOutcome::Done(m)
    } else {
        match run_ops(funs, frames[0], m, depth) {
            RunOutcome::Done(m2) => run_frames(funs, frames.drop_first(), m2, (depth + 1) as nat),
            RunOutcome::Trapped(t) => RunOutcome::Trapped(t),
        }
    }
}

/// Replacing the first frame by one whose run is equal leaves the stack's
/// outcome unchanged.
proof fn lemma_frames_head_step(
    funs: Seq<Seq<Op>>,
    fr: Seq<Seq<Op>>,
    m1: MachineView,
    f0b: Seq<Op>,
    m2: MachineView,
    depth: nat,
)
    requires
        fr.len() > 0,
        run_ops(funs, fr[0], m1, depth) == run_ops(funs, f0b, m2, depth),
    ensures
        run_frames(funs, seq![f0b] + fr.drop_first(), m2, depth) == run_frames(
            funs,
            fr,
            m1,
            depth,
        ),
{
    let fr2 = seq![f0b] + fr.drop_first();
    assert(fr2[0] == f0b);
    assert(fr2.drop_first() =~= fr.drop_first());
}

/// A valid call in the first frame turns into a new innermost frame for
/// the callee's whole body, over the caller's remaining operations, with
/// one unit of call depth consumed.
proof fn lemma_frames_call(
    funs: Seq<Seq<Op>>,
    fr: Seq<Seq<Op>>,
    m: MachineView,
    depth: nat,
    id: u8,
)
    requires
        fr.len() > 0,
        fr[0].len() > 0,
        fr[0][0] == Op::Call,
        cell(m) == id,
        id != 0,
        (id as int) < funs.len(),
        depth > 0,
    ensures
        run_frames(
            funs,
            seq![funs[id as int - 1], fr[0].drop_first()] + fr.drop_first(),
            m,
            (depth - 1) as nat,
        ) == run_frames(funs, fr, m, depth),
{
    let fr2 = seq![funs[id as int - 1], fr[0].drop_first()] + fr.drop_first();
    assert(fr2[0] == funs[id as int - 1]);
    assert(fr2.drop_first() =~= seq![fr[0].drop_first()] + fr.drop_first());
    match run_ops(funs, funs[id as int - 1], m, (depth - 1) as nat) {
        RunOutcome::Done(m2) => {
            let fr3 = seq![fr[0].drop_first()] + fr.drop_first();
            assert(fr3[0] == fr[0].drop_first());
            assert(fr3.drop_first() =~= fr.drop_first());
            assert(run_frames(funs, fr2, m, (depth - 1) as nat) == run_frames(
                funs,
                fr3,
                m2,
                depth,
            ));
        },
        RunOutcome::Trapped(t) => {},
    }
}

/// An exhausted first frame returns to the frame below it, giving back the
/// unit of call depth its call consumed.
proof fn lemma_frames_return(funs: Seq<Seq<Op>>, fr: Seq<Seq<Op>>, m: MachineView, depth: nat)
    requires
        fr.len() > 0,
        fr[0].len() == 0,
    ensures
        run_frames(funs, fr, m, depth) == run_frames(funs, fr.drop_first(), m, (depth + 1) as nat),
{
}

/// How many instructions the run of `ops` executes before completing or
/// trapping: the exact step count of `run_ops`, used as the termination
/// measure of the flat-array interpreter loop.
pub open spec fn run_steps(funs: Seq<Seq<Op>>, ops: Seq<Op>, m: MachineView, depth: nat) -> nat
    decreases depth, ops.len(),
{
    if ops.len() == 0 {
        0
    } else if ops[0] == Op::Call {
        let id = cell(m);
        if id == 0 || id as int >= funs.len() {
            1
        } else if depth == 0 {
            1
        } else {
            match run_ops(funs, funs[id as int - 1], m, (depth - 1) as nat) {
                RunOutcome::Done(m2) => 1 + run_steps(funs, funs[id as int - 1], m, (depth - 1) as nat)
                    + run_steps(funs, ops.drop_first(), m2, depth),
                RunOutcome::Trapped(_) => 1 + run_steps(
                    funs,
                    funs[id as int - 1],
                    m,
                    (depth - 1) as nat,
                ),
            }
        }
    } else {
        match step_op(ops[0], m) {
            StepOutcome::Next(m2) => 1 + run_steps(funs, ops.drop_first(), m2, depth),
            StepOutcome::Trap(_) => 1,
        }
    }
}

/// The step count of running a whole frame stack, innermost first; the
/// count stops at the first trap, where the interpreter loop stops too.
pub open spec fn frames_steps(
    funs: Seq<Seq<Op>>,
    frames: Seq<Seq<Op>>,
    m: MachineView,
    depth: nat,
) -> nat
    decreases frames.len(),
{
    if frames.len() == 0 {
        0
    } else {
        run_steps(funs, frames[0], m, depth) + match run_ops(funs, frames[0], m, depth) {
            RunOutcome::Done(m2) => frames_steps(funs, frames.drop_first(), m2, (depth + 1) as nat),
            RunOutcome::Trapped(_) => 0,
        }
    }
}

/// One non-call instruction costs exactly one step of the whole stack.
proof fn lemma_steps_simple(
    funs: Seq<Seq<Op>>,
    fr: Seq<Seq<Op>>,
    m1: MachineView,
    f0b: Seq<Op>,
    m2: MachineView,
    depth: nat,
)
    requires
        fr.len() > 0,
        fr[0].len() > 0,
        fr[0][0] != Op::Call,
        step_op(fr[0][0], m1) == StepOutcome::Next(m2),
        f0b == fr[0].drop_first(),
    ensures
        frames_steps(funs, seq![f0b] + fr.drop_first(), m2, depth) + 1 == frames_steps(
            funs,
            fr,
            m1,
            depth,
        ),
{
    let fr2 = seq![f0b] + fr.drop_first();
    assert(fr2[0] == f0b);
    assert(fr2.drop_first() =~= fr.drop_first());
    assert(run_ops(funs, fr[0], m1, depth) == run_ops(funs, f0b, m2, depth));
    assert(run_steps(funs, fr[0], m1, depth) == 1 + run_steps(funs, f0b, m2, depth));
}

/// A valid, deep-enough call costs exactly one step of the whole stack.
proof fn lemma_steps_call(
    funs: Seq<Seq<Op>>,
    fr: Seq<Seq<Op>>,
    m: MachineView,
    depth: nat,
    id: u8,
)
    requires
        fr.len() > 0,
        fr[0].len() > 0,
        fr[0][0] == Op::Call,
        cell(m) == id,
        id != 0,
        (id as int) < funs.len(),
        depth > 0,
    ensures
        frames_steps(
            funs,
            seq![funs[id as int - 1], fr[0].drop_first()] + fr.drop_first(),
            m,
            (depth - 1) as nat,
        ) + 1 == frames_steps(funs, fr, m, depth),
{
    let callee = funs[id as int - 1];
    let fr2 = seq![callee, fr[0].drop_first()] + fr.drop_first();
    let fr3 = seq![fr[0].drop_first()] + fr.drop_first();
    assert(fr2[0] == callee);
    assert(fr2.drop_first() =~= fr3);
    assert(fr3[0] == fr[0].drop_first());
    assert(fr3.drop_first() =~= fr.drop_first());
    match run_ops(funs, callee, m, (depth - 1) as nat) {
        RunOutcome::Done(m2) => {
            assert(run_ops(funs, fr[0], m, depth) == run_ops(funs, fr[0].drop_first(), m2, depth));
            assert(run_steps(funs, fr[0], m, depth) == 1 + run_steps(
                funs,
                callee,
                m,
                (depth - 1) as nat,
            ) + run_steps(funs, fr[0].drop_first(), m2, depth));
            assert(((depth - 1) as nat + 1) as nat == depth);
            assert(frames_steps(funs, fr2, m, (depth - 1) as nat) == run_steps(
                funs,
                callee,
                m,
                (depth - 1) as nat,
            ) + frames_steps(funs, fr3, m2, depth));
            assert(frames_steps(funs, fr3, m2, depth) == run_steps(
                funs,
                fr[0].drop_first(),
                m2,
                depth,
            ) + match run_ops(funs, fr[0].drop_first(), m2, depth) {
                RunOutcome::Done(m3) => frames_steps(funs, fr.drop_first(), m3, (depth + 1) as nat),
                RunOutcome::Trapped(_) => 0,
            });
        },
        RunOutcome::Trapped(t) => {
            assert(run_ops(funs, fr[0], m, depth) == RunOutcome::Trapped(t));
            assert(run_steps(funs, fr[0], m, depth) == 1 + run_steps(
                funs,
                callee,
                m,
                (depth - 1) as nat,
            ));
            assert(frames_steps(funs, fr2, m, (depth - 1) as nat) == run_steps(
                funs,
                callee,
                m,
                (depth - 1) as nat,
            ));
        },
    }
}

/// An exhausted first frame costs nothing: returning to the frame below
/// keeps the remaining step count.
proof fn lemma_steps_return(funs: Seq<Seq<Op>>, fr: Seq<Seq<Op>>, m: MachineView, depth: nat)
    requires
        fr.len() > 0,
        fr[0].len() == 0,
    ensures
        frames_steps(funs, fr, m, depth) == frames_steps(
            funs,
            fr.drop_first(),
            m,
            (depth + 1) as nat,
        ),
{
}

impl TapeVmProgram {
    /// Execute the whole program on the flat array: one explicit loop, one
    /// instruction per iteration, with an explicit stack of return
    /// addresses. The instruction pointer starts just past the entry
    /// function's boundary; a boundary marker pops the stack; running past
    /// the end of the array ends the program, where the stack is
    /// necessarily empty since the entry function is not a callable
    /// target. `Ok(())` means the program was verified against `input`
    /// and `expected`; any `Err` is the fatal trap or mismatch.
    #[verifier::rlimit(100)]
    pub fn execute(&self, input: &[u8], expected: &[u8]) -> (r: Result<(), CompileError>)
        requires
            self.wf(),
        ensures
            match r {
                Ok(()) => program_verdict(self.funs@, input@, expected@) is None,
                Err(e) => program_verdict(self.funs@, input@, expected@) == Some(e),
            },
    {
        let ghost funs = self.funs@;
        let ghost t = self.table@;
        let n = self.table.len();
        let mut m = Machine::new(
            vstd::slice::slice_to_vec(input),
            vstd::slice::slice_to_vec(expected),
        );
        let ghost r_all = run_ops(funs, funs[n - 1], m@, CALL_DEPTH as nat);
        proof {
            assert(funs.last() == funs[n - 1]);
            lemma_run_ops_streams(funs, funs[n - 1], m@, CALL_DEPTH as nat);
        }
        let mut stack: Vec<usize> = Vec::new();
        let op_count: usize = self.ops.len();
        proof {
            assert(self.main_index == t[n - 1]);
            assert(t[n - 1] < self.ops@.len());
            assert(self.main_index < op_count);
        }
        let mut ip: usize = self.main_index + 1;
        let ghost mut gk: int = n - 1;
        let ghost mut go: int = 0;
        let ghost mut gstack: Seq<(int, int)> = Seq::empty();
        proof {
            let fr0 = seq![funs[gk].skip(go)] + suffixes_of(funs, gstack);
            assert(fr0[0] == funs[gk].skip(0));
            assert(funs[gk].skip(0) =~= funs[gk]);
            assert(fr0.drop_first() =~= Seq::<Seq<Op>>::empty());
            assert(run_ops(funs, fr0[0], m@, CALL_DEPTH as nat) == run_ops(
                funs,
                funs[gk],
                m@,
                CALL_DEPTH as nat,
            ));
            match run_ops(funs, funs[gk], m@, CALL_DEPTH as nat) {
                RunOutcome::Done(m2) => {
                    assert(run_frames(
                        funs,
                        fr0.drop_first(),
                        m2,
                        (CALL_DEPTH as nat + 1) as nat,
                    ) == RunOutcome::Done(m2));
                    assert(run_frames(funs, fr0, m@, CALL_DEPTH as nat) == RunOutcome::Done(m2));
                },
                RunOutcome::Trapped(tr) => {
                    assert(run_frames(funs, fr0, m@, CALL_DEPTH as nat) == RunOutcome::Trapped(
                        tr,
                    ));
                },
            }
            assert(run_frames(funs, fr0, m@, (CALL_DEPTH - stack@.len()) as nat) == r_all);
        }
        while ip < self.ops.len()
            invariant
                self.wf(),
                funs == self.funs@,
                t == self.table@,
                n == self.table@.len(),
                funs.last() == funs[n - 1],
                r_all == run_ops(
                    funs,
                    funs[n - 1],
                    init_machine(input@, expected@),
                    CALL_DEPTH as nat,
                ),
                m.wf(),
                m@.input == input@,
                m@.expected == expected@,
                0 <= gk < n,
                0 <= go <= funs[gk].len(),
                ip == t[gk] + 1 + go,
                gstack.len() == stack@.len(),
                stack@.len() <= CALL_DEPTH,
                forall|i: int|
                    0 <= i < gstack.len() ==> {
                        &&& 0 <= #[trigger] gstack[i].0 < n
                        &&& 0 <= gstack[i].1 < funs[gstack[i].0].len()
                        &&& funs[gstack[i].0][gstack[i].1] == Op::Call
                        &&& stack@[stack@.len() - 1 - i] == t[gstack[i].0] + 1 + gstack[i].1
                    },
                (gk == n - 1) <==> (gstack.len() == 0),
                forall|i: int|
                    0 <= i < gstack.len() ==> ((#[trigger] gstack[i].0 == n - 1) <==> (i
                        == gstack.len() - 1)),
                run_frames(
                    funs,
                    seq![funs[gk].skip(go)] + suffixes_of(funs, gstack),
                    m@,
                    (CALL_DEPTH - stack@.len()) as nat,
                ) == r_all,
            decreases
                    frames_steps(
                        funs,
                        seq![funs[gk].skip(go)] + suffixes_of(funs, gstack),
                        m@,
                        (CALL_DEPTH - stack@.len()) as nat,
                    ),
                    gstack.len(),
        {
            let ghost frames = seq![funs[gk].skip(go)] + suffixes_of(funs, gstack);
            let ghost d0 = (CALL_DEPTH - stack@.len()) as nat;
            let op: Op = self.ops[ip];
            let ghost pre = m@;
            proof {
                if go < funs[gk].len() {
                    assert(self.ops@[t[gk] + 1 + go] == funs[gk][go]);
                    assert(op == funs[gk][go]);
                    assert(op != Op::FunctionBoundary);
                } else {
                    assert(go == funs[gk].len());
                    if gk == n - 1 {
                        assert(ip == self.ops@.len());
                        assert(false);
                    }
                    assert(ip == t[gk + 1]);
                    assert(op == Op::FunctionBoundary);
                }
                assert(frames[0] == funs[gk].skip(go));
                assert(frames[0].len() == funs[gk].len() - go);
            }
            match op {
                Op::FunctionBoundary => {
                    proof {
                        assert(go == funs[gk].len());
                        assert(frames[0] =~= Seq::<Op>::empty());
                        lemma_frames_return(funs, frames, pre, d0);
                        lemma_steps_return(funs, frames, pre, d0);
                    }
                    match stack.pop() {
                        Some(ra) => {
                            let ghost (kk, oo) = gstack[0];
                            proof {
                                assert(stack@.len() == gstack.len() - 1);
                                assert(ra == t[kk] + 1 + oo);
                                assert(frames.drop_first() =~= suffixes_of(funs, gstack));
                                assert(suffixes_of(funs, gstack)[0] == funs[kk].skip(oo + 1));
                            }
                            ip = ra + 1;
                            proof {
                                gk = kk;
                                go = oo + 1;
                                gstack = gstack.drop_first();
                                assert(seq![funs[gk].skip(go)] + suffixes_of(funs, gstack)
                                    =~= frames.drop_first());
                                assert(run_frames(
                                    funs,
                                    seq![funs[gk].skip(go)] + suffixes_of(funs, gstack),
                                    m@,
                                    (CALL_DEPTH - stack@.len()) as nat,
                                ) == r_all);
                            }
                        },
                        None => {
                            // A return with an empty call stack is the
                            // defensive trap; it cannot happen, since the
                            // entry function is not callable, so a
                            // boundary is only ever reached inside a
                            // called function, whose return address is on
                            // the stack.
                            proof {
                                assert(gstack.len() == 0);
                                assert(false);
                            }
                            return Err(CompileError::UnbalancedCallStack);
                        },
                    }
                },
                Op::Call => {
                    let id: u8 = m.tape[m.cursor as usize];
                    proof {
                        assert(cell(pre) == id);
                        assert(frames[0][0] == funs[gk][go]);
                    }
                    if id == 0 || id as usize >= n {
                        proof {
                            assert(run_ops(funs, frames[0], pre, d0) == RunOutcome::Trapped(
                                CompileError::UndefinedFunctionCall { id },
                            ));
                            assert(run_frames(funs, frames, pre, d0) == RunOutcome::Trapped(
                                CompileError::UndefinedFunctionCall { id },
                            ));
                        }
                        return Err(CompileError::UndefinedFunctionCall { id });
                    }
                    if stack.len() == CALL_DEPTH {
                        proof {
                            assert(d0 == 0);
                            assert(run_ops(funs, frames[0], pre, d0) == RunOutcome::Trapped(
                                CompileError::UnbalancedCallStack,
                            ));
                            assert(run_frames(funs, frames, pre, d0) == RunOutcome::Trapped(
                                CompileError::UnbalancedCallStack,
                            ));
                        }
                        return Err(CompileError::UnbalancedCallStack);
                    }
                    proof {
                        lemma_frames_call(funs, frames, pre, d0, id);
                        lemma_steps_call(funs, frames, pre, d0, id);
                    }
                    stack.push(ip);
                    let callee: usize = id as usize - 1;
                    ip = self.table[callee] + 1;
                    proof {
                        gstack = seq![(gk, go)] + gstack;
                        gk = callee as int;
                        go = 0;
                        assert(funs[gk].skip(0) =~= funs[gk]);
                        assert(suffixes_of(funs, gstack) =~= seq![frames[0].drop_first()]
                            + frames.drop_first()) by {
                            assert(suffixes_of(funs, gstack).len() == gstack.len());
                            assert(suffixes_of(funs, gstack)[0] == funs[gstack[0].0].skip(
                                gstack[0].1 + 1,
                            ));
                            assert(frames[0].drop_first() =~= funs[gstack[0].0].skip(
                                gstack[0].1 + 1,
                            ));
                        }
                        assert(seq![funs[gk].skip(go)] + suffixes_of(funs, gstack) =~= seq![
                            funs[id as int - 1],
                            frames[0].drop_first(),
                        ] + frames.drop_first());
                        assert(run_frames(
                            funs,
                            seq![funs[gk].skip(go)] + suffixes_of(funs, gstack),
                            m@,
                            (CALL_DEPTH - stack@.len()) as nat,
                        ) == r_all);
                    }
                },
                _ => {
                    proof {
                        assert(go < funs[gk].len());
                        assert(frames[0][0] == op);
                    }
                    match apply_simple(op, m) {
                        Ok(m2) => {
                            proof {
                                assert(frames[0].drop_first() =~= funs[gk].skip(go + 1));
                                lemma_frames_head_step(
                                    funs,
                                    frames,
                                    pre,
                                    funs[gk].skip(go + 1),
                                    m2@,
                                    d0,
                                );
                                lemma_steps_simple(
                                    funs,
                                    frames,
                                    pre,
                                    funs[gk].skip(go + 1),
                                    m2@,
                                    d0,
                                );
                                assert(seq![funs[gk].skip(go + 1)] + suffixes_of(funs, gstack)
                                    =~= seq![funs[gk].skip(go + 1)] + frames.drop_first());
                            }
                            m = m2;
                            ip = ip + 1;
                            proof {
                                go = go + 1;
                            }
                        },
                        Err(e) => {
                            proof {
                                assert(run_ops(funs, frames[0], pre, d0)
                                    == RunOutcome::Trapped(e));
                                assert(run_frames(funs, frames, pre, d0)
                                    == RunOutcome::Trapped(e));
                            }
                            return Err(e);
                        },
                    }
                },
            }
        }
        proof {
            if gk < n - 1 {
                assert(t[gk] + 1 + funs[gk].len() == t[gk + 1]);
                assert(t[gk + 1] < self.ops@.len());
                assert(false);
            }
            assert(gk == n - 1);
            assert(t[gk] + 1 + funs[gk].len() == self.ops@.len());
            assert(go == funs[gk].len());
            assert(gstack.len() == 0);
            let frf = seq![funs[gk].skip(go)] + suffixes_of(funs, gstack);
            let ghost df = (CALL_DEPTH - stack@.len()) as nat;
            assert(funs[gk].skip(go) =~= Seq::<Op>::empty());
            assert(frf =~= seq![Seq::<Op>::empty()]);
            assert(frf[0] == Seq::<Op>::empty());
            assert(frf.drop_first() =~= Seq::<Seq<Op>>::empty());
            assert(run_ops(funs, frf[0], m@, df) == RunOutcome::Done(m@));
            assert(run_frames(funs, frf.drop_first(), m@, (df + 1) as nat) == RunOutcome::Done(
                m@,
            ));
            assert(run_frames(funs, frf, m@, df) == RunOutcome::Done(m@));
            assert(r_all == RunOutcome::Done(m@));
        }
        if m.out_pos == expected.len() {
            Ok(())
        } else {
            Err(
                CompileError::OutputMismatch {
                    position: m.out_pos,
                    expected: Some(expected[m.out_pos]),
                    actual: None,
                },
            )
        }
    }
}

} // verus!

use vstd::prelude::*;

use crate::ops::{Op, CompileError, CALL_DEPTH};
use crate::parse::ParsedProgram;
use crate::semantics::{
    cell, lemma_run_ops_streams,
    Machine, RunOutcome, apply_simple, program_verdict, run_ops,
};

verus! {

/// The composition backend's compiled form: each function stands alone as
/// a chain of primitive operations, run in order by composing the
/// primitives; a call is a branch over the callee identifiers. The machine
/// state is threaded by value: every primitive consumes a state and
/// returns the next one.
pub struct ChainProgram {
    pub chains: Vec<Vec<Op>>,
}

impl ChainProgram {
    /// The function table this form was compiled from.
    pub open spec fn funs_view(&self) -> Seq<Seq<Op>> {
        self.chains@.map_values(|v: Vec<Op>| v@)
    }

    pub open spec fn wf(&self) -> bool {
        self.chains@.len() >= 1
    }
}

/// Compile a parsed program for the composition backend: each function
/// body becomes its own operation chain, under the shared function table
/// (identifier `k + 1` for chain `k`, the last chain being the entry
/// point).
pub fn compile_chains(p: ParsedProgram) -> (c: ChainProgram)
    requires
        p.wf(),
    ensures
        c.wf(),
        c.funs_view() == p.funs_view(),
{
    ChainProgram { chains: p.funs }
}

/// Run one compiled chain to completion: apply its primitives in order,
/// dispatching calls to the callee's chain with one unit of call depth
/// consumed.
#[verifier::loop_isolation(false)]
fn run_chain(prog: &ChainProgram, fidx: usize, m: Machine, depth: usize) -> (r: Result<
    Machine,
    CompileError,
>)
    requires
        prog.wf(),
        fidx < prog.chains@.len(),
        m.wf(),
    ensures
        match r {
            Ok(m2) => m2.wf() && run_ops(
                prog.funs_view(),
                prog.funs_view()[fidx as int],
                m@,
                depth as nat,
            ) == RunOutcome::Done(m2@),
            Err(e) => run_ops(
                prog.funs_view(),
                prog.funs_view()[fidx as int],
                m@,
                depth as nat,
            ) == RunOutcome::Trapped(e),
        },
    decreases depth,
{
    let ghost funs = prog.funs_view();
    let ghost target = run_ops(funs, funs[fidx as int], m@, depth as nat);
    let body: &Vec<Op> = &prog.chains[fidx];
    let mut m = m;
    let mut i: usize = 0;
    proof {
        assert(body@ == funs[fidx as int]);
        assert(body@.skip(0) =~= body@);
    }
    while i < body.len()
        invariant
            prog.wf(),
            fidx < prog.chains@.len(),
            funs == prog.funs_view(),
            body@ == funs[fidx as int],
            i <= body@.len(),
            m.wf(),
            run_ops(funs, body@.skip(i as int), m@, depth as nat) == target,
        decreases body@.len() - i,
    {
        let op: Op = body[i];
        let ghost pre = m@;
        proof {
            assert(body@.skip(i as int)[0] == body@[i as int]);
            assert(body@.skip(i as int).drop_first() =~= body@.skip(i + 1));
        }
        if op == Op::Call {
            let id: u8 = m.tape[m.cursor as usize];
            proof {
                assert(cell(pre) == id);
                assert(funs.len() == prog.chains@.len());
            }
            if id == 0 || id as usize >= prog.chains.len() {
                proof {
                    assert(run_ops(funs, body@.skip(i as int), pre, depth as nat)
                        == RunOutcome::Trapped(CompileError::UndefinedFunctionCall { id }));
                }
                return Err(CompileError::UndefinedFunctionCall { id });
            }
            if depth == 0 {
                proof {
                    assert(run_ops(funs, body@.skip(i as int), pre, depth as nat)
                        == RunOutcome::Trapped(CompileError::UnbalancedCallStack));
                }
                return Err(CompileError::UnbalancedCallStack);
            }
            match run_chain(prog, id as usize - 1, m, depth - 1) {
                Ok(m2) => {
                    proof {
                        assert(run_ops(funs, funs[id as int - 1], pre, (depth - 1) as nat)
                            == RunOutcome::Done(m2@));
                    }
                    m = m2;
                },
                Err(e) => {
                    proof {
                        assert(run_ops(funs, funs[id as int - 1], pre, (depth - 1) as nat)
                            == RunOutcome::Trapped(e));
                    }
                    return Err(e);
                },
            }
        } else {
            match apply_simple(op, m) {
                Ok(m2) => {
                    m = m2;
                },
                Err(e) => {
                    return Err(e);
                },
            }
        }
        i = i + 1;
    }
    proof {
        assert(body@.skip(body@.len() as int) =~= Seq::<Op>::empty());
    }
    Ok(m)
}

impl ChainProgram {
    /// Execute the whole program: run the entry chain from the initial
    /// machine and require that it produced the expected stream exactly.
    /// `Ok(())` means the program was verified against `input` and
    /// `expected`; any `Err` is the fatal trap or mismatch.
    pub fn execute(&self, input: &[u8], expected: &[u8]) -> (r: Result<(), CompileError>)
        requires
            self.wf(),
        ensures
            match r {
                Ok(()) => program_verdict(self.funs_view(), input@, expected@) is None,
                Err(e) => program_verdict(self.funs_view(), input@, expected@) == Some(e),
            },
    {
        let m = Machine::new(
            vstd::slice::slice_to_vec(input),
            vstd::slice::slice_to_vec(expected),
        );
        let n = self.chains.len();
        proof {
            assert(self.funs_view().last() == self.funs_view()[n - 1]);
            lemma_run_ops_streams(
                self.funs_view(),
                self.funs_view()[n - 1],
                m@,
                CALL_DEPTH as nat,
            );
        }
        match run_chain(self, n - 1, m, CALL_DEPTH) {
            Ok(mf) => {
                if mf.out_pos == expected.len() {
                    Ok(())
                } else {
                    Err(
                        CompileError::OutputMismatch {
                            position: mf.out_pos,
                            expected: Some(expected[mf.out_pos]),
                            actual: None,
                        },
                    )
                }
            },
            Err(e) => Err(e),
        }
    }
}

} // verus!

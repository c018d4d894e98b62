//! An ahead-of-time compiler and verifier for a small tape-machine language
//! with named, indirectly-callable functions.
//!
//! Source text is split at `/` separators into an ordered list of functions;
//! the last-defined function is the program's entry point. Two backends turn
//! the function table into a runnable form: a flat-array virtual machine with
//! an explicit call stack, and a per-function chain of composed primitive
//! operations dispatched by callee identifier. Either form is executed once,
//! ahead of deployment, against a fixed input and a fixed expected output;
//! any trap or mismatch fails the compilation, so no unverified artifact is
//! ever produced.

pub mod ops;
pub mod parse;
pub mod semantics;
pub mod chains;
pub mod tape_vm;

use vstd::prelude::*;

use crate::ops::{Op, CompileError};
use crate::parse::{parse, parse_spec};
use crate::chains::{ChainProgram, compile_chains};
use crate::tape_vm::{TapeVmProgram, compile_tape_vm};
use crate::semantics::program_verdict;

verus! {

/// A compiled, already-verified program: both backends' runnable forms,
/// generated from the one shared function table, after a successful
/// ahead-of-time execution against the fixed input and expected output.
pub struct CompiledArtifact {
    vm: TapeVmProgram,
    chains: ChainProgram,
}

impl CompiledArtifact {
    /// The function table of the compiled program.
    pub closed spec fn funs(&self) -> Seq<Seq<Op>> {
        self.chains.funs_view()
    }

    pub closed spec fn wf(&self) -> bool {
        &&& self.chains.wf()
        &&& self.vm.wf()
        &&& self.vm.funs@ == self.chains.funs_view()
    }

    /// Run the flat-array virtual-machine form against an input and an
    /// expected output.
    pub fn run_tape_vm(&self, input: &[u8], expected: &[u8]) -> (r: Result<(), CompileError>)
        requires
            self.wf(),
        ensures
            match r {
                Ok(()) => program_verdict(self.funs(), input@, expected@) is None,
                Err(e) => program_verdict(self.funs(), input@, expected@) == Some(e),
            },
    {
        self.vm.execute(input, expected)
    }

    /// Run the composed-operation-chain form against an input and an
    /// expected output.
    pub fn run_chains(&self, input: &[u8], expected: &[u8]) -> (r: Result<(), CompileError>)
        requires
            self.wf(),
        ensures
            match r {
                Ok(()) => program_verdict(self.funs(), input@, expected@) is None,
                Err(e) => program_verdict(self.funs(), input@, expected@) == Some(e),
            },
    {
        self.chains.execute(input, expected)
    }
}

/// Compile a program and verify it ahead of time: parse the source into
/// its function table, generate both backend forms from that shared
/// table, and execute the result against `input`, comparing every
/// produced byte with `expected`. The artifact is returned only when the
/// program provably produces exactly the expected bytes; any parse
/// rejection, execution trap, or output deviation is fatal and no
/// artifact exists.
pub fn compile(program: &[u8], input: &[u8], expected: &[u8]) -> (r: Result<
    CompiledArtifact,
    CompileError,
>)
    ensures
        match r {
            Ok(a) => {
                &&& a.wf()
                &&& parse_spec(program@) == Ok::<Seq<Seq<Op>>, CompileError>(a.funs())
                &&& program_verdict(a.funs(), input@, expected@) is None
            },
            Err(e) => match parse_spec(program@) {
                Ok(funs) => program_verdict(funs, input@, expected@) == Some(e),
                Err(pe) => pe == e,
            },
        },
{
    let p = match parse(program) {
        Ok(p) => p,
        Err(e) => {
            return Err(e);
        },
    };
    let vm = compile_tape_vm(&p);
    let chains = compile_chains(p);
    let artifact = CompiledArtifact { vm, chains };
    match artifact.run_tape_vm(input, expected) {
        Ok(()) => Ok(artifact),
        Err(e) => Err(e),
    }
}

/// Backend equivalence: under the one call-dispatch policy both backends
/// implement (a call must name a callable, non-entry function, anything
/// else traps), running the tape-machine form and running the chain form
/// of the same program against the same input and expected output give
/// the same result — the same success, and on failure the same trap at
/// the same position. Both executions meet the contract below against the
/// one shared verdict, so their results are equal.
pub proof fn lemma_backend_equivalence(
    funs: Seq<Seq<Op>>,
    input: Seq<u8>,
    expected: Seq<u8>,
    r_vm: Result<(), CompileError>,
    r_ch: Result<(), CompileError>,
)
    requires
        match r_vm {
            Ok(()) => program_verdict(funs, input, expected) is None,
            Err(e) => program_verdict(funs, input, expected) == Some(e),
        },
        match r_ch {
            Ok(()) => program_verdict(funs, input, expected) is None,
            Err(e) => program_verdict(funs, input, expected) == Some(e),
        },
    ensures
        match r_vm {
            Ok(_) => r_ch is Ok,
            Err(e) => r_ch == Err::<(), CompileError>(e),
        },
{
    match program_verdict(funs, input, expected) {
        Some(e) => {
            assert(r_vm == Err::<(), CompileError>(e));
            assert(r_ch == Err::<(), CompileError>(e));
        },
        None => {
            assert(r_vm is Ok);
            assert(r_ch is Ok);
        },
    }
}

} // verus!

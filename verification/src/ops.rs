use vstd::prelude::*;

verus! {

/// Capacity of the machine tape, in cells.
pub const TAPE_LEN: usize = 65536;

/// Maximum nesting depth of function calls (the call-stack capacity).
pub const CALL_DEPTH: usize = 65536;

/// Maximum number of user-defined functions a program may declare.
pub const MAX_FUNCTIONS: usize = 255;

/// One operation of the source language.
///
/// `FunctionBoundary` is the `/` separator. It opens a new function and is
/// never part of a function body; the tape-machine backend keeps it in its
/// flat instruction array, where it acts as the return marker at the end of
/// each body.
#[derive(Clone, Copy, PartialEq, Eq, Structural, Debug)]
pub enum Op {
    MoveRight,
    MoveLeft,
    Increment,
    Decrement,
    Write,
    Read,
    Call,
    FunctionBoundary,
}

/// Every way a compilation can fail: the parse-time rejections and the
/// execution-time traps. Any of these aborts the build of the artifact.
#[derive(Clone, Copy, PartialEq, Eq, Debug)]
pub enum CompileError {
    /// The source holds a byte outside the accepted operator set.
    InvalidCharacter { position: usize },
    /// The source holds no `/` separator, so no callable function exists.
    NoFunctionsDefined,
    /// More than 255 user functions were declared.
    TooManyFunctions,
    /// A read ran after the input stream was fully consumed.
    InputExhausted,
    /// A produced byte disagrees with the expected stream, or the produced
    /// stream is longer (`expected` is `None`) or shorter (`actual` is
    /// `None`) than the expected stream.
    OutputMismatch { position: usize, expected: Option<u8>, actual: Option<u8> },
    /// A call targeted an identifier that names no callable function:
    /// zero, or at least the function count. The entry function itself is
    /// not a callable target (its body ends the program, not a call).
    UndefinedFunctionCall { id: u8 },
    /// The call stack was not empty when the program ended, a return ran
    /// with an empty call stack, or the call depth exceeded the stack's
    /// capacity.
    UnbalancedCallStack,
}

/// Whether `b` is one of the six operator characters (`> < + - . , @` minus
/// the separator), i.e. a byte that lands in a function body.
pub open spec fn valid_op_byte(b: u8) -> bool {
    b == 62 || b == 60 || b == 43 || b == 45 || b == 46 || b == 44 || b == 64
}

/// The `/` separator byte.
pub open spec fn is_slash(b: u8) -> bool {
    b == 47
}

/// Whether `b` may occur anywhere in a program.
pub open spec fn valid_byte(b: u8) -> bool {
    valid_op_byte(b) || is_slash(b)
}

/// The operation a valid operator byte denotes.
pub open spec fn op_of(b: u8) -> Op {
    if b == 62 {
        Op::MoveRight
    } else if b == 60 {
        Op::MoveLeft
    } else if b == 43 {
        Op::Increment
    } else if b == 45 {
        Op::Decrement
    } else if b == 46 {
        Op::Write
    } else if b == 44 {
        Op::Read
    } else {
        Op::Call
    }
}

} // verus!

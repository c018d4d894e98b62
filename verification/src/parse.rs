use vstd::prelude::*;

use crate::ops::{is_slash, valid_byte, op_of, Op, CompileError, MAX_FUNCTIONS};

verus! {

/// How many `/` separators `s` holds.
pub open spec fn slash_count(s: Seq<u8>) -> nat
    decreases s.len(),
{
    if s.len() == 0 {
        0
    } else {
        slash_count(s.drop_last()) + (if is_slash(s.last()) {
            1nat
        } else {
            0nat
        })
    }
}

/// The index of the first byte of `s` at or after `i` that is not an
/// accepted character, or `s.len()` if every such byte is accepted.
pub open spec fn first_invalid_from(s: Seq<u8>, i: int) -> int
    decreases s.len() - i,
{
    if i < 0 || i >= s.len() {
        s.len() as int
    } else if !valid_byte(s[i]) {
        i
    } else {
        first_invalid_from(s, i + 1)
    }
}

/// The index of the first unaccepted byte of `s`, or `s.len()` if none.
pub open spec fn first_invalid(s: Seq<u8>) -> int {
    first_invalid_from(s, 0)
}

/// One step of the split: a separator opens a new (empty) function body; an
/// operator byte lands in the most recently opened body, or is discarded if
/// no function has been opened yet (it belongs to no callable function).
pub open spec fn split_step(acc: Seq<Seq<Op>>, b: u8) -> Seq<Seq<Op>> {
    if is_slash(b) {
        acc.push(Seq::empty())
    } else if acc.len() == 0 {
        acc
    } else {
        acc.update(acc.len() - 1, acc.last().push(op_of(b)))
    }
}

/// The ordered list of function bodies of source `s`, scanning left to
/// right. Bodies hold operator opcodes only, never the separator.
pub open spec fn split_funs(s: Seq<u8>) -> Seq<Seq<Op>>
    decreases s.len(),
{
    if s.len() == 0 {
        Seq::empty()
    } else {
        split_step(split_funs(s.drop_last()), s.last())
    }
}

/// What parsing source `s` yields: scanning left to right, the first
/// violation wins. A 256th separator is a violation at its own index, so it
/// is reported over an unaccepted byte that only occurs later; an unaccepted
/// byte is reported over separators that only occur later. A clean scan with
/// no separator at all yields `NoFunctionsDefined`.
pub open spec fn parse_spec(s: Seq<u8>) -> Result<Seq<Seq<Op>>, CompileError> {
    let fi = first_invalid(s);
    if slash_count(s.take(fi)) > MAX_FUNCTIONS {
        Err(CompileError::TooManyFunctions)
    } else if fi < s.len() {
        Err(CompileError::InvalidCharacter { position: fi as usize })
    } else if slash_count(s) == 0 {
        Err(CompileError::NoFunctionsDefined)
    } else {
        Ok(split_funs(s))
    }
}

/// A validated program: its ordered function bodies. Function identifiers
/// are positional — body `k` (0-based) is the function with identifier
/// `k + 1` — and the last body is the program's entry point.
pub struct ParsedProgram {
    pub funs: Vec<Vec<Op>>,
}

impl ParsedProgram {
    /// The mathematical function table: one opcode sequence per function.
    pub open spec fn funs_view(&self) -> Seq<Seq<Op>> {
        self.funs@.map_values(|v: Vec<Op>| v@)
    }

    /// Every valid program has between 1 and 255 functions, and no body
    /// holds a separator.
    pub open spec fn wf(&self) -> bool {
        &&& 1 <= self.funs@.len() <= MAX_FUNCTIONS
        &&& forall|k: int, o: int|
            0 <= k < self.funs@.len() && 0 <= o < self.funs@[k]@.len()
                ==> self.funs@[k]@[o] != Op::FunctionBoundary
    }
}

proof fn lemma_slash_count_mono(s: Seq<u8>, i: int, j: int)
    requires
        0 <= i <= j <= s.len(),
    ensures
        slash_count(s.take(i)) <= slash_count(s.take(j)),
    decreases j - i,
{
    if j > i {
        lemma_slash_count_mono(s, i, j - 1);
        assert(s.take(j).drop_last() =~= s.take(j - 1));
    }
}

proof fn lemma_first_invalid_bounds(s: Seq<u8>, i: int)
    requires
        0 <= i <= s.len(),
    ensures
        i <= first_invalid_from(s, i) <= s.len(),
    decreases s.len() - i,
{
    if i < s.len() && valid_byte(s[i]) {
        lemma_first_invalid_bounds(s, i + 1);
    }
}

proof fn lemma_first_invalid_skip(s: Seq<u8>, i: int)
    requires
        0 <= i <= s.len(),
        forall|j: int| 0 <= j < i ==> valid_byte(s[j]),
    ensures
        first_invalid(s) == first_invalid_from(s, i),
    decreases i,
{
    if i > 0 {
        lemma_first_invalid_skip(s, i - 1);
    }
}

proof fn lemma_split_len(s: Seq<u8>)
    ensures
        split_funs(s).len() == slash_count(s),
    decreases s.len(),
{
    if s.len() > 0 {
        lemma_split_len(s.drop_last());
    }
}

/// Parsing totality: any source over the accepted characters alone, with
/// at least one separator and at most 255, parses successfully into
/// exactly one function per separator.
pub proof fn lemma_parse_totality(s: Seq<u8>)
    requires
        forall|j: int| 0 <= j < s.len() ==> valid_byte(s[j]),
        1 <= slash_count(s) <= MAX_FUNCTIONS,
    ensures
        parse_spec(s) == Ok::<Seq<Seq<Op>>, CompileError>(split_funs(s)),
        split_funs(s).len() == slash_count(s),
{
    lemma_first_invalid_skip(s, s.len() as int);
    assert(s.take(s.len() as int) =~= s);
    lemma_split_len(s);
}

/// Rejection correctness, separator-free case: a source over the accepted
/// characters alone with no separator at all is always rejected as
/// defining no functions.
pub proof fn lemma_rejection_no_functions(s: Seq<u8>)
    requires
        forall|j: int| 0 <= j < s.len() ==> valid_byte(s[j]),
        slash_count(s) == 0,
    ensures
        parse_spec(s) == Err::<Seq<Seq<Op>>, CompileError>(CompileError::NoFunctionsDefined),
{
    lemma_first_invalid_skip(s, s.len() as int);
    assert(s.take(s.len() as int) =~= s);
}

/// Rejection correctness, ceiling case: a source over the accepted
/// characters alone with more than 255 separators is always rejected for
/// declaring too many functions.
pub proof fn lemma_rejection_too_many(s: Seq<u8>)
    requires
        forall|j: int| 0 <= j < s.len() ==> valid_byte(s[j]),
        slash_count(s) > MAX_FUNCTIONS,
    ensures
        parse_spec(s) == Err::<Seq<Seq<Op>>, CompileError>(CompileError::TooManyFunctions),
{
    lemma_first_invalid_skip(s, s.len() as int);
    assert(s.take(s.len() as int) =~= s);
}

/// Rejection correctness, character case: a disallowed byte is always
/// rejected with its position, provided the function ceiling was not
/// already crossed among the separators before it — the scan reports the
/// leftmost violation.
pub proof fn lemma_rejection_invalid_character(s: Seq<u8>, p: int)
    requires
        0 <= p < s.len(),
        !valid_byte(s[p]),
        forall|j: int| 0 <= j < p ==> valid_byte(s[j]),
        slash_count(s.take(p)) <= MAX_FUNCTIONS,
    ensures
        parse_spec(s) == Err::<Seq<Seq<Op>>, CompileError>(
            CompileError::InvalidCharacter { position: p as usize },
        ),
{
    lemma_first_invalid_skip(s, p);
    assert(first_invalid(s) == p);
}

/// Split source text into its ordered list of function bodies, rejecting
/// unaccepted bytes, separator-free programs, and programs with more than
/// 255 functions. This also fixes the function table: identifiers are
/// assigned in source order and the last function is the entry point.
pub fn parse(program: &[u8]) -> (r: Result<ParsedProgram, CompileError>)
    ensures
        match r {
            Ok(p) => {
                &&& parse_spec(program@) == Ok::<Seq<Seq<Op>>, CompileError>(p.funs_view())
                &&& p.wf()
                &&& p.funs_view().len() == slash_count(program@)
            },
            Err(e) => parse_spec(program@) == Err::<Seq<Seq<Op>>, CompileError>(e),
        },
{
    let ghost s = program@;
    let mut finished: Vec<Vec<Op>> = Vec::new();
    let mut current: Vec<Op> = Vec::new();
    let mut started: bool = false;
    let mut i: usize = 0;
    while i < program.len()
        invariant
            s == program@,
            0 <= i <= s.len(),
            forall|j: int| 0 <= j < i ==> valid_byte(s[j]),
            started <==> slash_count(s.take(i as int)) >= 1,
            finished@.len() + (if started { 1int } else { 0int }) == slash_count(
                s.take(i as int),
            ),
            finished@.len() + (if started { 1int } else { 0int }) <= MAX_FUNCTIONS,
            started ==> split_funs(s.take(i as int)) =~= finished@.map_values(
                |v: Vec<Op>| v@,
            ).push(current@),
            !started ==> split_funs(s.take(i as int)) =~= Seq::<Seq<Op>>::empty(),
            !started ==> current@.len() == 0,
            forall|k: int, o: int|
                0 <= k < finished@.len() && 0 <= o < finished@[k]@.len()
                    ==> finished@[k]@[o] != Op::FunctionBoundary,
            forall|o: int| 0 <= o < current@.len() ==> current@[o] != Op::FunctionBoundary,
        decreases s.len() - i,
    {
        let b: u8 = program[i];
        proof {
            assert(s.take(i + 1).drop_last() =~= s.take(i as int));
            assert(s.take(i + 1).last() == s[i as int]);
        }
        let op: Op = match b {
            62 => Op::MoveRight,
            60 => Op::MoveLeft,
            43 => Op::Increment,
            45 => Op::Decrement,
            46 => Op::Write,
            44 => Op::Read,
            64 => Op::Call,
            47 => Op::FunctionBoundary,
            _ => {
                proof {
                    lemma_first_invalid_skip(s, i as int);
                    assert(first_invalid(s) == i);
                }
                return Err(CompileError::InvalidCharacter { position: i });
            },
        };
        let ghost pre_split = split_funs(s.take(i as int));
        let ghost pre_finished = finished@;
        let ghost pre_current = current@;
        if op == Op::FunctionBoundary {
            let n_so_far: usize = finished.len() + (if started { 1 } else { 0 });
            if n_so_far == MAX_FUNCTIONS {
                proof {
                    assert(slash_count(s.take(i + 1)) == MAX_FUNCTIONS + 1);
                    lemma_first_invalid_skip(s, i + 1);
                    lemma_first_invalid_bounds(s, i + 1);
                    lemma_slash_count_mono(s, i + 1, first_invalid(s));
                }
                return Err(CompileError::TooManyFunctions);
            }
            if started {
                finished.push(current);
                current = Vec::new();
                proof {
                    assert(finished@.map_values(|v: Vec<Op>| v@) =~~= pre_finished.map_values(
                        |v: Vec<Op>| v@,
                    ).push(pre_current));
                    assert(split_funs(s.take(i + 1)) =~~= finished@.map_values(
                        |v: Vec<Op>| v@,
                    ).push(current@));
                }
            } else {
                started = true;
                proof {
                    assert(split_funs(s.take(i + 1)) =~~= finished@.map_values(
                        |v: Vec<Op>| v@,
                    ).push(current@));
                }
            }
        } else {
            if started {
                current.push(op);
                proof {
                    assert(!is_slash(b));
                    assert(op_of(b) == op);
                    assert(pre_split.len() >= 1);
                    assert(pre_split.last() == pre_current);
                    assert(split_funs(s.take(i + 1)) =~~= finished@.map_values(
                        |v: Vec<Op>| v@,
                    ).push(current@));
                }
            } else {
                proof {
                    assert(split_funs(s.take(i + 1)) =~= Seq::<Seq<Op>>::empty());
                }
            }
        }
        i = i + 1;
    }
    proof {
        assert(s.take(s.len() as int) =~= s);
        lemma_first_invalid_skip(s, s.len() as int);
    }
    if !started {
        return Err(CompileError::NoFunctionsDefined);
    }
    finished.push(current);
    let p = ParsedProgram { funs: finished };
    proof {
        assert(p.funs_view() =~= split_funs(s));
    }
    Ok(p)
}

} // verus!

//! What a run of the machine is: the step that each instruction makes, how a
//! run ends, and what it writes to the trace.
//!
//! A run is stated twice. `runs` says what a run can end with and write
//! whatever the functions of the host return: each operation gets an answer of
//! the host's arithmetic, each number a text of the host. `outcome` and `trace`
//! say it for an arithmetic and for texts that are functions of their
//! arguments; `lemma_run_under_a_model` and `lemma_trace_under_a_model` lead
//! from the first to the second.

use vstd::prelude::*;
use crate::chunk::{ChunkView, OpCode};
use crate::disassembler::{
    instruction_text,
    lemma_written_instruction_under_a_model,
    writes_instruction,
};
use crate::value::{NumberText, Value, negated, renders, shows};
use crate::virtual_machine::{DebugFlag, DebugFlags, STACK_MAX, VMResult, calculates};

verus! {

/// What gives the result of each of the four operations on two numbers, by the
/// opcode and the encodings of the operands.
pub type Arithmetic = spec_fn(OpCode, u64, u64) -> u64;

/// What executing one instruction leads to: the end of the run, or the next
/// instruction with a new stack.
pub enum Step {
    Halt(VMResult),
    Continue { ip: int, stack: Seq<Value> },
}

/// The opcode stands for one of the four operations on two numbers.
pub open spec fn is_binary(op_code: OpCode) -> bool {
    op_code is Add || op_code is Subtract || op_code is Multiply || op_code is Divide
}

/// Pushing a value: the run ends with a runtime error where the stack is full.
pub open spec fn push_step(stack: Seq<Value>, value: Value, next: int) -> Step {
    if stack.len() >= STACK_MAX {
        Step::Halt(VMResult::RuntimeError)
    } else {
        Step::Continue { ip: next, stack: stack.push(value) }
    }
}

/// Loading a constant: the run ends with a compile error where the stream ends
/// inside the operand, and with a runtime error where the pool has nothing at
/// the index that the operand holds; else the constant is pushed.
pub open spec fn load_step(
    chunk: ChunkView,
    ip: int,
    is_long: bool,
    stack: Seq<Value>,
    next: int,
) -> Step {
    match chunk.operand_at(ip, is_long) {
        None => Step::Halt(VMResult::CompileError),
        Some(index) => match chunk.constant_at(index as int) {
            None => Step::Halt(VMResult::RuntimeError),
            Some(constant) => push_step(stack, constant, next),
        },
    }
}

/// Negating: the run ends with a runtime error where the stack is empty or its
/// top is no number; else the top is replaced by its negation.
pub open spec fn negate_step(stack: Seq<Value>, next: int) -> Step {
    if stack.len() == 0 || !(stack.last().data is Float) {
        Step::Halt(VMResult::RuntimeError)
    } else {
        push_step(stack.drop_last(), Value::number(negated(stack.last().bits())), next)
    }
}

/// One of the four operations on two numbers: the run ends with a runtime
/// error where the stack holds fewer than two values or one of its top two is
/// no number; else the two are replaced by what the operation gives for the
/// lower one and the upper one, in this order.
pub open spec fn binary_step(
    stack: Seq<Value>,
    op_code: OpCode,
    next: int,
    calc: Arithmetic,
) -> Step {
    if stack.len() < 2 {
        Step::Halt(VMResult::RuntimeError)
    } else {
        let b = stack[stack.len() - 1];
        let a = stack[stack.len() - 2];
        if a.data is Float && b.data is Float {
            push_step(
                stack.subrange(0, stack.len() - 2),
                Value::number(calc(op_code, a.bits(), b.bits())),
                next,
            )
        } else {
            Step::Halt(VMResult::RuntimeError)
        }
    }
}

/// What `Return` yields: the top of the stack, or the number zero where the
/// stack is empty.
pub open spec fn returned(stack: Seq<Value>) -> Value {
    if stack.len() == 0 {
        Value::number(0)
    } else {
        stack.last()
    }
}

/// What executing the instruction at `ip` leads to.
///
/// The run ends with a runtime error where the stream has no byte at `ip`, and
/// with a compile error where that byte stands for no instruction or the stream
/// ends inside the operand of a load.
pub open spec fn step(chunk: ChunkView, ip: int, stack: Seq<Value>, calc: Arithmetic) -> Step {
    match chunk.byte_at(ip) {
        None => Step::Halt(VMResult::RuntimeError),
        Some(byte) => match OpCode::decode(byte) {
            OpCode::Return => Step::Halt(VMResult::Okay(returned(stack))),
            OpCode::Constant => load_step(chunk, ip, false, stack, ip + 2),
            OpCode::ConstantLong => load_step(chunk, ip, true, stack, ip + 3),
            OpCode::Negate => negate_step(stack, ip + 1),
            OpCode::Add => binary_step(stack, OpCode::Add, ip + 1, calc),
            OpCode::Subtract => binary_step(stack, OpCode::Subtract, ip + 1, calc),
            OpCode::Multiply => binary_step(stack, OpCode::Multiply, ip + 1, calc),
            OpCode::Divide => binary_step(stack, OpCode::Divide, ip + 1, calc),
            OpCode::UnexpectedEndOfChunk => Step::Halt(VMResult::CompileError),
            OpCode::Invalid(_) => Step::Halt(VMResult::CompileError),
        },
    }
}

/// How the run from the instruction at `ip` with the given stack ends.
pub open spec fn outcome(chunk: ChunkView, ip: int, stack: Seq<Value>, calc: Arithmetic) -> VMResult
    decreases chunk.bytes_from(ip),
{
    match step(chunk, ip, stack, calc) {
        Step::Halt(result) => result,
        Step::Continue { ip: next, stack: after } => {
            proof {
                lemma_step_advances(chunk, ip, stack, calc);
            }
            outcome(chunk, next, after, calc)
        },
    }
}

/// The text of a stack: each value between brackets, the lowest first.
pub open spec fn stack_text(stack: Seq<Value>, text: NumberText) -> Seq<char>
    decreases stack.len(),
{
    if stack.len() == 0 {
        Seq::empty()
    } else {
        stack_text(stack.drop_last(), text) + "[ "@ + stack.last().text(text) + " ]"@
    }
}

/// The line of the trace that shows a stack.
pub open spec fn stack_line(stack: Seq<Value>, text: NumberText) -> Seq<char> {
    "          "@ + stack_text(stack, text) + "\n"@
}

/// What the trace holds before the instruction at `ip` is executed: the stack
/// and the instruction, each where its switch is on.
pub open spec fn announced(
    chunk: ChunkView,
    flags: DebugFlags,
    ip: int,
    stack: Seq<Value>,
    text: NumberText,
) -> Seq<char> {
    (if flags.enabled(DebugFlag::PrintStack) {
        stack_line(stack, text)
    } else {
        Seq::empty()
    }) + (if flags.enabled(DebugFlag::PrintInstructions) {
        instruction_text(chunk, ip, text)
    } else {
        Seq::empty()
    })
}

/// What the trace holds of the constant that the instruction at `ip` loads:
/// its text on a line, where there is such a constant and the switch is on.
pub open spec fn noted(chunk: ChunkView, flags: DebugFlags, ip: int, text: NumberText) -> Seq<
    char,
> {
    match chunk.loaded_constant(ip) {
        Some(constant) => if flags.enabled(DebugFlag::PrintConstants) {
            constant.text(text) + "\n"@
        } else {
            Seq::empty()
        },
        None => Seq::empty(),
    }
}

/// The trace of the run from the instruction at `ip` with the given stack.
pub open spec fn trace(
    chunk: ChunkView,
    flags: DebugFlags,
    ip: int,
    stack: Seq<Value>,
    calc: Arithmetic,
    text: NumberText,
) -> Seq<char>
    decreases chunk.bytes_from(ip),
{
    announced(chunk, flags, ip, stack, text) + noted(chunk, flags, ip, text) + (match step(
        chunk,
        ip,
        stack,
        calc,
    ) {
        Step::Halt(_) => Seq::empty(),
        Step::Continue { ip: next, stack: after } => {
            proof {
                lemma_step_advances(chunk, ip, stack, calc);
            }
            trace(chunk, flags, next, after, calc, text)
        },
    })
}

/// What gives one and the same result for every operation and operands.
pub open spec fn constantly(result: u64) -> Arithmetic {
    |op_code: OpCode, a: u64, b: u64| result
}

/// What the instruction at `ip` hands to the arithmetic of the host: the
/// opcode and the encodings of the lower and the upper of the top two values,
/// where the instruction is one of the four operations and both are numbers.
pub open spec fn calculation(chunk: ChunkView, ip: int, stack: Seq<Value>) -> Option<
    (OpCode, u64, u64),
> {
    if chunk.byte_at(ip) is Some && is_binary(chunk.opcode_at(ip)) && stack.len() >= 2 && stack[
        stack.len() - 2].data is Float && stack[stack.len() - 1].data is Float {
        Some((chunk.opcode_at(ip), stack[stack.len() - 2].bits(), stack[stack.len() - 1].bits()))
    } else {
        None
    }
}

/// `answer` is what the arithmetic of the host can return for what the
/// instruction at `ip` hands to it; 0 where the instruction hands it nothing.
pub open spec fn answers<A: Fn(OpCode, u64, u64) -> u64>(
    arith: A,
    chunk: ChunkView,
    ip: int,
    stack: Seq<Value>,
    answer: u64,
) -> bool {
    if calculation(chunk, ip, stack) is None {
        answer == 0
    } else {
        arith.ensures(calculation(chunk, ip, stack)->0, answer)
    }
}

/// A stack's text with one more value on top.
pub open spec fn with_entry(below: Seq<char>, top: Seq<char>) -> Seq<char> {
    below + "[ "@ + top + " ]"@
}

/// `out` is a text that can be written for a stack: for each value, the
/// lowest first, a text of it between brackets.
pub open spec fn shows_stack<S: Fn(u64) -> String>(
    show: S,
    stack: Seq<Value>,
    out: Seq<char>,
) -> bool
    decreases stack.len(),
{
    if stack.len() == 0 {
        out == Seq::<char>::empty()
    } else {
        exists|below: Seq<char>, top: Seq<char>| #![trigger with_entry(below, top)]
            shows_stack(show, stack.drop_last(), below) && shows(show, stack.last(), top) && out
                == with_entry(below, top)
    }
}

/// `out` is what can be written of the stack before an instruction: its line
/// where the switch is on, else nothing.
pub open spec fn logs_stack<S: Fn(u64) -> String>(
    show: S,
    flags: DebugFlags,
    stack: Seq<Value>,
    out: Seq<char>,
) -> bool {
    if flags.enabled(DebugFlag::PrintStack) {
        exists|shown: Seq<char>| #[trigger]
            shows_stack(show, stack, shown) && out == "          "@ + shown + "\n"@
    } else {
        out == Seq::<char>::empty()
    }
}

/// `out` is what can be written of the instruction at `ip` before it is
/// executed: a text of it where the switch is on, else nothing.
pub open spec fn logs_instruction<S: Fn(u64) -> String>(
    show: S,
    chunk: ChunkView,
    flags: DebugFlags,
    ip: int,
    out: Seq<char>,
) -> bool {
    if flags.enabled(DebugFlag::PrintInstructions) {
        writes_instruction(show, chunk, ip, out)
    } else {
        out == Seq::<char>::empty()
    }
}

/// `out` is what can be written of the constant that the instruction at `ip`
/// loads: a text of it on a line where there is such a constant and the switch
/// is on, else nothing.
pub open spec fn logs_constant<S: Fn(u64) -> String>(
    show: S,
    chunk: ChunkView,
    flags: DebugFlags,
    ip: int,
    out: Seq<char>,
) -> bool {
    if flags.enabled(DebugFlag::PrintConstants) && chunk.loaded_constant(ip) is Some {
        exists|shown: Seq<char>| #[trigger]
            shows(show, chunk.loaded_constant(ip)->0, shown) && out == shown + "\n"@
    } else {
        out == Seq::<char>::empty()
    }
}

/// The three parts that one instruction adds to the trace, in their order.
pub open spec fn in_order(stack: Seq<char>, instruction: Seq<char>, constant: Seq<char>) -> Seq<
    char,
> {
    stack + instruction + constant
}

/// `out` is what one instruction can add to the trace: the stack, the
/// instruction and the constant that it loads, each as its switch says.
pub open spec fn logs_step<S: Fn(u64) -> String>(
    show: S,
    chunk: ChunkView,
    flags: DebugFlags,
    ip: int,
    stack: Seq<Value>,
    out: Seq<char>,
) -> bool {
    exists|first: Seq<char>, second: Seq<char>, third: Seq<char>|
        #![trigger in_order(first, second, third)]
        logs_stack(show, flags, stack, first) && logs_instruction(show, chunk, flags, ip, second)
            && logs_constant(show, chunk, flags, ip, third) && out == in_order(
            first,
            second,
            third,
        )
}

/// What one instruction adds to the trace and then the rest of the trace,
/// where the instruction got `answer` from the arithmetic of the host.
pub open spec fn continued(answer: u64, first: Seq<char>, rest: Seq<char>) -> Seq<char> {
    first + rest
}

/// The run from the instruction at `ip` with the given stack can end with
/// `result` and the trace `log`: each operation on two numbers gets an answer
/// that `arith` can return for it, and each number is written as `show` can
/// return for it.
pub open spec fn runs<A: Fn(OpCode, u64, u64) -> u64, S: Fn(u64) -> String>(
    arith: A,
    show: S,
    chunk: ChunkView,
    flags: DebugFlags,
    ip: int,
    stack: Seq<Value>,
    result: VMResult,
    log: Seq<char>,
) -> bool
    decreases chunk.bytes_from(ip),
    via runs_ends::<A, S>
{
    exists|answer: u64, first: Seq<char>, rest: Seq<char>|
        #![trigger continued(answer, first, rest)]
        {
            let to = step(chunk, ip, stack, constantly(answer));
            &&& answers(arith, chunk, ip, stack, answer)
            &&& logs_step(show, chunk, flags, ip, stack, first)
            &&& log == continued(answer, first, rest)
            &&& to is Halt ==> result == to->Halt_0 && rest == Seq::<char>::empty()
            &&& to is Continue ==> runs(arith, show, chunk, flags, to->ip, to->stack, result, rest)
        }
}

#[via_fn]
proof fn runs_ends<A: Fn(OpCode, u64, u64) -> u64, S: Fn(u64) -> String>(
    arith: A,
    show: S,
    chunk: ChunkView,
    flags: DebugFlags,
    ip: int,
    stack: Seq<Value>,
    result: VMResult,
    log: Seq<char>,
) {
    assert forall|answer: u64| #[trigger]
        step(chunk, ip, stack, constantly(answer)) is Continue implies chunk.bytes_from(
        step(chunk, ip, stack, constantly(answer))->ip,
    ) < chunk.bytes_from(ip) by {
        lemma_step_advances(chunk, ip, stack, constantly(answer));
    }
}

/// The run from the instruction at `ip` with the given stack reaches no
/// operation on two numbers: it asks nothing of the arithmetic of the host.
pub open spec fn calculates_nothing(chunk: ChunkView, ip: int, stack: Seq<Value>) -> bool
    decreases chunk.bytes_from(ip),
{
    let to = step(chunk, ip, stack, constantly(0));
    &&& calculation(chunk, ip, stack) is None
    &&& to is Continue ==> {
        proof {
            lemma_step_advances(chunk, ip, stack, constantly(0));
        }
        calculates_nothing(chunk, to->ip, to->stack)
    }
}

/// A text for a stack without its top and a text for the top give a text for
/// the stack.
pub proof fn lemma_shows_stack_one_more<S: Fn(u64) -> String>(
    show: S,
    stack: Seq<Value>,
    below: Seq<char>,
    top: Seq<char>,
)
    requires
        stack.len() > 0,
        shows_stack(show, stack.drop_last(), below),
        shows(show, stack.last(), top),
    ensures
        shows_stack(show, stack, with_entry(below, top)),
{
}

/// What a run begins with: an answer of the host's arithmetic for its first
/// instruction, what that instruction adds to the trace, and the trace of the
/// rest of the run.
pub proof fn lemma_run_begins<A: Fn(OpCode, u64, u64) -> u64, S: Fn(u64) -> String>(
    arith: A,
    show: S,
    chunk: ChunkView,
    flags: DebugFlags,
    ip: int,
    stack: Seq<Value>,
    result: VMResult,
    log: Seq<char>,
) -> (begin: (u64, Seq<char>, Seq<char>))
    requires
        runs(arith, show, chunk, flags, ip, stack, result, log),
    ensures
        answers(arith, chunk, ip, stack, begin.0),
        logs_step(show, chunk, flags, ip, stack, begin.1),
        log == begin.1 + begin.2,
        step(chunk, ip, stack, constantly(begin.0)) matches Step::Halt(end) ==> result == end
            && begin.2 == Seq::<char>::empty(),
        step(chunk, ip, stack, constantly(begin.0)) matches Step::Continue {
            ip: next,
            stack: after,
        } ==> runs(arith, show, chunk, flags, next, after, result, begin.2),
{
    let (answer, first, rest) = choose|answer: u64, first: Seq<char>, rest: Seq<char>|
        #![trigger continued(answer, first, rest)]
        {
            let to = step(chunk, ip, stack, constantly(answer));
            &&& answers(arith, chunk, ip, stack, answer)
            &&& logs_step(show, chunk, flags, ip, stack, first)
            &&& log == continued(answer, first, rest)
            &&& to is Halt ==> result == to->Halt_0 && rest == Seq::<char>::empty()
            &&& to is Continue ==> runs(arith, show, chunk, flags, to->ip, to->stack, result, rest)
        };
    (answer, first, rest)
}

/// A step that ends the run makes a run of its own.
pub proof fn lemma_runs_to_its_end<A: Fn(OpCode, u64, u64) -> u64, S: Fn(u64) -> String>(
    arith: A,
    show: S,
    chunk: ChunkView,
    flags: DebugFlags,
    ip: int,
    stack: Seq<Value>,
    answer: u64,
    first: Seq<char>,
    result: VMResult,
)
    requires
        answers(arith, chunk, ip, stack, answer),
        logs_step(show, chunk, flags, ip, stack, first),
        step(chunk, ip, stack, constantly(answer)) == Step::Halt(result),
    ensures
        runs(arith, show, chunk, flags, ip, stack, result, first),
{
    let rest = Seq::<char>::empty();
    assert(first =~= continued(answer, first, rest));
}

/// A step that does not end the run, and then a run from where it leads, make
/// a run.
pub proof fn lemma_runs_on<A: Fn(OpCode, u64, u64) -> u64, S: Fn(u64) -> String>(
    arith: A,
    show: S,
    chunk: ChunkView,
    flags: DebugFlags,
    ip: int,
    stack: Seq<Value>,
    answer: u64,
    first: Seq<char>,
    next: int,
    after: Seq<Value>,
    result: VMResult,
    rest: Seq<char>,
)
    requires
        answers(arith, chunk, ip, stack, answer),
        logs_step(show, chunk, flags, ip, stack, first),
        step(chunk, ip, stack, constantly(answer)) == (Step::Continue { ip: next, stack: after }),
        runs(arith, show, chunk, flags, next, after, result, rest),
    ensures
        runs(arith, show, chunk, flags, ip, stack, result, first + rest),
{
    assert(first + rest == continued(answer, first, rest));
}

/// Where an instruction hands nothing to the arithmetic of the host, its step
/// is the same whatever that arithmetic is.
pub proof fn lemma_step_without_calculation(
    chunk: ChunkView,
    ip: int,
    stack: Seq<Value>,
    one: Arithmetic,
    other: Arithmetic,
)
    requires
        calculation(chunk, ip, stack) is None,
    ensures
        step(chunk, ip, stack, one) == step(chunk, ip, stack, other),
{
}

/// A run that reaches no operation on two numbers ends as the run ends under
/// any arithmetic, whatever the host's functions are.
pub proof fn lemma_run_without_arithmetic<A: Fn(OpCode, u64, u64) -> u64, S: Fn(u64) -> String>(
    arith: A,
    show: S,
    chunk: ChunkView,
    flags: DebugFlags,
    ip: int,
    stack: Seq<Value>,
    result: VMResult,
    log: Seq<char>,
    calc: Arithmetic,
)
    requires
        runs(arith, show, chunk, flags, ip, stack, result, log),
        calculates_nothing(chunk, ip, stack),
    ensures
        result == outcome(chunk, ip, stack, calc),
    decreases chunk.bytes_from(ip),
{
    let (answer, first, rest) = lemma_run_begins(arith, show, chunk, flags, ip, stack, result, log);
    let to = step(chunk, ip, stack, constantly(answer));
    lemma_step_without_calculation(chunk, ip, stack, constantly(answer), calc);
    lemma_step_without_calculation(chunk, ip, stack, constantly(answer), constantly(0));
    if to is Continue {
        lemma_step_advances(chunk, ip, stack, calc);
        lemma_run_without_arithmetic(
            arith,
            show,
            chunk,
            flags,
            to->ip,
            to->stack,
            result,
            rest,
            calc,
        );
    }
}

/// A run under functions of the host that are functions of their arguments
/// ends as the run ends under the arithmetic that they compute.
pub proof fn lemma_run_under_a_model<A: Fn(OpCode, u64, u64) -> u64, S: Fn(u64) -> String>(
    arith: A,
    show: S,
    chunk: ChunkView,
    flags: DebugFlags,
    ip: int,
    stack: Seq<Value>,
    result: VMResult,
    log: Seq<char>,
    calc: Arithmetic,
)
    requires
        runs(arith, show, chunk, flags, ip, stack, result, log),
        calculates(arith, calc),
    ensures
        result == outcome(chunk, ip, stack, calc),
    decreases chunk.bytes_from(ip),
{
    let (answer, first, rest) = lemma_run_begins(arith, show, chunk, flags, ip, stack, result, log);
    let to = step(chunk, ip, stack, constantly(answer));
    assert(to == step(chunk, ip, stack, calc)) by {
        if calculation(chunk, ip, stack) is None {
            lemma_step_without_calculation(chunk, ip, stack, constantly(answer), calc);
        }
    }
    if to is Continue {
        lemma_step_advances(chunk, ip, stack, calc);
        lemma_run_under_a_model(arith, show, chunk, flags, to->ip, to->stack, result, rest, calc);
    }
}

/// A step that does not end the run leads to a later offset, within the stream
/// or at its end.
pub proof fn lemma_step_advances(chunk: ChunkView, ip: int, stack: Seq<Value>, calc: Arithmetic)
    ensures
        step(chunk, ip, stack, calc) matches Step::Continue { ip: next, .. } ==> 0 <= ip < next
            <= chunk.code.len(),
{
}

/// A run whose first step does not end it ends as the run from where that step
/// leads, and its trace is what the first instruction writes and then the
/// trace of that run.
pub proof fn lemma_run_after_a_step(
    chunk: ChunkView,
    flags: DebugFlags,
    ip: int,
    stack: Seq<Value>,
    calc: Arithmetic,
    text: NumberText,
    next: int,
    after: Seq<Value>,
)
    requires
        step(chunk, ip, stack, calc) == (Step::Continue { ip: next, stack: after }),
    ensures
        outcome(chunk, ip, stack, calc) == outcome(chunk, next, after, calc),
        trace(chunk, flags, ip, stack, calc, text) == announced(chunk, flags, ip, stack, text)
            + noted(chunk, flags, ip, text) + trace(chunk, flags, next, after, calc, text),
{
}

/// A run whose first step ends it ends as that step says, and its trace is
/// what the first instruction writes.
pub proof fn lemma_run_of_one_step(
    chunk: ChunkView,
    flags: DebugFlags,
    ip: int,
    stack: Seq<Value>,
    calc: Arithmetic,
    text: NumberText,
    result: VMResult,
)
    requires
        step(chunk, ip, stack, calc) == Step::Halt(result),
    ensures
        outcome(chunk, ip, stack, calc) == result,
        trace(chunk, flags, ip, stack, calc, text) == announced(chunk, flags, ip, stack, text)
            + noted(chunk, flags, ip, text),
{
    assert(trace(chunk, flags, ip, stack, calc, text) =~= announced(chunk, flags, ip, stack, text)
        + noted(chunk, flags, ip, text));
}

/// Whatever the stack was, no step leaves more than `STACK_MAX` values on it.
pub proof fn lemma_step_bounds_stack(chunk: ChunkView, ip: int, stack: Seq<Value>, calc: Arithmetic)
    ensures
        step(chunk, ip, stack, calc) matches Step::Continue { stack: after, .. } ==> after.len()
            <= STACK_MAX,
{
}

/// A load that finds its constant while the stack is full ends the run with a
/// runtime error.
pub proof fn lemma_push_on_full_stack_fails(
    chunk: ChunkView,
    ip: int,
    stack: Seq<Value>,
    calc: Arithmetic,
)
    requires
        stack.len() >= STACK_MAX,
        chunk.loaded_constant(ip) is Some,
    ensures
        outcome(chunk, ip, stack, calc) == VMResult::RuntimeError,
{
}

/// `Return` on an empty stack ends the run well, with the number zero.
pub proof fn lemma_return_on_empty_stack(chunk: ChunkView, ip: int, calc: Arithmetic)
    requires
        chunk.byte_at(ip) == Some(OpCode::Return.byte()),
    ensures
        outcome(chunk, ip, Seq::<Value>::empty(), calc) == VMResult::Okay(Value::number(0)),
{
}

/// `Return` on any other stack ends the run well, with the top of the stack.
pub proof fn lemma_return_yields_top(chunk: ChunkView, ip: int, stack: Seq<Value>, calc: Arithmetic)
    requires
        chunk.byte_at(ip) == Some(OpCode::Return.byte()),
        stack.len() > 0,
    ensures
        outcome(chunk, ip, stack, calc) == VMResult::Okay(stack.last()),
{
}

/// Negating changes the top of the stack and nothing below it.
pub proof fn lemma_negate_changes_the_top(stack: Seq<Value>, bits: u64, next: int)
    requires
        stack.len() < STACK_MAX,
    ensures
        negate_step(stack.push(Value::number(bits)), next) == (Step::Continue {
            ip: next,
            stack: stack.push(Value::number(negated(bits))),
        }),
{
    let pushed = stack.push(Value::number(bits));
    assert(pushed.drop_last() =~= stack);
}

/// An operation on two numbers takes the one that was pushed first as its
/// first operand, and leaves what is below the two as it was.
pub proof fn lemma_binary_takes_the_lower_first(
    stack: Seq<Value>,
    first: u64,
    second: u64,
    op_code: OpCode,
    next: int,
    calc: Arithmetic,
)
    requires
        stack.len() < STACK_MAX,
    ensures
        binary_step(
            stack.push(Value::number(first)).push(Value::number(second)),
            op_code,
            next,
            calc,
        ) == (Step::Continue {
            ip: next,
            stack: stack.push(Value::number(calc(op_code, first, second))),
        }),
{
    let pushed = stack.push(Value::number(first)).push(Value::number(second));
    assert(pushed.subrange(0, pushed.len() - 2) =~= stack);
}

/// The chunk that loads two numbers, applies an operation to them and
/// returns: the run ends well, with what the operation gives for the number
/// that was loaded first and the one that was loaded second, in this order.
pub proof fn lemma_operation_on_two_constants(
    first: u64,
    second: u64,
    op_code: OpCode,
    line: u32,
    calc: Arithmetic,
)
    requires
        is_binary(op_code),
    ensures
        outcome(
            ChunkView::empty().write_constant(Value::number(first), line).write_constant(
                Value::number(second),
                line,
            ).write_chunk(op_code, line).write_chunk(OpCode::Return, line),
            0,
            Seq::<Value>::empty(),
            calc,
        ) == VMResult::Okay(Value::number(calc(op_code, first, second))),
{
    let chunk = ChunkView::empty().write_constant(Value::number(first), line).write_constant(
        Value::number(second),
        line,
    ).write_chunk(op_code, line).write_chunk(OpCode::Return, line);
    assert(chunk.code =~= seq![0u8, 0u8, 0u8, 1u8, op_code.byte(), 2u8]);
    assert(chunk.constants =~= seq![Value::number(first), Value::number(second)]);
    let empty = Seq::<Value>::empty();
    let one = empty.push(Value::number(first));
    let two = one.push(Value::number(second));
    let result = empty.push(Value::number(calc(op_code, first, second)));
    assert(step(chunk, 0, empty, calc) == (Step::Continue { ip: 2, stack: one }));
    assert(step(chunk, 2, one, calc) == (Step::Continue { ip: 4, stack: two }));
    lemma_binary_takes_the_lower_first(empty, first, second, op_code, 5, calc);
    assert(step(chunk, 4, two, calc) == (Step::Continue { ip: 5, stack: result }));
    assert(step(chunk, 5, result, calc) == Step::Halt(
        VMResult::Okay(Value::number(calc(op_code, first, second))),
    ));
    reveal_with_fuel(outcome, 5);
}

/// The chunk that loads a number, negates it, loads a second number and
/// returns: the run ends well with the second number, which the negation has
/// not touched.
pub proof fn lemma_negate_leaves_later_constants(
    first: u64,
    second: u64,
    line: u32,
    calc: Arithmetic,
)
    ensures
        outcome(
            ChunkView::empty().write_constant(Value::number(first), line).write_chunk(
                OpCode::Negate,
                line,
            ).write_constant(Value::number(second), line).write_chunk(OpCode::Return, line),
            0,
            Seq::<Value>::empty(),
            calc,
        ) == VMResult::Okay(Value::number(second)),
{
    let chunk = ChunkView::empty().write_constant(Value::number(first), line).write_chunk(
        OpCode::Negate,
        line,
    ).write_constant(Value::number(second), line).write_chunk(OpCode::Return, line);
    assert(chunk.code =~= seq![0u8, 0u8, 3u8, 0u8, 1u8, 2u8]);
    assert(chunk.constants =~= seq![Value::number(first), Value::number(second)]);
    let empty = Seq::<Value>::empty();
    let one = empty.push(Value::number(first));
    let negative = empty.push(Value::number(negated(first)));
    let two = negative.push(Value::number(second));
    assert(step(chunk, 0, empty, calc) == (Step::Continue { ip: 2, stack: one }));
    lemma_negate_changes_the_top(empty, first, 3);
    assert(step(chunk, 2, one, calc) == (Step::Continue { ip: 3, stack: negative }));
    assert(step(chunk, 3, negative, calc) == (Step::Continue { ip: 5, stack: two }));
    assert(step(chunk, 5, two, calc) == Step::Halt(VMResult::Okay(Value::number(second))));
    reveal_with_fuel(outcome, 5);
}

/// The chunk that loads a number, negates it, loads a second number and
/// returns asks nothing of the arithmetic of the host: whatever the functions
/// of the host are, its run ends well with the second number.
pub proof fn lemma_negate_leaves_later_constants_for_any_host<
    A: Fn(OpCode, u64, u64) -> u64,
    S: Fn(u64) -> String,
>(
    arith: A,
    show: S,
    first: u64,
    second: u64,
    line: u32,
    last_line: u32,
    flags: DebugFlags,
    result: VMResult,
    log: Seq<char>,
)
    requires
        runs(
            arith,
            show,
            ChunkView::empty().write_constant(Value::number(first), line).write_chunk(
                OpCode::Negate,
                line,
            ).write_constant(Value::number(second), line).write_chunk(OpCode::Return, last_line),
            flags,
            0,
            Seq::<Value>::empty(),
            result,
            log,
        ),
    ensures
        result == VMResult::Okay(Value::number(second)),
{
    let chunk = ChunkView::empty().write_constant(Value::number(first), line).write_chunk(
        OpCode::Negate,
        line,
    ).write_constant(Value::number(second), line).write_chunk(OpCode::Return, last_line);
    let calc = constantly(0);
    assert(chunk.code =~= seq![0u8, 0u8, 3u8, 0u8, 1u8, 2u8]);
    assert(chunk.constants =~= seq![Value::number(first), Value::number(second)]);
    let empty = Seq::<Value>::empty();
    let one = empty.push(Value::number(first));
    let negative = empty.push(Value::number(negated(first)));
    let two = negative.push(Value::number(second));
    assert(step(chunk, 0, empty, calc) == (Step::Continue { ip: 2, stack: one }));
    lemma_negate_changes_the_top(empty, first, 3);
    assert(step(chunk, 2, one, calc) == (Step::Continue { ip: 3, stack: negative }));
    assert(step(chunk, 3, negative, calc) == (Step::Continue { ip: 5, stack: two }));
    assert(step(chunk, 5, two, calc) == Step::Halt(VMResult::Okay(Value::number(second))));
    assert(calculates_nothing(chunk, 5, two));
    assert(calculates_nothing(chunk, 3, negative));
    assert(calculates_nothing(chunk, 2, one));
    assert(calculates_nothing(chunk, 0, empty));
    lemma_run_without_arithmetic(arith, show, chunk, flags, 0, empty, result, log, calc);
    reveal_with_fuel(outcome, 5);
}

/// A text that can be written for a stack is its text under every function
/// that gives the texts that `show` returns.
pub proof fn lemma_shown_stack_under_a_model<S: Fn(u64) -> String>(
    show: S,
    stack: Seq<Value>,
    out: Seq<char>,
    text: NumberText,
)
    requires
        shows_stack(show, stack, out),
        renders(show, text),
    ensures
        out == stack_text(stack, text),
    decreases stack.len(),
{
    if stack.len() > 0 {
        let (below, top) = choose|below: Seq<char>, top: Seq<char>|
            #![trigger with_entry(below, top)]
            shows_stack(show, stack.drop_last(), below) && shows(show, stack.last(), top) && out
                == with_entry(below, top);
        lemma_shown_stack_under_a_model(show, stack.drop_last(), below, text);
    }
}

/// What one instruction can add to the trace is what it adds under every
/// function that gives the texts that `show` returns.
pub proof fn lemma_logged_step_under_a_model<S: Fn(u64) -> String>(
    show: S,
    chunk: ChunkView,
    flags: DebugFlags,
    ip: int,
    stack: Seq<Value>,
    out: Seq<char>,
    text: NumberText,
)
    requires
        logs_step(show, chunk, flags, ip, stack, out),
        renders(show, text),
    ensures
        out == announced(chunk, flags, ip, stack, text) + noted(chunk, flags, ip, text),
{
    let (one, two, three) = choose|one: Seq<char>, two: Seq<char>, three: Seq<char>|
        #![trigger in_order(one, two, three)]
        logs_stack(show, flags, stack, one) && logs_instruction(show, chunk, flags, ip, two)
            && logs_constant(show, chunk, flags, ip, three) && out == in_order(one, two, three);
    if flags.enabled(DebugFlag::PrintStack) {
        let shown = choose|shown: Seq<char>| #[trigger]
            shows_stack(show, stack, shown) && one == "          "@ + shown + "\n"@;
        lemma_shown_stack_under_a_model(show, stack, shown, text);
    }
    if flags.enabled(DebugFlag::PrintInstructions) {
        lemma_written_instruction_under_a_model(show, chunk, ip, two, text);
    }
    assert(one == (if flags.enabled(DebugFlag::PrintStack) {
        stack_line(stack, text)
    } else {
        Seq::<char>::empty()
    }));
    assert(three == noted(chunk, flags, ip, text));
}

/// The trace of a run under functions of the host that are functions of their
/// arguments is the trace under the arithmetic and the texts that they give.
pub proof fn lemma_trace_under_a_model<A: Fn(OpCode, u64, u64) -> u64, S: Fn(u64) -> String>(
    arith: A,
    show: S,
    chunk: ChunkView,
    flags: DebugFlags,
    ip: int,
    stack: Seq<Value>,
    result: VMResult,
    log: Seq<char>,
    calc: Arithmetic,
    text: NumberText,
)
    requires
        runs(arith, show, chunk, flags, ip, stack, result, log),
        calculates(arith, calc),
        renders(show, text),
    ensures
        log == trace(chunk, flags, ip, stack, calc, text),
    decreases chunk.bytes_from(ip),
{
    let (answer, first, rest) = lemma_run_begins(arith, show, chunk, flags, ip, stack, result, log);
    let to = step(chunk, ip, stack, constantly(answer));
    assert(to == step(chunk, ip, stack, calc)) by {
        if calculation(chunk, ip, stack) is None {
            lemma_step_without_calculation(chunk, ip, stack, constantly(answer), calc);
        }
    }
    lemma_logged_step_under_a_model(show, chunk, flags, ip, stack, first, text);
    match to {
        Step::Halt(end) => {
            lemma_run_of_one_step(chunk, flags, ip, stack, calc, text, end);
            assert(first + rest =~= first);
        },
        Step::Continue { ip: next, stack: after } => {
            lemma_step_advances(chunk, ip, stack, calc);
            lemma_trace_under_a_model(
                arith,
                show,
                chunk,
                flags,
                next,
                after,
                result,
                rest,
                calc,
                text,
            );
            lemma_run_after_a_step(chunk, flags, ip, stack, calc, text, next, after);
        },
    }
}

/// The chunk that loads two numbers, applies an operation to them and
/// returns: whatever the functions of the host are, the run ends well, with an
/// answer of the host's arithmetic for the operation, the number that was
/// loaded first and the one that was loaded second, in this order.
pub proof fn lemma_operation_on_two_constants_for_any_host<
    A: Fn(OpCode, u64, u64) -> u64,
    S: Fn(u64) -> String,
>(
    arith: A,
    show: S,
    first: u64,
    second: u64,
    op_code: OpCode,
    line: u32,
    flags: DebugFlags,
    result: VMResult,
    log: Seq<char>,
)
    requires
        is_binary(op_code),
        runs(
            arith,
            show,
            ChunkView::empty().write_constant(Value::number(first), line).write_constant(
                Value::number(second),
                line,
            ).write_chunk(op_code, line).write_chunk(OpCode::Return, line),
            flags,
            0,
            Seq::<Value>::empty(),
            result,
            log,
        ),
    ensures
        result matches VMResult::Okay(value) && value.data is Float && arith.ensures(
            (op_code, first, second),
            value.bits(),
        ),
{
    let chunk = ChunkView::empty().write_constant(Value::number(first), line).write_constant(
        Value::number(second),
        line,
    ).write_chunk(op_code, line).write_chunk(OpCode::Return, line);
    assert(chunk.code =~= seq![0u8, 0u8, 0u8, 1u8, op_code.byte(), 2u8]);
    assert(chunk.constants =~= seq![Value::number(first), Value::number(second)]);
    let empty = Seq::<Value>::empty();
    let one = empty.push(Value::number(first));
    let two = one.push(Value::number(second));

    let load_first = lemma_run_begins(arith, show, chunk, flags, 0, empty, result, log);
    assert(step(chunk, 0, empty, constantly(load_first.0)) == (Step::Continue {
        ip: 2,
        stack: one,
    }));
    let load_second = lemma_run_begins(arith, show, chunk, flags, 2, one, result, load_first.2);
    assert(step(chunk, 2, one, constantly(load_second.0)) == (Step::Continue {
        ip: 4,
        stack: two,
    }));
    let operate = lemma_run_begins(arith, show, chunk, flags, 4, two, result, load_second.2);
    let answer = operate.0;
    assert(chunk.opcode_at(4) == op_code);
    assert(calculation(chunk, 4, two) == Some((op_code, first, second)));
    assert(arith.ensures((op_code, first, second), answer));
    let answered = empty.push(Value::number(answer));
    lemma_binary_takes_the_lower_first(empty, first, second, op_code, 5, constantly(answer));
    assert(step(chunk, 4, two, constantly(answer)) == (Step::Continue {
        ip: 5,
        stack: answered,
    }));
    let finish = lemma_run_begins(arith, show, chunk, flags, 5, answered, result, operate.2);
    assert(step(chunk, 5, answered, constantly(finish.0)) == Step::Halt(
        VMResult::Okay(Value::number(answer)),
    ));
}

/// A run with every switch off writes nothing, whatever the functions of the
/// host are.
pub proof fn lemma_silent_run_logs_nothing<A: Fn(OpCode, u64, u64) -> u64, S: Fn(u64) -> String>(
    arith: A,
    show: S,
    chunk: ChunkView,
    flags: DebugFlags,
    ip: int,
    stack: Seq<Value>,
    result: VMResult,
    log: Seq<char>,
)
    requires
        runs(arith, show, chunk, flags, ip, stack, result, log),
        flags.silent(),
    ensures
        log == Seq::<char>::empty(),
    decreases chunk.bytes_from(ip),
{
    let (answer, first, rest) = lemma_run_begins(arith, show, chunk, flags, ip, stack, result, log);
    let to = step(chunk, ip, stack, constantly(answer));
    let (one, two, three) = choose|one: Seq<char>, two: Seq<char>, three: Seq<char>|
        #![trigger in_order(one, two, three)]
        logs_stack(show, flags, stack, one) && logs_instruction(show, chunk, flags, ip, two)
            && logs_constant(show, chunk, flags, ip, three) && first == in_order(one, two, three);
    assert(first =~= Seq::<char>::empty());
    if to is Continue {
        lemma_step_advances(chunk, ip, stack, constantly(answer));
        lemma_silent_run_logs_nothing(arith, show, chunk, flags, to->ip, to->stack, result, rest);
    }
    assert(log =~= Seq::<char>::empty());
}

/// A run with every switch off writes nothing.
pub proof fn lemma_silent_run_writes_nothing(
    chunk: ChunkView,
    flags: DebugFlags,
    ip: int,
    stack: Seq<Value>,
    calc: Arithmetic,
    text: NumberText,
)
    requires
        flags.silent(),
    ensures
        trace(chunk, flags, ip, stack, calc, text) == Seq::<char>::empty(),
    decreases chunk.bytes_from(ip),
{
    assert(announced(chunk, flags, ip, stack, text) + noted(chunk, flags, ip, text)
        =~= Seq::<char>::empty());
    match step(chunk, ip, stack, calc) {
        Step::Halt(_) => {},
        Step::Continue { ip: next, stack: after } => {
            lemma_step_advances(chunk, ip, stack, calc);
            lemma_silent_run_writes_nothing(chunk, flags, next, after, calc, text);
        },
    }
    assert(trace(chunk, flags, ip, stack, calc, text) =~= Seq::<char>::empty());
}

} // verus!

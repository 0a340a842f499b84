//! The virtual machine: the operand stack, the switches of the trace, and the
//! loop that executes a chunk.

use vstd::prelude::*;
use vstd::string::*;
use crate::chunk::{Chunk, ChunkView, OpCode};
use crate::disassembler::render_instruction;
use crate::execution::{
    Arithmetic,
    Step,
    answers,
    binary_step,
    calculates_nothing,
    constantly,
    in_order,
    is_binary,
    lemma_run_under_a_model,
    lemma_run_without_arithmetic,
    lemma_runs_on,
    lemma_runs_to_its_end,
    lemma_shows_stack_one_more,
    logs_constant,
    logs_instruction,
    logs_stack,
    logs_step,
    lemma_trace_under_a_model,
    outcome,
    push_step,
    runs,
    shows_stack,
    step,
    trace,
    with_entry,
};
use crate::value::{DataType, NumberText, Value, flip_sign, renders, shows, shows_all};

verus! {

/// The largest number of values that the operand stack holds.
pub const STACK_MAX: usize = 256;

/// How a run ended: with the value that `Return` took from the stack, on a
/// stream that cannot be read, or on an instruction that could not be
/// executed.
#[derive(Debug, Clone, Copy, PartialEq, Eq, Structural)]
pub enum VMResult {
    Okay(Value),
    CompileError,
    RuntimeError,
}

/// One of the three switches of the trace.
#[derive(Debug, Clone, Copy, PartialEq, Eq, Structural)]
pub enum DebugFlag {
    PrintInstructions,
    PrintStack,
    PrintConstants,
}

/// The switches of the trace: whether each instruction is written before it is
/// executed, whether the stack is, and whether each constant is when it is
/// loaded.
#[derive(Debug, Clone, Copy)]
pub struct DebugFlags {
    print_instructions: bool,
    print_stack: bool,
    print_constants: bool,
}

impl DebugFlags {
    /// Whether a switch is on.
    pub closed spec fn enabled(self, flag: DebugFlag) -> bool {
        match flag {
            DebugFlag::PrintInstructions => self.print_instructions,
            DebugFlag::PrintStack => self.print_stack,
            DebugFlag::PrintConstants => self.print_constants,
        }
    }

    /// Every switch is off.
    pub open spec fn silent(self) -> bool {
        forall|flag: DebugFlag| !self.enabled(flag)
    }

    /// The switches with every one off.
    pub fn new() -> (flags: Self)
        ensures
            flags.silent(),
    {
        DebugFlags { print_instructions: false, print_stack: false, print_constants: false }
    }

    /// The same switches with one of them set.
    pub fn set_flag(self, flag: &DebugFlag, value: bool) -> (flags: Self)
        ensures
            flags.enabled(*flag) == value,
            forall|other: DebugFlag| other != *flag ==> flags.enabled(other) == self.enabled(other),
    {
        match flag {
            DebugFlag::PrintInstructions => DebugFlags { print_instructions: value, ..self },
            DebugFlag::PrintStack => DebugFlags { print_stack: value, ..self },
            DebugFlag::PrintConstants => DebugFlags { print_constants: value, ..self },
        }
    }
}

impl Default for DebugFlags {
    fn default() -> (flags: Self)
        ensures
            flags.silent(),
    {
        DebugFlags::new()
    }
}

/// `arith` can be called on every pair of encodings, for each of the four
/// operations.
pub open spec fn calculates_all<A: Fn(OpCode, u64, u64) -> u64>(arith: A) -> bool {
    forall|op_code: OpCode, a: u64, b: u64|
        is_binary(op_code) ==> #[trigger] arith.requires((op_code, a, b))
}

/// `calc` gives, for each of the four operations and every pair of encodings,
/// the encoding that `arith` returns for them.
pub open spec fn calculates<A: Fn(OpCode, u64, u64) -> u64>(arith: A, calc: Arithmetic) -> bool {
    forall|op_code: OpCode, a: u64, b: u64, out: u64|
        is_binary(op_code) && #[trigger] arith.ensures((op_code, a, b), out)
            ==> out == calc(op_code, a, b)
}

/// The operand stack. No stack ever holds more than `STACK_MAX` values.
#[derive(Debug)]
pub struct Stack(Vec<Value>);

impl View for Stack {
    type V = Seq<Value>;

    closed spec fn view(&self) -> Seq<Value> {
        self.0@
    }
}

impl Stack {
    #[verifier::type_invariant]
    spec fn bounded(self) -> bool {
        self.0@.len() <= STACK_MAX
    }

    /// The empty stack.
    pub fn new() -> (stack: Self)
        ensures
            stack@ == Seq::<Value>::empty(),
    {
        Stack(Vec::new())
    }

    /// The number of values on the stack, which is never more than
    /// `STACK_MAX`.
    pub fn len(&self) -> (len: usize)
        ensures
            len == self@.len(),
            len <= STACK_MAX,
    {
        proof {
            use_type_invariant(self);
        }
        self.0.len()
    }

    /// Pushes a value, unless the stack is full.
    ///
    /// The values are moved out of the stack and back into it, so that the
    /// stack is at no moment one of more than `STACK_MAX` values.
    pub fn push(&mut self, val: Value) -> (pushed: Result<(), ()>)
        ensures
            old(self)@.len() < STACK_MAX ==> pushed is Ok && final(self)@ == old(self)@.push(val),
            old(self)@.len() >= STACK_MAX ==> pushed is Err && final(self)@ == old(self)@,
            old(self)@.len() <= STACK_MAX,
            final(self)@.len() <= STACK_MAX,
    {
        proof {
            use_type_invariant(&*self);
        }
        if self.0.len() >= STACK_MAX {
            Err(())
        } else {
            let mut taken = Stack(Vec::new());
            core::mem::swap(self, &mut taken);
            let Stack(mut values) = taken;
            values.push(val);
            *self = Stack(values);
            Ok(())
        }
    }

    /// Takes the top of the stack, if there is one.
    pub fn pop(&mut self) -> (top: Option<Value>)
        ensures
            old(self)@.len() == 0 ==> top is None && final(self)@ == old(self)@,
            old(self)@.len() > 0 ==> top == Some(old(self)@.last())
                && final(self)@ == old(self)@.drop_last(),
            old(self)@.len() <= STACK_MAX,
    {
        proof {
            use_type_invariant(&*self);
        }
        let mut taken = Stack(Vec::new());
        core::mem::swap(self, &mut taken);
        let Stack(mut values) = taken;
        let top = values.pop();
        *self = Stack(values);
        top
    }
}

/// A result with a stack says what a step of the run says: the same error, or
/// the same stack.
pub open spec fn agrees(out: Result<Stack, VMResult>, step: Step) -> bool {
    match step {
        Step::Halt(result) => out matches Err(error) && error == result,
        Step::Continue { stack, .. } => out matches Ok(after) && after@ == stack,
    }
}

/// `hits` is what the first `n` entries of a table of guards and operations
/// can give for two values: for each entry whose guard holds of them, in
/// order, what its operation makes of them.
pub open spec fn yields<F, G>(
    actions: Seq<(F, G)>,
    a: Value,
    b: Value,
    n: int,
    hits: Seq<Value>,
) -> bool where F: Fn(&Value, &Value) -> bool, G: Fn(&Value, &Value) -> Value
    decreases n,
{
    if n <= 0 {
        hits.len() == 0
    } else {
        let (guard, operation) = actions[n - 1];
        ||| guard.ensures((&a, &b), false) && yields(actions, a, b, n - 1, hits)
        ||| hits.len() > 0 && guard.ensures((&a, &b), true) && operation.ensures(
            (&a, &b),
            hits.last(),
        ) && yields(actions, a, b, n - 1, hits.drop_last())
    }
}

/// What a table of one entry can give.
proof fn lemma_yields_of_one<F, G>(actions: Seq<(F, G)>, a: Value, b: Value, hits: Seq<Value>) where
    F: Fn(&Value, &Value) -> bool,
    G: Fn(&Value, &Value) -> Value,

    requires
        actions.len() == 1,
        yields(actions, a, b, 1, hits),
    ensures
        hits.len() == 0 || hits.len() == 1,
        hits.len() == 0 ==> actions[0].0.ensures((&a, &b), false),
        hits.len() == 1 ==> actions[0].0.ensures((&a, &b), true),
        hits.len() == 1 ==> actions[0].1.ensures((&a, &b), hits[0]),
{
    reveal_with_fuel(yields, 2);
    if actions[0].0.ensures((&a, &b), false) && yields(actions, a, b, 0, hits) {
        assert(hits.len() == 0);
    } else {
        assert(yields(actions, a, b, 0, hits.drop_last()));
        assert(hits.drop_last().len() == 0);
        assert(hits.len() == 1);
        assert(hits[0] == hits.last());
    }
}

/// Every guard of a table can be called on every pair of values, and every
/// operation on the pairs of which its guard holds.
pub open spec fn callable<F, G>(actions: Seq<(F, G)>) -> bool where
    F: Fn(&Value, &Value) -> bool,
    G: Fn(&Value, &Value) -> Value,
{
    &&& forall|i: int, a: Value, b: Value|
        0 <= i < actions.len() ==> #[trigger] actions[i].0.requires((&a, &b))
    &&& forall|i: int, a: Value, b: Value|
        0 <= i < actions.len() && #[trigger] actions[i].0.ensures((&a, &b), true)
            ==> actions[i].1.requires((&a, &b))
}

/// What a stack becomes when its top two values are replaced by what a table
/// gave for them: a runtime error unless the table gave exactly one value.
pub open spec fn replaced(rest: Seq<Value>, hits: Seq<Value>) -> Step {
    if hits.len() == 1 {
        push_step(rest, hits[0], 0)
    } else {
        Step::Halt(VMResult::RuntimeError)
    }
}

/// What one instruction left behind: the end of the run, or the offset of the
/// next instruction and the stack.
spec fn follows(out: Result<(usize, Stack), VMResult>, step: Step) -> bool {
    match step {
        Step::Halt(result) => out matches Err(error) && error == result,
        Step::Continue { ip, stack } => out matches Ok(state) && state.0 == ip && state.1@ == stack,
    }
}

/// Whatever the run from the instruction at `ip` with the stack `stack` can
/// end with, the run from `start` with an empty stack can end with it too,
/// after having written `log`.
spec fn on_course<A, S>(
    arith: A,
    show: S,
    chunk: ChunkView,
    flags: DebugFlags,
    start: int,
    ip: int,
    stack: Seq<Value>,
    log: Seq<char>,
) -> bool where A: Fn(OpCode, u64, u64) -> u64, S: Fn(u64) -> String {
    forall|result: VMResult, rest: Seq<char>| #[trigger]
        runs(arith, show, chunk, flags, ip, stack, result, rest) ==> runs(
            arith,
            show,
            chunk,
            flags,
            start,
            Seq::<Value>::empty(),
            result,
            log + rest,
        )
}

/// `answer` is what `arith` can return for an operation on the top two values
/// of a stack; 0 where they are not two numbers.
spec fn answers_operation<A: Fn(OpCode, u64, u64) -> u64>(
    arith: A,
    stack: Seq<Value>,
    op_code: OpCode,
    answer: u64,
) -> bool {
    let depth = stack.len() as int;
    if depth >= 2 && stack[depth - 2].data is Float && stack[depth - 1].data is Float {
        arith.ensures((op_code, stack[depth - 2].bits(), stack[depth - 1].bits()), answer)
    } else {
        answer == 0
    }
}

/// A run is on course when it starts.
proof fn lemma_course_starts<A, S>(
    arith: A,
    show: S,
    chunk: ChunkView,
    flags: DebugFlags,
    start: int,
) where A: Fn(OpCode, u64, u64) -> u64, S: Fn(u64) -> String
    ensures
        on_course(
            arith,
            show,
            chunk,
            flags,
            start,
            start,
            Seq::<Value>::empty(),
            Seq::<char>::empty(),
        ),
{
    assert forall|result: VMResult, rest: Seq<char>| #[trigger]
        runs(arith, show, chunk, flags, start, Seq::<Value>::empty(), result, rest) implies runs(
        arith,
        show,
        chunk,
        flags,
        start,
        Seq::<Value>::empty(),
        result,
        Seq::<char>::empty() + rest,
    ) by {
        assert(Seq::<char>::empty() + rest =~= rest);
    }
}

/// A run that is on course has, with a step that ends it, ended as the run
/// from the start can.
proof fn lemma_course_ends<A, S>(
    arith: A,
    show: S,
    chunk: ChunkView,
    flags: DebugFlags,
    start: int,
    ip: int,
    stack: Seq<Value>,
    log: Seq<char>,
    answer: u64,
    first: Seq<char>,
    result: VMResult,
) where A: Fn(OpCode, u64, u64) -> u64, S: Fn(u64) -> String
    requires
        on_course(arith, show, chunk, flags, start, ip, stack, log),
        answers(arith, chunk, ip, stack, answer),
        logs_step(show, chunk, flags, ip, stack, first),
        step(chunk, ip, stack, constantly(answer)) == Step::Halt(result),
    ensures
        runs(arith, show, chunk, flags, start, Seq::<Value>::empty(), result, log + first),
{
    lemma_runs_to_its_end(arith, show, chunk, flags, ip, stack, answer, first, result);
}

/// A run that is on course is on course again after a step that does not end
/// it.
proof fn lemma_course_goes_on<A, S>(
    arith: A,
    show: S,
    chunk: ChunkView,
    flags: DebugFlags,
    start: int,
    ip: int,
    stack: Seq<Value>,
    log: Seq<char>,
    answer: u64,
    first: Seq<char>,
    next: int,
    after: Seq<Value>,
) where A: Fn(OpCode, u64, u64) -> u64, S: Fn(u64) -> String
    requires
        on_course(arith, show, chunk, flags, start, ip, stack, log),
        answers(arith, chunk, ip, stack, answer),
        logs_step(show, chunk, flags, ip, stack, first),
        step(chunk, ip, stack, constantly(answer)) == (Step::Continue { ip: next, stack: after }),
    ensures
        on_course(arith, show, chunk, flags, start, next, after, log + first),
{
    assert forall|result: VMResult, rest: Seq<char>| #[trigger]
        runs(arith, show, chunk, flags, next, after, result, rest) implies runs(
        arith,
        show,
        chunk,
        flags,
        start,
        Seq::<Value>::empty(),
        result,
        (log + first) + rest,
    ) by {
        lemma_runs_on(
            arith,
            show,
            chunk,
            flags,
            ip,
            stack,
            answer,
            first,
            next,
            after,
            result,
            rest,
        );
        assert((log + first) + rest =~= log + (first + rest));
    }
}

/// The virtual machine: it executes a chunk, and writes a trace of the run
/// where the switches that it was made with say so.
pub struct VM {
    debug: DebugFlags,
}

impl Default for VM {
    fn default() -> (vm: Self)
        ensures
            vm.flags().silent(),
    {
        VM::new()
    }
}

impl VM {
    /// The switches of the trace.
    pub closed spec fn flags(&self) -> DebugFlags {
        self.debug
    }

    /// A machine that writes no trace.
    pub fn new() -> (vm: Self)
        ensures
            vm.flags().silent(),
    {
        VM { debug: DebugFlags::new() }
    }

    /// A machine that writes the trace that the switches ask for.
    pub fn new_debugger(debug: DebugFlags) -> (vm: Self)
        ensures
            vm.flags() == debug,
    {
        VM { debug }
    }

    /// Executes a chunk from its first instruction with an empty stack, and
    /// returns how the run ended and the trace.
    ///
    /// `arith` computes the four operations on two numbers and `show` writes a
    /// number, each on encodings. Whatever they return, what comes back is a
    /// run in which each operation got an answer of `arith` and each number a
    /// text of `show`. A run that reaches no operation ends as it does under
    /// any arithmetic. Where `arith` and `show` are functions of their
    /// arguments, the outcome and the trace are the ones that those functions
    /// give; the outcome depends neither on the switches nor on `show`.
    pub fn interpret<A, S>(&self, chunk: &Chunk, arith: &A, show: &S) -> (out: (
        VMResult,
        String,
    )) where A: Fn(OpCode, u64, u64) -> u64, S: Fn(u64) -> String
        requires
            calculates_all(*arith),
            shows_all(*show),
        ensures
            runs(*arith, *show, chunk@, self.flags(), 0, Seq::<Value>::empty(), out.0, out.1@),
            calculates_nothing(chunk@, 0, Seq::<Value>::empty()) ==> forall|calc: Arithmetic|
                out.0 == #[trigger] outcome(chunk@, 0, Seq::<Value>::empty(), calc),
            forall|calc: Arithmetic| #[trigger]
                calculates(*arith, calc)
                    ==> out.0 == outcome(chunk@, 0, Seq::<Value>::empty(), calc),
            forall|calc: Arithmetic, text: NumberText|
                #![trigger calculates(*arith, calc), renders(*show, text)]
                calculates(*arith, calc) && renders(*show, text)
                    ==> out.1@ == trace(
                    chunk@,
                    self.flags(),
                    0,
                    Seq::<Value>::empty(),
                    calc,
                    text,
                ),
    {
        let ip: usize = 0;
        let out = self.run(chunk, ip, arith, show);
        proof {
            let empty = Seq::<Value>::empty();
            let flags = self.flags();
            assert forall|calc: Arithmetic| #[trigger] calculates(*arith, calc) implies out.0
                == outcome(chunk@, 0, empty, calc) by {
                lemma_run_under_a_model(
                    *arith,
                    *show,
                    chunk@,
                    flags,
                    0,
                    empty,
                    out.0,
                    out.1@,
                    calc,
                );
            }
            assert forall|calc: Arithmetic, text: NumberText|
                #![trigger calculates(*arith, calc), renders(*show, text)]
                calculates(*arith, calc) && renders(*show, text) implies out.1@ == trace(
                chunk@,
                flags,
                0,
                empty,
                calc,
                text,
            ) by {
                lemma_trace_under_a_model(
                    *arith,
                    *show,
                    chunk@,
                    flags,
                    0,
                    empty,
                    out.0,
                    out.1@,
                    calc,
                    text,
                );
            }
            if calculates_nothing(chunk@, 0, Seq::<Value>::empty()) {
                assert forall|calc: Arithmetic| out.0 == #[trigger] outcome(
                    chunk@,
                    0,
                    Seq::<Value>::empty(),
                    calc,
                ) by {
                    lemma_run_without_arithmetic(
                        *arith,
                        *show,
                        chunk@,
                        self.flags(),
                        0,
                        Seq::<Value>::empty(),
                        out.0,
                        out.1@,
                        calc,
                    );
                }
            }
        }
        out
    }

    /// Executes a chunk from the instruction at `ip` with an empty stack.
    fn run<A, S>(&self, chunk: &Chunk, ip: usize, arith: &A, show: &S) -> (out: (
        VMResult,
        String,
    )) where A: Fn(OpCode, u64, u64) -> u64, S: Fn(u64) -> String
        requires
            calculates_all(*arith),
            shows_all(*show),
        ensures
            runs(
                *arith,
                *show,
                chunk@,
                self.flags(),
                ip as int,
                Seq::<Value>::empty(),
                out.0,
                out.1@,
            ),
    {
        let ghost start = ip as int;
        let ghost flags = self.flags();
        let mut stack: Stack = Stack::new();
        let mut at = ip;
        let mut log = String::new();
        proof {
            lemma_course_starts(*arith, *show, chunk@, flags, start);
        }
        loop
            invariant
                calculates_all(*arith),
                shows_all(*show),
                flags == self.flags(),
                start == ip as int,
                on_course(*arith, *show, chunk@, flags, start, at as int, stack@, log@),
            decreases chunk@.bytes_from(at as int),
        {
            let ghost before = log@;
            let ghost held = stack@;
            let ghost mut first = Seq::<char>::empty();
            let ghost mut second = Seq::<char>::empty();
            if self.debug.print_stack {
                let line = Self::stack_line_text(&stack, show);
                log.append(line.as_str());
                proof {
                    first = line@;
                }
            }
            if self.debug.print_instructions {
                let (_, command) = render_instruction(chunk, at, show);
                log.append(command.as_str());
                proof {
                    second = command@;
                }
            }
            let (executed, note, Ghost(answer)) = self.execute(chunk, at, stack, arith, show);
            log.append(note.as_str());
            let ghost one = in_order(first, second, note@);
            proof {
                assert(logs_stack(*show, flags, held, first));
                assert(logs_instruction(*show, chunk@, flags, at as int, second));
                assert(logs_step(*show, chunk@, flags, at as int, held, one));
                assert(log@ =~= before + one);
            }
            match executed {
                Err(result) => {
                    proof {
                        lemma_course_ends(
                            *arith,
                            *show,
                            chunk@,
                            flags,
                            start,
                            at as int,
                            held,
                            before,
                            answer,
                            one,
                            result,
                        );
                    }
                    return (result, log);
                },
                Ok((next, after)) => {
                    proof {
                        lemma_course_goes_on(
                            *arith,
                            *show,
                            chunk@,
                            flags,
                            start,
                            at as int,
                            held,
                            before,
                            answer,
                            one,
                            next as int,
                            after@,
                        );
                    }
                    at = next;
                    stack = after;
                },
            }
        }
    }

    /// Executes the instruction at `ip`. Returns the end of the run, or the
    /// offset of the next instruction and the stack; and beside it the line of
    /// the trace for a constant that was loaded.
    fn execute<A, S>(&self, chunk: &Chunk, ip: usize, stack: Stack, arith: &A, show: &S) -> (out: (
        Result<(usize, Stack), VMResult>,
        String,
        Ghost<u64>,
    )) where A: Fn(OpCode, u64, u64) -> u64, S: Fn(u64) -> String
        requires
            calculates_all(*arith),
            shows_all(*show),
        ensures
            answers(*arith, chunk@, ip as int, stack@, out.2@),
            follows(out.0, step(chunk@, ip as int, stack@, constantly(out.2@))),
            logs_constant(*show, chunk@, self.flags(), ip as int, out.1@),
            out.0 matches Ok(state) ==> ip < state.0 <= chunk@.code.len(),
    {
        proof {
            chunk.lemma_lengths_fit();
        }
        let mut stack = stack;
        let silent = String::new();
        let none = Ghost(0u64);
        let opcode = match chunk.get_byte(ip) {
            Some(i) => OpCode::from(i),
            None => {
                return (Err(VMResult::RuntimeError), silent, none);
            },
        };
        let ip = ip + 1;
        match opcode {
            OpCode::Return => {
                let top = match stack.pop() {
                    Some(i) => i,
                    None => Value::float(0),
                };
                (Err(VMResult::Okay(top)), silent, none)
            },
            OpCode::Constant => {
                let constant = match chunk.get_byte(ip) {
                    Some(i) => i,
                    None => {
                        return (Err(VMResult::CompileError), silent, none);
                    },
                };
                let constant = match chunk.get_constant(constant as usize) {
                    Some(i) => i,
                    None => {
                        return (Err(VMResult::RuntimeError), silent, none);
                    },
                };
                let note = self.constant_note(&constant, show);
                if stack.push(constant).is_err() {
                    return (Err(VMResult::RuntimeError), note, none);
                }
                (Ok((ip + 1, stack)), note, none)
            },
            OpCode::ConstantLong => {
                let first_byte = match chunk.get_byte(ip) {
                    Some(i) => i,
                    None => {
                        return (Err(VMResult::CompileError), silent, none);
                    },
                };
                let second_byte = match chunk.get_byte(ip + 1) {
                    Some(i) => i,
                    None => {
                        return (Err(VMResult::CompileError), silent, none);
                    },
                };
                let constant = match chunk.get_long_constant(
                    first_byte as usize,
                    second_byte as usize,
                ) {
                    Some(i) => i,
                    None => {
                        return (Err(VMResult::RuntimeError), silent, none);
                    },
                };
                let note = self.constant_note(&constant, show);
                if stack.push(constant).is_err() {
                    return (Err(VMResult::RuntimeError), note, none);
                }
                (Ok((ip + 2, stack)), note, none)
            },
            OpCode::Negate => {
                let val = match stack.pop() {
                    Some(i) => i,
                    None => {
                        return (Err(VMResult::RuntimeError), silent, none);
                    },
                };
                let negated = match val.map_float(flip_sign) {
                    Ok(i) => i,
                    Err(_) => {
                        return (Err(VMResult::RuntimeError), silent, none);
                    },
                };
                if stack.push(negated).is_err() {
                    return (Err(VMResult::RuntimeError), silent, none);
                }
                (Ok((ip, stack)), silent, none)
            },
            OpCode::Add | OpCode::Subtract | OpCode::Multiply | OpCode::Divide => {
                let (calculated, answer) = Self::calculate(stack, opcode, arith);
                match calculated {
                    Ok(stack) => (Ok((ip, stack)), silent, answer),
                    Err(result) => (Err(result), silent, answer),
                }
            },
            OpCode::UnexpectedEndOfChunk => (Err(VMResult::CompileError), silent, none),
            OpCode::Invalid(_) => (Err(VMResult::CompileError), silent, none),
        }
    }

    /// The line of the trace for a constant that was loaded, where the switch
    /// for it is on.
    fn constant_note<S>(&self, constant: &Value, show: &S) -> (out: String) where
        S: Fn(u64) -> String,

        requires
            shows_all(*show),
        ensures
            self.flags().enabled(DebugFlag::PrintConstants) ==> exists|shown: Seq<char>| #[trigger]
                shows(*show, *constant, shown) && out@ == shown + "\n"@,
            !self.flags().enabled(DebugFlag::PrintConstants) ==> out@ == Seq::<char>::empty(),
    {
        if self.debug.print_constants {
            let mut out = constant.to_text(show);
            let ghost shown = out@;
            out.append("\n");
            assert(shows(*show, *constant, shown) && out@ == shown + "\n"@);
            out
        } else {
            String::new()
        }
    }

    /// The line of the trace that shows the stack.
    fn stack_line_text<S>(stack: &Stack, show: &S) -> (out: String) where S: Fn(u64) -> String
        requires
            shows_all(*show),
        ensures
            exists|shown: Seq<char>| #[trigger]
                shows_stack(*show, stack@, shown) && out@ == "          "@ + shown + "\n"@,
    {
        let mut out = String::from_str("          ");
        let mut i: usize = 0;
        let ghost mut written = Seq::<char>::empty();
        proof {
            assert(stack@.subrange(0, 0) =~= Seq::<Value>::empty());
            assert(out@ =~= "          "@ + written);
        }
        while i < stack.0.len()
            invariant
                i <= stack@.len(),
                shows_all(*show),
                shows_stack(*show, stack@.subrange(0, i as int), written),
                out@ == "          "@ + written,
            decreases stack@.len() - i,
        {
            let shown = stack.0[i].to_text(show);
            out.append("[ ");
            out.append(shown.as_str());
            out.append(" ]");
            proof {
                let upto = stack@.subrange(0, i + 1);
                assert(upto.drop_last() =~= stack@.subrange(0, i as int));
                assert(upto.last() == stack@[i as int]);
                lemma_shows_stack_one_more(*show, upto, written, shown@);
                written = with_entry(written, shown@);
                assert(out@ =~= "          "@ + written);
            }
            i += 1;
        }
        out.append("\n");
        proof {
            assert(stack@.subrange(0, stack@.len() as int) =~= stack@);
            assert(shows_stack(*show, stack@, written) && out@ == "          "@ + written + "\n"@);
        }
        out
    }

    /// One of the four operations on two numbers, on the top two values of the
    /// stack: a table with one entry, whose guard asks for two numbers and
    /// whose operation hands their encodings to `arith`.
    fn calculate<A>(stack: Stack, op_code: OpCode, arith: &A) -> (out: (
        Result<Stack, VMResult>,
        Ghost<u64>,
    )) where A: Fn(OpCode, u64, u64) -> u64
        requires
            calculates_all(*arith),
            is_binary(op_code),
        ensures
            answers_operation(*arith, stack@, op_code, out.1@),
            agrees(out.0, binary_step(stack@, op_code, 0, constantly(out.1@))),
    {
        let guard = |a: &Value, b: &Value| -> (both: bool)
            ensures
                both == (a.data is Float && b.data is Float),
            { a.is_float() && b.is_float() };
        let operation = |a: &Value, b: &Value| -> (value: Value)
            requires
                a.data is Float,
                b.data is Float,
            ensures
                value.data matches DataType::Float(bits)
                    && arith.ensures((op_code, a.bits(), b.bits()), bits),
            {
                let with_b = |x: u64| -> (y: u64)
                    requires
                        arith.requires((op_code, x, b.bits())),
                    ensures
                        arith.ensures((op_code, x, b.bits()), y),
                    { arith(op_code, x, b.as_float().unwrap()) };
                a.map_float(with_b).unwrap()
            };
        let actions = vec![(guard, operation)];
        let ghost table = actions@;
        let out = Self::binary_op(stack, actions);
        let ghost mut answer = 0u64;
        proof {
            if stack@.len() >= 2 {
                let a = stack@[stack@.len() - 2];
                let b = stack@[stack@.len() - 1];
                let rest = stack@.subrange(0, stack@.len() - 2);
                let hits = choose|hits: Seq<Value>| #[trigger]
                    yields(table, a, b, table.len() as int, hits) && agrees(
                        out,
                        replaced(rest, hits),
                    );
                assert(table.len() == 1);
                assert(table[0] == (guard, operation));
                lemma_yields_of_one(table, a, b, hits);
                if a.data is Float && b.data is Float {
                    assert(hits.len() == 1);
                    assert(hits[0] == hits.last());
                    answer = hits[0].bits();
                    assert(hits[0] == Value::number(answer));
                } else {
                    assert(hits.len() == 0);
                }
            }
        }
        (out, Ghost(answer))
    }

    /// Takes two values from the stack, the upper one first, and hands them, the
    /// lower one first, to a table of guards and operations. Where exactly one
    /// guard holds of them, what its operation makes of them is pushed; else the
    /// result is a runtime error, as it is where the stack held fewer than two
    /// values.
    pub fn binary_op<F, G>(stack: Stack, actions: Vec<(F, G)>) -> (out: Result<
        Stack,
        VMResult,
    >) where F: Fn(&Value, &Value) -> bool, G: Fn(&Value, &Value) -> Value
        requires
            callable(actions@),
        ensures
            stack@.len() <= STACK_MAX,
            stack@.len() < 2 ==> agrees(out, Step::Halt(VMResult::RuntimeError)),
            stack@.len() >= 2 ==> ({
                let a = stack@[stack@.len() - 2];
                let b = stack@[stack@.len() - 1];
                let rest = stack@.subrange(0, stack@.len() - 2);
                exists|hits: Seq<Value>| #[trigger]
                    yields(actions@, a, b, actions@.len() as int, hits) && agrees(
                        out,
                        replaced(rest, hits),
                    )
            }),
    {
        let mut stack = stack;
        let ghost before = stack@;
        let b = match stack.pop() {
            Some(i) => i,
            None => return Err(VMResult::RuntimeError),
        };
        let a = match stack.pop() {
            Some(i) => i,
            None => return Err(VMResult::RuntimeError),
        };
        assert(stack@ =~= before.subrange(0, before.len() - 2));
        let mut result: Vec<Value> = Vec::new();
        let mut i: usize = 0;
        while i < actions.len()
            invariant
                i <= actions.len(),
                callable(actions@),
                yields(actions@, a, b, i as int, result@),
            decreases actions.len() - i,
        {
            let ghost found = result@;
            let entry = &actions[i];
            if (entry.0)(&a, &b) {
                result.push((entry.1)(&a, &b));
                assert(result@.drop_last() =~= found);
            }
            i += 1;
        }
        if result.len() != 1 {
            return Err(VMResult::RuntimeError);
        }
        if stack.push(result[0]).is_err() {
            Err(VMResult::RuntimeError)
        } else {
            Ok(stack)
        }
    }
}

} // verus!

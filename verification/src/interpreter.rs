//! The stack machine.
//!
//! The machine moves values between the constant pool, its operand stack
//! and its variables, and decides what fails. It does no arithmetic: when an
//! instruction negates a number or combines two, the machine takes the
//! operands off the stack and stops with a [`Request`] for its host. The host
//! computes the number and hands it to [`Interpreter::resume`], which puts it
//! on the stack and runs on.
//!
//! The variables outlive the programs: every program starts with an empty
//! stack, and with the variables as the last one left them.

use crate::compiler::chunk::{Chunk, SpecChunk};
use crate::compiler::op_code::{spec_values, Number, OpCode, SpecNumber, SpecValue, Value};
use crate::compiler::{compile_spec, Compiler, CompilerError, SpecCompilerError};
use crate::numerals::{
    readable_chunk, readable_machine, readable_progress, theorem_compiled_chunk_is_readable,
    theorem_requests_are_readable,
};
use vstd::hash_map::StringHashMap;
use vstd::prelude::*;

verus! {

/// Why a program stopped.
#[derive(Debug, Clone, Copy, PartialEq, Eq, Structural)]
pub enum RuntimeError {
    /// The instruction word is no operation.
    InvalidOpCode(usize),
    /// An operation other than the four of arithmetic was to combine two
    /// operands.
    InvalidBinaryOperator,
    /// The program ended with more than one value on the stack.
    IncompleteExpression,
    /// The operand of `SetVar` or `GetVar` is a constant that is no name.
    InvalidIdentifier,
    /// An arithmetic operation found too few values on the stack, or one
    /// that is no number.
    ExpectedOperand,
    /// `SetVar` found the stack empty.
    ExpectedExpression,
    /// `GetVar` names a variable that was never set.
    UninitialisedVariable,
}

/// Why a text gave no result: it did not compile, or its program stopped.
#[derive(Debug, PartialEq, Eq)]
pub enum InterpreterError {
    Compiler(CompilerError),
    Runtime(RuntimeError),
}

/// The mathematical value of an [`InterpreterError`].
pub enum SpecInterpreterError {
    Compiler(SpecCompilerError),
    Runtime(RuntimeError),
}

impl View for InterpreterError {
    type V = SpecInterpreterError;

    open spec fn view(&self) -> SpecInterpreterError {
        match self {
            InterpreterError::Compiler(err) => SpecInterpreterError::Compiler(err@),
            InterpreterError::Runtime(err) => SpecInterpreterError::Runtime(*err),
        }
    }
}

/// An operation that the machine asks its host to compute. `left` is the
/// operand that was computed first and lay deeper in the stack, `right` the
/// one on top of it: the host computes `left - right` and `left / right`.
#[derive(Debug, PartialEq, Eq)]
pub enum Request {
    Negate { operand: Number },
    Add { left: Number, right: Number },
    Subtract { left: Number, right: Number },
    Multiply { left: Number, right: Number },
    Divide { left: Number, right: Number },
}

/// The mathematical value of a [`Request`].
pub enum SpecRequest {
    Negate { operand: SpecNumber },
    Add { left: SpecNumber, right: SpecNumber },
    Subtract { left: SpecNumber, right: SpecNumber },
    Multiply { left: SpecNumber, right: SpecNumber },
    Divide { left: SpecNumber, right: SpecNumber },
}

impl View for Request {
    type V = SpecRequest;

    open spec fn view(&self) -> SpecRequest {
        match self {
            Request::Negate { operand } => SpecRequest::Negate { operand: operand@ },
            Request::Add { left, right } => SpecRequest::Add { left: left@, right: right@ },
            Request::Subtract { left, right } => SpecRequest::Subtract {
                left: left@,
                right: right@,
            },
            Request::Multiply { left, right } => SpecRequest::Multiply {
                left: left@,
                right: right@,
            },
            Request::Divide { left, right } => SpecRequest::Divide { left: left@, right: right@ },
        }
    }
}

/// How a run of the machine ended, if no error stopped it.
#[derive(Debug, PartialEq, Eq)]
pub enum Progress {
    /// The machine waits for the host to compute the request and resume it.
    Awaiting(Request),
    /// The program has ended, with one value left on the stack or with none.
    Finished(Option<Value>),
}

/// The mathematical value of a [`Progress`].
pub enum SpecProgress {
    Awaiting(SpecRequest),
    Finished(Option<SpecValue>),
}

impl View for Progress {
    type V = SpecProgress;

    open spec fn view(&self) -> SpecProgress {
        match self {
            Progress::Awaiting(request) => SpecProgress::Awaiting(request@),
            Progress::Finished(Some(value)) => SpecProgress::Finished(Some(value@)),
            Progress::Finished(None) => SpecProgress::Finished(None),
        }
    }
}

/// The mathematical value of what a run returns.
pub open spec fn spec_outcome(outcome: Result<Progress, InterpreterError>) -> Result<
    SpecProgress,
    SpecInterpreterError,
> {
    match outcome {
        Ok(progress) => Ok(progress@),
        Err(err) => Err(err@),
    }
}

/// The request to combine `left` and `right` by `op`, if `op` is one of the
/// four operations of arithmetic.
pub open spec fn binary_request(op: OpCode, left: SpecNumber, right: SpecNumber) -> Option<
    SpecRequest,
> {
    match op {
        OpCode::Add => Some(SpecRequest::Add { left, right }),
        OpCode::Subtract => Some(SpecRequest::Subtract { left, right }),
        OpCode::Multiply => Some(SpecRequest::Multiply { left, right }),
        OpCode::Divide => Some(SpecRequest::Divide { left, right }),
        _ => None,
    }
}

/// The state of the machine.
pub struct Machine {
    pub variables: Map<Seq<char>, SpecValue>,
    pub stack: Seq<SpecValue>,
    /// The index of the next instruction word.
    pub ip: int,
    /// The program that is run.
    pub chunk: SpecChunk,
}

/// What one instruction does to the machine.
pub enum Stepped {
    /// The machine goes on with the next instruction.
    Next(Machine),
    /// The machine stops and waits for the answer to a request.
    Awaiting(Machine, SpecRequest),
    /// The program has failed.
    Failed(Machine, RuntimeError),
}

/// The machine after a run, and how the run ended.
pub struct Ran {
    pub machine: Machine,
    pub outcome: Result<SpecProgress, RuntimeError>,
}

impl Ran {
    /// The outcome as the interpreter returns it.
    pub open spec fn returned(self) -> Result<SpecProgress, SpecInterpreterError> {
        match self.outcome {
            Ok(progress) => Ok(progress),
            Err(err) => Err(SpecInterpreterError::Runtime(err)),
        }
    }
}

impl Machine {
    /// The instruction pointer stands at the start of an instruction or at
    /// the end of a framed chunk.
    pub open spec fn well_formed(self) -> bool {
        &&& self.chunk.framed()
        &&& 0 <= self.ip <= self.chunk.code.len()
        &&& self.chunk.framed_from(self.ip)
    }

    /// The machine at the start of `chunk`, with an empty stack.
    pub open spec fn load(self, chunk: SpecChunk) -> Machine {
        Machine { variables: self.variables, stack: Seq::empty(), ip: 0, chunk }
    }

    /// The constant that the operand of the instruction at `ip` indexes.
    pub open spec fn operand(self) -> SpecValue {
        self.chunk.constants[self.chunk.code[self.ip + 1] as int]
    }

    /// The machine with the answer to its request on the stack.
    pub open spec fn answered(self, answer: u64) -> Machine {
        Machine {
            stack: self.stack.push(SpecValue::Number(SpecNumber::Computed(answer))),
            ..self
        }
    }

    /// What an operation of arithmetic on two operands does.
    ///
    /// The right operand is taken off the stack first, the left one after
    /// it, and the request names them in that order. Both are taken off
    /// even where the operation then fails.
    pub open spec fn step_binary(self, op: OpCode) -> Stepped {
        let depth = self.stack.len() as int;
        if depth >= 2 {
            let rest = Machine { stack: self.stack.take(depth - 2), ..self };
            match (self.stack[depth - 2], self.stack[depth - 1]) {
                (SpecValue::Number(left), SpecValue::Number(right)) => match binary_request(
                    op,
                    left,
                    right,
                ) {
                    Some(request) => Stepped::Awaiting(
                        Machine { ip: self.ip + 1, ..rest },
                        request,
                    ),
                    None => Stepped::Failed(rest, RuntimeError::InvalidBinaryOperator),
                },
                _ => Stepped::Failed(rest, RuntimeError::ExpectedOperand),
            }
        } else {
            Stepped::Failed(Machine { stack: Seq::empty(), ..self }, RuntimeError::ExpectedOperand)
        }
    }

    /// What the instruction at `ip` does.
    ///
    /// `Constant` puts a copy of its constant on the stack. `Negate` takes a
    /// number off the stack and asks for its negation; the operations of
    /// arithmetic take two, see [`Machine::step_binary`]. `SetVar` takes a
    /// value off the stack and binds it to the name that is its constant,
    /// whatever the name was bound to. `GetVar` puts a copy of the value
    /// bound to that name on the stack, and fails if none is.
    pub open spec fn step(self) -> Stepped {
        let word = self.chunk.code[self.ip];
        let depth = self.stack.len() as int;
        match OpCode::decode(word) {
            None => Stepped::Failed(self, RuntimeError::InvalidOpCode(word)),
            Some(OpCode::Constant) => Stepped::Next(
                Machine { stack: self.stack.push(self.operand()), ip: self.ip + 2, ..self },
            ),
            Some(OpCode::Negate) => {
                if depth == 0 {
                    Stepped::Failed(self, RuntimeError::ExpectedOperand)
                } else {
                    let rest = Machine { stack: self.stack.drop_last(), ip: self.ip + 1, ..self };
                    match self.stack.last() {
                        SpecValue::Number(operand) => Stepped::Awaiting(
                            rest,
                            SpecRequest::Negate { operand },
                        ),
                        _ => Stepped::Failed(rest, RuntimeError::ExpectedOperand),
                    }
                }
            },
            Some(OpCode::SetVar) => {
                if depth == 0 {
                    Stepped::Failed(self, RuntimeError::ExpectedExpression)
                } else {
                    let rest = Machine { stack: self.stack.drop_last(), ..self };
                    match self.operand() {
                        SpecValue::String(name) => Stepped::Next(
                            Machine {
                                variables: self.variables.insert(name, self.stack.last()),
                                ip: self.ip + 2,
                                ..rest
                            },
                        ),
                        _ => Stepped::Failed(rest, RuntimeError::InvalidIdentifier),
                    }
                }
            },
            Some(OpCode::GetVar) => match self.operand() {
                SpecValue::String(name) => {
                    if self.variables.contains_key(name) {
                        Stepped::Next(
                            Machine {
                                stack: self.stack.push(self.variables[name]),
                                ip: self.ip + 2,
                                ..self
                            },
                        )
                    } else {
                        Stepped::Failed(self, RuntimeError::UninitialisedVariable)
                    }
                },
                _ => Stepped::Failed(self, RuntimeError::InvalidIdentifier),
            },
            Some(op) => self.step_binary(op),
        }
    }

    /// How a program ends: more than one value left on the stack is an
    /// error, one value is the result, and none is no result.
    pub open spec fn residual(self) -> Result<SpecProgress, RuntimeError> {
        if self.stack.len() > 1 {
            Err(RuntimeError::IncompleteExpression)
        } else if self.stack.len() == 1 {
            Ok(SpecProgress::Finished(Some(self.stack[0])))
        } else {
            Ok(SpecProgress::Finished(None))
        }
    }

    /// Whether the program has ended.
    pub open spec fn at_end(self) -> bool {
        self.ip < 0 || self.ip >= self.chunk.code.len()
    }

    /// The run of the machine up to its next request, to the end of the
    /// program or to the first instruction that fails.
    pub open spec fn run(self) -> Ran
        decreases self.chunk.code.len() + 1 - self.ip,
    {
        if self.at_end() {
            Ran { machine: self, outcome: self.residual() }
        } else {
            match self.step() {
                Stepped::Next(next) => next.run(),
                Stepped::Awaiting(next, request) => Ran {
                    machine: next,
                    outcome: Ok(SpecProgress::Awaiting(request)),
                },
                Stepped::Failed(next, err) => Ran { machine: next, outcome: Err(err) },
            }
        }
    }

    /// The run of the machine to the end of the program or to the first
    /// instruction that fails, with a host that answers every request `r`
    /// with `host(r)`.
    pub open spec fn complete(self, host: spec_fn(SpecRequest) -> u64) -> Ran
        decreases self.chunk.code.len() + 1 - self.ip,
    {
        if self.at_end() {
            Ran { machine: self, outcome: self.residual() }
        } else {
            match self.step() {
                Stepped::Next(next) => next.complete(host),
                Stepped::Awaiting(next, request) => next.answered(host(request)).complete(host),
                Stepped::Failed(next, err) => Ran { machine: next, outcome: Err(err) },
            }
        }
    }
}

/// A run leaves the machine well formed, and a run that ends with a request
/// has moved on in the program.
pub proof fn lemma_run_well_formed(machine: Machine)
    requires
        machine.well_formed(),
    ensures
        machine.run().machine.well_formed(),
        machine.run().machine.chunk == machine.chunk,
        machine.run().outcome matches Ok(SpecProgress::Awaiting(_)) ==> machine.ip
            < machine.run().machine.ip,
    decreases machine.chunk.code.len() + 1 - machine.ip,
{
    if !machine.at_end() {
        match machine.step() {
            Stepped::Next(next) => {
                lemma_run_well_formed(next);
            },
            _ => {},
        }
    }
}

/// The host's loop computes [`Machine::complete`]: run the machine; while it
/// stops with a request, put the host's answer on the stack and run it again.
pub proof fn lemma_complete_by_running(machine: Machine, host: spec_fn(SpecRequest) -> u64)
    ensures
        machine.complete(host) == match machine.run().outcome {
            Ok(SpecProgress::Awaiting(request)) => machine.run().machine.answered(
                host(request),
            ).complete(host),
            _ => machine.run(),
        },
    decreases machine.chunk.code.len() + 1 - machine.ip,
{
    if !machine.at_end() {
        match machine.step() {
            Stepped::Next(next) => {
                lemma_complete_by_running(next, host);
            },
            _ => {},
        }
    }
}

/// A run with a host that answers does not end with a request.
pub proof fn lemma_complete_finishes(machine: Machine, host: spec_fn(SpecRequest) -> u64)
    ensures
        !(machine.complete(host).outcome matches Ok(SpecProgress::Awaiting(_))),
        machine.complete(host).machine.chunk == machine.chunk,
    decreases machine.chunk.code.len() + 1 - machine.ip,
{
    if !machine.at_end() {
        match machine.step() {
            Stepped::Next(next) => {
                lemma_complete_finishes(next, host);
            },
            Stepped::Awaiting(next, request) => {
                lemma_complete_finishes(next.answered(host(request)), host);
            },
            _ => {},
        }
    }
}

/// The operands of an operation of arithmetic reach the host in the order
/// in which they were computed: the value below the top of the stack as
/// `left`, the top, which is taken first, as `right`. Both leave the stack,
/// the machine moves past the instruction, and nothing else changes. The
/// host's answer takes their place.
pub proof fn lemma_operand_order(
    machine: Machine,
    rest: Seq<SpecValue>,
    left: SpecNumber,
    right: SpecNumber,
    answer: u64,
)
    requires
        machine.stack == rest.push(SpecValue::Number(left)).push(SpecValue::Number(right)),
    ensures
        ({
            let after = Machine { stack: rest, ip: machine.ip + 1, ..machine };
            &&& machine.step_binary(OpCode::Add) == Stepped::Awaiting(
                after,
                SpecRequest::Add { left, right },
            )
            &&& machine.step_binary(OpCode::Subtract) == Stepped::Awaiting(
                after,
                SpecRequest::Subtract { left, right },
            )
            &&& machine.step_binary(OpCode::Multiply) == Stepped::Awaiting(
                after,
                SpecRequest::Multiply { left, right },
            )
            &&& machine.step_binary(OpCode::Divide) == Stepped::Awaiting(
                after,
                SpecRequest::Divide { left, right },
            )
            &&& after.answered(answer).stack == rest.push(
                SpecValue::Number(SpecNumber::Computed(answer)),
            )
        }),
{
    assert(machine.stack.take(machine.stack.len() - 2) =~= rest);
}

/// A machine that stands at a subtraction or a division, with two numbers
/// on top of its stack, stops with the request that names the lower one as
/// `left` and the top one as `right`.
pub proof fn lemma_pop_order_at_instruction(
    machine: Machine,
    rest: Seq<SpecValue>,
    left: SpecNumber,
    right: SpecNumber,
)
    requires
        0 <= machine.ip < machine.chunk.code.len(),
        machine.chunk.code[machine.ip] == OpCode::Subtract.word() || machine.chunk.code[machine.ip]
            == OpCode::Divide.word(),
        machine.stack == rest.push(SpecValue::Number(left)).push(SpecValue::Number(right)),
    ensures
        machine.run() == (Ran {
            machine: Machine { stack: rest, ip: machine.ip + 1, ..machine },
            outcome: Ok(
                SpecProgress::Awaiting(
                    if machine.chunk.code[machine.ip] == OpCode::Subtract.word() {
                        SpecRequest::Subtract { left, right }
                    } else {
                        SpecRequest::Divide { left, right }
                    },
                ),
            ),
        }),
{
    lemma_operand_order(machine, rest, left, right, 0);
}

/// The variables as the machine's state shows them.
pub open spec fn spec_variables(variables: Map<Seq<char>, Value>) -> Map<Seq<char>, SpecValue> {
    variables.map_values(|value: Value| value@)
}

/// The machine: its variables, its operand stack, and the program that it
/// runs with the place where it stands in it.
pub struct Interpreter {
    variables: StringHashMap<Value>,
    stack: Vec<Value>,
    ip: usize,
    chunk: Chunk,
}

impl View for Interpreter {
    type V = Machine;

    closed spec fn view(&self) -> Machine {
        Machine {
            variables: spec_variables(self.variables@),
            stack: spec_values(self.stack@),
            ip: self.ip as int,
            chunk: self.chunk@,
        }
    }
}

impl Interpreter {
    /// A machine without variables and without a program.
    pub fn new() -> (interpreter: Interpreter)
        ensures
            interpreter@.well_formed(),
            interpreter@ == (Machine {
                variables: Map::empty(),
                stack: Seq::empty(),
                ip: 0,
                chunk: SpecChunk::empty(),
            }),
            readable_machine(interpreter@),
    {
        let interpreter = Interpreter {
            variables: StringHashMap::new(),
            stack: Vec::with_capacity(1024),
            ip: 0,
            chunk: Chunk::new(),
        };
        assert(interpreter@.variables =~= Map::empty());
        assert(interpreter@.stack =~= Seq::empty());
        interpreter
    }

    /// Forgets every variable.
    pub fn reset(&mut self)
        ensures
            final(self)@ == (Machine { variables: Map::empty(), ..old(self)@ }),
            readable_machine(old(self)@) ==> readable_machine(final(self)@),
    {
        self.variables.clear();
        assert(final(self)@.variables =~= Map::empty());
    }

    /// The value bound to `name`, if one is.
    pub fn variable(&self, name: &str) -> (value: Option<Value>)
        ensures
            match value {
                Some(value) => self@.variables.contains_key(name@) && self@.variables[name@]
                    == value@,
                None => !self@.variables.contains_key(name@),
            },
    {
        match self.variables.get(name) {
            Some(value) => Some(value.clone()),
            None => None,
        }
    }

    /// Whether the program has ended.
    pub fn at_end(&self) -> (at_end: bool)
        ensures
            at_end == self@.at_end(),
    {
        self.ip >= self.chunk.code.len()
    }

    /// Compiles `input` and runs its program from the start, up to the
    /// first request, the end or a failure. A text that does not compile
    /// leaves the machine as it was.
    pub fn interpret(&mut self, input: String) -> (outcome: Result<Progress, InterpreterError>)
        ensures
            match compile_spec(input@) {
                Ok(chunk) => final(self)@ == old(self)@.load(chunk).run().machine && spec_outcome(
                    outcome,
                ) == old(self)@.load(chunk).run().returned(),
                Err(err) => final(self)@ == old(self)@ && spec_outcome(outcome) == Err::<
                    SpecProgress,
                    SpecInterpreterError,
                >(SpecInterpreterError::Compiler(err)),
            },
            compile_spec(input@) is Ok ==> final(self)@.well_formed(),
            readable_machine(old(self)@) ==> readable_machine(final(self)@) && (
            outcome matches Ok(progress) ==> readable_progress(progress@)),
    {
        proof {
            theorem_compiled_chunk_is_readable(input@);
        }
        let mut compiler = Compiler::new();
        match compiler.compile(input) {
            Err(err) => {
                return Err(InterpreterError::Compiler(err));
            },
            Ok(_) => {},
        }
        self.interpret_chunk(compiler.into_chunk())
    }

    /// Runs `chunk` from the start, with an empty stack and the variables as
    /// they are, up to the first request, the end or a failure. The machine
    /// does not read the tokens of the chunk.
    pub fn interpret_chunk(&mut self, chunk: Chunk) -> (outcome: Result<
        Progress,
        InterpreterError,
    >)
        requires
            chunk@.framed(),
        ensures
            final(self)@.well_formed(),
            final(self)@ == old(self)@.load(chunk@).run().machine,
            spec_outcome(outcome) == old(self)@.load(chunk@).run().returned(),
            readable_machine(old(self)@) && readable_chunk(chunk@) ==> readable_machine(
                final(self)@,
            ) && (outcome matches Ok(progress) ==> readable_progress(progress@)),
    {
        self.stack.clear();
        self.ip = 0;
        self.chunk = chunk;
        assert(self@.stack =~= Seq::empty());
        proof {
            if readable_machine(old(self)@) && readable_chunk(chunk@) {
                theorem_requests_are_readable(self@);
            }
        }
        self.run()
    }

    /// Puts the answer to the machine's request on the stack and runs on, up
    /// to the next request, the end or a failure.
    pub fn resume(&mut self, answer: u64) -> (outcome: Result<Progress, InterpreterError>)
        requires
            old(self)@.well_formed(),
        ensures
            final(self)@.well_formed(),
            final(self)@ == old(self)@.answered(answer).run().machine,
            spec_outcome(outcome) == old(self)@.answered(answer).run().returned(),
            readable_machine(old(self)@) ==> readable_machine(final(self)@) && (
            outcome matches Ok(progress) ==> readable_progress(progress@)),
    {
        self.stack.push(Value::Number(Number::Computed(answer)));
        assert(self@.stack =~= old(self)@.answered(answer).stack);
        proof {
            if readable_machine(old(self)@) {
                theorem_requests_are_readable(self@);
            }
        }
        self.run()
    }

    /// Runs the program from where the machine stands.
    fn run(&mut self) -> (outcome: Result<Progress, InterpreterError>)
        requires
            old(self)@.well_formed(),
        ensures
            final(self)@.well_formed(),
            final(self)@ == old(self)@.run().machine,
            spec_outcome(outcome) == old(self)@.run().returned(),
    {
        while self.ip < self.chunk.code.len()
            invariant
                self@.well_formed(),
                self@.run() == old(self)@.run(),
            decreases self.chunk.code@.len() - self.ip,
        {
            let ghost before = self@;
            let word = self.chunk.code[self.ip];
            let op_code = match OpCode::from_usize(word) {
                None => {
                    return Err(InterpreterError::Runtime(RuntimeError::InvalidOpCode(word)));
                },
                Some(op_code) => op_code,
            };

            match op_code {
                OpCode::Constant => {
                    let constant_idx = self.chunk.code[self.ip + 1];
                    let constant = self.chunk.constants[constant_idx].clone();
                    self.stack.push(constant);
                    self.ip += 2;
                    assert(self@.stack =~= before.stack.push(before.operand()));
                },
                OpCode::Negate => match self.stack.pop() {
                    None => {
                        return Err(InterpreterError::Runtime(RuntimeError::ExpectedOperand));
                    },
                    Some(operand) => {
                        self.ip += 1;
                        assert(self@.stack =~= before.stack.drop_last());
                        match operand {
                            Value::Number(operand) => {
                                return Ok(Progress::Awaiting(Request::Negate { operand }));
                            },
                            _ => {
                                return Err(
                                    InterpreterError::Runtime(RuntimeError::ExpectedOperand),
                                );
                            },
                        }
                    },
                },
                OpCode::Add | OpCode::Subtract | OpCode::Multiply | OpCode::Divide => {
                    return match self.interpret_binary_op(op_code) {
                        Ok(request) => Ok(Progress::Awaiting(request)),
                        Err(err) => Err(err),
                    };
                },
                OpCode::SetVar => {
                    let expr_value = match self.stack.pop() {
                        Some(expr_value) => expr_value,
                        None => {
                            return Err(InterpreterError::Runtime(RuntimeError::ExpectedExpression));
                        },
                    };
                    assert(self@.stack =~= before.stack.drop_last());
                    let constant_idx = self.chunk.code[self.ip + 1];
                    let var_name = match &self.chunk.constants[constant_idx] {
                        Value::String(var_name) => var_name.clone(),
                        _ => {
                            return Err(InterpreterError::Runtime(RuntimeError::InvalidIdentifier));
                        },
                    };
                    self.variables.insert(var_name, expr_value);
                    self.ip += 2;
                    assert(self@.variables =~= before.variables.insert(
                        before.operand()->String_0,
                        before.stack.last(),
                    ));
                },
                OpCode::GetVar => {
                    let constant_idx = self.chunk.code[self.ip + 1];
                    let value = match &self.chunk.constants[constant_idx] {
                        Value::String(var_name) => match self.variables.get(var_name.as_str()) {
                            Some(value) => value.clone(),
                            None => {
                                return Err(
                                    InterpreterError::Runtime(RuntimeError::UninitialisedVariable),
                                );
                            },
                        },
                        _ => {
                            return Err(InterpreterError::Runtime(RuntimeError::InvalidIdentifier));
                        },
                    };
                    self.stack.push(value);
                    self.ip += 2;
                    assert(self@.stack =~= before.stack.push(
                        before.variables[before.operand()->String_0],
                    ));
                },
            }
        }
        if self.stack.len() > 1 {
            return Err(InterpreterError::Runtime(RuntimeError::IncompleteExpression));
        }
        if self.stack.len() == 1 {
            return Ok(Progress::Finished(Some(self.stack[0].clone())));
        }
        Ok(Progress::Finished(None))
    }

    /// Takes the two operands of `op_code` off the stack, the right one
    /// first, and moves past the instruction.
    pub fn interpret_binary_op(&mut self, op_code: OpCode) -> (request: Result<
        Request,
        InterpreterError,
    >)
        requires
            old(self)@.well_formed(),
            old(self)@.ip < old(self)@.chunk.code.len(),
        ensures
            match old(self)@.step_binary(op_code) {
                Stepped::Awaiting(next, asked) => final(self)@ == next && request is Ok
                    && request->Ok_0@ == asked,
                Stepped::Failed(next, err) => final(self)@ == next && request == Err::<
                    Request,
                    InterpreterError,
                >(InterpreterError::Runtime(err)),
                Stepped::Next(_) => false,
            },
    {
        // pop order flipped
        let ghost before = self@;
        let right = self.stack.pop();
        let left = self.stack.pop();
        proof {
            assert(self.chunk.code@.len() == self.chunk.code.len());
            let depth = before.stack.len() as int;
            if depth >= 2 {
                assert(self@.stack =~= before.stack.take(depth - 2));
            } else {
                assert(self@.stack =~= Seq::empty());
            }
        }
        let request = match (left, right) {
            (Some(Value::Number(left)), Some(Value::Number(right))) => match op_code {
                OpCode::Add => Request::Add { left, right },
                OpCode::Subtract => Request::Subtract { left, right },
                OpCode::Divide => Request::Divide { left, right },
                OpCode::Multiply => Request::Multiply { left, right },
                _ => {
                    return Err(InterpreterError::Runtime(RuntimeError::InvalidBinaryOperator));
                },
            },
            _ => {
                return Err(InterpreterError::Runtime(RuntimeError::ExpectedOperand));
            },
        };

        self.ip += 1;
        Ok(request)
    }
}

} // verus!

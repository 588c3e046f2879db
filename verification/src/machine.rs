//! The machine that runs a program.
//!
//! The machine holds a stack of numbers, a table of variables, and the
//! blocks of instructions it is in the middle of. It never touches the
//! outside world. Where an instruction needs something from outside (a line
//! to be shown, a line of input, the program's source read again), the
//! machine stops and says so with an [`Action`]; its host does the work and
//! starts the machine again with the [`Event`] that came of it.

use crate::arith::{difference, divide, divided, product, sum, wrap32};
use crate::fault::Fault;
use crate::instruction::{
    block_view, clone_block, lemma_block_view_concat, Instruction, Operand, SpecInstruction,
    SpecOperand,
};
use crate::text::{chars_of, decimal, parse_i32, parse_int, render, trim_bounds, trimmed};
use crate::parser::{lines_view, program_of};
use vstd::hash_map::StringHashMap;
use vstd::prelude::*;
use vstd::slice::slice_subrange;

verus! {

/// How many blocks the machine can be inside of at once.
pub const MAX_DEPTH: usize = 1024;

// ----------------------------------------------------------------------
// What passes between the machine and its host
// ----------------------------------------------------------------------

/// What the machine wants from its host when it stops.
#[derive(Debug, PartialEq, Eq)]
pub enum Action {
    /// Show this text on a line of its own, then resume.
    Print(String),
    /// Read a line of input and hand it over.
    ReadInput,
    /// Read the lines of the program's source again and hand them over.
    ReadSource,
    /// Nothing: the program has come to its end.
    Halt,
}

/// The mathematical view of an [`Action`].
pub enum SpecAction {
    Print(Seq<char>),
    ReadInput,
    ReadSource,
    Halt,
}

impl View for Action {
    type V = SpecAction;

    open spec fn view(&self) -> SpecAction {
        match self {
            Action::Print(text) => SpecAction::Print(text@),
            Action::ReadInput => SpecAction::ReadInput,
            Action::ReadSource => SpecAction::ReadSource,
            Action::Halt => SpecAction::Halt,
        }
    }
}

/// What the host hands to the machine when it starts it again.
#[derive(Debug, PartialEq, Eq)]
pub enum Event {
    /// Nothing: go on.
    Resume,
    /// The line of input that was asked for.
    Input(String),
    /// The lines of the program's source that were asked for.
    Source(Vec<String>),
    /// The program's source could not be read.
    SourceUnavailable,
}

/// The mathematical view of an [`Event`].
pub enum SpecEvent {
    Resume,
    Input(Seq<char>),
    Source(Seq<Seq<char>>),
    SourceUnavailable,
}

impl View for Event {
    type V = SpecEvent;

    open spec fn view(&self) -> SpecEvent {
        match self {
            Event::Resume => SpecEvent::Resume,
            Event::Input(text) => SpecEvent::Input(text@),
            Event::Source(lines) => SpecEvent::Source(lines_view(lines@)),
            Event::SourceUnavailable => SpecEvent::SourceUnavailable,
        }
    }
}

/// The view of what a run gives back.
pub open spec fn outcome_view(r: Result<Action, Fault>) -> Result<SpecAction, Fault> {
    match r {
        Ok(action) => Ok(action@),
        Err(fault) => Err(fault),
    }
}

// ----------------------------------------------------------------------
// The machine as a mathematical object
// ----------------------------------------------------------------------

/// The state of a machine.
pub struct Machine {
    /// The numbers on the stack, the top last.
    pub stack: Seq<i32>,
    /// The variables that are bound, with their values.
    pub vars: Map<Seq<char>, i32>,
    /// The blocks that are being run, the innermost last, each with the
    /// instructions that it has still to run.
    pub frames: Seq<Seq<SpecInstruction>>,
}

/// What one step of the machine comes to: it goes on (`Ok(None)`), it stops
/// with an action, or it fails.
pub type Verdict = Result<Option<SpecAction>, Fault>;

impl Machine {
    /// A machine with nothing on its stack, no variable and no block.
    pub open spec fn fresh() -> Machine {
        Machine { stack: Seq::empty(), vars: Map::empty(), frames: Seq::empty() }
    }

    /// The value of an operand: the literal itself, or what the variable is
    /// bound to, if it is bound.
    pub open spec fn value_of(self, operand: SpecOperand) -> Option<i32> {
        match operand {
            SpecOperand::Value(v) => Some(v),
            SpecOperand::Var(name) => if self.vars.contains_key(name) {
                Some(self.vars[name])
            } else {
                None
            },
        }
    }

    /// The values of two operands, if both have one.
    pub open spec fn values_of(self, a: SpecOperand, b: SpecOperand) -> Option<(i32, i32)> {
        match (self.value_of(a), self.value_of(b)) {
            (Some(x), Some(y)) => Some((x, y)),
            _ => None,
        }
    }

    /// The instruction that is run next, if the innermost block has one
    /// left.
    pub open spec fn current(self) -> Option<SpecInstruction> {
        if self.frames.len() > 0 && self.frames.last().len() > 0 {
            Some(self.frames.last()[0])
        } else {
            None
        }
    }

    /// The machine with the current instruction behind it.
    pub open spec fn advanced(self) -> Machine {
        Machine {
            frames: self.frames.drop_last().push(self.frames.last().skip(1)),
            ..self
        }
    }

    /// The machine with `v` put on its stack.
    pub open spec fn pushed(self, v: i32) -> Machine {
        Machine { stack: self.stack.push(v), ..self }
    }

    /// The machine with `name` bound to `v`.
    pub open spec fn bound(self, name: Seq<char>, v: i32) -> Machine {
        Machine { vars: self.vars.insert(name, v), ..self }
    }

    /// The machine with `body` as its innermost block.
    pub open spec fn entered(self, body: Seq<SpecInstruction>) -> Machine {
        Machine { frames: self.frames.push(body), ..self }
    }

    /// The machine with its innermost block taken away.
    pub open spec fn left(self) -> Machine {
        Machine { frames: self.frames.drop_last(), ..self }
    }

    /// Whether the machine has room for one more block.
    pub open spec fn has_room(self) -> bool {
        self.frames.len() < MAX_DEPTH
    }

    /// The second block of the `If` that the machine stands at; empty
    /// where it stands at anything else.
    pub open spec fn otherwise(self) -> Seq<SpecInstruction> {
        match self.current() {
            Some(SpecInstruction::If(_, otherwise)) => otherwise,
            _ => Seq::empty(),
        }
    }

    /// Whether the machine stands at an `If` whose test fails and whose
    /// second block is not empty: it then needs the program's source.
    pub open spec fn awaits_source(self) -> bool {
        &&& self.otherwise().len() > 0
        &&& self.stack.len() > 0
        &&& self.stack.last() == 0
    }

    /// The current instruction is done, and `v` is on the stack.
    pub open spec fn yields(self, v: i32) -> (Machine, Verdict) {
        (self.advanced().pushed(v), Ok(None))
    }

    /// The current instruction fails, and nothing has changed.
    pub open spec fn fails(self, fault: Fault) -> (Machine, Verdict) {
        (self, Err(fault))
    }

    /// The current instruction is done, and `body` is run next, if there
    /// is room for it.
    pub open spec fn enters(self, body: Seq<SpecInstruction>) -> (Machine, Verdict) {
        if self.has_room() {
            (self.advanced().entered(body), Ok(None))
        } else {
            self.fails(Fault::DepthExceeded)
        }
    }

    /// One step of the machine.
    ///
    /// With no block left the machine halts. A block with no instruction
    /// left is taken away. Else the current instruction is run: it is put
    /// behind the machine unless it fails or needs something from outside.
    pub open spec fn step(self) -> (Machine, Verdict) {
        match self.current() {
            None => if self.frames.len() == 0 {
                (self, Ok(Some(SpecAction::Halt)))
            } else {
                (self.left(), Ok(None))
            },
            Some(SpecInstruction::Push(v)) => self.yields(v),
            Some(SpecInstruction::Add(a, b)) => match self.values_of(a, b) {
                Some((x, y)) => self.yields(wrap32(x + y)),
                None => self.fails(Fault::UnboundVariable),
            },
            Some(SpecInstruction::Sub(a, b)) => match self.values_of(a, b) {
                Some((x, y)) => self.yields(wrap32(x - y)),
                None => self.fails(Fault::UnboundVariable),
            },
            Some(SpecInstruction::Mul(a, b)) => match self.values_of(a, b) {
                Some((x, y)) => self.yields(wrap32(x * y)),
                None => self.fails(Fault::UnboundVariable),
            },
            Some(SpecInstruction::Div(a, b)) => match self.values_of(a, b) {
                Some((x, y)) => match divided(x, y) {
                    Some(q) => self.yields(q),
                    None => self.fails(Fault::DivisionByZero),
                },
                None => self.fails(Fault::UnboundVariable),
            },
            Some(SpecInstruction::Print) => (
                self.advanced(),
                Ok(Some(SpecAction::Print(shown(self.stack)))),
            ),
            Some(SpecInstruction::SetVar(name, v)) => (self.advanced().bound(name, v), Ok(None)),
            Some(SpecInstruction::Get(name)) => if self.vars.contains_key(name) {
                self.yields(self.vars[name])
            } else {
                self.fails(Fault::UnboundVariable)
            },
            Some(SpecInstruction::Input(_)) => (self, Ok(Some(SpecAction::ReadInput))),
            Some(SpecInstruction::If(then, otherwise)) => if self.stack.len() == 0 {
                self.fails(Fault::EmptyStack)
            } else if self.stack.last() != 0 {
                self.enters(then)
            } else if otherwise.len() > 0 {
                (self, Ok(Some(SpecAction::ReadSource)))
            } else {
                (self.advanced(), Ok(None))
            },
            Some(SpecInstruction::Else(body)) => self.enters(body),
        }
    }

    /// What an event does to the machine before it goes on.
    ///
    /// A line of input is for a machine that stands at an `Input`: the
    /// line, without the white space at its ends, has to denote a signed
    /// 32-bit integer, which the variable is then bound to. The program's
    /// source is for a machine that stands at an `If` whose test fails and
    /// whose second block is not empty: the machine then runs that block
    /// followed by the whole program as its source now gives it.
    pub open spec fn deliver(self, event: SpecEvent) -> Result<Machine, Fault> {
        match event {
            SpecEvent::Resume => Ok(self),
            SpecEvent::Input(text) => match self.current() {
                Some(SpecInstruction::Input(name)) => match parse_i32(trimmed(text)) {
                    Some(v) => Ok(self.advanced().bound(name, v)),
                    None => Err(Fault::InvalidInput),
                },
                _ => Err(Fault::UnexpectedEvent),
            },
            SpecEvent::Source(lines) => if self.awaits_source() {
                match program_of(lines) {
                    Ok(program) => if self.has_room() {
                        Ok(self.advanced().entered(self.otherwise() + program))
                    } else {
                        Err(Fault::DepthExceeded)
                    },
                    Err(fault) => Err(fault),
                }
            } else {
                Err(Fault::UnexpectedEvent)
            },
            SpecEvent::SourceUnavailable => if self.awaits_source() {
                Err(Fault::SourceUnavailable)
            } else {
                Err(Fault::UnexpectedEvent)
            },
        }
    }

    /// The steps of the machine up to the first that does not just go on.
    pub open spec fn settle(self) -> (Machine, Result<SpecAction, Fault>)
        decreases work(self.frames),
    {
        let (next, verdict): (Machine, Verdict) = self.step();
        match verdict {
            Ok(None) => {
                proof {
                    lemma_step_decreases(self);
                }
                next.settle()
            },
            Ok(Some(action)) => (next, Ok(action)),
            Err(fault) => (next, Err(fault)),
        }
    }

    /// The machine is started again with `event`: the event is delivered,
    /// and the machine runs until it stops. Where the event is refused the
    /// machine is left as it was.
    pub open spec fn resume(self, event: SpecEvent) -> (Machine, Result<SpecAction, Fault>) {
        match self.deliver(event) {
            Ok(next) => next.settle(),
            Err(fault) => (self, Err(fault)),
        }
    }

    /// The machine runs `program` as a new innermost block until it stops.
    /// Where there is no room for the block the machine is left as it was.
    pub open spec fn run(self, program: Seq<SpecInstruction>) -> (
        Machine,
        Result<SpecAction, Fault>,
    ) {
        if self.has_room() {
            self.entered(program).settle()
        } else {
            (self, Err(Fault::DepthExceeded))
        }
    }
}

// ----------------------------------------------------------------------
// The machine itself
// ----------------------------------------------------------------------

/// A block that is being run, and how far it has come.
struct Frame {
    code: Vec<Instruction>,
    pc: usize,
}

impl Frame {
    /// The instructions that the block has still to run.
    spec fn rest(self) -> Seq<SpecInstruction> {
        if self.pc <= self.code.len() {
            block_view(self.code@).skip(self.pc as int)
        } else {
            Seq::empty()
        }
    }
}

/// The machine: a stack of numbers, a table of variables, and the blocks
/// that are being run.
pub struct VM {
    stack: Vec<i32>,
    vars: StringHashMap<i32>,
    frames: Vec<Frame>,
}

impl View for VM {
    type V = Machine;

    closed spec fn view(&self) -> Machine {
        Machine {
            stack: self.stack@,
            vars: self.vars@,
            frames: Seq::new(self.frames.len() as nat, |k: int| self.frames[k].rest()),
        }
    }
}

/// The view of what one step gives back.
pub open spec fn verdict_view(r: Result<Option<Action>, Fault>) -> Verdict {
    match r {
        Ok(Some(action)) => Ok(Some(action@)),
        Ok(None) => Ok(None),
        Err(fault) => Err(fault),
    }
}

impl VM {
    /// A machine with nothing on its stack, no variable and no block.
    pub fn new() -> (vm: VM)
        ensures
            vm@ == Machine::fresh(),
    {
        let vm: VM = VM { stack: Vec::new(), vars: StringHashMap::new(), frames: Vec::new() };
        assert(vm@.frames =~= Seq::<Seq<SpecInstruction>>::empty());
        vm
    }

    /// The numbers on the stack, the top last.
    pub fn stack(&self) -> (r: &Vec<i32>)
        ensures
            r@ == self@.stack,
    {
        &self.stack
    }

    /// The number on top of the stack, if there is one.
    pub fn top(&self) -> (r: Option<i32>)
        ensures
            r == if self@.stack.len() > 0 {
                Some(self@.stack.last())
            } else {
                None
            },
    {
        let n: usize = self.stack.len();
        if n > 0 {
            Some(self.stack[n - 1])
        } else {
            None
        }
    }

    /// What the variable `name` is bound to, if it is bound.
    pub fn variable(&self, name: &str) -> (r: Option<i32>)
        ensures
            r == self@.value_of(SpecOperand::Var(name@)),
    {
        match self.vars.get(name) {
            Some(v) => Some(*v),
            None => None,
        }
    }

    /// How many blocks the machine is inside of.
    pub fn depth(&self) -> (r: usize)
        ensures
            r == self@.frames.len(),
    {
        self.frames.len()
    }

    /// The value of an operand: the literal itself, or what the variable is
    /// bound to. An unbound variable is a fault.
    pub fn get_operand_value(&self, operand: &Operand) -> (r: Result<i32, Fault>)
        ensures
            r == match self@.value_of(operand@) {
                Some(v) => Ok::<i32, Fault>(v),
                None => Err::<i32, Fault>(Fault::UnboundVariable),
            },
    {
        match operand {
            Operand::Value(v) => Ok(*v),
            Operand::Var(name) => match self.vars.get(name.as_str()) {
                Some(v) => Ok(*v),
                None => Err(Fault::UnboundVariable),
            },
        }
    }

    /// The values of the two operands of an arithmetic instruction.
    fn operand_values(&self, a: &Operand, b: &Operand) -> (r: Result<(i32, i32), Fault>)
        ensures
            r == match self@.values_of(a@, b@) {
                Some(pair) => Ok::<(i32, i32), Fault>(pair),
                None => Err::<(i32, i32), Fault>(Fault::UnboundVariable),
            },
    {
        let x: i32 = match self.get_operand_value(a) {
            Ok(x) => x,
            Err(fault) => {
                return Err(fault);
            },
        };
        let y: i32 = match self.get_operand_value(b) {
            Ok(y) => y,
            Err(fault) => {
                return Err(fault);
            },
        };
        Ok((x, y))
    }

    /// The instruction that is run next, if the innermost block has one
    /// left. After a fault it is the instruction that failed.
    pub fn current(&self) -> (r: Option<&Instruction>)
        ensures
            match r {
                Some(i) => self@.current() == Some(i@),
                None => self@.current() is None,
            },
    {
        let depth: usize = self.frames.len();
        if depth == 0 {
            return None;
        }
        let frame: &Frame = &self.frames[depth - 1];
        assert(self@.frames.last() == frame.rest());
        if frame.pc < frame.code.len() {
            Some(&frame.code[frame.pc])
        } else {
            None
        }
    }

    /// Puts the current instruction behind the machine.
    fn advance(&mut self)
        requires
            old(self)@.current() is Some,
        ensures
            final(self)@ == old(self)@.advanced(),
    {
        let top: usize = self.frames.len() - 1;
        let ghost before: Frame = self.frames[top as int];
        assert(old(self)@.frames.last() == before.rest());
        let pc: usize = self.frames[top].pc;
        self.frames[top].pc = pc + 1;
        proof {
            let after: Frame = self.frames[top as int];
            assert(after.rest() =~= before.rest().skip(1));
            assert(self@.frames =~= old(self)@.advanced().frames);
        }
    }

    /// Makes `body` the innermost block.
    fn enter(&mut self, body: Vec<Instruction>)
        ensures
            final(self)@ == old(self)@.entered(block_view(body@)),
    {
        let frame: Frame = Frame { code: body, pc: 0 };
        assert(frame.rest() =~= block_view(body@));
        self.frames.push(frame);
        assert(self@.frames =~= old(self)@.entered(block_view(body@)).frames);
    }

    /// Takes the innermost block away.
    fn leave(&mut self)
        requires
            old(self)@.frames.len() > 0,
        ensures
            final(self)@ == old(self)@.left(),
    {
        self.frames.pop();
        assert(self@.frames =~= old(self)@.left().frames);
    }

    /// Whether the machine stands at an `If` whose test fails and whose
    /// second block is not empty.
    fn awaits_source(&self) -> (r: bool)
        ensures
            r == self@.awaits_source(),
    {
        match self.current() {
            Some(Instruction::If(_, otherwise)) => {
                let n: usize = self.stack.len();
                otherwise.len() > 0 && n > 0 && self.stack[n - 1] == 0
            },
            _ => false,
        }
    }

    /// Runs one step.
    fn step(&mut self) -> (r: Result<Option<Action>, Fault>)
        ensures
            final(self)@ == old(self)@.step().0,
            verdict_view(r) == old(self)@.step().1,
    {
        if self.frames.len() == 0 {
            return Ok(Some(Action::Halt));
        }
        let instruction: &Instruction = match self.current() {
            Some(instruction) => instruction,
            None => {
                self.leave();
                return Ok(None);
            },
        };
        match instruction {
            Instruction::Push(v) => {
                let v: i32 = *v;
                self.advance();
                self.stack.push(v);
                Ok(None)
            },
            Instruction::Add(a, b) => {
                let (x, y): (i32, i32) = match self.operand_values(a, b) {
                    Ok(pair) => pair,
                    Err(fault) => {
                        return Err(fault);
                    },
                };
                self.advance();
                self.stack.push(sum(x, y));
                Ok(None)
            },
            Instruction::Sub(a, b) => {
                let (x, y): (i32, i32) = match self.operand_values(a, b) {
                    Ok(pair) => pair,
                    Err(fault) => {
                        return Err(fault);
                    },
                };
                self.advance();
                self.stack.push(difference(x, y));
                Ok(None)
            },
            Instruction::Mul(a, b) => {
                let (x, y): (i32, i32) = match self.operand_values(a, b) {
                    Ok(pair) => pair,
                    Err(fault) => {
                        return Err(fault);
                    },
                };
                self.advance();
                self.stack.push(product(x, y));
                Ok(None)
            },
            Instruction::Div(a, b) => {
                let (x, y): (i32, i32) = match self.operand_values(a, b) {
                    Ok(pair) => pair,
                    Err(fault) => {
                        return Err(fault);
                    },
                };
                let q: i32 = match divide(x, y) {
                    Some(q) => q,
                    None => {
                        return Err(Fault::DivisionByZero);
                    },
                };
                self.advance();
                self.stack.push(q);
                Ok(None)
            },
            Instruction::Print => {
                let text: String = match self.top() {
                    Some(v) => render(v),
                    None => "Stack is empty".to_owned(),
                };
                self.advance();
                Ok(Some(Action::Print(text)))
            },
            Instruction::SetVar(name, v) => {
                let name: String = name.clone();
                let v: i32 = *v;
                self.advance();
                self.vars.insert(name, v);
                Ok(None)
            },
            Instruction::Get(name) => {
                let v: i32 = match self.vars.get(name.as_str()) {
                    Some(v) => *v,
                    None => {
                        return Err(Fault::UnboundVariable);
                    },
                };
                self.advance();
                self.stack.push(v);
                Ok(None)
            },
            Instruction::Input(_) => Ok(Some(Action::ReadInput)),
            Instruction::If(then, otherwise) => {
                match self.top() {
                    None => Err(Fault::EmptyStack),
                    Some(v) => {
                        if v != 0 {
                            if self.frames.len() >= MAX_DEPTH {
                                return Err(Fault::DepthExceeded);
                            }
                            let body: Vec<Instruction> = clone_block(then);
                            self.advance();
                            self.enter(body);
                            Ok(None)
                        } else if otherwise.len() > 0 {
                            Ok(Some(Action::ReadSource))
                        } else {
                            self.advance();
                            Ok(None)
                        }
                    },
                }
            },
            Instruction::Else(body) => {
                if self.frames.len() >= MAX_DEPTH {
                    return Err(Fault::DepthExceeded);
                }
                let body: Vec<Instruction> = clone_block(body);
                self.advance();
                self.enter(body);
                Ok(None)
            },
        }
    }

    /// Takes in what the host hands over.
    fn deliver(&mut self, event: Event) -> (r: Result<(), Fault>)
        ensures
            match old(self)@.deliver(event@) {
                Ok(next) => r is Ok && final(self)@ == next,
                Err(fault) => r == Err::<(), Fault>(fault) && final(self)@ == old(self)@,
            },
    {
        match event {
            Event::Resume => Ok(()),
            Event::Input(text) => {
                let name: String = match self.current() {
                    Some(Instruction::Input(name)) => name.clone(),
                    _ => {
                        return Err(Fault::UnexpectedEvent);
                    },
                };
                let chars: Vec<char> = chars_of(text.as_str());
                let (from, to): (usize, usize) = trim_bounds(chars.as_slice());
                match parse_int(slice_subrange(chars.as_slice(), from, to)) {
                    Some(v) => {
                        self.advance();
                        self.vars.insert(name, v);
                        Ok(())
                    },
                    None => Err(Fault::InvalidInput),
                }
            },
            Event::Source(lines) => {
                if !self.awaits_source() {
                    return Err(Fault::UnexpectedEvent);
                }
                let mut program: Vec<Instruction> = match VM::load_program(&lines) {
                    Ok(program) => program,
                    Err(fault) => {
                        return Err(fault);
                    },
                };
                if self.frames.len() >= MAX_DEPTH {
                    return Err(Fault::DepthExceeded);
                }
                let mut body: Vec<Instruction> = match self.current() {
                    Some(Instruction::If(_, otherwise)) => clone_block(otherwise),
                    _ => {
                        return Err(Fault::UnexpectedEvent);
                    },
                };
                proof {
                    lemma_block_view_concat(body@, program@);
                }
                body.append(&mut program);
                self.advance();
                self.enter(body);
                Ok(())
            },
            Event::SourceUnavailable => {
                if self.awaits_source() {
                    Err(Fault::SourceUnavailable)
                } else {
                    Err(Fault::UnexpectedEvent)
                }
            },
        }
    }

    /// Runs steps up to the first that does not just go on.
    fn settle(&mut self) -> (r: Result<Action, Fault>)
        ensures
            final(self)@ == old(self)@.settle().0,
            outcome_view(r) == old(self)@.settle().1,
    {
        loop
            invariant
                self@.settle() == old(self)@.settle(),
            decreases work(self@.frames),
        {
            let ghost before: Machine = self@;
            match self.step() {
                Ok(None) => {
                    proof {
                        lemma_step_decreases(before);
                    }
                },
                Ok(Some(action)) => {
                    return Ok(action);
                },
                Err(fault) => {
                    return Err(fault);
                },
            }
        }
    }

    /// Starts the machine again with what its host hands over, and runs it
    /// until it stops: with an action for the host, or with a fault.
    ///
    /// `Event::Resume` is always accepted. A line of input is accepted
    /// where the machine stands at an `Input`, the program's source where
    /// it stands at an `If` that needs it; anywhere else they are a fault,
    /// as is a line that denotes no signed 32-bit integer and a source
    /// that does not program_of. After a fault the machine is as it was
    /// before the instruction or the event that failed.
    pub fn resume(&mut self, event: Event) -> (r: Result<Action, Fault>)
        ensures
            final(self)@ == old(self)@.resume(event@).0,
            outcome_view(r) == old(self)@.resume(event@).1,
    {
        match self.deliver(event) {
            Ok(()) => self.settle(),
            Err(fault) => Err(fault),
        }
    }

    /// Runs `program` as a new innermost block until the machine stops:
    /// with an action for the host, or with a fault. On a machine that is
    /// inside of no block, `Action::Halt` says that the program has come
    /// to its end.
    pub fn run(&mut self, program: Vec<Instruction>) -> (r: Result<Action, Fault>)
        ensures
            final(self)@ == old(self)@.run(block_view(program@)).0,
            outcome_view(r) == old(self)@.run(block_view(program@)).1,
    {
        if self.frames.len() >= MAX_DEPTH {
            return Err(Fault::DepthExceeded);
        }
        self.enter(program);
        self.settle()
    }
}

/// What `Print` shows for a stack: its top in decimal, or a fixed text
/// where the stack is empty.
pub open spec fn shown(stack: Seq<i32>) -> Seq<char> {
    if stack.len() > 0 {
        decimal(stack.last() as int)
    } else {
        "Stack is empty"@
    }
}

// ----------------------------------------------------------------------
// Why the machine comes to a stop
// ----------------------------------------------------------------------

/// What an instruction weighs: one, and for a block instruction its blocks
/// and one more.
pub open spec fn weight(i: SpecInstruction) -> nat
    decreases i,
{
    match i {
        SpecInstruction::If(then, otherwise) => 2 + block_weight(then) + block_weight(otherwise),
        SpecInstruction::Else(body) => 2 + block_weight(body),
        _ => 1,
    }
}

/// What the instructions of a block weigh together.
pub open spec fn block_weight(b: Seq<SpecInstruction>) -> nat
    decreases b,
{
    if b.len() == 0 {
        0
    } else {
        weight(b[0]) + block_weight(b.skip(1))
    }
}

/// What is left to do: the weight of every block that is being run, and
/// one more for each of them.
pub open spec fn work(frames: Seq<Seq<SpecInstruction>>) -> nat
    decreases frames.len(),
{
    if frames.len() == 0 {
        0
    } else {
        work(frames.drop_last()) + 1 + block_weight(frames.last())
    }
}

/// A step after which the machine goes on leaves less to do.
pub proof fn lemma_step_decreases(m: Machine)
    requires
        m.step().1 == Ok::<Option<SpecAction>, Fault>(None),
    ensures
        work(m.step().0.frames) < work(m.frames),
{
    let frames: Seq<Seq<SpecInstruction>> = m.frames;
    let below: Seq<Seq<SpecInstruction>> = frames.drop_last();
    match m.current() {
        None => {
            assert(frames.len() > 0);
        },
        Some(i) => {
            let rest: Seq<SpecInstruction> = frames.last().skip(1);
            let onward: Seq<Seq<SpecInstruction>> = m.advanced().frames;
            assert(block_weight(frames.last()) == weight(i) + block_weight(rest));
            assert(weight(i) >= 1);
            assert(onward.drop_last() =~= below);
            assert(onward.last() == rest);
            assert(work(onward) == work(below) + 1 + block_weight(rest));
            match i {
                SpecInstruction::If(then, otherwise) => {
                    if m.stack.len() > 0 && m.stack.last() != 0 {
                        let after: Seq<Seq<SpecInstruction>> = m.advanced().entered(then).frames;
                        assert(after.drop_last() =~= onward);
                        assert(after.last() == then);
                        assert(work(after) == work(onward) + 1 + block_weight(then));
                    }
                },
                SpecInstruction::Else(body) => {
                    let after: Seq<Seq<SpecInstruction>> = m.advanced().entered(body).frames;
                    assert(after.drop_last() =~= onward);
                    assert(after.last() == body);
                    assert(work(after) == work(onward) + 1 + block_weight(body));
                },
                _ => {},
            }
        },
    }
}

} // verus!

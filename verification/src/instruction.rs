//! The instruction set: operands, instructions, and their mathematical views.

use vstd::prelude::*;

verus! {

/// What an arithmetic instruction computes on.
#[derive(Debug, PartialEq, Eq)]
pub enum Operand {
    /// A literal number.
    Value(i32),
    /// The name of a variable.
    Var(String),
}

/// One instruction of a program.
#[derive(Debug, PartialEq, Eq)]
pub enum Instruction {
    /// Puts a number on the stack.
    Push(i32),
    /// Puts the sum of two operands on the stack.
    Add(Operand, Operand),
    /// Puts the first operand minus the second on the stack.
    Sub(Operand, Operand),
    /// Puts the product of two operands on the stack.
    Mul(Operand, Operand),
    /// Puts the first operand divided by the second on the stack.
    Div(Operand, Operand),
    /// Shows the top of the stack.
    Print,
    /// Binds a variable to a number.
    SetVar(String, i32),
    /// Puts the value of a variable on the stack.
    Get(String),
    /// Reads a number from the outside and binds a variable to it.
    Input(String),
    /// A branch on the top of the stack, with the instructions to run where
    /// it is not zero and those kept for where it is zero.
    If(Vec<Instruction>, Vec<Instruction>),
    /// Instructions that always run: what an `ELSE` block without an open
    /// `IF` turns into.
    Else(Vec<Instruction>),
}

/// The mathematical view of an [`Operand`].
pub enum SpecOperand {
    Value(i32),
    Var(Seq<char>),
}

/// The mathematical view of an [`Instruction`].
pub enum SpecInstruction {
    Push(i32),
    Add(SpecOperand, SpecOperand),
    Sub(SpecOperand, SpecOperand),
    Mul(SpecOperand, SpecOperand),
    Div(SpecOperand, SpecOperand),
    Print,
    SetVar(Seq<char>, i32),
    Get(Seq<char>),
    Input(Seq<char>),
    If(Seq<SpecInstruction>, Seq<SpecInstruction>),
    Else(Seq<SpecInstruction>),
}

impl View for Operand {
    type V = SpecOperand;

    open spec fn view(&self) -> SpecOperand {
        match self {
            Operand::Value(v) => SpecOperand::Value(*v),
            Operand::Var(name) => SpecOperand::Var(name@),
        }
    }
}

/// The view of a sequence of instructions: the views of its members.
pub open spec fn block_view(b: Seq<Instruction>) -> Seq<SpecInstruction>
    decreases b,
{
    Seq::new(
        b.len(),
        |k: int|
            if 0 <= k < b.len() {
                instruction_view(b[k])
            } else {
                arbitrary()
            },
    )
}

/// The view of one instruction.
pub open spec fn instruction_view(i: Instruction) -> SpecInstruction
    decreases i,
{
    match i {
        Instruction::Push(v) => SpecInstruction::Push(v),
        Instruction::Add(a, b) => SpecInstruction::Add(a@, b@),
        Instruction::Sub(a, b) => SpecInstruction::Sub(a@, b@),
        Instruction::Mul(a, b) => SpecInstruction::Mul(a@, b@),
        Instruction::Div(a, b) => SpecInstruction::Div(a@, b@),
        Instruction::Print => SpecInstruction::Print,
        Instruction::SetVar(name, v) => SpecInstruction::SetVar(name@, v),
        Instruction::Get(name) => SpecInstruction::Get(name@),
        Instruction::Input(name) => SpecInstruction::Input(name@),
        Instruction::If(then_body, else_body) => SpecInstruction::If(
            block_view(then_body@),
            block_view(else_body@),
        ),
        Instruction::Else(body) => SpecInstruction::Else(block_view(body@)),
    }
}

impl View for Instruction {
    type V = SpecInstruction;

    open spec fn view(&self) -> SpecInstruction {
        instruction_view(*self)
    }
}

/// The view of two sequences, one after the other, is the view of the
/// first followed by the view of the second.
pub proof fn lemma_block_view_concat(a: Seq<Instruction>, b: Seq<Instruction>)
    ensures
        block_view(a + b) == block_view(a) + block_view(b),
{
    assert(block_view(a + b) =~= block_view(a) + block_view(b));
}

/// The view of a sequence with one more instruction at its end.
pub proof fn lemma_block_view_push(a: Seq<Instruction>, i: Instruction)
    ensures
        block_view(a.push(i)) == block_view(a).push(i@),
{
    assert(block_view(a.push(i)) =~= block_view(a).push(i@));
}

impl Clone for Operand {
    fn clone(&self) -> (r: Self)
        ensures
            r@ == self@,
    {
        match self {
            Operand::Value(v) => Operand::Value(*v),
            Operand::Var(name) => Operand::Var(name.clone()),
        }
    }
}

/// Copies a sequence of instructions, member by member.
pub fn clone_block(b: &Vec<Instruction>) -> (r: Vec<Instruction>)
    ensures
        block_view(r@) == block_view(b@),
    decreases b,
{
    let mut out: Vec<Instruction> = Vec::new();
    let mut k: usize = 0;
    while k < b.len()
        invariant
            k <= b.len(),
            out.len() == k,
            forall|j: int| 0 <= j < k ==> out[j]@ == b[j]@,
        decreases b.len() - k,
    {
        out.push(b[k].clone());
        k += 1;
    }
    assert(block_view(out@) =~= block_view(b@));
    out
}

impl Clone for Instruction {
    fn clone(&self) -> (r: Self)
        ensures
            r@ == self@,
        decreases self,
    {
        match self {
            Instruction::Push(v) => Instruction::Push(*v),
            Instruction::Add(a, b) => Instruction::Add(a.clone(), b.clone()),
            Instruction::Sub(a, b) => Instruction::Sub(a.clone(), b.clone()),
            Instruction::Mul(a, b) => Instruction::Mul(a.clone(), b.clone()),
            Instruction::Div(a, b) => Instruction::Div(a.clone(), b.clone()),
            Instruction::Print => Instruction::Print,
            Instruction::SetVar(name, v) => Instruction::SetVar(name.clone(), *v),
            Instruction::Get(name) => Instruction::Get(name.clone()),
            Instruction::Input(name) => Instruction::Input(name.clone()),
            Instruction::If(then_body, else_body) => Instruction::If(
                clone_block(then_body),
                clone_block(else_body),
            ),
            Instruction::Else(body) => Instruction::Else(clone_block(body)),
        }
    }
}

} // verus!

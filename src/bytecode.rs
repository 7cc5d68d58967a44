//! Instructions of the stack virtual machine.
use vstd::prelude::*;
use crate::text::{push_nat, nat_text};

verus! {

/// A virtual-machine operation.
#[derive(Debug, Clone, Copy, PartialEq, Eq, Structural)]
pub enum OpCode {
    LoadConst,
    LoadVar,
    StoreVar,
    Add,
    Sub,
    Mul,
    Div,
    Mod,
    Equal,
    NotEqual,
    Greater,
    Less,
    GreaterEqual,
    LessEqual,
    JumpIfFalse,
    Jump,
    Call,
    Return,
    Print,
    Pop,
    Array,
    Index,
}

/// An operation with its optional operand text.
#[derive(Debug)]
pub struct Instruction {
    pub opcode: OpCode,
    pub operand: Option<String>,
}

/// `Some(t)` with `t` spelling `s`.
pub open spec fn operand_is(o: Option<String>, s: Seq<char>) -> bool {
    o matches Some(t) && t@ == s
}

fn decimal(n: usize) -> (r: String)
    ensures
        r@ == nat_text(n as nat),
{
    let mut s = String::new();
    push_nat(&mut s, n as u128);
    s
}

impl Instruction {
    /// An instruction from its parts.
    pub fn new(opcode: OpCode, operand: Option<String>) -> (r: Self)
        ensures
            r.opcode == opcode,
            r.operand == operand,
    {
        Instruction { opcode, operand }
    }

    /// Pushes a constant given as text.
    pub fn const_instr(value: String) -> (r: Self)
        ensures
            r.opcode == OpCode::LoadConst,
            r.operand == Some(value),
    {
        Instruction::new(OpCode::LoadConst, Some(value))
    }

    /// Pushes a variable.
    pub fn var_instr(name: String) -> (r: Self)
        ensures
            r.opcode == OpCode::LoadVar,
            r.operand == Some(name),
    {
        Instruction::new(OpCode::LoadVar, Some(name))
    }

    /// Pops into a variable.
    pub fn store_var(name: String) -> (r: Self)
        ensures
            r.opcode == OpCode::StoreVar,
            r.operand == Some(name),
    {
        Instruction::new(OpCode::StoreVar, Some(name))
    }

    /// Jumps to an instruction index.
    pub fn jump_instr(target: usize) -> (r: Self)
        ensures
            r.opcode == OpCode::Jump,
            operand_is(r.operand, nat_text(target as nat)),
    {
        Instruction::new(OpCode::Jump, Some(decimal(target)))
    }

    /// Pops a condition and jumps to an instruction index when it is false.
    pub fn jump_if_false(target: usize) -> (r: Self)
        ensures
            r.opcode == OpCode::JumpIfFalse,
            operand_is(r.operand, nat_text(target as nat)),
    {
        Instruction::new(OpCode::JumpIfFalse, Some(decimal(target)))
    }

    /// Calls a function by name.
    pub fn call_instr(name: String) -> (r: Self)
        ensures
            r.opcode == OpCode::Call,
            r.operand == Some(name),
    {
        Instruction::new(OpCode::Call, Some(name))
    }

    /// Builds an array from the top `count` values.
    pub fn array_instr(count: usize) -> (r: Self)
        ensures
            r.opcode == OpCode::Array,
            operand_is(r.operand, nat_text(count as nat)),
    {
        Instruction::new(OpCode::Array, Some(decimal(count)))
    }
}

} // verus!

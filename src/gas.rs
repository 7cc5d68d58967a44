//! The gas model: a fixed cost for every virtual-machine operation.
use vstd::prelude::*;
use crate::bytecode::OpCode;

verus! {

/// The gas an operation costs.
pub open spec fn cost_of(op: OpCode) -> u64 {
    match op {
        OpCode::LoadConst => 1,
        OpCode::LoadVar => 1,
        OpCode::StoreVar => 2,
        OpCode::Pop => 1,
        OpCode::Add => 2,
        OpCode::Sub => 2,
        OpCode::Mul => 5,
        OpCode::Div => 8,
        OpCode::Mod => 8,
        OpCode::Equal => 2,
        OpCode::NotEqual => 2,
        OpCode::Greater => 2,
        OpCode::Less => 2,
        OpCode::GreaterEqual => 2,
        OpCode::LessEqual => 2,
        OpCode::Jump => 1,
        OpCode::JumpIfFalse => 2,
        OpCode::Call => 10,
        OpCode::Return => 3,
        OpCode::Print => 5,
        OpCode::Array => 3,
        OpCode::Index => 4,
    }
}

/// The gas an operation costs.
pub fn gas_cost(op: &OpCode) -> (r: u64)
    ensures
        r == cost_of(*op),
{
    match op {
        OpCode::LoadConst => 1,
        OpCode::LoadVar => 1,
        OpCode::StoreVar => 2,
        OpCode::Pop => 1,
        OpCode::Add => 2,
        OpCode::Sub => 2,
        OpCode::Mul => 5,
        OpCode::Div => 8,
        OpCode::Mod => 8,
        OpCode::Equal => 2,
        OpCode::NotEqual => 2,
        OpCode::Greater => 2,
        OpCode::Less => 2,
        OpCode::GreaterEqual => 2,
        OpCode::LessEqual => 2,
        OpCode::Jump => 1,
        OpCode::JumpIfFalse => 2,
        OpCode::Call => 10,
        OpCode::Return => 3,
        OpCode::Print => 5,
        OpCode::Array => 3,
        OpCode::Index => 4,
    }
}

/// A rough estimate: two gas per instruction.
pub fn estimate_gas(instructions_count: usize) -> (r: u64)
    requires
        instructions_count <= u64::MAX / 2,
    ensures
        r == 2 * instructions_count,
{
    (instructions_count as u64) * 2
}

/// Gas limits for each execution mode.
#[derive(Debug, Clone, Copy)]
pub struct GasLimits {
    pub script: u64,
    pub contract: u64,
    pub transaction: u64,
}

impl GasLimits {
    /// The limits for normal runs.
    pub fn default() -> (r: Self)
        ensures
            r.script == 1_000_000,
            r.contract == 100_000,
            r.transaction == 10_000_000,
    {
        GasLimits { script: 1_000_000, contract: 100_000, transaction: 10_000_000 }
    }

    /// Smaller limits for tests.
    pub fn test() -> (r: Self)
        ensures
            r.script == 100_000,
            r.contract == 10_000,
            r.transaction == 1_000_000,
    {
        GasLimits { script: 100_000, contract: 10_000, transaction: 1_000_000 }
    }
}

/// The gas of one transaction: its limit, its price, and what is used.
#[derive(Debug, Clone, Copy)]
pub struct GasContext {
    pub gas_limit: u64,
    pub gas_price: u64,
    pub gas_used: u64,
}

impl GasContext {
    /// A context with nothing used yet.
    pub fn new(gas_limit: u64, gas_price: u64) -> (r: Self)
        ensures
            r.gas_limit == gas_limit,
            r.gas_price == gas_price,
            r.gas_used == 0,
    {
        GasContext { gas_limit, gas_price, gas_used: 0 }
    }

    /// The gas left, zero once the limit is passed.
    pub fn remaining(&self) -> (r: u64)
        ensures
            r == if self.gas_used > self.gas_limit {
                0
            } else {
                self.gas_limit - self.gas_used
            },
    {
        if self.gas_used > self.gas_limit {
            0
        } else {
            self.gas_limit - self.gas_used
        }
    }

    /// Whether more gas was used than allowed.
    pub fn is_out_of_gas(&self) -> (r: bool)
        ensures
            r == (self.gas_used > self.gas_limit),
    {
        self.gas_used > self.gas_limit
    }

    /// The price of the gas used.
    pub fn total_cost(&self) -> (r: u128)
        ensures
            r == self.gas_used * self.gas_price,
    {
        proof {
            vstd::arithmetic::mul::lemma_mul_upper_bound(self.gas_used as int, u64::MAX as int, self.gas_price as int, u64::MAX as int);
        }
        self.gas_used as u128 * self.gas_price as u128
    }
}

} // verus!

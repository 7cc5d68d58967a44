//! The linear, stack-based intermediate representation.
use vstd::prelude::*;

verus! {

/// One IR instruction. Jump targets are absolute indices into the
/// instruction list of the enclosing function.
#[derive(Debug, Clone, PartialEq)]
pub enum IRInstr {
    LoadConstInt(i64),
    /// A float literal, carried as its decimal text.
    LoadConstFloat(String),
    LoadConstBool(bool),
    LoadConstString(String),
    LoadVar(String),
    StoreVar(String),
    LoadLocal(u32),
    StoreLocal(u32),
    Add,
    Sub,
    Mul,
    Div,
    Mod,
    Eq,
    Ne,
    Lt,
    Le,
    Gt,
    Ge,
    And,
    Or,
    Not,
    Jump(usize),
    JumpIfFalse(usize),
    Call(String, usize),
    CallStd(String),
    CallAI(String),
    CallWeb3(String),
    CallFS(String),
    Return,
    Panic,
    Pop,
    Dup,
    Nop,
}

/// A lowered function. Parameters own slots `0..param_count`.
#[derive(Debug, Clone)]
pub struct IRFunction {
    pub name: String,
    pub param_count: usize,
    pub instructions: Vec<IRInstr>,
    pub local_count: usize,
}

/// The functions of a compilation unit, in source order.
#[derive(Debug, Clone)]
pub struct IRModule {
    pub functions: Vec<IRFunction>,
}

/// Every jump in `s` targets an index in `0..=s.len()`.
pub open spec fn targets_in_range(s: Seq<IRInstr>) -> bool {
    forall|k: int|
        0 <= k < s.len() ==> match #[trigger] s[k] {
            IRInstr::Jump(t) => t <= s.len(),
            IRInstr::JumpIfFalse(t) => t <= s.len(),
            _ => true,
        }
}

/// Every local slot read or written in `s` is below `n`.
pub open spec fn slots_below(s: Seq<IRInstr>, n: int) -> bool {
    forall|k: int|
        0 <= k < s.len() ==> match #[trigger] s[k] {
            IRInstr::LoadLocal(x) => x < n,
            IRInstr::StoreLocal(x) => x < n,
            _ => true,
        }
}

/// The last instruction of `s` is `Return`.
pub open spec fn ends_with_return(s: Seq<IRInstr>) -> bool {
    s.len() > 0 && s.last() == IRInstr::Return
}

impl IRFunction {
    /// The invariants of a lowered function: it ends with `Return`, its jumps
    /// stay inside it, its slots stay below `local_count`, and its
    /// parameters fit in its locals.
    pub open spec fn wf(&self) -> bool {
        &&& ends_with_return(self.instructions@)
        &&& targets_in_range(self.instructions@)
        &&& slots_below(self.instructions@, self.local_count as int)
        &&& self.param_count <= self.local_count
    }

    /// A function with no parameters, locals or instructions.
    pub fn new(name: String) -> (r: Self)
        ensures
            r.name == name,
            r.param_count == 0,
            r.instructions@.len() == 0,
            r.local_count == 0,
    {
        IRFunction { name, param_count: 0, instructions: Vec::new(), local_count: 0 }
    }

    /// Appends one instruction.
    pub fn add_instruction(&mut self, instr: IRInstr)
        ensures
            final(self).instructions@ == old(self).instructions@.push(instr),
            final(self).name == old(self).name,
            final(self).param_count == old(self).param_count,
            final(self).local_count == old(self).local_count,
    {
        self.instructions.push(instr);
    }
}

impl IRModule {
    /// An empty module.
    pub fn new() -> (r: Self)
        ensures
            r.functions@.len() == 0,
    {
        IRModule { functions: Vec::new() }
    }

    /// Appends a function.
    pub fn add_function(&mut self, function: IRFunction)
        ensures
            final(self).functions@ == old(self).functions@.push(function),
    {
        self.functions.push(function);
    }

    /// The first function with the given name, if any.
    pub fn find_function(&self, name: &str) -> (r: Option<&IRFunction>)
        ensures
            r is None <==> forall|k: int|
                0 <= k < self.functions@.len() ==> #[trigger] self.functions@[k].name@ != name@,
            r matches Some(f) ==> exists|k: int|
                0 <= k < self.functions@.len() && *f == self.functions@[k] && (forall|j: int|
                    0 <= j < k ==> #[trigger] self.functions@[j].name@ != name@)
                    && f.name@ == name@,
    {
        let mut i: usize = 0;
        while i < self.functions.len()
            invariant
                i <= self.functions@.len(),
                forall|j: int| 0 <= j < i ==> #[trigger] self.functions@[j].name@ != name@,
            decreases self.functions@.len() - i,
        {
            if crate::text::str_eq(self.functions[i].name.as_str(), name) {
                return Some(&self.functions[i]);
            }
            i = i + 1;
        }
        None
    }
}

/// A copy of an instruction.
pub fn copy_instr(i: &IRInstr) -> (r: IRInstr)
    ensures
        r == *i,
{
    match i {
        IRInstr::LoadConstInt(n) => IRInstr::LoadConstInt(*n),
        IRInstr::LoadConstFloat(s) => IRInstr::LoadConstFloat(s.clone()),
        IRInstr::LoadConstBool(b) => IRInstr::LoadConstBool(*b),
        IRInstr::LoadConstString(s) => IRInstr::LoadConstString(s.clone()),
        IRInstr::LoadVar(s) => IRInstr::LoadVar(s.clone()),
        IRInstr::StoreVar(s) => IRInstr::StoreVar(s.clone()),
        IRInstr::LoadLocal(k) => IRInstr::LoadLocal(*k),
        IRInstr::StoreLocal(k) => IRInstr::StoreLocal(*k),
        IRInstr::Add => IRInstr::Add,
        IRInstr::Sub => IRInstr::Sub,
        IRInstr::Mul => IRInstr::Mul,
        IRInstr::Div => IRInstr::Div,
        IRInstr::Mod => IRInstr::Mod,
        IRInstr::Eq => IRInstr::Eq,
        IRInstr::Ne => IRInstr::Ne,
        IRInstr::Lt => IRInstr::Lt,
        IRInstr::Le => IRInstr::Le,
        IRInstr::Gt => IRInstr::Gt,
        IRInstr::Ge => IRInstr::Ge,
        IRInstr::And => IRInstr::And,
        IRInstr::Or => IRInstr::Or,
        IRInstr::Not => IRInstr::Not,
        IRInstr::Jump(t) => IRInstr::Jump(*t),
        IRInstr::JumpIfFalse(t) => IRInstr::JumpIfFalse(*t),
        IRInstr::Call(s, n) => IRInstr::Call(s.clone(), *n),
        IRInstr::CallStd(s) => IRInstr::CallStd(s.clone()),
        IRInstr::CallAI(s) => IRInstr::CallAI(s.clone()),
        IRInstr::CallWeb3(s) => IRInstr::CallWeb3(s.clone()),
        IRInstr::CallFS(s) => IRInstr::CallFS(s.clone()),
        IRInstr::Return => IRInstr::Return,
        IRInstr::Panic => IRInstr::Panic,
        IRInstr::Pop => IRInstr::Pop,
        IRInstr::Dup => IRInstr::Dup,
        IRInstr::Nop => IRInstr::Nop,
    }
}

/// A copy of an instruction list.
pub fn copy_instrs(v: &Vec<IRInstr>) -> (r: Vec<IRInstr>)
    ensures
        r@ == v@,
{
    let mut r: Vec<IRInstr> = Vec::new();
    let mut i: usize = 0;
    while i < v.len()
        invariant
            i <= v@.len(),
            r@ == v@.subrange(0, i as int),
        decreases v@.len() - i,
    {
        r.push(copy_instr(&v[i]));
        i = i + 1;
        assert(r@ =~= v@.subrange(0, i as int));
    }
    assert(v@.subrange(0, v@.len() as int) =~= v@);
    r
}

/// Two instructions agree: the same operation with the same operands,
/// names compared by their characters.
pub open spec fn same_instr(a: IRInstr, b: IRInstr) -> bool {
    match (a, b) {
        (IRInstr::LoadConstFloat(x), IRInstr::LoadConstFloat(y)) => x@ == y@,
        (IRInstr::LoadConstString(x), IRInstr::LoadConstString(y)) => x@ == y@,
        (IRInstr::LoadVar(x), IRInstr::LoadVar(y)) => x@ == y@,
        (IRInstr::StoreVar(x), IRInstr::StoreVar(y)) => x@ == y@,
        (IRInstr::Call(x, n), IRInstr::Call(y, m)) => x@ == y@ && n == m,
        (IRInstr::CallStd(x), IRInstr::CallStd(y)) => x@ == y@,
        (IRInstr::CallAI(x), IRInstr::CallAI(y)) => x@ == y@,
        (IRInstr::CallWeb3(x), IRInstr::CallWeb3(y)) => x@ == y@,
        (IRInstr::CallFS(x), IRInstr::CallFS(y)) => x@ == y@,
        _ => a == b,
    }
}

/// Two instruction lists agree instruction by instruction.
pub open spec fn same_code(a: Seq<IRInstr>, b: Seq<IRInstr>) -> bool {
    a.len() == b.len() && forall|k: int| 0 <= k < a.len() ==> same_instr(#[trigger] a[k], b[k])
}

} // verus!

//! Lowering from the syntax tree to the linear IR.
use vstd::prelude::*;
use crate::ast::{Expr, Stmt};
use crate::ir::{IRInstr, IRFunction, IRModule, same_instr, same_code, ends_with_return, targets_in_range, slots_below};
use crate::stdlib::{in_stdlib, ai_names, web3_names, fs_names, is_stdlib, is_ai, is_web3, is_fs_function};
use crate::text::{push_char, push_str};

verus! {

/// The slots of a function's named locals: the `k`-th allocated name owns
/// slot `k`.
#[derive(Debug)]
pub struct LowerCtx {
    locals: Vec<(String, u32)>,
    next_slot: u32,
}

/// The slot that `name` resolves to: the last one allocated to it.
pub open spec fn slot_of(env: Seq<Seq<char>>, name: Seq<char>) -> Option<int>
    decreases env.len(),
{
    if env.len() == 0 {
        None
    } else if env.last() == name {
        Some(env.len() - 1)
    } else {
        slot_of(env.drop_last(), name)
    }
}

proof fn lemma_slot_of(env: Seq<Seq<char>>, name: Seq<char>)
    ensures
        slot_of(env, name) matches Some(k) ==> 0 <= k < env.len() && env[k] == name,
    decreases env.len(),
{
    if env.len() > 0 && env.last() != name {
        lemma_slot_of(env.drop_last(), name);
    }
}

impl LowerCtx {
    /// The names that own slots, in slot order.
    pub closed spec fn names(&self) -> Seq<Seq<char>> {
        self.locals@.map_values(|p: (String, u32)| p.0@)
    }

    /// Slot numbers follow allocation order.
    pub closed spec fn wf(&self) -> bool {
        &&& forall|k: int| 0 <= k < self.locals@.len() ==> (#[trigger] self.locals@[k]).1 == k
        &&& self.next_slot == self.locals@.len()
    }

    /// A context with no slots.
    pub fn new() -> (r: Self)
        ensures
            r.wf(),
            r.names().len() == 0,
    {
        LowerCtx { locals: Vec::new(), next_slot: 0 }
    }

    /// Gives `name` the next free slot and returns it.
    pub fn alloc_slot(&mut self, name: String) -> (slot: u32)
        requires
            old(self).wf(),
            old(self).names().len() < u32::MAX,
        ensures
            final(self).wf(),
            final(self).names() == old(self).names().push(name@),
            slot == old(self).names().len(),
    {
        let slot = self.next_slot;
        self.locals.push((name, slot));
        self.next_slot = slot + 1;
        assert(self.names() =~= old(self).names().push(self.locals@.last().0@));
        slot
    }

    /// The slot of `name`, if it has one.
    pub fn get(&self, name: &str) -> (r: Option<u32>)
        requires
            self.wf(),
        ensures
            match slot_of(self.names(), name@) {
                Some(k) => r == Some(k as u32),
                None => r is None,
            },
    {
        let mut i: usize = self.locals.len();
        assert(self.names().subrange(0, i as int) =~= self.names());
        while i > 0
            invariant
                self.wf(),
                i <= self.locals@.len(),
                slot_of(self.names(), name@) == slot_of(self.names().subrange(0, i as int), name@),
            decreases i,
        {
            assert(self.names().subrange(0, i as int).drop_last() =~= self.names().subrange(0, i - 1));
            assert(self.names()[i - 1] == self.locals@[i - 1].0@);
            if crate::text::str_eq(self.locals[i - 1].0.as_str(), name) {
                return Some(self.locals[i - 1].1);
            }
            i = i - 1;
        }
        None
    }

    /// The number of slots allocated.
    pub fn num_locals(&self) -> (r: u32)
        requires
            self.wf(),
        ensures
            r == self.names().len(),
    {
        self.next_slot
    }
}

/// The families a call target can belong to.
#[derive(Debug, Clone, Copy, PartialEq, Eq, Structural)]
pub enum CallFamily {
    User,
    Std,
    AI,
    Web3,
    FS,
}

/// The family of a call target, checked in the order file system, Web3,
/// AI, standard library.
pub open spec fn family_of(name: Seq<char>) -> CallFamily {
    if fs_names().contains(name) {
        CallFamily::FS
    } else if web3_names().contains(name) {
        CallFamily::Web3
    } else if ai_names().contains(name) {
        CallFamily::AI
    } else if in_stdlib(name) {
        CallFamily::Std
    } else {
        CallFamily::User
    }
}

/// The family of a call target.
pub fn classify(name: &str) -> (r: CallFamily)
    ensures
        r == family_of(name@),
{
    if is_fs_function(name) {
        CallFamily::FS
    } else if is_web3(name) {
        CallFamily::Web3
    } else if is_ai(name) {
        CallFamily::AI
    } else if is_stdlib(name) {
        CallFamily::Std
    } else {
        CallFamily::User
    }
}

/// The call instruction for a target and an argument count.
pub open spec fn call_for(name: String, argc: usize) -> IRInstr {
    match family_of(name@) {
        CallFamily::FS => IRInstr::CallFS(name),
        CallFamily::Web3 => IRInstr::CallWeb3(name),
        CallFamily::AI => IRInstr::CallAI(name),
        CallFamily::Std => IRInstr::CallStd(name),
        CallFamily::User => IRInstr::Call(name, argc),
    }
}

/// A string spelling `module.name`.
pub open spec fn qualified(module: String, name: String) -> String {
    choose|q: String| q@ == module@ + seq!['.'] + name@
}

/// The code of an expression under the slot names `env`.
pub open spec fn lower_expr(e: Expr, env: Seq<Seq<char>>) -> Seq<IRInstr>
    decreases e,
{
    match e {
        Expr::Number(n) => seq![IRInstr::LoadConstInt(n)],
        Expr::Float(t) => seq![IRInstr::LoadConstFloat(t)],
        Expr::Bool(b) => seq![IRInstr::LoadConstBool(b)],
        Expr::String(s) => seq![IRInstr::LoadConstString(s)],
        Expr::Identifier(x) => match slot_of(env, x@) {
            Some(k) => seq![IRInstr::LoadLocal(k as u32)],
            None => seq![IRInstr::LoadVar(x)],
        },
        Expr::Call(name, args) => lower_args(args@, env).push(call_for(name, args.len())),
        Expr::ModuleCall(m, f, args) => lower_args(args@, env).push(
            call_for(qualified(m, f), args.len()),
        ),
        Expr::Add(l, r) => lower_expr(*l, env) + lower_expr(*r, env) + seq![IRInstr::Add],
        Expr::Sub(l, r) => lower_expr(*l, env) + lower_expr(*r, env) + seq![IRInstr::Sub],
        Expr::Mul(l, r) => lower_expr(*l, env) + lower_expr(*r, env) + seq![IRInstr::Mul],
        Expr::Div(l, r) => lower_expr(*l, env) + lower_expr(*r, env) + seq![IRInstr::Div],
        Expr::Mod(l, r) => lower_expr(*l, env) + lower_expr(*r, env) + seq![IRInstr::Mod],
        Expr::Eq(l, r) => lower_expr(*l, env) + lower_expr(*r, env) + seq![IRInstr::Eq],
        Expr::Ne(l, r) => lower_expr(*l, env) + lower_expr(*r, env) + seq![IRInstr::Ne],
        Expr::Lt(l, r) => lower_expr(*l, env) + lower_expr(*r, env) + seq![IRInstr::Lt],
        Expr::Le(l, r) => lower_expr(*l, env) + lower_expr(*r, env) + seq![IRInstr::Le],
        Expr::Gt(l, r) => lower_expr(*l, env) + lower_expr(*r, env) + seq![IRInstr::Gt],
        Expr::Ge(l, r) => lower_expr(*l, env) + lower_expr(*r, env) + seq![IRInstr::Ge],
    }
}

/// The code of a list of arguments, left to right.
pub open spec fn lower_args(args: Seq<Expr>, env: Seq<Seq<char>>) -> Seq<IRInstr>
    decreases args,
{
    if args.len() == 0 {
        seq![]
    } else {
        lower_args(args.drop_last(), env) + lower_expr(args.last(), env)
    }
}

proof fn lemma_same_concat(a1: Seq<IRInstr>, b1: Seq<IRInstr>, a2: Seq<IRInstr>, b2: Seq<IRInstr>)
    requires
        same_code(a1, b1),
        same_code(a2, b2),
    ensures
        same_code(a1 + a2, b1 + b2),
{
    assert forall|k: int| 0 <= k < (a1 + a2).len() implies same_instr(#[trigger] (a1 + a2)[k], (b1 + b2)[k]) by {
        if k < a1.len() {
            assert(same_instr(a1[k], b1[k]));
        } else {
            assert(same_instr(a2[k - a1.len()], b2[k - a1.len()]));
        }
    }
}

fn join3(a: Vec<IRInstr>, b: Vec<IRInstr>, op: IRInstr) -> (r: Vec<IRInstr>)
    ensures
        r@ == a@ + b@ + seq![op],
{
    let mut a = a;
    let mut b = b;
    a.append(&mut b);
    a.push(op);
    a
}

fn join_qualified(m: &String, f: &String) -> (r: String)
    ensures
        r@ == m@ + seq!['.'] + f@,
{
    let mut q = m.clone();
    push_char(&mut q, '.');
    push_str(&mut q, f.as_str());
    q
}

fn call_instr(name: String, argc: usize) -> (r: IRInstr)
    ensures
        r == call_for(name, argc),
{
    match classify(name.as_str()) {
        CallFamily::FS => IRInstr::CallFS(name),
        CallFamily::Web3 => IRInstr::CallWeb3(name),
        CallFamily::AI => IRInstr::CallAI(name),
        CallFamily::Std => IRInstr::CallStd(name),
        CallFamily::User => IRInstr::Call(name, argc),
    }
}

fn lower_arguments(args: &Vec<Expr>, ctx: &LowerCtx) -> (r: Vec<IRInstr>)
    requires
        ctx.wf(),
        ctx.names().len() <= u32::MAX,
    ensures
        same_code(r@, lower_args(args@, ctx.names())),
    decreases args,
{
    let mut r: Vec<IRInstr> = Vec::new();
    let mut i: usize = 0;
    while i < args.len()
        invariant
            ctx.wf(),
            ctx.names().len() <= u32::MAX,
            i <= args@.len(),
            same_code(r@, lower_args(args@.subrange(0, i as int), ctx.names())),
        decreases args@.len() - i,
    {
        let mut c = lower_expression(&args[i], ctx);
        let ghost prev = r@;
        let ghost cv = c@;
        r.append(&mut c);
        proof {
            lemma_same_concat(prev, lower_args(args@.subrange(0, i as int), ctx.names()), cv, lower_expr(args@[i as int], ctx.names()));
            assert(args@.subrange(0, i + 1).drop_last() =~= args@.subrange(0, i as int));
        }
        i = i + 1;
    }
    assert(args@.subrange(0, i as int) =~= args@);
    r
}

/// Lowers an expression.
fn lower_expression(expr: &Expr, ctx: &LowerCtx) -> (r: Vec<IRInstr>)
    requires
        ctx.wf(),
        ctx.names().len() <= u32::MAX,
    ensures
        same_code(r@, lower_expr(*expr, ctx.names())),
    decreases expr,
{
    let env = Ghost(ctx.names());
    match expr {
        Expr::Number(n) => vec![IRInstr::LoadConstInt(*n)],
        Expr::Float(t) => vec![IRInstr::LoadConstFloat(t.clone())],
        Expr::Bool(b) => vec![IRInstr::LoadConstBool(*b)],
        Expr::String(t) => vec![IRInstr::LoadConstString(t.clone())],
        Expr::Identifier(x) => {
            proof {
                lemma_slot_of(env@, x@);
            }
            match ctx.get(x.as_str()) {
                Some(k) => vec![IRInstr::LoadLocal(k)],
                None => vec![IRInstr::LoadVar(x.clone())],
            }
        },
        Expr::Call(name, args) => {
            let mut r = lower_arguments(args, ctx);
            let ghost prev = r@;
            r.push(call_instr(name.clone(), args.len()));
            proof {
                lemma_same_concat(prev, lower_args(args@, env@), seq![r@.last()], seq![call_for(*name, args.len())]);
                assert(r@ =~= prev + seq![r@.last()]);
            }
            r
        },
        Expr::ModuleCall(m, f, args) => {
            let mut r = lower_arguments(args, ctx);
            let q = join_qualified(m, f);
            let ghost prev = r@;
            let ghost want = qualified(*m, *f);
            proof {
                assert(exists|s: String| s@ == m@ + seq!['.'] + f@) by {
                    assert(q@ == m@ + seq!['.'] + f@);
                }
                assert(want@ == q@);
            }
            r.push(call_instr(q, args.len()));
            proof {
                assert(same_instr(r@.last(), call_for(want, args.len())));
                lemma_same_concat(prev, lower_args(args@, env@), seq![r@.last()], seq![call_for(want, args.len())]);
                assert(r@ =~= prev + seq![r@.last()]);
            }
            r
        },
        Expr::Add(a, b) => bin(
            lower_expression(a, ctx),
            lower_expression(b, ctx),
            IRInstr::Add,
            Ghost(lower_expr(**a, env@)),
            Ghost(lower_expr(**b, env@)),
        ),
        Expr::Sub(a, b) => bin(
            lower_expression(a, ctx),
            lower_expression(b, ctx),
            IRInstr::Sub,
            Ghost(lower_expr(**a, env@)),
            Ghost(lower_expr(**b, env@)),
        ),
        Expr::Mul(a, b) => bin(
            lower_expression(a, ctx),
            lower_expression(b, ctx),
            IRInstr::Mul,
            Ghost(lower_expr(**a, env@)),
            Ghost(lower_expr(**b, env@)),
        ),
        Expr::Div(a, b) => bin(
            lower_expression(a, ctx),
            lower_expression(b, ctx),
            IRInstr::Div,
            Ghost(lower_expr(**a, env@)),
            Ghost(lower_expr(**b, env@)),
        ),
        Expr::Mod(a, b) => bin(
            lower_expression(a, ctx),
            lower_expression(b, ctx),
            IRInstr::Mod,
            Ghost(lower_expr(**a, env@)),
            Ghost(lower_expr(**b, env@)),
        ),
        Expr::Eq(a, b) => bin(
            lower_expression(a, ctx),
            lower_expression(b, ctx),
            IRInstr::Eq,
            Ghost(lower_expr(**a, env@)),
            Ghost(lower_expr(**b, env@)),
        ),
        Expr::Ne(a, b) => bin(
            lower_expression(a, ctx),
            lower_expression(b, ctx),
            IRInstr::Ne,
            Ghost(lower_expr(**a, env@)),
            Ghost(lower_expr(**b, env@)),
        ),
        Expr::Lt(a, b) => bin(
            lower_expression(a, ctx),
            lower_expression(b, ctx),
            IRInstr::Lt,
            Ghost(lower_expr(**a, env@)),
            Ghost(lower_expr(**b, env@)),
        ),
        Expr::Le(a, b) => bin(
            lower_expression(a, ctx),
            lower_expression(b, ctx),
            IRInstr::Le,
            Ghost(lower_expr(**a, env@)),
            Ghost(lower_expr(**b, env@)),
        ),
        Expr::Gt(a, b) => bin(
            lower_expression(a, ctx),
            lower_expression(b, ctx),
            IRInstr::Gt,
            Ghost(lower_expr(**a, env@)),
            Ghost(lower_expr(**b, env@)),
        ),
        Expr::Ge(a, b) => bin(
            lower_expression(a, ctx),
            lower_expression(b, ctx),
            IRInstr::Ge,
            Ghost(lower_expr(**a, env@)),
            Ghost(lower_expr(**b, env@)),
        ),
    }
}

fn bin(x: Vec<IRInstr>, y: Vec<IRInstr>, op: IRInstr, sa: Ghost<Seq<IRInstr>>, sb: Ghost<Seq<IRInstr>>) -> (r: Vec<IRInstr>)
    requires
        same_code(x@, sa@),
        same_code(y@, sb@),
    ensures
        same_code(r@, sa@ + sb@ + seq![op]),
{
    let ghost xv = x@;
    let ghost yv = y@;
    let r = join3(x, y, op);
    proof {
        lemma_same_concat(xv, sa@, yv, sb@);
        lemma_same_concat(xv + yv, sa@ + sb@, seq![op], seq![op]);
    }
    r
}

/// The code of a statement placed at index `at`, and the slot names after
/// it. Jump targets are absolute; `if` and `while` jump past their bodies.
pub open spec fn lower_stmt(s: Stmt, env: Seq<Seq<char>>, at: int) -> (Seq<IRInstr>, Seq<Seq<char>>)
    decreases s,
{
    match s {
        Stmt::Import(_) => (seq![], env),
        Stmt::Function { .. } => (seq![], env),
        Stmt::Expression(e) => (lower_expr(e, env), env),
        Stmt::Let { name, value } => {
            let env1 = env.push(name@);
            (lower_expr(value, env1).push(IRInstr::StoreLocal(env.len() as u32)), env1)
        },
        Stmt::Assign { name, value } => match slot_of(env, name@) {
            Some(k) => (lower_expr(value, env).push(IRInstr::StoreLocal(k as u32)), env),
            None => (seq![], env),
        },
        Stmt::If { condition, then_body, else_body } => {
            let c = lower_expr(condition, env);
            let t_at = at + c.len() + 1;
            let t = lower_block(then_body@, env, t_at);
            match else_body {
                Some(eb) => {
                    let e_at = t_at + t.0.len() + 1;
                    let e = lower_block(eb@, t.1, e_at);
                    (
                        c.push(IRInstr::JumpIfFalse(e_at as usize)) + t.0.push(
                            IRInstr::Jump((e_at + e.0.len()) as usize),
                        ) + e.0,
                        e.1,
                    )
                },
                None => (c.push(IRInstr::JumpIfFalse((t_at + t.0.len()) as usize)) + t.0, t.1),
            }
        },
        Stmt::While { condition, body } => {
            let c = lower_expr(condition, env);
            let b_at = at + c.len() + 1;
            let b = lower_block(body@, env, b_at);
            (
                c.push(IRInstr::JumpIfFalse((b_at + b.0.len() + 1) as usize)) + b.0.push(
                    IRInstr::Jump(at as usize),
                ),
                b.1,
            )
        },
        Stmt::Return(e) => (lower_expr(e, env).push(IRInstr::Return), env),
        Stmt::Panic(e) => (lower_expr(e, env).push(IRInstr::Panic), env),
    }
}

/// The code of a statement list placed at index `at`, and the slot names
/// after it.
pub open spec fn lower_block(ss: Seq<Stmt>, env: Seq<Seq<char>>, at: int) -> (Seq<IRInstr>, Seq<Seq<char>>)
    decreases ss,
{
    if ss.len() == 0 {
        (seq![], env)
    } else {
        let a = lower_stmt(ss[0], env, at);
        let b = lower_block(ss.subrange(1, ss.len() as int), a.1, at + a.0.len());
        (a.0 + b.0, b.1)
    }
}

/// Lowers one statement placed at index `at`.
fn lower_statement(stmt: &Stmt, ctx: &mut LowerCtx, at: usize) -> (r: Vec<IRInstr>)
    requires
        old(ctx).wf(),
        lower_stmt(*stmt, old(ctx).names(), at as int).1.len() <= u32::MAX,
        at + lower_stmt(*stmt, old(ctx).names(), at as int).0.len() <= usize::MAX,
    ensures
        final(ctx).wf(),
        final(ctx).names() == lower_stmt(*stmt, old(ctx).names(), at as int).1,
        same_code(r@, lower_stmt(*stmt, old(ctx).names(), at as int).0),
    decreases stmt,
{
    let ghost env = ctx.names();
    proof {
        lemma_env_grows(*stmt, env, at as int);
    }
    match stmt {
        Stmt::Import(_) => Vec::new(),
        Stmt::Function { .. } => Vec::new(),
        Stmt::Expression(e) => lower_expression(e, ctx),
        Stmt::Let { name, value } => {
            let slot = ctx.alloc_slot(name.clone());
            let mut r = lower_expression(value, ctx);
            let ghost prev = r@;
            r.push(IRInstr::StoreLocal(slot));
            proof {
                lemma_same_concat(prev, lower_expr(*value, ctx.names()), seq![r@.last()], seq![r@.last()]);
                assert(r@ =~= prev + seq![r@.last()]);
            }
            r
        },
        Stmt::Assign { name, value } => {
            proof {
                lemma_slot_of(env, name@);
            }
            match ctx.get(name.as_str()) {
                Some(slot) => {
                    let mut r = lower_expression(value, ctx);
                    let ghost prev = r@;
                    r.push(IRInstr::StoreLocal(slot));
                    proof {
                        lemma_same_concat(prev, lower_expr(*value, env), seq![r@.last()], seq![r@.last()]);
                        assert(r@ =~= prev + seq![r@.last()]);
                    }
                    r
                },
                None => Vec::new(),
            }
        },
        Stmt::If { condition, then_body, else_body } => {
            let mut r = lower_expression(condition, ctx);
            let ghost cv = r@;
            let t_at = at + r.len() + 1;
            proof {
                let ts = lower_block(then_body@, env, t_at as int);
                match else_body {
                    Some(eb) => {
                        lemma_block_env_grows(eb@, ts.1, t_at + ts.0.len() + 1);
                    },
                    None => {},
                }
            }
            let mut t = lower_statements(then_body, ctx, t_at);
            let ghost tv = t@;
            let ghost ts = lower_block(then_body@, env, t_at as int);
            match else_body {
                Some(eb) => {
                    let e_at = t_at + t.len() + 1;
                    let mut e = lower_statements(eb, ctx, e_at);
                    let ghost ev = e@;
                    let ghost es = lower_block(eb@, ts.1, e_at as int);
                    let end = e_at + e.len();
                    r.push(IRInstr::JumpIfFalse(e_at));
                    r.append(&mut t);
                    r.push(IRInstr::Jump(end));
                    r.append(&mut e);
                    proof {
                        let c = lower_expr(*condition, env);
                        let jif = seq![IRInstr::JumpIfFalse(e_at)];
                        let jmp = seq![IRInstr::Jump(end)];
                        lemma_same_concat(cv, c, jif, jif);
                        lemma_same_concat(cv + jif, c + jif, tv, ts.0);
                        lemma_same_concat(cv + jif + tv, c + jif + ts.0, jmp, jmp);
                        lemma_same_concat(cv + jif + tv + jmp, c + jif + ts.0 + jmp, ev, es.0);
                        assert(r@ =~= cv + jif + tv + jmp + ev);
                        assert(c.push(IRInstr::JumpIfFalse(e_at)) + ts.0.push(IRInstr::Jump(end)) + es.0
                            =~= c + jif + ts.0 + jmp + es.0);
                    }
                    r
                },
                None => {
                    let end = t_at + t.len();
                    r.push(IRInstr::JumpIfFalse(end));
                    r.append(&mut t);
                    proof {
                        let c = lower_expr(*condition, env);
                        let jif = seq![IRInstr::JumpIfFalse(end)];
                        lemma_same_concat(cv, c, jif, jif);
                        lemma_same_concat(cv + jif, c + jif, tv, ts.0);
                        assert(r@ =~= cv + jif + tv);
                        assert(c.push(IRInstr::JumpIfFalse(end)) + ts.0 =~= c + jif + ts.0);
                    }
                    r
                },
            }
        },
        Stmt::While { condition, body } => {
            let mut r = lower_expression(condition, ctx);
            let ghost cv = r@;
            let b_at = at + r.len() + 1;
            let mut b = lower_statements(body, ctx, b_at);
            let ghost bv = b@;
            let ghost bs = lower_block(body@, env, b_at as int);
            let exit = b_at + b.len() + 1;
            r.push(IRInstr::JumpIfFalse(exit));
            r.append(&mut b);
            r.push(IRInstr::Jump(at));
            proof {
                let c = lower_expr(*condition, env);
                let jif = seq![IRInstr::JumpIfFalse(exit)];
                let jmp = seq![IRInstr::Jump(at)];
                lemma_same_concat(cv, c, jif, jif);
                lemma_same_concat(cv + jif, c + jif, bv, bs.0);
                lemma_same_concat(cv + jif + bv, c + jif + bs.0, jmp, jmp);
                assert(r@ =~= cv + jif + bv + jmp);
                assert(c.push(IRInstr::JumpIfFalse(exit)) + bs.0.push(IRInstr::Jump(at)) =~= c + jif + bs.0
                    + jmp);
            }
            r
        },
        Stmt::Return(e) => {
            let mut r = lower_expression(e, ctx);
            let ghost prev = r@;
            r.push(IRInstr::Return);
            proof {
                lemma_same_concat(prev, lower_expr(*e, env), seq![IRInstr::Return], seq![IRInstr::Return]);
                assert(r@ =~= prev + seq![IRInstr::Return]);
            }
            r
        },
        Stmt::Panic(e) => {
            let mut r = lower_expression(e, ctx);
            let ghost prev = r@;
            r.push(IRInstr::Panic);
            proof {
                lemma_same_concat(prev, lower_expr(*e, env), seq![IRInstr::Panic], seq![IRInstr::Panic]);
                assert(r@ =~= prev + seq![IRInstr::Panic]);
            }
            r
        },
    }
}

/// Lowers a statement list placed at index `at`.
fn lower_statements(ss: &Vec<Stmt>, ctx: &mut LowerCtx, at: usize) -> (r: Vec<IRInstr>)
    requires
        old(ctx).wf(),
        lower_block(ss@, old(ctx).names(), at as int).1.len() <= u32::MAX,
        at + lower_block(ss@, old(ctx).names(), at as int).0.len() <= usize::MAX,
    ensures
        final(ctx).wf(),
        final(ctx).names() == lower_block(ss@, old(ctx).names(), at as int).1,
        same_code(r@, lower_block(ss@, old(ctx).names(), at as int).0),
    decreases ss,
{
    let ghost env0 = ctx.names();
    let ghost total = lower_block(ss@, env0, at as int);
    let mut r: Vec<IRInstr> = Vec::new();
    let mut i: usize = 0;
    assert(ss@.subrange(0, ss@.len() as int) =~= ss@);
    assert(same_code(r@, Seq::<IRInstr>::empty()));
    assert(total.0 =~= Seq::<IRInstr>::empty() + total.0);
    while i < ss.len()
        invariant
            ctx.wf(),
            i <= ss@.len(),
            total == lower_block(ss@, env0, at as int),
            total.1.len() <= u32::MAX,
            at + total.0.len() <= usize::MAX,
            ({
                let rest = lower_block(ss@.subrange(i as int, ss@.len() as int), ctx.names(), at + r@.len());
                &&& total.1 == rest.1
                &&& exists|done: Seq<IRInstr>| same_code(r@, done) && total.0 == done + rest.0
            }),
        decreases ss@.len() - i,
    {
        let ghost env = ctx.names();
        let ghost here = at + r@.len();
        let ghost tail = ss@.subrange(i as int, ss@.len() as int);
        let ghost done = choose|done: Seq<IRInstr>| same_code(r@, done) && total.0 == done + lower_block(tail, env, here).0;
        assert(tail[0] == ss@[i as int]);
        assert(tail.subrange(1, tail.len() as int) =~= ss@.subrange(i + 1, ss@.len() as int));
        let ghost a = lower_stmt(ss@[i as int], env, here);
        let ghost b = lower_block(ss@.subrange(i + 1, ss@.len() as int), a.1, here + a.0.len());
        proof {
            lemma_block_env_grows(ss@.subrange(i + 1, ss@.len() as int), a.1, here + a.0.len());
            assert(total.0 == done + a.0 + b.0);
            assert(done.len() == r@.len());
        }
        let mut c = lower_statement(&ss[i], ctx, at + r.len());
        let ghost prev = r@;
        let ghost cv = c@;
        r.append(&mut c);
        proof {
            lemma_same_concat(prev, done, cv, a.0);
            assert(r@ == prev + cv);
            assert(total.0 == (done + a.0) + b.0);
        }
        i = i + 1;
    }
    proof {
        let rest = lower_block(ss@.subrange(i as int, ss@.len() as int), ctx.names(), at + r@.len());
        assert(ss@.subrange(i as int, ss@.len() as int).len() == 0);
        let done = choose|done: Seq<IRInstr>| same_code(r@, done) && total.0 == done + rest.0;
        assert(total.0 =~= done);
    }
    r
}

/// Slot names only grow: the names after a statement extend those before.
proof fn lemma_env_grows(s: Stmt, env: Seq<Seq<char>>, at: int)
    ensures
        lower_stmt(s, env, at).1.len() >= env.len(),
        lower_stmt(s, env, at).1.subrange(0, env.len() as int) == env,
    decreases s,
{
    match s {
        Stmt::Let { name, value } => {
            assert(env.push(name@).subrange(0, env.len() as int) =~= env);
        },
        Stmt::If { condition, then_body, else_body } => {
            let c = lower_expr(condition, env);
            let t_at = at + c.len() + 1;
            lemma_block_env_grows(then_body@, env, t_at);
            let t = lower_block(then_body@, env, t_at);
            match else_body {
                Some(eb) => {
                    lemma_block_env_grows(eb@, t.1, t_at + t.0.len() + 1);
                    let e = lower_block(eb@, t.1, t_at + t.0.len() + 1);
                    assert(e.1.subrange(0, env.len() as int) =~= e.1.subrange(0, t.1.len() as int).subrange(
                        0,
                        env.len() as int,
                    ));
                },
                None => {},
            }
        },
        Stmt::While { condition, body } => {
            let c = lower_expr(condition, env);
            lemma_block_env_grows(body@, env, at + c.len() + 1);
        },
        _ => {
            assert(env.subrange(0, env.len() as int) =~= env);
        },
    }
}

/// Slot names only grow over a statement list.
proof fn lemma_block_env_grows(ss: Seq<Stmt>, env: Seq<Seq<char>>, at: int)
    ensures
        lower_block(ss, env, at).1.len() >= env.len(),
        lower_block(ss, env, at).1.subrange(0, env.len() as int) == env,
    decreases ss,
{
    if ss.len() == 0 {
        assert(env.subrange(0, env.len() as int) =~= env);
    } else {
        lemma_env_grows(ss[0], env, at);
        let a = lower_stmt(ss[0], env, at);
        lemma_block_env_grows(ss.subrange(1, ss.len() as int), a.1, at + a.0.len());
        let b = lower_block(ss.subrange(1, ss.len() as int), a.1, at + a.0.len());
        assert(b.1.subrange(0, env.len() as int) =~= b.1.subrange(0, a.1.len() as int).subrange(
            0,
            env.len() as int,
        ));
    }
}

/// Jumps in `code` land in `lo..=hi`, and slots stay below `n`.
pub open spec fn code_within(code: Seq<IRInstr>, lo: int, hi: int, n: int) -> bool {
    forall|k: int|
        0 <= k < code.len() ==> match #[trigger] code[k] {
            IRInstr::Jump(t) => lo <= t <= hi,
            IRInstr::JumpIfFalse(t) => lo <= t <= hi,
            IRInstr::LoadLocal(x) => x < n,
            IRInstr::StoreLocal(x) => x < n,
            _ => true,
        }
}

proof fn lemma_within_concat(a: Seq<IRInstr>, b: Seq<IRInstr>, lo: int, hi: int, n: int)
    requires
        code_within(a, lo, hi, n),
        code_within(b, lo, hi, n),
    ensures
        code_within(a + b, lo, hi, n),
{
    assert forall|k: int| 0 <= k < (a + b).len() implies match #[trigger] (a + b)[k] {
        IRInstr::Jump(t) => lo <= t <= hi,
        IRInstr::JumpIfFalse(t) => lo <= t <= hi,
        IRInstr::LoadLocal(x) => x < n,
        IRInstr::StoreLocal(x) => x < n,
        _ => true,
    } by {
        if k < a.len() {
            assert((a + b)[k] == a[k]);
        } else {
            assert((a + b)[k] == b[k - a.len()]);
        }
    }
}

proof fn lemma_within_widen(a: Seq<IRInstr>, lo: int, hi: int, n: int, lo2: int, hi2: int, n2: int)
    requires
        code_within(a, lo, hi, n),
        lo2 <= lo,
        hi <= hi2,
        n <= n2,
    ensures
        code_within(a, lo2, hi2, n2),
{
    assert forall|k: int| 0 <= k < a.len() implies match #[trigger] a[k] {
        IRInstr::Jump(t) => lo2 <= t <= hi2,
        IRInstr::JumpIfFalse(t) => lo2 <= t <= hi2,
        IRInstr::LoadLocal(x) => x < n2,
        IRInstr::StoreLocal(x) => x < n2,
        _ => true,
    } by {
        assert(match a[k] {
            IRInstr::Jump(t) => lo <= t <= hi,
            IRInstr::JumpIfFalse(t) => lo <= t <= hi,
            IRInstr::LoadLocal(x) => x < n,
            IRInstr::StoreLocal(x) => x < n,
            _ => true,
        });
    }
}

/// Expression code has no jump, and reads only slots that `env` names.
proof fn lemma_expr_code(e: Expr, env: Seq<Seq<char>>)
    requires
        env.len() <= u32::MAX,
    ensures
        forall|lo: int, hi: int| #[trigger] code_within(lower_expr(e, env), lo, hi, env.len() as int),
    decreases e,
{
    let c = lower_expr(e, env);
    assert forall|lo: int, hi: int| #[trigger] code_within(c, lo, hi, env.len() as int) by {
        match e {
            Expr::Identifier(x) => {
                lemma_slot_of(env, x@);
            },
            Expr::Call(name, args) => {
                lemma_args_code(args@, env);
                lemma_within_concat(lower_args(args@, env), seq![call_for(name, args.len())], lo, hi, env.len() as int);
                assert(c =~= lower_args(args@, env) + seq![call_for(name, args.len())]);
            },
            Expr::ModuleCall(m, f, args) => {
                lemma_args_code(args@, env);
                lemma_within_concat(lower_args(args@, env), seq![call_for(qualified(m, f), args.len())], lo, hi, env.len() as int);
                assert(c =~= lower_args(args@, env) + seq![call_for(qualified(m, f), args.len())]);
            },
            Expr::Add(a, b) | Expr::Sub(a, b) | Expr::Mul(a, b) | Expr::Div(a, b) | Expr::Mod(a, b)
            | Expr::Eq(a, b) | Expr::Ne(a, b) | Expr::Lt(a, b) | Expr::Le(a, b) | Expr::Gt(a, b)
            | Expr::Ge(a, b) => {
                lemma_expr_code(*a, env);
                lemma_expr_code(*b, env);
                let last = seq![c.last()];
                lemma_within_concat(lower_expr(*a, env), lower_expr(*b, env), lo, hi, env.len() as int);
                lemma_within_concat(lower_expr(*a, env) + lower_expr(*b, env), last, lo, hi, env.len() as int);
                assert(c =~= lower_expr(*a, env) + lower_expr(*b, env) + last);
            },
            _ => {},
        }
    }
}

proof fn lemma_args_code(args: Seq<Expr>, env: Seq<Seq<char>>)
    requires
        env.len() <= u32::MAX,
    ensures
        forall|lo: int, hi: int| #[trigger] code_within(lower_args(args, env), lo, hi, env.len() as int),
    decreases args,
{
    if args.len() > 0 {
        lemma_args_code(args.drop_last(), env);
        lemma_expr_code(args.last(), env);
        assert forall|lo: int, hi: int| #[trigger] code_within(lower_args(args, env), lo, hi, env.len() as int) by {
            lemma_within_concat(lower_args(args.drop_last(), env), lower_expr(args.last(), env), lo, hi, env.len() as int);
        }
    }
}

/// A statement's jumps land inside its own code or just past it, and its
/// slots stay below the number of names after it.
proof fn lemma_stmt_code(s: Stmt, env: Seq<Seq<char>>, at: int)
    requires
        0 <= at,
        at + lower_stmt(s, env, at).0.len() <= usize::MAX,
        lower_stmt(s, env, at).1.len() <= u32::MAX,
    ensures
        code_within(
            lower_stmt(s, env, at).0,
            at,
            at + lower_stmt(s, env, at).0.len(),
            lower_stmt(s, env, at).1.len() as int,
        ),
    decreases s,
{
    lemma_env_grows(s, env, at);
    let r = lower_stmt(s, env, at);
    let hi = at + r.0.len();
    let n = r.1.len() as int;
    match s {
        Stmt::Expression(e) => {
            lemma_expr_code(e, env);
            assert(code_within(lower_expr(e, env), at, hi, env.len() as int));
        },
        Stmt::Let { name, value } => {
            let env1 = env.push(name@);
            lemma_expr_code(value, env1);
            assert(code_within(lower_expr(value, env1), at, hi, n));
            lemma_within_concat(lower_expr(value, env1), seq![IRInstr::StoreLocal(env.len() as u32)], at, hi, n);
            assert(r.0 =~= lower_expr(value, env1) + seq![IRInstr::StoreLocal(env.len() as u32)]);
        },
        Stmt::Assign { name, value } => {
            lemma_slot_of(env, name@);
            match slot_of(env, name@) {
                Some(k) => {
                    lemma_expr_code(value, env);
                    assert(code_within(lower_expr(value, env), at, hi, n));
                    lemma_within_concat(lower_expr(value, env), seq![IRInstr::StoreLocal(k as u32)], at, hi, n);
                    assert(r.0 =~= lower_expr(value, env) + seq![IRInstr::StoreLocal(k as u32)]);
                },
                None => {},
            }
        },
        Stmt::If { condition, then_body, else_body } => {
            let c = lower_expr(condition, env);
            let t_at = at + c.len() + 1;
            let t = lower_block(then_body@, env, t_at);
            lemma_expr_code(condition, env);
            assert(code_within(c, at, hi, env.len() as int));
            lemma_within_widen(c, at, hi, env.len() as int, at, hi, n);
            lemma_block_env_grows(then_body@, env, t_at);
            match else_body {
                Some(eb) => {
                    let e_at = t_at + t.0.len() + 1;
                    let e = lower_block(eb@, t.1, e_at);
                    lemma_block_env_grows(eb@, t.1, e_at);
                    lemma_block_code(then_body@, env, t_at);
                    lemma_block_code(eb@, t.1, e_at);
                    lemma_within_widen(t.0, t_at, t_at + t.0.len(), t.1.len() as int, at, hi, n);
                    lemma_within_widen(e.0, e_at, e_at + e.0.len(), n, at, hi, n);
                    let jif = seq![IRInstr::JumpIfFalse(e_at as usize)];
                    let jmp = seq![IRInstr::Jump((e_at + e.0.len()) as usize)];
                    assert(code_within(jif, at, hi, n));
                    assert(code_within(jmp, at, hi, n));
                    lemma_within_concat(c, jif, at, hi, n);
                    lemma_within_concat(c + jif, t.0, at, hi, n);
                    lemma_within_concat(c + jif + t.0, jmp, at, hi, n);
                    lemma_within_concat(c + jif + t.0 + jmp, e.0, at, hi, n);
                    assert(r.0 =~= c + jif + t.0 + jmp + e.0);
                },
                None => {
                    lemma_block_code(then_body@, env, t_at);
                    lemma_within_widen(t.0, t_at, t_at + t.0.len(), n, at, hi, n);
                    let jif = seq![IRInstr::JumpIfFalse((t_at + t.0.len()) as usize)];
                    assert(code_within(jif, at, hi, n));
                    lemma_within_concat(c, jif, at, hi, n);
                    lemma_within_concat(c + jif, t.0, at, hi, n);
                    assert(r.0 =~= c + jif + t.0);
                },
            }
        },
        Stmt::While { condition, body } => {
            let c = lower_expr(condition, env);
            let b_at = at + c.len() + 1;
            let b = lower_block(body@, env, b_at);
            lemma_expr_code(condition, env);
            assert(code_within(c, at, hi, env.len() as int));
            lemma_within_widen(c, at, hi, env.len() as int, at, hi, n);
            lemma_block_code(body@, env, b_at);
            lemma_within_widen(b.0, b_at, b_at + b.0.len(), n, at, hi, n);
            let jif = seq![IRInstr::JumpIfFalse((b_at + b.0.len() + 1) as usize)];
            let jmp = seq![IRInstr::Jump(at as usize)];
            assert(code_within(jif, at, hi, n));
            assert(code_within(jmp, at, hi, n));
            lemma_within_concat(c, jif, at, hi, n);
            lemma_within_concat(c + jif, b.0, at, hi, n);
            lemma_within_concat(c + jif + b.0, jmp, at, hi, n);
            assert(r.0 =~= c + jif + b.0 + jmp);
        },
        Stmt::Return(e) => {
            lemma_expr_code(e, env);
            assert(code_within(lower_expr(e, env), at, hi, n));
            lemma_within_concat(lower_expr(e, env), seq![IRInstr::Return], at, hi, n);
            assert(r.0 =~= lower_expr(e, env) + seq![IRInstr::Return]);
        },
        Stmt::Panic(e) => {
            lemma_expr_code(e, env);
            assert(code_within(lower_expr(e, env), at, hi, n));
            lemma_within_concat(lower_expr(e, env), seq![IRInstr::Panic], at, hi, n);
            assert(r.0 =~= lower_expr(e, env) + seq![IRInstr::Panic]);
        },
        _ => {},
    }
}

/// The same bounds hold for a statement list.
proof fn lemma_block_code(ss: Seq<Stmt>, env: Seq<Seq<char>>, at: int)
    requires
        0 <= at,
        at + lower_block(ss, env, at).0.len() <= usize::MAX,
        lower_block(ss, env, at).1.len() <= u32::MAX,
    ensures
        code_within(
            lower_block(ss, env, at).0,
            at,
            at + lower_block(ss, env, at).0.len(),
            lower_block(ss, env, at).1.len() as int,
        ),
    decreases ss,
{
    if ss.len() > 0 {
        let a = lower_stmt(ss[0], env, at);
        let rest = ss.subrange(1, ss.len() as int);
        let b = lower_block(rest, a.1, at + a.0.len());
        lemma_block_env_grows(rest, a.1, at + a.0.len());
        lemma_stmt_code(ss[0], env, at);
        lemma_block_code(rest, a.1, at + a.0.len());
        let hi = at + a.0.len() + b.0.len();
        let n = b.1.len() as int;
        lemma_within_widen(a.0, at, at + a.0.len(), a.1.len() as int, at, hi, n);
        lemma_within_widen(b.0, at + a.0.len(), hi, n, at, hi, n);
        lemma_within_concat(a.0, b.0, at, hi, n);
    }
}

/// The names of the parameters, which own the first slots.
pub open spec fn param_names(params: Seq<String>) -> Seq<Seq<char>> {
    params.map_values(|p: String| p@)
}

/// `code`, followed by `LoadConstInt(0), Return` unless it already ends
/// with `Return`.
pub open spec fn with_return(code: Seq<IRInstr>) -> Seq<IRInstr> {
    if code.len() > 0 && code.last() is Return {
        code
    } else {
        code + seq![IRInstr::LoadConstInt(0), IRInstr::Return]
    }
}

/// The body of a function with these parameters fits the machine: its
/// slots fit 32 bits and its code fits memory.
pub open spec fn lowerable(params: Seq<String>, body: Seq<Stmt>) -> bool {
    let b = lower_block(body, param_names(params), 0);
    &&& b.1.len() <= u32::MAX
    &&& b.0.len() + 2 <= usize::MAX
}

/// `f` is the lowering of a function with this name, parameters and body.
pub open spec fn lowered_from(f: IRFunction, name: Seq<char>, params: Seq<String>, body: Seq<Stmt>) -> bool {
    let b = lower_block(body, param_names(params), 0);
    &&& f.name@ == name
    &&& f.param_count == params.len()
    &&& same_code(f.instructions@, with_return(b.0))
    &&& f.local_count == b.1.len()
}

/// A lowered function meets the IR invariants: it ends with `Return`, every
/// jump target is an index of the function or one past its end, every slot
/// is below the local count, and the parameters fit in the locals.
pub proof fn lowered_code_is_wf(params: Seq<String>, body: Seq<Stmt>)
    requires
        lowerable(params, body),
    ensures
        ({
            let b = lower_block(body, param_names(params), 0);
            &&& ends_with_return(with_return(b.0))
            &&& targets_in_range(with_return(b.0))
            &&& slots_below(with_return(b.0), b.1.len() as int)
            &&& params.len() <= b.1.len()
        }),
{
    let env = param_names(params);
    let b = lower_block(body, env, 0);
    lemma_block_env_grows(body, env, 0);
    lemma_block_code(body, env, 0);
    let w = with_return(b.0);
    let n = b.1.len() as int;
    if !(b.0.len() > 0 && b.0.last() is Return) {
        let tail = seq![IRInstr::LoadConstInt(0), IRInstr::Return];
        assert(code_within(tail, 0, b.0.len() as int, n));
        lemma_within_concat(b.0, tail, 0, b.0.len() as int, n);
    }
    lemma_within_widen(w, 0, b.0.len() as int, n, 0, w.len() as int, n);
    assert forall|k: int| 0 <= k < w.len() implies match #[trigger] w[k] {
        IRInstr::Jump(t) => t <= w.len(),
        IRInstr::JumpIfFalse(t) => t <= w.len(),
        _ => true,
    } by {
        assert(match w[k] {
            IRInstr::Jump(t) => 0 <= t <= w.len(),
            IRInstr::JumpIfFalse(t) => 0 <= t <= w.len(),
            IRInstr::LoadLocal(x) => x < n,
            IRInstr::StoreLocal(x) => x < n,
            _ => true,
        });
    }
    assert forall|k: int| 0 <= k < w.len() implies match #[trigger] w[k] {
        IRInstr::LoadLocal(x) => x < n,
        IRInstr::StoreLocal(x) => x < n,
        _ => true,
    } by {
        assert(match w[k] {
            IRInstr::Jump(t) => 0 <= t <= w.len(),
            IRInstr::JumpIfFalse(t) => 0 <= t <= w.len(),
            IRInstr::LoadLocal(x) => x < n,
            IRInstr::StoreLocal(x) => x < n,
            _ => true,
        });
    }
}

proof fn lemma_same_code_wf(a: Seq<IRInstr>, b: Seq<IRInstr>, n: int)
    requires
        same_code(a, b),
        ends_with_return(b),
        targets_in_range(b),
        slots_below(b, n),
    ensures
        ends_with_return(a),
        targets_in_range(a),
        slots_below(a, n),
{
    assert(same_instr(a[a.len() - 1], b[b.len() - 1]));
    assert forall|k: int| 0 <= k < a.len() implies match #[trigger] a[k] {
        IRInstr::Jump(t) => t <= a.len(),
        IRInstr::JumpIfFalse(t) => t <= a.len(),
        _ => true,
    } by {
        assert(same_instr(a[k], b[k]));
        assert(match b[k] {
            IRInstr::Jump(t) => t <= b.len(),
            IRInstr::JumpIfFalse(t) => t <= b.len(),
            _ => true,
        });
    }
    assert forall|k: int| 0 <= k < a.len() implies match #[trigger] a[k] {
        IRInstr::LoadLocal(x) => x < n,
        IRInstr::StoreLocal(x) => x < n,
        _ => true,
    } by {
        assert(same_instr(a[k], b[k]));
        assert(match b[k] {
            IRInstr::LoadLocal(x) => x < n,
            IRInstr::StoreLocal(x) => x < n,
            _ => true,
        });
    }
}

/// Lowers one function: parameters take the first slots, the body follows,
/// and `LoadConstInt(0), Return` closes a body that does not end with
/// `Return`.
fn lower_function(name: &String, params: &Vec<String>, body: &Vec<Stmt>) -> (r: IRFunction)
    requires
        lowerable(params@, body@),
    ensures
        lowered_from(r, name@, params@, body@),
        r.wf(),
{
    let ghost env = param_names(params@);
    proof {
        lemma_block_env_grows(body@, env, 0);
        lowered_code_is_wf(params@, body@);
    }
    let mut ctx = LowerCtx::new();
    let mut i: usize = 0;
    while i < params.len()
        invariant
            ctx.wf(),
            i <= params@.len(),
            params@.len() <= u32::MAX,
            ctx.names() == param_names(params@.subrange(0, i as int)),
        decreases params@.len() - i,
    {
        ctx.alloc_slot(params[i].clone());
        i = i + 1;
        assert(param_names(params@.subrange(0, i as int)) =~= param_names(params@.subrange(0, i - 1)).push(
            params@[i - 1]@,
        ));
    }
    assert(params@.subrange(0, i as int) =~= params@);
    let mut code = lower_statements(body, &mut ctx, 0);
    let ghost b = lower_block(body@, env, 0);
    let n = code.len();
    let ends = n > 0 && match &code[n - 1] {
        IRInstr::Return => true,
        _ => false,
    };
    proof {
        if n > 0 {
            assert(same_instr(code@[n - 1], b.0[n - 1]));
        }
    }
    if !ends {
        let ghost prev = code@;
        code.push(IRInstr::LoadConstInt(0));
        code.push(IRInstr::Return);
        proof {
            let tail = seq![IRInstr::LoadConstInt(0), IRInstr::Return];
            lemma_same_concat(prev, b.0, tail, tail);
            assert(code@ =~= prev + tail);
        }
    }
    let local_count = ctx.num_locals() as usize;
    proof {
        lemma_same_code_wf(code@, with_return(b.0), local_count as int);
    }
    IRFunction { name: name.clone(), param_count: params.len(), instructions: code, local_count }
}

/// The function statements of `ss`, in order.
pub open spec fn function_stmts(ss: Seq<Stmt>) -> Seq<Stmt>
    decreases ss.len(),
{
    if ss.len() == 0 {
        seq![]
    } else if ss.last() is Function {
        function_stmts(ss.drop_last()).push(ss.last())
    } else {
        function_stmts(ss.drop_last())
    }
}

/// Every function of `ss` fits the machine once lowered.
pub open spec fn all_lowerable(ss: Seq<Stmt>) -> bool {
    forall|k: int|
        0 <= k < ss.len() ==> match #[trigger] ss[k] {
            Stmt::Function { params, body, .. } => lowerable(params@, body@),
            _ => true,
        }
}

/// `f` is the lowering of the function statement `s`.
pub open spec fn lowered_stmt(f: IRFunction, s: Stmt) -> bool {
    match s {
        Stmt::Function { name, params, body, .. } => lowered_from(f, name@, params@, body@),
        _ => false,
    }
}

/// Lowers every function of a flattened compilation unit, in order; other
/// top-level statements produce nothing. Each function ends with `Return`,
/// jumps inside itself, and uses slots below its local count.
pub fn lower(stmts: &Vec<Stmt>) -> (r: IRModule)
    requires
        all_lowerable(stmts@),
    ensures
        r.functions@.len() == function_stmts(stmts@).len(),
        forall|j: int|
            0 <= j < r.functions@.len() ==> lowered_stmt(
                #[trigger] r.functions@[j],
                function_stmts(stmts@)[j],
            ) && r.functions@[j].wf(),
{
    let mut module = IRModule::new();
    let mut i: usize = 0;
    while i < stmts.len()
        invariant
            all_lowerable(stmts@),
            i <= stmts@.len(),
            module.functions@.len() == function_stmts(stmts@.subrange(0, i as int)).len(),
            forall|j: int|
                0 <= j < module.functions@.len() ==> lowered_stmt(
                    #[trigger] module.functions@[j],
                    function_stmts(stmts@.subrange(0, i as int))[j],
                ) && module.functions@[j].wf(),
        decreases stmts@.len() - i,
    {
        let ghost before = function_stmts(stmts@.subrange(0, i as int));
        assert(stmts@.subrange(0, i + 1).drop_last() =~= stmts@.subrange(0, i as int));
        match &stmts[i] {
            Stmt::Function { name, params, body, .. } => {
                let f = lower_function(name, params, body);
                module.add_function(f);
            },
            _ => {},
        }
        i = i + 1;
    }
    assert(stmts@.subrange(0, i as int) =~= stmts@);
    module
}

} // verus!

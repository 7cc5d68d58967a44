//! The type checker: function signatures, local types, and the rules for
//! arithmetic, comparison, assignment, conditions and `panic`.
use vstd::prelude::*;
use crate::ast::{Expr, Stmt};
use crate::types::{Type, type_label};
use crate::text::push_str;

verus! {

/// A function's parameter types and return type.
#[derive(Debug, Clone)]
pub struct FunctionSignature {
    pub params: Vec<Type>,
    pub return_type: Type,
}

/// Local types: name and type, latest binding last.
pub type Syms = Seq<(Seq<char>, Type)>;

/// Signatures: name, parameter count (all parameters are `Int`) and
/// return type, latest registration last.
pub type Sigs = Seq<(Seq<char>, (nat, Type))>;

/// The checker's state as values: local types, signatures, errors.
pub type CheckState = (Syms, Sigs, Seq<Seq<char>>);

/// The latest binding of `name` in an association list.
pub open spec fn lookup<V>(list: Seq<(Seq<char>, V)>, name: Seq<char>) -> Option<V>
    decreases list.len(),
{
    if list.len() == 0 {
        None
    } else if list.last().0 == name {
        Some(list.last().1)
    } else {
        lookup(list.drop_last(), name)
    }
}

/// The type of an expression; `Unknown` marks an ill-typed or unknown
/// operand.
pub open spec fn type_of(e: Expr, syms: Syms, fns: Sigs) -> Type
    decreases e,
{
    match e {
        Expr::Number(_) => Type::Int,
        Expr::Float(_) => Type::Float,
        Expr::Bool(_) => Type::Bool,
        Expr::String(_) => Type::String,
        Expr::Identifier(x) => match lookup(syms, x@) {
            Some(t) => t,
            None => Type::Unknown,
        },
        Expr::Call(name, _) => match lookup(fns, name@) {
            Some(sig) => sig.1,
            None => Type::Int,
        },
        Expr::ModuleCall(..) => Type::Int,
        Expr::Add(a, b) | Expr::Sub(a, b) | Expr::Mul(a, b) | Expr::Div(a, b) | Expr::Mod(a, b) => {
            if type_of(*a, syms, fns) == Type::Int && type_of(*b, syms, fns) == Type::Int {
                Type::Int
            } else {
                Type::Unknown
            }
        },
        Expr::Eq(..) | Expr::Ne(..) | Expr::Lt(..) | Expr::Le(..) | Expr::Gt(..) | Expr::Ge(..) => Type::Bool,
    }
}

/// The error of an arithmetic operator on operands of types `a` and `b`:
/// none when both are `Int` or either is `Unknown`.
pub open spec fn arith_error(a: Type, b: Type) -> Seq<Seq<char>> {
    if a != Type::Unknown && b != Type::Unknown && !(a == Type::Int && b == Type::Int) {
        seq!["Type error: arithmetic operators require Int operands, got "@ + type_label(a) + " and "@ + type_label(b)]
    } else {
        seq![]
    }
}

/// The error of a comparison on operands of types `a` and `b`.
pub open spec fn compare_error(a: Type, b: Type) -> Seq<Seq<char>> {
    if a != Type::Unknown && b != Type::Unknown && !(a == Type::Int && b == Type::Int) {
        seq!["Type error: comparison operators require Int operands, got "@ + type_label(a) + " and "@ + type_label(b)]
    } else {
        seq![]
    }
}

/// The errors an expression raises, in source order.
pub open spec fn expr_errors(e: Expr, syms: Syms, fns: Sigs) -> Seq<Seq<char>>
    decreases e,
{
    match e {
        Expr::Call(name, args) => args_errors(args@, syms, fns, name@, lookup(fns, name@)) + match lookup(fns, name@) {
            Some(sig) => if args.len() != sig.0 {
                seq!["Type error: function '"@ + name@ + "' called with the wrong number of arguments"@]
            } else {
                seq![]
            },
            None => seq![],
        },
        Expr::ModuleCall(_, _, args) => args_errors(args@, syms, fns, seq![], None),
        Expr::Add(a, b) | Expr::Sub(a, b) | Expr::Mul(a, b) | Expr::Div(a, b) | Expr::Mod(a, b) => expr_errors(
            *a,
            syms,
            fns,
        ) + expr_errors(*b, syms, fns) + arith_error(type_of(*a, syms, fns), type_of(*b, syms, fns)),
        Expr::Eq(a, b) | Expr::Ne(a, b) | Expr::Lt(a, b) | Expr::Le(a, b) | Expr::Gt(a, b) | Expr::Ge(a, b) => expr_errors(
            *a,
            syms,
            fns,
        ) + expr_errors(*b, syms, fns) + compare_error(type_of(*a, syms, fns), type_of(*b, syms, fns)),
        _ => seq![],
    }
}

/// The errors of call arguments: each argument's own, then a mismatch
/// with the signature's `Int` parameter at its position.
pub open spec fn args_errors(args: Seq<Expr>, syms: Syms, fns: Sigs, name: Seq<char>, sig: Option<(nat, Type)>) -> Seq<
    Seq<char>,
>
    decreases args,
{
    if args.len() == 0 {
        seq![]
    } else {
        let t = type_of(args.last(), syms, fns);
        args_errors(args.drop_last(), syms, fns, name, sig) + expr_errors(args.last(), syms, fns) + match sig {
            Some(s) => if args.len() - 1 < s.0 && t != Type::Int && t != Type::Unknown {
                seq![
                    "Type error: argument of function '"@ + name + "' expects "@ + type_label(Type::Int) + ", got "@
                        + type_label(t),
                ]
            } else {
                seq![]
            },
            None => seq![],
        }
    }
}

/// The error of an `if` or `while` condition of type `t`.
pub open spec fn condition_error(what: Seq<char>, t: Type) -> Seq<Seq<char>> {
    if t != Type::Int && t != Type::Bool && t != Type::Unknown {
        seq!["Type error: "@ + what + " condition must be Int or Bool, got "@ + type_label(t)]
    } else {
        seq![]
    }
}

/// The return type agreed by `ts`, ignoring `Unknown`: `Void` when there is
/// no return, `None` when two known types differ.
pub open spec fn unify(ts: Seq<Type>) -> Option<Type>
    decreases ts.len(),
{
    if ts.len() == 0 {
        Some(Type::Void)
    } else {
        match unify(ts.drop_last()) {
            None => None,
            Some(t) => if ts.last() == Type::Unknown {
                if ts.len() == 1 { Some(Type::Unknown) } else { Some(t) }
            } else if t == Type::Void || t == Type::Unknown || t == ts.last() {
                Some(ts.last())
            } else {
                None
            },
        }
    }
}

/// The types of the `return` expressions of a block, in order, looking
/// into `if` and `while` bodies but not into nested functions.
pub open spec fn returns_of(ss: Seq<Stmt>, syms: Syms, fns: Sigs) -> Seq<Type>
    decreases ss,
{
    if ss.len() == 0 {
        seq![]
    } else {
        returns_in(ss[0], syms, fns) + returns_of(ss.subrange(1, ss.len() as int), syms, fns)
    }
}

/// The types of the `return` expressions of one statement.
pub open spec fn returns_in(s: Stmt, syms: Syms, fns: Sigs) -> Seq<Type>
    decreases s,
{
    match s {
        Stmt::Return(e) => seq![type_of(e, syms, fns)],
        Stmt::If { then_body, else_body, .. } => returns_of(then_body@, syms, fns) + match else_body {
            Some(b) => returns_of(b@, syms, fns),
            None => seq![],
        },
        Stmt::While { body, .. } => returns_of(body@, syms, fns),
        _ => seq![],
    }
}

/// `syms` with every binding of `name` removed.
pub open spec fn remove_key(syms: Syms, name: Seq<char>) -> Syms
    decreases syms.len(),
{
    if syms.len() == 0 {
        seq![]
    } else if syms.last().0 == name {
        remove_key(syms.drop_last(), name)
    } else {
        remove_key(syms.drop_last(), name).push(syms.last())
    }
}

/// `syms` with each parameter bound to `Int`, in order.
pub open spec fn with_params(syms: Syms, ps: Seq<String>) -> Syms
    decreases ps.len(),
{
    if ps.len() == 0 {
        syms
    } else {
        with_params(syms, ps.drop_last()).push((ps.last()@, Type::Int))
    }
}

/// `syms` with every binding of each parameter removed, in order.
pub open spec fn without_params(syms: Syms, ps: Seq<String>) -> Syms
    decreases ps.len(),
{
    if ps.len() == 0 {
        syms
    } else {
        without_params(remove_key(syms, ps[0]@), ps.subrange(1, ps.len() as int))
    }
}

/// The return type a function's body gives it: the agreed type of its
/// returns, `Unknown` when they disagree.
pub open spec fn inferred(ts: Seq<Type>) -> Type {
    match unify(ts) {
        Some(t) => t,
        None => Type::Unknown,
    }
}

/// The state after checking one statement.
pub open spec fn stmt_state(s: Stmt, st: CheckState) -> CheckState
    decreases s,
{
    let (syms, fns, errs) = st;
    match s {
        Stmt::Import(_) => st,
        Stmt::Expression(e) => (syms, fns, errs + expr_errors(e, syms, fns)),
        Stmt::Let { name, value } => (
            syms.push((name@, type_of(value, syms, fns))),
            fns,
            errs + expr_errors(value, syms, fns),
        ),
        Stmt::Assign { name, value } => {
            let known = lookup(syms, name@);
            let vt = type_of(value, syms, fns);
            let var = match known {
                Some(t) => t,
                None => Type::Unknown,
            };
            (
                syms,
                fns,
                errs + (if known is None {
                    seq!["Type error: variable '"@ + name@ + "' not defined"@]
                } else {
                    seq![]
                }) + expr_errors(value, syms, fns) + (if var != Type::Unknown && vt != Type::Unknown && var
                    != vt {
                    seq!["Type error: cannot assign "@ + type_label(vt) + " to variable of type "@ + type_label(var)]
                } else {
                    seq![]
                }),
            )
        },
        Stmt::If { condition, then_body, else_body } => {
            let st1 = (
                syms,
                fns,
                errs + expr_errors(condition, syms, fns) + condition_error("if"@, type_of(condition, syms, fns)),
            );
            let st2 = block_state(then_body@, st1);
            match else_body {
                Some(b) => block_state(b@, st2),
                None => st2,
            }
        },
        Stmt::While { condition, body } => block_state(
            body@,
            (
                syms,
                fns,
                errs + expr_errors(condition, syms, fns) + condition_error("while"@, type_of(condition, syms, fns)),
            ),
        ),
        Stmt::Return(e) => (syms, fns, errs + expr_errors(e, syms, fns)),
        Stmt::Panic(e) => {
            let t = type_of(e, syms, fns);
            (
                syms,
                fns,
                errs + expr_errors(e, syms, fns) + (if t != Type::String && t != Type::Unknown {
                    seq!["Type error: panic() requires a string message, got "@ + type_label(t)]
                } else {
                    seq![]
                }),
            )
        },
        Stmt::Function { name, params, return_type, body, .. } => {
            let n = params.len() as nat;
            let inner = block_state(
                body@,
                (with_params(syms.push((name@, return_type)), params@), fns.push((name@, (n, return_type))), errs),
            );
            let ts = returns_of(body@, inner.0, inner.1);
            let t = inferred(ts);
            (
                without_params(inner.0.push((name@, t)), params@),
                inner.1.push((name@, (n, t))),
                inner.2 + (if unify(ts) is None {
                    seq!["Type error: inconsistent return types in function '"@ + name@ + "'"@]
                } else {
                    seq![]
                }),
            )
        },
    }
}

/// The state after checking a block of statements in order.
pub open spec fn block_state(ss: Seq<Stmt>, st: CheckState) -> CheckState
    decreases ss,
{
    if ss.len() == 0 {
        st
    } else {
        block_state(ss.subrange(1, ss.len() as int), stmt_state(ss[0], st))
    }
}

/// The checker's state: local types, function signatures, and the errors
/// found so far, in source order.
pub struct TypeChecker {
    symbols: Vec<(String, Type)>,
    functions: Vec<(String, FunctionSignature)>,
    errors: Vec<String>,
}

impl TypeChecker {
    /// Local types, latest binding last.
    pub closed spec fn syms(&self) -> Syms {
        self.symbols@.map_values(|p: (String, Type)| (p.0@, p.1))
    }

    /// Registered signatures, latest last.
    pub closed spec fn fns(&self) -> Sigs {
        self.functions@.map_values(
            |p: (String, FunctionSignature)| (p.0@, (p.1.params@.len(), p.1.return_type)),
        )
    }

    /// The errors found so far.
    pub closed spec fn errs(&self) -> Seq<Seq<char>> {
        self.errors@.map_values(|e: String| e@)
    }

    /// The whole state as values.
    pub open spec fn state(&self) -> CheckState {
        (self.syms(), self.fns(), self.errs())
    }

    /// Every registered parameter is an `Int`.
    pub closed spec fn wf(&self) -> bool {
        forall|k: int, i: int|
            0 <= k < self.functions@.len() && 0 <= i < self.functions@[k].1.params@.len()
                ==> #[trigger] self.functions@[k].1.params@[i] == Type::Int
    }

    /// A checker with empty tables.
    pub fn new() -> (r: Self)
        ensures
            r.wf(),
            r.syms().len() == 0,
            r.fns().len() == 0,
            r.errs().len() == 0,
    {
        let r = TypeChecker { symbols: Vec::new(), functions: Vec::new(), errors: Vec::new() };
        assert(r.errs() =~= Seq::<Seq<char>>::empty());
        assert(r.syms() =~= Seq::<(Seq<char>, Type)>::empty());
        assert(r.fns() =~= Seq::<(Seq<char>, (nat, Type))>::empty());
        r
    }

    fn report(&mut self, msg: String)
        ensures
            final(self).errs() == old(self).errs().push(msg@),
            final(self).syms() == old(self).syms(),
            final(self).functions@ == old(self).functions@,
    {
        self.errors.push(msg);
        assert(self.errs() =~= old(self).errs().push(msg@));
    }

    fn lookup_symbol(&self, name: &String) -> (r: Option<Type>)
        ensures
            r == lookup(self.syms(), name@),
    {
        let mut i: usize = self.symbols.len();
        assert(self.syms().subrange(0, i as int) =~= self.syms());
        while i > 0
            invariant
                i <= self.symbols@.len(),
                lookup(self.syms(), name@) == lookup(self.syms().subrange(0, i as int), name@),
            decreases i,
        {
            assert(self.syms().subrange(0, i as int).drop_last() =~= self.syms().subrange(0, i - 1));
            assert(self.syms()[i - 1] == (self.symbols@[i - 1].0@, self.symbols@[i - 1].1));
            if self.symbols[i - 1].0 == *name {
                return Some(self.symbols[i - 1].1);
            }
            i = i - 1;
        }
        None
    }

    fn lookup_function(&self, name: &String) -> (r: Option<usize>)
        ensures
            match lookup(self.fns(), name@) {
                Some(sig) => r matches Some(i) && i < self.functions@.len() && self.fns()[i as int].1 == sig,
                None => r is None,
            },
    {
        let mut i: usize = self.functions.len();
        assert(self.fns().subrange(0, i as int) =~= self.fns());
        while i > 0
            invariant
                i <= self.functions@.len(),
                lookup(self.fns(), name@) == lookup(self.fns().subrange(0, i as int), name@),
            decreases i,
        {
            assert(self.fns().subrange(0, i as int).drop_last() =~= self.fns().subrange(0, i - 1));
            if self.functions[i - 1].0 == *name {
                return Some(i - 1);
            }
            i = i - 1;
        }
        None
    }

    fn set_symbol(&mut self, name: String, t: Type)
        ensures
            final(self).syms() == old(self).syms().push((name@, t)),
            final(self).errs() == old(self).errs(),
            final(self).functions@ == old(self).functions@,
    {
        self.symbols.push((name, t));
        assert(self.syms() =~= old(self).syms().push((name@, t)));
    }

    /// The type of an expression, reporting what is ill-typed in it.
    #[verifier::rlimit(60)]
    fn check_expr(&mut self, expr: &Expr) -> (r: Type)
        requires
            old(self).wf(),
        ensures
            r == type_of(*expr, old(self).syms(), old(self).fns()),
            final(self).syms() == old(self).syms(),
            final(self).functions@ == old(self).functions@,
            final(self).errs() == old(self).errs() + expr_errors(*expr, old(self).syms(), old(self).fns()),
        decreases expr,
    {
        let ghost e0 = self.errs();
        let ghost syms = self.syms();
        let ghost fns = self.fns();
        match expr {
            Expr::Number(_) => {
                assert(self.errs() =~= e0 + Seq::<Seq<char>>::empty());
                Type::Int
            },
            Expr::Float(_) => {
                assert(self.errs() =~= e0 + Seq::<Seq<char>>::empty());
                Type::Float
            },
            Expr::Bool(_) => {
                assert(self.errs() =~= e0 + Seq::<Seq<char>>::empty());
                Type::Bool
            },
            Expr::String(_) => {
                assert(self.errs() =~= e0 + Seq::<Seq<char>>::empty());
                Type::String
            },
            Expr::Identifier(name) => {
                assert(self.errs() =~= e0 + Seq::<Seq<char>>::empty());
                match self.lookup_symbol(name) {
                    Some(t) => t,
                    None => Type::Unknown,
                }
            },
            Expr::Call(name, args) => {
                let found = self.lookup_function(name);
                let sig = match found {
                    Some(f) => Some(self.functions[f].1.params.len()),
                    None => None,
                };
                self.check_args(args, sig, name);
                let ghost e1 = self.errs();
                match found {
                    Some(f) => {
                        assert(fns[f as int] == (self.functions@[f as int].0@, (
                            self.functions@[f as int].1.params@.len(),
                            self.functions@[f as int].1.return_type,
                        )));
                        let ghost sg = fns[f as int].1;
                        assert(lookup(fns, name@) == Some(sg));
                        assert(sig->0 as nat == sg.0);
                        assert(e1 == e0 + args_errors(args@, syms, fns, name@, Some((sig->0 as nat, sg.1))));
                        assert(Some((sig->0 as nat, sg.1)) == Some(sg));
                        if args.len() != self.functions[f].1.params.len() {
                            let mut msg = String::from_str("Type error: function '");
                            push_str(&mut msg, name.as_str());
                            push_str(&mut msg, "' called with the wrong number of arguments");
                            self.report(msg);
                        }
                        assert(self.errs() =~= e0 + expr_errors(*expr, syms, fns));
                        self.functions[f].1.return_type
                    },
                    None => {
                        assert(lookup(fns, name@) is None);
                        assert(e1 == e0 + args_errors(args@, syms, fns, name@, None));
                        assert(self.errs() =~= e0 + expr_errors(*expr, syms, fns));
                        Type::Int
                    },
                }
            },
            Expr::ModuleCall(_, _, args) => {
                let empty = String::new();
                self.check_args(args, None, &empty);
                assert(self.errs() == e0 + args_errors(args@, syms, fns, Seq::<char>::empty(), None));
                assert(seq![] =~= Seq::<char>::empty());
                assert(self.errs() =~= e0 + expr_errors(*expr, syms, fns));
                Type::Int
            },
            Expr::Add(a, b) | Expr::Sub(a, b) | Expr::Mul(a, b) | Expr::Div(a, b) | Expr::Mod(a, b) => {
                let ta = self.check_expr(a);
                let tb = self.check_expr(b);
                if ta != Type::Unknown && tb != Type::Unknown && !(ta == Type::Int && tb == Type::Int) {
                    let mut msg = String::from_str("Type error: arithmetic operators require Int operands, got ");
                    push_str(&mut msg, ta.to_string().as_str());
                    push_str(&mut msg, " and ");
                    push_str(&mut msg, tb.to_string().as_str());
                    self.report(msg);
                }
                assert(self.errs() =~= e0 + expr_errors(*expr, syms, fns));
                if ta == Type::Int && tb == Type::Int {
                    Type::Int
                } else {
                    Type::Unknown
                }
            },
            Expr::Eq(a, b) | Expr::Ne(a, b) | Expr::Lt(a, b) | Expr::Le(a, b) | Expr::Gt(a, b) | Expr::Ge(a, b) => {
                let ta = self.check_expr(a);
                let tb = self.check_expr(b);
                if ta != Type::Unknown && tb != Type::Unknown && !(ta == Type::Int && tb == Type::Int) {
                    let mut msg = String::from_str("Type error: comparison operators require Int operands, got ");
                    push_str(&mut msg, ta.to_string().as_str());
                    push_str(&mut msg, " and ");
                    push_str(&mut msg, tb.to_string().as_str());
                    self.report(msg);
                }
                assert(self.errs() =~= e0 + expr_errors(*expr, syms, fns));
                Type::Bool
            },
        }
    }

    /// Checks each argument, and its type against the `Int` parameters of a
    /// signature with `sig` parameters when there is one.
    fn check_args(&mut self, args: &Vec<Expr>, sig: Option<usize>, name: &String)
        requires
            old(self).wf(),
        ensures
            final(self).syms() == old(self).syms(),
            final(self).functions@ == old(self).functions@,
            forall|ret: Type|
                #![trigger args_errors(args@, old(self).syms(), old(self).fns(), name@, Some((sig->0 as nat, ret)))]
                sig is Some ==> final(self).errs() == old(self).errs() + args_errors(
                    args@,
                    old(self).syms(),
                    old(self).fns(),
                    name@,
                    Some((sig->0 as nat, ret)),
                ),
            sig is None ==> forall|nm: Seq<char>|
                #![trigger args_errors(args@, old(self).syms(), old(self).fns(), nm, None)]
                final(self).errs() == old(self).errs() + args_errors(args@, old(self).syms(), old(self).fns(), nm, None),
        decreases args,
    {
        let ghost e0 = self.errs();
        let ghost syms = self.syms();
        let ghost fns = self.fns();
        let mut i: usize = 0;
        while i < args.len()
            invariant
                self.wf(),
                self.syms() == syms,
                self.fns() == fns,
                self.functions@ == old(self).functions@,
                syms == old(self).syms(),
                fns == old(self).fns(),
                e0 == old(self).errs(),
                i <= args@.len(),
                forall|ret: Type|
                    #![trigger args_errors(args@.subrange(0, i as int), syms, fns, name@, Some((sig->0 as nat, ret)))]
                    sig is Some ==> self.errs() == e0 + args_errors(
                        args@.subrange(0, i as int),
                        syms,
                        fns,
                        name@,
                        Some((sig->0 as nat, ret)),
                    ),
                sig is None ==> forall|nm: Seq<char>|
                    #![trigger args_errors(args@.subrange(0, i as int), syms, fns, nm, None)]
                    self.errs() == e0 + args_errors(args@.subrange(0, i as int), syms, fns, nm, None),
            decreases args@.len() - i,
        {
            let ghost e1 = self.errs();
            assert(args@.subrange(0, i + 1).drop_last() =~= args@.subrange(0, i as int));
            assert(args@.subrange(0, i + 1).last() == args@[i as int]);
            let t = self.check_expr(&args[i]);
            let ghost e2 = self.errs();
            match sig {
                Some(n) => {
                    if i < n && t != Type::Int && t != Type::Unknown {
                        let mut msg = String::from_str("Type error: argument of function '");
                        push_str(&mut msg, name.as_str());
                        push_str(&mut msg, "' expects ");
                        push_str(&mut msg, Type::Int.to_string().as_str());
                        push_str(&mut msg, ", got ");
                        push_str(&mut msg, t.to_string().as_str());
                        self.report(msg);
                    }
                },
                None => {},
            }
            i = i + 1;
            assert forall|ret: Type|
                #![trigger args_errors(args@.subrange(0, i as int), syms, fns, name@, Some((sig->0 as nat, ret)))]
                sig is Some implies self.errs() == e0 + args_errors(
                    args@.subrange(0, i as int),
                    syms,
                    fns,
                    name@,
                    Some((sig->0 as nat, ret)),
                ) by {
                assert(e1 == e0 + args_errors(args@.subrange(0, i - 1), syms, fns, name@, Some((sig->0 as nat, ret))));
                assert(self.errs() =~= e0 + args_errors(args@.subrange(0, i as int), syms, fns, name@, Some((sig->0 as nat, ret))));
            }
            assert forall|nm: Seq<char>|
                #![trigger args_errors(args@.subrange(0, i as int), syms, fns, nm, None)]
                sig is None implies self.errs() == e0 + args_errors(args@.subrange(0, i as int), syms, fns, nm, None) by {
                assert(e1 == e0 + args_errors(args@.subrange(0, i - 1), syms, fns, nm, None));
                assert(self.errs() =~= e0 + args_errors(args@.subrange(0, i as int), syms, fns, nm, None));
            }
        }
        assert(args@.subrange(0, i as int) =~= args@);
    }

    /// The type of an expression, without reporting anything.
    fn infer_expr(&self, expr: &Expr) -> (r: Type)
        ensures
            r == type_of(*expr, self.syms(), self.fns()),
        decreases expr,
    {
        match expr {
            Expr::Number(_) => Type::Int,
            Expr::Float(_) => Type::Float,
            Expr::Bool(_) => Type::Bool,
            Expr::String(_) => Type::String,
            Expr::Identifier(name) => match self.lookup_symbol(name) {
                Some(t) => t,
                None => Type::Unknown,
            },
            Expr::Call(name, _) => match self.lookup_function(name) {
                Some(f) => self.functions[f].1.return_type,
                None => Type::Int,
            },
            Expr::ModuleCall(..) => Type::Int,
            Expr::Add(a, b) | Expr::Sub(a, b) | Expr::Mul(a, b) | Expr::Div(a, b) | Expr::Mod(a, b) => {
                if self.infer_expr(a) == Type::Int && self.infer_expr(b) == Type::Int {
                    Type::Int
                } else {
                    Type::Unknown
                }
            },
            Expr::Eq(..) | Expr::Ne(..) | Expr::Lt(..) | Expr::Le(..) | Expr::Gt(..) | Expr::Ge(..) => Type::Bool,
        }
    }

    /// The types of the `return` expressions of a block, in order.
    fn collect_return_types_in_body(&self, body: &Vec<Stmt>) -> (r: Vec<Type>)
        ensures
            r@ == returns_of(body@, self.syms(), self.fns()),
        decreases body,
    {
        let mut out: Vec<Type> = Vec::new();
        let mut i: usize = 0;
        assert(body@.subrange(0, body@.len() as int) =~= body@);
        assert(out@ + returns_of(body@, self.syms(), self.fns()) =~= returns_of(body@, self.syms(), self.fns()));
        while i < body.len()
            invariant
                i <= body@.len(),
                out@ + returns_of(body@.subrange(i as int, body@.len() as int), self.syms(), self.fns())
                    == returns_of(body@, self.syms(), self.fns()),
            decreases body@.len() - i,
        {
            let ghost tail = body@.subrange(i as int, body@.len() as int);
            assert(tail[0] == body@[i as int]);
            assert(tail.subrange(1, tail.len() as int) =~= body@.subrange(i + 1, body@.len() as int));
            let mut part = self.returns_in_stmt(&body[i]);
            let ghost pv = part@;
            out.append(&mut part);
            assert(out@ + returns_of(body@.subrange(i + 1, body@.len() as int), self.syms(), self.fns())
                =~= (out@.subrange(0, out@.len() - pv.len()) + (pv + returns_of(body@.subrange(i + 1, body@.len() as int), self.syms(), self.fns()))));
            i = i + 1;
        }
        assert(body@.subrange(i as int, body@.len() as int) =~= Seq::<Stmt>::empty());
        assert(out@ =~= out@ + returns_of(Seq::<Stmt>::empty(), self.syms(), self.fns()));
        out
    }

    fn returns_in_stmt(&self, stmt: &Stmt) -> (r: Vec<Type>)
        ensures
            r@ == returns_in(*stmt, self.syms(), self.fns()),
        decreases stmt,
    {
        match stmt {
            Stmt::Return(e) => {
                let t = self.infer_expr(e);
                let r = vec![t];
                assert(r@ =~= seq![t]);
                r
            },
            Stmt::If { then_body, else_body, .. } => {
                let mut r = self.collect_return_types_in_body(then_body);
                match else_body {
                    Some(b) => {
                        let mut e = self.collect_return_types_in_body(b);
                        r.append(&mut e);
                    },
                    None => {
                        assert(r@ =~= r@ + Seq::<Type>::empty());
                    },
                }
                r
            },
            Stmt::While { body, .. } => self.collect_return_types_in_body(body),
            _ => {
                let r: Vec<Type> = Vec::new();
                assert(r@ =~= Seq::<Type>::empty());
                r
            },
        }
    }

    fn remove_symbol(&mut self, name: &String)
        ensures
            final(self).syms() == remove_key(old(self).syms(), name@),
            final(self).errs() == old(self).errs(),
            final(self).functions@ == old(self).functions@,
    {
        let ghost syms = self.syms();
        let mut kept: Vec<(String, Type)> = Vec::new();
        let mut i: usize = 0;
        while i < self.symbols.len()
            invariant
                i <= self.symbols@.len(),
                syms == self.syms(),
                kept@.map_values(|p: (String, Type)| (p.0@, p.1)) == remove_key(syms.subrange(0, i as int), name@),
            decreases self.symbols@.len() - i,
        {
            assert(syms.subrange(0, i + 1).drop_last() =~= syms.subrange(0, i as int));
            assert(syms[i as int] == (self.symbols@[i as int].0@, self.symbols@[i as int].1));
            if self.symbols[i].0 != *name {
                let e = (self.symbols[i].0.clone(), self.symbols[i].1);
                let ghost before = kept@.map_values(|p: (String, Type)| (p.0@, p.1));
                kept.push(e);
                assert(kept@.map_values(|p: (String, Type)| (p.0@, p.1)) =~= before.push(syms[i as int]));
            }
            i = i + 1;
        }
        assert(syms.subrange(0, i as int) =~= syms);
        self.symbols = kept;
    }

    /// Registers a signature with all-`Int` parameters.
    fn register(&mut self, name: &String, param_count: usize, ret: Type)
        requires
            old(self).wf(),
        ensures
            final(self).wf(),
            final(self).fns() == old(self).fns().push((name@, (param_count as nat, ret))),
            final(self).syms() == old(self).syms(),
            final(self).errs() == old(self).errs(),
    {
        let mut ptypes: Vec<Type> = Vec::new();
        let mut i: usize = 0;
        while i < param_count
            invariant
                i <= param_count,
                ptypes@.len() == i,
                forall|j: int| 0 <= j < i ==> #[trigger] ptypes@[j] == Type::Int,
            decreases param_count - i,
        {
            ptypes.push(Type::Int);
            i = i + 1;
        }
        let ghost before = self.fns();
        self.functions.push((name.clone(), FunctionSignature { params: ptypes, return_type: ret }));
        assert(self.fns() =~= before.push((name@, (param_count as nat, ret))));
        assert(self.wf()) by {
            assert forall|k: int, j: int|
                0 <= k < self.functions@.len() && 0 <= j < self.functions@[k].1.params@.len() implies #[trigger] self.functions@[k].1.params@[j]
                    == Type::Int by {
                if k < self.functions@.len() - 1 {
                    assert(self.functions@[k] == old(self).functions@[k]);
                }
            }
        }
    }

    /// Checks one statement, recording what is ill-typed, as `stmt_state`
    /// states.
    fn check_stmt(&mut self, stmt: &Stmt)
        requires
            old(self).wf(),
        ensures
            final(self).wf(),
            final(self).state() == stmt_state(*stmt, old(self).state()),
        decreases stmt,
    {
        let ghost syms = self.syms();
        let ghost fns = self.fns();
        let ghost e0 = self.errs();
        match stmt {
            Stmt::Import(_) => {},
            Stmt::Function { name, params, return_type, body, .. } => {
                let n = params.len();
                self.register(name, n, *return_type);
                self.set_symbol(name.clone(), *return_type);
                let ghost base = self.syms();
                let mut i: usize = 0;
                assert(params@.subrange(0, 0) =~= Seq::<String>::empty());
                while i < n
                    invariant
                        self.wf(),
                        n == params@.len(),
                        i <= n,
                        self.syms() == with_params(base, params@.subrange(0, i as int)),
                        self.fns() == fns.push((name@, (n as nat, *return_type))),
                        self.errs() == e0,
                    decreases n - i,
                {
                    self.set_symbol(params[i].clone(), Type::Int);
                    assert(params@.subrange(0, i + 1).drop_last() =~= params@.subrange(0, i as int));
                    i = i + 1;
                }
                assert(params@.subrange(0, i as int) =~= params@);
                self.check_block(body);
                let ghost inner = self.state();
                let found_returns = self.collect_return_types_in_body(body);
                let t = match unify_types(&found_returns) {
                    Some(t) => t,
                    None => {
                        let mut msg = String::from_str("Type error: inconsistent return types in function '");
                        push_str(&mut msg, name.as_str());
                        push_str(&mut msg, "'");
                        self.report(msg);
                        Type::Unknown
                    },
                };
                self.register(name, n, t);
                self.set_symbol(name.clone(), t);
                let ghost s5 = self.syms();
                let ghost e5 = self.errs();
                let ghost f5 = self.fns();
                let mut i: usize = 0;
                assert(params@.subrange(0, n as int) =~= params@);
                while i < n
                    invariant
                        self.wf(),
                        n == params@.len(),
                        i <= n,
                        without_params(self.syms(), params@.subrange(i as int, n as int)) == without_params(s5, params@),
                        self.fns() == f5,
                        self.errs() == e5,
                    decreases n - i,
                {
                    let ghost rest = params@.subrange(i as int, n as int);
                    assert(rest[0] == params@[i as int]);
                    assert(rest.subrange(1, rest.len() as int) =~= params@.subrange(i + 1, n as int));
                    self.remove_symbol(&params[i]);
                    i = i + 1;
                }
                assert(params@.subrange(n as int, n as int) =~= Seq::<String>::empty());
                assert(self.state() == stmt_state(*stmt, (syms, fns, e0)));
            },
            Stmt::Expression(e) => {
                self.check_expr(e);
            },
            Stmt::Let { name, value } => {
                let t = self.check_expr(value);
                self.set_symbol(name.clone(), t);
            },
            Stmt::Assign { name, value } => {
                let known = self.lookup_symbol(name);
                if known.is_none() {
                    let mut msg = String::from_str("Type error: variable '");
                    push_str(&mut msg, name.as_str());
                    push_str(&mut msg, "' not defined");
                    self.report(msg);
                }
                let ghost e1 = self.errs();
                let vt = self.check_expr(value);
                let var_type = match known {
                    Some(t) => t,
                    None => Type::Unknown,
                };
                if var_type != Type::Unknown && vt != Type::Unknown && var_type != vt {
                    let mut msg = String::from_str("Type error: cannot assign ");
                    push_str(&mut msg, vt.to_string().as_str());
                    push_str(&mut msg, " to variable of type ");
                    push_str(&mut msg, var_type.to_string().as_str());
                    self.report(msg);
                }
                assert(self.errs() =~= stmt_state(*stmt, (syms, fns, e0)).2);
            },
            Stmt::If { condition, then_body, else_body } => {
                self.check_condition(condition, "if");
                self.check_block(then_body);
                match else_body {
                    Some(b) => {
                        self.check_block(b);
                    },
                    None => {},
                }
            },
            Stmt::While { condition, body } => {
                self.check_condition(condition, "while");
                self.check_block(body);
            },
            Stmt::Return(e) => {
                self.check_expr(e);
            },
            Stmt::Panic(e) => {
                let t = self.check_expr(e);
                if t != Type::String && t != Type::Unknown {
                    let mut msg = String::from_str("Type error: panic() requires a string message, got ");
                    push_str(&mut msg, t.to_string().as_str());
                    self.report(msg);
                }
                assert(self.errs() =~= stmt_state(*stmt, (syms, fns, e0)).2);
            },
        }
    }

    fn check_condition(&mut self, condition: &Expr, what: &str)
        requires
            old(self).wf(),
        ensures
            final(self).wf(),
            final(self).state() == (
                old(self).syms(),
                old(self).fns(),
                old(self).errs() + expr_errors(*condition, old(self).syms(), old(self).fns()) + condition_error(
                    what@,
                    type_of(*condition, old(self).syms(), old(self).fns()),
                ),
            ),
    {
        let ghost e0 = self.errs();
        let t = self.check_expr(condition);
        if t != Type::Int && t != Type::Bool && t != Type::Unknown {
            let mut msg = String::from_str("Type error: ");
            push_str(&mut msg, what);
            push_str(&mut msg, " condition must be Int or Bool, got ");
            push_str(&mut msg, t.to_string().as_str());
            self.report(msg);
        }
        assert(self.errs() =~= e0 + expr_errors(*condition, old(self).syms(), old(self).fns()) + condition_error(
            what@,
            t,
        ));
    }

    fn check_block(&mut self, body: &Vec<Stmt>)
        requires
            old(self).wf(),
        ensures
            final(self).wf(),
            final(self).state() == block_state(body@, old(self).state()),
        decreases body,
    {
        let mut i: usize = 0;
        assert(body@.subrange(0, body@.len() as int) =~= body@);
        while i < body.len()
            invariant
                self.wf(),
                i <= body@.len(),
                block_state(body@.subrange(i as int, body@.len() as int), self.state()) == block_state(
                    body@,
                    old(self).state(),
                ),
            decreases body@.len() - i,
        {
            let ghost tail = body@.subrange(i as int, body@.len() as int);
            assert(tail[0] == body@[i as int]);
            assert(tail.subrange(1, tail.len() as int) =~= body@.subrange(i + 1, body@.len() as int));
            self.check_stmt(&body[i]);
            i = i + 1;
        }
        assert(body@.subrange(i as int, body@.len() as int) =~= Seq::<Stmt>::empty());
    }

    /// Checks a flattened compilation unit. Every error is collected, in
    /// source order, as `block_state` states; the result is `Ok` exactly
    /// when there is none.
    pub fn check(&mut self, stmts: &Vec<Stmt>) -> (r: Result<(), Vec<String>>)
        requires
            old(self).wf(),
        ensures
            final(self).wf(),
            final(self).state() == block_state(stmts@, old(self).state()),
            r is Ok <==> final(self).errs().len() == 0,
            r matches Err(es) ==> es@.map_values(|e: String| e@) == final(self).errs(),
    {
        self.check_block(stmts);
        if self.errors.len() == 0 {
            Ok(())
        } else {
            Err(self.get_errors())
        }
    }

    /// The current signature of a function: its parameters, all `Int`, and
    /// its return type.
    pub fn signature(&self, name: &str) -> (r: Option<FunctionSignature>)
        requires
            self.wf(),
        ensures
            r is None <==> lookup(self.fns(), name@) is None,
            r matches Some(sig) ==> lookup(self.fns(), name@) == Some((sig.params@.len(), sig.return_type))
                && forall|i: int| 0 <= i < sig.params@.len() ==> #[trigger] sig.params@[i] == Type::Int,
    {
        let key = name.to_owned();
        match self.lookup_function(&key) {
            Some(f) => {
                let entry = &self.functions[f].1;
                let mut params: Vec<Type> = Vec::new();
                let mut i: usize = 0;
                while i < entry.params.len()
                    invariant
                        i <= entry.params@.len(),
                        params@.len() == i,
                        forall|j: int| 0 <= j < i ==> #[trigger] params@[j] == Type::Int,
                    decreases entry.params@.len() - i,
                {
                    params.push(Type::Int);
                    i = i + 1;
                }
                Some(FunctionSignature { params, return_type: entry.return_type })
            },
            None => None,
        }
    }

    /// The errors found so far.
    pub fn get_errors(&self) -> (r: Vec<String>)
        ensures
            r@.map_values(|e: String| e@) == self.errs(),
    {
        let mut out: Vec<String> = Vec::new();
        let mut i: usize = 0;
        while i < self.errors.len()
            invariant
                i <= self.errors@.len(),
                out@.map_values(|e: String| e@) == self.errs().subrange(0, i as int),
            decreases self.errors@.len() - i,
        {
            let c = self.errors[i].clone();
            assert(c@ == self.errs()[i as int]);
            let ghost prev = out@;
            out.push(c);
            assert(out@.map_values(|e: String| e@) =~= prev.map_values(|e: String| e@).push(c@));
            i = i + 1;
        }
        assert(self.errs().subrange(0, i as int) =~= self.errs());
        out
    }
}

/// The agreed return type of `ts`, as `unify` states.
fn unify_types(ts: &Vec<Type>) -> (r: Option<Type>)
    ensures
        r == unify(ts@),
{
    let mut acc: Option<Type> = Some(Type::Void);
    let mut i: usize = 0;
    assert(ts@.subrange(0, 0) =~= Seq::<Type>::empty());
    while i < ts.len()
        invariant
            i <= ts@.len(),
            acc == unify(ts@.subrange(0, i as int)),
        decreases ts@.len() - i,
    {
        let t = ts[i];
        assert(ts@.subrange(0, i + 1).drop_last() =~= ts@.subrange(0, i as int));
        acc = match acc {
            None => None,
            Some(a) => if t == Type::Unknown {
                if i == 0 { Some(Type::Unknown) } else { Some(a) }
            } else if a == Type::Void || a == Type::Unknown || a == t {
                Some(t)
            } else {
                None
            },
        };
        i = i + 1;
    }
    assert(ts@.subrange(0, i as int) =~= ts@);
    acc
}

} // verus!

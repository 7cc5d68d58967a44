//! Recursive-descent parser from tokens to the syntax tree, with the
//! grammar it implements written out as spec functions over the text.
use vstd::prelude::*;
use crate::ast::{Expr, Stmt};
use crate::error::CompileError;
use crate::lexer::{Lexer, LexFault, scan, skip_spaces, line_at, column_at, lemma_scan_progress, lemma_skip_spaces};
use crate::token::{Token, TokenView};
use crate::types::Type;

verus! {

/// An expression as plain values.
pub enum ExprV {
    Number(i64),
    Float(Seq<char>),
    Bool(bool),
    Str(Seq<char>),
    Ident(Seq<char>),
    Call(Seq<char>, Seq<ExprV>),
    ModuleCall(Seq<char>, Seq<char>, Seq<ExprV>),
    Add(Box<ExprV>, Box<ExprV>),
    Sub(Box<ExprV>, Box<ExprV>),
    Mul(Box<ExprV>, Box<ExprV>),
    Div(Box<ExprV>, Box<ExprV>),
    Mod(Box<ExprV>, Box<ExprV>),
    Eq(Box<ExprV>, Box<ExprV>),
    Ne(Box<ExprV>, Box<ExprV>),
    Lt(Box<ExprV>, Box<ExprV>),
    Le(Box<ExprV>, Box<ExprV>),
    Gt(Box<ExprV>, Box<ExprV>),
    Ge(Box<ExprV>, Box<ExprV>),
}

/// A statement as plain values.
pub enum StmtV {
    Import(Seq<char>),
    Function { name: Seq<char>, params: Seq<Seq<char>>, return_type: Type, body: Seq<StmtV>, exported: bool },
    Expression(ExprV),
    Let { name: Seq<char>, value: ExprV },
    Assign { name: Seq<char>, value: ExprV },
    If { condition: ExprV, then_body: Seq<StmtV>, else_body: Option<Seq<StmtV>> },
    While { condition: ExprV, body: Seq<StmtV> },
    Return(ExprV),
    Panic(ExprV),
}

/// The value of an expression.
pub open spec fn expr_view(e: Expr) -> ExprV
    decreases e,
{
    match e {
        Expr::Number(n) => ExprV::Number(n),
        Expr::Float(t) => ExprV::Float(t@),
        Expr::Bool(b) => ExprV::Bool(b),
        Expr::String(t) => ExprV::Str(t@),
        Expr::Identifier(t) => ExprV::Ident(t@),
        Expr::Call(n, args) => ExprV::Call(n@, exprs_view(args@)),
        Expr::ModuleCall(m, f, args) => ExprV::ModuleCall(m@, f@, exprs_view(args@)),
        Expr::Add(a, b) => ExprV::Add(Box::new(expr_view(*a)), Box::new(expr_view(*b))),
        Expr::Sub(a, b) => ExprV::Sub(Box::new(expr_view(*a)), Box::new(expr_view(*b))),
        Expr::Mul(a, b) => ExprV::Mul(Box::new(expr_view(*a)), Box::new(expr_view(*b))),
        Expr::Div(a, b) => ExprV::Div(Box::new(expr_view(*a)), Box::new(expr_view(*b))),
        Expr::Mod(a, b) => ExprV::Mod(Box::new(expr_view(*a)), Box::new(expr_view(*b))),
        Expr::Eq(a, b) => ExprV::Eq(Box::new(expr_view(*a)), Box::new(expr_view(*b))),
        Expr::Ne(a, b) => ExprV::Ne(Box::new(expr_view(*a)), Box::new(expr_view(*b))),
        Expr::Lt(a, b) => ExprV::Lt(Box::new(expr_view(*a)), Box::new(expr_view(*b))),
        Expr::Le(a, b) => ExprV::Le(Box::new(expr_view(*a)), Box::new(expr_view(*b))),
        Expr::Gt(a, b) => ExprV::Gt(Box::new(expr_view(*a)), Box::new(expr_view(*b))),
        Expr::Ge(a, b) => ExprV::Ge(Box::new(expr_view(*a)), Box::new(expr_view(*b))),
    }
}

/// The values of a list of expressions.
pub open spec fn exprs_view(es: Seq<Expr>) -> Seq<ExprV>
    decreases es,
{
    if es.len() == 0 {
        seq![]
    } else {
        exprs_view(es.drop_last()).push(expr_view(es.last()))
    }
}

/// The texts of a list of names.
pub open spec fn names_view(ps: Seq<String>) -> Seq<Seq<char>> {
    ps.map_values(|p: String| p@)
}

/// The value of a statement.
pub open spec fn stmt_view(s: Stmt) -> StmtV
    decreases s,
{
    match s {
        Stmt::Import(m) => StmtV::Import(m@),
        Stmt::Function { name, params, return_type, body, exported } => StmtV::Function {
            name: name@,
            params: names_view(params@),
            return_type,
            body: stmts_view(body@),
            exported,
        },
        Stmt::Expression(e) => StmtV::Expression(expr_view(e)),
        Stmt::Let { name, value } => StmtV::Let { name: name@, value: expr_view(value) },
        Stmt::Assign { name, value } => StmtV::Assign { name: name@, value: expr_view(value) },
        Stmt::If { condition, then_body, else_body } => StmtV::If {
            condition: expr_view(condition),
            then_body: stmts_view(then_body@),
            else_body: match else_body {
                Some(b) => Some(stmts_view(b@)),
                None => None,
            },
        },
        Stmt::While { condition, body } => StmtV::While { condition: expr_view(condition), body: stmts_view(body@) },
        Stmt::Return(e) => StmtV::Return(expr_view(e)),
        Stmt::Panic(e) => StmtV::Panic(expr_view(e)),
    }
}

/// The values of a list of statements.
pub open spec fn stmts_view(ss: Seq<Stmt>) -> Seq<StmtV>
    decreases ss,
{
    if ss.len() == 0 {
        seq![]
    } else {
        stmts_view(ss.drop_last()).push(stmt_view(ss.last()))
    }
}

/// Where parsing stands: the lexer's position after the current token, the
/// current token, and the line and column where the current token starts.
pub type PState = (int, TokenView, int, int);

/// An error as plain values: message, line, column and hint.
pub type PErr = (Seq<char>, int, int, Option<Seq<char>>);

/// A diagnostic as plain values.
pub open spec fn err_view(e: CompileError) -> PErr {
    (e.message@, e.line as int, e.column as int, match e.help {
        Some(h) => Some(h@),
        None => None,
    })
}

/// The error `msg` at the current token.
pub open spec fn perr(msg: Seq<char>, st: PState, help: Option<Seq<char>>) -> PErr {
    (msg, st.2, st.3, help)
}

/// The state after reading one more token, or the lexer's error at it.
pub open spec fn sp_advance(s: Seq<char>, st: PState) -> Result<PState, PErr> {
    let q = skip_spaces(s, st.0);
    match scan(s, q).0 {
        Ok(t) => Ok((scan(s, q).1, t, line_at(s, q), column_at(s, q))),
        Err(f) => Err((f.0, line_at(s, q), column_at(s, q), Some(f.1))),
    }
}

/// What is left to read: twice the characters after the position, plus one
/// unless the current token is the end.
pub open spec fn left_of(s: Seq<char>, st: PState) -> int {
    (s.len() - st.0) * 2 + if st.1 is EOF { 0int } else { 1int }
}

/// The bound on the work a grammar rule of rank `level` does from `st`.
pub open spec fn fuel_of(s: Seq<char>, st: PState, level: int) -> nat {
    (left_of(s, st) * 16 + level) as nat
}

/// A placeholder error for a rule called without enough fuel; the parser's
/// contracts show that this never happens.
pub open spec fn stuck() -> PErr {
    (seq![], 0, 0, None)
}

/// `a op b` for a binary operator token.
pub open spec fn binary(op: TokenView, a: ExprV, b: ExprV) -> ExprV {
    match op {
        TokenView::Star => ExprV::Mul(Box::new(a), Box::new(b)),
        TokenView::Slash => ExprV::Div(Box::new(a), Box::new(b)),
        TokenView::Percent => ExprV::Mod(Box::new(a), Box::new(b)),
        TokenView::Plus => ExprV::Add(Box::new(a), Box::new(b)),
        TokenView::Minus => ExprV::Sub(Box::new(a), Box::new(b)),
        TokenView::Greater => ExprV::Gt(Box::new(a), Box::new(b)),
        TokenView::Less => ExprV::Lt(Box::new(a), Box::new(b)),
        TokenView::GreaterEqual => ExprV::Ge(Box::new(a), Box::new(b)),
        TokenView::LessEqual => ExprV::Le(Box::new(a), Box::new(b)),
        TokenView::EqualEqual => ExprV::Eq(Box::new(a), Box::new(b)),
        _ => ExprV::Ne(Box::new(a), Box::new(b)),
    }
}

/// `*`, `/` or `%`.
pub open spec fn mul_op(t: TokenView) -> bool {
    t is Star || t is Slash || t is Percent
}

/// `+` or `-`.
pub open spec fn add_op(t: TokenView) -> bool {
    t is Plus || t is Minus
}

/// `<`, `<=`, `>`, `>=`, `==` or `!=`.
pub open spec fn cmp_op(t: TokenView) -> bool {
    t is Less || t is LessEqual || t is Greater || t is GreaterEqual || t is EqualEqual || t is NotEqual
}

/// A primary: a literal, an identifier, or a parenthesized expression.
pub open spec fn sp_primary(s: Seq<char>, st: PState, fuel: nat) -> Result<(ExprV, PState), PErr>
    decreases fuel,
{
    match st.1 {
        TokenView::Number(n) => match sp_advance(s, st) { Ok(st2) => { Ok((ExprV::Number(n), st2)) }, Err(e) => Err(e) },
        TokenView::Float(t) => match sp_advance(s, st) { Ok(st2) => { Ok((ExprV::Float(t), st2)) }, Err(e) => Err(e) },
        TokenView::True => match sp_advance(s, st) { Ok(st2) => { Ok((ExprV::Bool(true), st2)) }, Err(e) => Err(e) },
        TokenView::False => match sp_advance(s, st) { Ok(st2) => { Ok((ExprV::Bool(false), st2)) }, Err(e) => Err(e) },
        TokenView::String(t) => match sp_advance(s, st) { Ok(st2) => { Ok((ExprV::Str(t), st2)) }, Err(e) => Err(e) },
        TokenView::Identifier(t) => match sp_advance(s, st) { Ok(st2) => { Ok((ExprV::Ident(t), st2)) }, Err(e) => Err(e) },
        TokenView::LParen => match sp_advance(s, st) { Ok(st2) => { { let f = fuel_of(s, st2, 7); if f < fuel { match sp_expression(s, st2, f) { Ok((e, st3)) => { if st3.1 is RParen { match sp_advance(s, st3) { Ok(st4) => { Ok((e, st4)) }, Err(e) => Err(e) } } else { Ok((e, st3)) } }, Err(e) => Err(e) } } else { Err(stuck()) } } }, Err(e) => Err(e) },
        _ => Err(perr("Unexpected token in expression"@, st, None)),
    }
}

/// Arguments after `(`, separated by optional commas, up to `)` or the end.
pub open spec fn sp_args_rest(s: Seq<char>, st: PState, acc: Seq<ExprV>, fuel: nat) -> Result<(Seq<ExprV>, PState), PErr>
    decreases fuel,
{
    if st.1 is RParen {
        match sp_advance(s, st) { Ok(st2) => { Ok((acc, st2)) }, Err(e) => Err(e) }
    } else if st.1 is EOF {
        Ok((acc, st))
    } else {
        { let f = fuel_of(s, st, 7); if f < fuel { match sp_expression(s, st, f) { Ok((a, st2)) => { if st2.1 is Comma { match sp_advance(s, st2) { Ok(st3) => { { let f = fuel_of(s, st3, 8); if f < fuel { match sp_args_rest(s, st3, acc.push(a), f) { Ok((v, st4)) => { Ok((v, st4)) }, Err(e) => Err(e) } } else { Err(stuck()) } } }, Err(e) => Err(e) } } else { { let f = fuel_of(s, st2, 8); if f < fuel { match sp_args_rest(s, st2, acc.push(a), f) { Ok((v, st4)) => { Ok((v, st4)) }, Err(e) => Err(e) } } else { Err(stuck()) } } } }, Err(e) => Err(e) } } else { Err(stuck()) } }
    }
}

/// `(` and the arguments that follow it.
pub open spec fn sp_arguments(s: Seq<char>, st: PState, fuel: nat) -> Result<(Seq<ExprV>, PState), PErr>
    decreases fuel,
{
    match sp_advance(s, st) { Ok(st2) => { { let f = fuel_of(s, st2, 8); if f < fuel { match sp_args_rest(s, st2, seq![], f) { Ok((v, st3)) => { Ok((v, st3)) }, Err(e) => Err(e) } } else { Err(stuck()) } } }, Err(e) => Err(e) }
}

/// What follows an identifier: a module call, a call, or nothing.
pub open spec fn sp_call_after(s: Seq<char>, st: PState, name: Seq<char>, fuel: nat) -> Result<(ExprV, PState), PErr>
    decreases fuel,
{
    if st.1 is Dot {
        match sp_advance(s, st) { Ok(st2) => { match st2.1 { TokenView::Identifier(fname) => { match sp_advance(s, st2) { Ok(st3) => { if st3.1 is LParen { { let f = fuel_of(s, st3, 0); if f < fuel { match sp_arguments(s, st3, f) { Ok((args, st4)) => { Ok((ExprV::ModuleCall(name, fname, args), st4)) }, Err(e) => Err(e) } } else { Err(stuck()) } } } else { Err(perr("Expected '(' after module function name"@, st3, None)) } }, Err(e) => Err(e) } }, _ => Err(perr("Expected function name after '.'"@, st2, None)) } }, Err(e) => Err(e) }
    } else if st.1 is LParen {
        { let f = fuel_of(s, st, 0); if f < fuel { match sp_arguments(s, st, f) { Ok((args, st2)) => { Ok((ExprV::Call(name, args), st2)) }, Err(e) => Err(e) } } else { Err(stuck()) } }
    } else {
        Ok((ExprV::Ident(name), st))
    }
}

/// A primary, and the call it starts.
pub open spec fn sp_primary_call(s: Seq<char>, st: PState, fuel: nat) -> Result<(ExprV, PState), PErr>
    decreases fuel,
{
    match st.1 {
        TokenView::Identifier(n) => match sp_advance(s, st) { Ok(st2) => { { let f = fuel_of(s, st2, 1); if f < fuel { match sp_call_after(s, st2, n, f) { Ok((e, st3)) => { Ok((e, st3)) }, Err(e) => Err(e) } } else { Err(stuck()) } } }, Err(e) => Err(e) },
        _ => { let f = fuel_of(s, st, 0); if f < fuel { match sp_primary(s, st, f) { Ok((e, st2)) => { Ok((e, st2)) }, Err(e) => Err(e) } } else { Err(stuck()) } },
    }
}

/// `* / %` operators after `first`, to the left.
pub open spec fn sp_mul_after(s: Seq<char>, st: PState, first: ExprV, fuel: nat) -> Result<(ExprV, PState), PErr>
    decreases fuel,
{
    if mul_op(st.1) {
        match sp_advance(s, st) { Ok(st2) => { { let f = fuel_of(s, st2, 2); if f < fuel { match sp_primary_call(s, st2, f) { Ok((r, st3)) => { { let f = fuel_of(s, st3, 3); if f < fuel { match sp_mul_after(s, st3, binary(st.1, first, r), f) { Ok((e, st4)) => { Ok((e, st4)) }, Err(e) => Err(e) } } else { Err(stuck()) } } }, Err(e) => Err(e) } } else { Err(stuck()) } } }, Err(e) => Err(e) }
    } else {
        Ok((first, st))
    }
}

/// `+ -` operators after `first`, each right operand a product, to the left.
pub open spec fn sp_add_after(s: Seq<char>, st: PState, first: ExprV, fuel: nat) -> Result<(ExprV, PState), PErr>
    decreases fuel,
{
    if add_op(st.1) {
        match sp_advance(s, st) { Ok(st2) => { { let f = fuel_of(s, st2, 2); if f < fuel { match sp_primary_call(s, st2, f) { Ok((r, st3)) => { { let f = fuel_of(s, st3, 3); if f < fuel { match sp_mul_after(s, st3, r, f) { Ok((r2, st4)) => { { let f = fuel_of(s, st4, 4); if f < fuel { match sp_add_after(s, st4, binary(st.1, first, r2), f) { Ok((e, st5)) => { Ok((e, st5)) }, Err(e) => Err(e) } } else { Err(stuck()) } } }, Err(e) => Err(e) } } else { Err(stuck()) } } }, Err(e) => Err(e) } } else { Err(stuck()) } } }, Err(e) => Err(e) }
    } else {
        Ok((first, st))
    }
}

/// Comparisons after `first`, each right operand a sum, to the left.
pub open spec fn sp_cmp_after(s: Seq<char>, st: PState, first: ExprV, fuel: nat) -> Result<(ExprV, PState), PErr>
    decreases fuel,
{
    if cmp_op(st.1) {
        match sp_advance(s, st) { Ok(st2) => { { let f = fuel_of(s, st2, 2); if f < fuel { match sp_primary_call(s, st2, f) { Ok((r, st3)) => { { let f = fuel_of(s, st3, 3); if f < fuel { match sp_mul_after(s, st3, r, f) { Ok((r2, st4)) => { { let f = fuel_of(s, st4, 4); if f < fuel { match sp_add_after(s, st4, r2, f) { Ok((r3, st5)) => { { let f = fuel_of(s, st5, 5); if f < fuel { match sp_cmp_after(s, st5, binary(st.1, first, r3), f) { Ok((e, st6)) => { Ok((e, st6)) }, Err(e) => Err(e) } } else { Err(stuck()) } } }, Err(e) => Err(e) } } else { Err(stuck()) } } }, Err(e) => Err(e) } } else { Err(stuck()) } } }, Err(e) => Err(e) } } else { Err(stuck()) } } }, Err(e) => Err(e) }
    } else {
        Ok((first, st))
    }
}

/// The operators after an operand: products, then sums, then comparisons.
pub open spec fn sp_operators_after(s: Seq<char>, st: PState, first: ExprV, fuel: nat) -> Result<(ExprV, PState), PErr>
    decreases fuel,
{
    { let f = fuel_of(s, st, 3); if f < fuel { match sp_mul_after(s, st, first, f) { Ok((a, st2)) => { { let f = fuel_of(s, st2, 4); if f < fuel { match sp_add_after(s, st2, a, f) { Ok((b, st3)) => { { let f = fuel_of(s, st3, 5); if f < fuel { match sp_cmp_after(s, st3, b, f) { Ok((c, st4)) => { Ok((c, st4)) }, Err(e) => Err(e) } } else { Err(stuck()) } } }, Err(e) => Err(e) } } else { Err(stuck()) } } }, Err(e) => Err(e) } } else { Err(stuck()) } }
}

/// An expression.
pub open spec fn sp_expression(s: Seq<char>, st: PState, fuel: nat) -> Result<(ExprV, PState), PErr>
    decreases fuel,
{
    { let f = fuel_of(s, st, 2); if f < fuel { match sp_primary_call(s, st, f) { Ok((e, st2)) => { { let f = fuel_of(s, st2, 6); if f < fuel { match sp_operators_after(s, st2, e, f) { Ok((r, st3)) => { Ok((r, st3)) }, Err(e) => Err(e) } } else { Err(stuck()) } } }, Err(e) => Err(e) } } else { Err(stuck()) } }
}

/// `{`, a block, `}`.
pub open spec fn sp_braced(s: Seq<char>, st: PState, open: Seq<char>, close: Seq<char>, fuel: nat) -> Result<(Seq<StmtV>, PState), PErr>
    decreases fuel,
{
    if st.1 is LBrace {
        match sp_advance(s, st) { Ok(st2) => { { let f = fuel_of(s, st2, 9); if f < fuel { match sp_block(s, st2, seq![], f) { Ok((b, st3)) => { if st3.1 is RBrace { match sp_advance(s, st3) { Ok(st4) => { Ok((b, st4)) }, Err(e) => Err(e) } } else { Err(perr(close, st3, None)) } }, Err(e) => Err(e) } } else { Err(stuck()) } } }, Err(e) => Err(e) }
    } else {
        Err(perr(open, st, None))
    }
}

/// Statements up to `}` or the end; semicolons between them are skipped.
pub open spec fn sp_block(s: Seq<char>, st: PState, acc: Seq<StmtV>, fuel: nat) -> Result<(Seq<StmtV>, PState), PErr>
    decreases fuel,
{
    if st.1 is RBrace || st.1 is EOF {
        Ok((acc, st))
    } else if st.1 is Semicolon {
        match sp_advance(s, st) { Ok(st2) => { { let f = fuel_of(s, st2, 9); if f < fuel { match sp_block(s, st2, acc, f) { Ok((b, st3)) => { Ok((b, st3)) }, Err(e) => Err(e) } } else { Err(stuck()) } } }, Err(e) => Err(e) }
    } else {
        { let f = fuel_of(s, st, 8); if f < fuel { match sp_statement(s, st, f) { Ok((x, st2)) => { { let f = fuel_of(s, st2, 9); if f < fuel { match sp_block(s, st2, acc.push(x), f) { Ok((b, st3)) => { Ok((b, st3)) }, Err(e) => Err(e) } } else { Err(stuck()) } } }, Err(e) => Err(e) } } else { Err(stuck()) } }
    }
}

/// One statement, chosen by its leading token.
pub open spec fn sp_statement(s: Seq<char>, st: PState, fuel: nat) -> Result<(StmtV, PState), PErr>
    decreases fuel,
{
    match st.1 {
        TokenView::Let => match sp_advance(s, st) { Ok(st2) => { match st2.1 { TokenView::Identifier(n) => { match sp_advance(s, st2) { Ok(st3) => { if st3.1 is Assign { match sp_advance(s, st3) { Ok(st4) => { { let f = fuel_of(s, st4, 7); if f < fuel { match sp_expression(s, st4, f) { Ok((v, st5)) => { Ok((StmtV::Let { name: n, value: v }, st5)) }, Err(e) => Err(e) } } else { Err(stuck()) } } }, Err(e) => Err(e) } } else { Err(perr("Expected '=' after variable name"@, st3, None)) } }, Err(e) => Err(e) } }, _ => Err(perr("Expected variable name after 'let'"@, st2, None)) } }, Err(e) => Err(e) },
        TokenView::While => match sp_advance(s, st) { Ok(st2) => { { let f = fuel_of(s, st2, 7); if f < fuel { match sp_expression(s, st2, f) { Ok((c, st3)) => { { let f = fuel_of(s, st3, 10); if f < fuel { match sp_braced(s, st3, "Expected '{' after while condition"@, "Expected '}' after while body"@, f) { Ok((b, st4)) => { Ok((StmtV::While { condition: c, body: b }, st4)) }, Err(e) => Err(e) } } else { Err(stuck()) } } }, Err(e) => Err(e) } } else { Err(stuck()) } } }, Err(e) => Err(e) },
        TokenView::If => match sp_advance(s, st) { Ok(st2) => { { let f = fuel_of(s, st2, 7); if f < fuel { match sp_expression(s, st2, f) { Ok((c, st3)) => { { let f = fuel_of(s, st3, 10); if f < fuel { match sp_braced(s, st3, "Expected '{' after if condition"@, "Expected '}' after if body"@, f) { Ok((t, st4)) => { if st4.1 is Else { match sp_advance(s, st4) { Ok(st5) => { { let f = fuel_of(s, st5, 10); if f < fuel { match sp_braced(s, st5, "Expected '{' after else"@, "Expected '}' after else body"@, f) { Ok((eb, st6)) => { Ok((StmtV::If { condition: c, then_body: t, else_body: Some(eb) }, st6)) }, Err(e) => Err(e) } } else { Err(stuck()) } } }, Err(e) => Err(e) } } else { Ok((StmtV::If { condition: c, then_body: t, else_body: None }, st4)) } }, Err(e) => Err(e) } } else { Err(stuck()) } } }, Err(e) => Err(e) } } else { Err(stuck()) } } }, Err(e) => Err(e) },
        TokenView::Return => match sp_advance(s, st) { Ok(st2) => { { let f = fuel_of(s, st2, 7); if f < fuel { match sp_expression(s, st2, f) { Ok((e, st3)) => { Ok((StmtV::Return(e), st3)) }, Err(e) => Err(e) } } else { Err(stuck()) } } }, Err(e) => Err(e) },
        TokenView::Panic => match sp_advance(s, st) { Ok(st2) => { if st2.1 is LParen { match sp_advance(s, st2) { Ok(st3) => { { let f = fuel_of(s, st3, 7); if f < fuel { match sp_expression(s, st3, f) { Ok((e, st4)) => { if st4.1 is RParen { match sp_advance(s, st4) { Ok(st5) => { Ok((StmtV::Panic(e), st5)) }, Err(e) => Err(e) } } else { Err(perr("Expected ')' after panic message"@, st4, None)) } }, Err(e) => Err(e) } } else { Err(stuck()) } } }, Err(e) => Err(e) } } else { Err(perr("Expected '(' after 'panic'"@, st2, None)) } }, Err(e) => Err(e) },
        TokenView::Identifier(n) => match sp_advance(s, st) { Ok(st2) => { if st2.1 is Assign { match sp_advance(s, st2) { Ok(st3) => { { let f = fuel_of(s, st3, 7); if f < fuel { match sp_expression(s, st3, f) { Ok((v, st4)) => { Ok((StmtV::Assign { name: n, value: v }, st4)) }, Err(e) => Err(e) } } else { Err(stuck()) } } }, Err(e) => Err(e) } } else { { let f = fuel_of(s, st2, 1); if f < fuel { match sp_call_after(s, st2, n, f) { Ok((e, st3)) => { { let f = fuel_of(s, st3, 6); if f < fuel { match sp_operators_after(s, st3, e, f) { Ok((e2, st4)) => { Ok((StmtV::Expression(e2), st4)) }, Err(e) => Err(e) } } else { Err(stuck()) } } }, Err(e) => Err(e) } } else { Err(stuck()) } } } }, Err(e) => Err(e) },
        _ => { let f = fuel_of(s, st, 7); if f < fuel { match sp_expression(s, st, f) { Ok((e, st2)) => { Ok((StmtV::Expression(e), st2)) }, Err(e) => Err(e) } } else { Err(stuck()) } },
    }
}

/// Parameter names up to `)` or the end, separated by optional commas.
pub open spec fn sp_params(s: Seq<char>, st: PState, acc: Seq<Seq<char>>, fuel: nat) -> Result<(Seq<Seq<char>>, PState), PErr>
    decreases fuel,
{
    if st.1 is RParen {
        match sp_advance(s, st) { Ok(st2) => { Ok((acc, st2)) }, Err(e) => Err(e) }
    } else if st.1 is EOF {
        Ok((acc, st))
    } else {
        match st.1 {
            TokenView::Identifier(p) => match sp_advance(s, st) { Ok(st2) => { if st2.1 is Comma { match sp_advance(s, st2) { Ok(st3) => { { let f = fuel_of(s, st3, 11); if f < fuel { match sp_params(s, st3, acc.push(p), f) { Ok((v, st4)) => { Ok((v, st4)) }, Err(e) => Err(e) } } else { Err(stuck()) } } }, Err(e) => Err(e) } } else { { let f = fuel_of(s, st2, 11); if f < fuel { match sp_params(s, st2, acc.push(p), f) { Ok((v, st4)) => { Ok((v, st4)) }, Err(e) => Err(e) } } else { Err(stuck()) } } } }, Err(e) => Err(e) },
            _ => Err(perr("Expected parameter name"@, st, None)),
        }
    }
}

/// `fn`, a name, an optional parenthesized parameter list, and an optional braced body.
pub open spec fn sp_function(s: Seq<char>, st: PState, exported: bool, fuel: nat) -> Result<(StmtV, PState), PErr>
    decreases fuel,
{
    match sp_advance(s, st) { Ok(st2) => { match st2.1 { TokenView::Identifier(n) => { match sp_advance(s, st2) { Ok(st3) => { if st3.1 is LParen { match sp_advance(s, st3) { Ok(st4) => { { let f = fuel_of(s, st4, 11); if f < fuel { match sp_params(s, st4, seq![], f) { Ok((ps, st5)) => { if st5.1 is LBrace { match sp_advance(s, st5) { Ok(sb1) => { { let f = fuel_of(s, sb1, 9); if f < fuel { match sp_block(s, sb1, seq![], f) { Ok((b, sb2)) => { if sb2.1 is RBrace { match sp_advance(s, sb2) { Ok(sb3) => { Ok((StmtV::Function { name: n, params: ps, return_type: Type::Void, body: b, exported }, sb3)) }, Err(e) => Err(e) } } else { Ok((StmtV::Function { name: n, params: ps, return_type: Type::Void, body: b, exported }, sb2)) } }, Err(e) => Err(e) } } else { Err(stuck()) } } }, Err(e) => Err(e) } } else { Ok((StmtV::Function { name: n, params: ps, return_type: Type::Void, body: seq![], exported }, st5)) } }, Err(e) => Err(e) } } else { Err(stuck()) } } }, Err(e) => Err(e) } } else { if st3.1 is LBrace { match sp_advance(s, st3) { Ok(sb1) => { { let f = fuel_of(s, sb1, 9); if f < fuel { match sp_block(s, sb1, seq![], f) { Ok((b, sb2)) => { if sb2.1 is RBrace { match sp_advance(s, sb2) { Ok(sb3) => { Ok((StmtV::Function { name: n, params: seq![], return_type: Type::Void, body: b, exported }, sb3)) }, Err(e) => Err(e) } } else { Ok((StmtV::Function { name: n, params: seq![], return_type: Type::Void, body: b, exported }, sb2)) } }, Err(e) => Err(e) } } else { Err(stuck()) } } }, Err(e) => Err(e) } } else { Ok((StmtV::Function { name: n, params: seq![], return_type: Type::Void, body: seq![], exported }, st3)) } } }, Err(e) => Err(e) } }, _ => Err(perr("Expected function name"@, st2, Some("Function names must be valid identifiers"@))) } }, Err(e) => Err(e) }
}

/// `import` and a module name.
pub open spec fn sp_import(s: Seq<char>, st: PState, fuel: nat) -> Result<(StmtV, PState), PErr>
    decreases fuel,
{
    match sp_advance(s, st) { Ok(st2) => { match st2.1 { TokenView::Identifier(n) => { match sp_advance(s, st2) { Ok(st3) => { Ok((StmtV::Import(n), st3)) }, Err(e) => Err(e) } }, _ => Err(perr("Expected module name after 'import'"@, st2, Some("Example: import math"@))) } }, Err(e) => Err(e) }
}

/// `export` and a function.
pub open spec fn sp_export(s: Seq<char>, st: PState, fuel: nat) -> Result<(StmtV, PState), PErr>
    decreases fuel,
{
    match sp_advance(s, st) { Ok(st2) => { if st2.1 is Fn { { let f = fuel_of(s, st2, 12); if f < fuel { match sp_function(s, st2, true, f) { Ok((x, st3)) => { Ok((x, st3)) }, Err(e) => Err(e) } } else { Err(stuck()) } } } else { Err(perr("Expected 'fn' after 'export'"@, st2, Some("Only functions can be exported. Example: export fn add(a, b) { }"@))) } }, Err(e) => Err(e) }
}

/// The top level: imports and functions; any other token is skipped.
pub open spec fn sp_program(s: Seq<char>, st: PState, acc: Seq<StmtV>, fuel: nat) -> Result<(Seq<StmtV>, PState), PErr>
    decreases fuel,
{
    match st.1 {
        TokenView::EOF => Ok((acc, st)),
        TokenView::Import => { let f = fuel_of(s, st, 13); if f < fuel { match sp_import(s, st, f) { Ok((x, st2)) => { { let f = fuel_of(s, st2, 15); if f < fuel { match sp_program(s, st2, acc.push(x), f) { Ok((v, st3)) => { Ok((v, st3)) }, Err(e) => Err(e) } } else { Err(stuck()) } } }, Err(e) => Err(e) } } else { Err(stuck()) } },
        TokenView::Export => { let f = fuel_of(s, st, 14); if f < fuel { match sp_export(s, st, f) { Ok((x, st2)) => { { let f = fuel_of(s, st2, 15); if f < fuel { match sp_program(s, st2, acc.push(x), f) { Ok((v, st3)) => { Ok((v, st3)) }, Err(e) => Err(e) } } else { Err(stuck()) } } }, Err(e) => Err(e) } } else { Err(stuck()) } },
        TokenView::Fn => { let f = fuel_of(s, st, 12); if f < fuel { match sp_function(s, st, false, f) { Ok((x, st2)) => { { let f = fuel_of(s, st2, 15); if f < fuel { match sp_program(s, st2, acc.push(x), f) { Ok((v, st3)) => { Ok((v, st3)) }, Err(e) => Err(e) } } else { Err(stuck()) } } }, Err(e) => Err(e) } } else { Err(stuck()) } },
        _ => match sp_advance(s, st) { Ok(st2) => { { let f = fuel_of(s, st2, 15); if f < fuel { match sp_program(s, st2, acc, f) { Ok((v, st3)) => { Ok((v, st3)) }, Err(e) => Err(e) } } else { Err(stuck()) } } }, Err(e) => Err(e) },
    }
}

/// The statements a text parses to, or the first error: the first token is
/// read from the start of the text, then the top level.
pub open spec fn parse_text(s: Seq<char>) -> Result<Seq<StmtV>, PErr> {
    match sp_advance(s, (0, TokenView::EOF, 1, 1)) {
        Ok(st) => match sp_program(s, st, seq![], fuel_of(s, st, 15)) {
            Ok((v, _)) => Ok(v),
            Err(e) => Err(e),
        },
        Err(e) => Err(e),
    }
}

/// The result of a parsing step as plain values.
pub open spec fn agrees<V>(r: Result<V, PErr>, sp: Result<(V, PState), PErr>, fin: PState) -> bool {
    match sp {
        Ok((v, st)) => r == Ok::<V, PErr>(v) && fin == st,
        Err(e) => r == Err::<V, PErr>(e),
    }
}

/// An expression result as plain values.
pub open spec fn res_expr(r: Result<Expr, CompileError>) -> Result<ExprV, PErr> {
    match r {
        Ok(e) => Ok(expr_view(e)),
        Err(e) => Err(err_view(e)),
    }
}

/// An argument-list result as plain values.
pub open spec fn res_exprs(r: Result<Vec<Expr>, CompileError>) -> Result<Seq<ExprV>, PErr> {
    match r {
        Ok(e) => Ok(exprs_view(e@)),
        Err(e) => Err(err_view(e)),
    }
}

/// A statement result as plain values.
pub open spec fn res_stmt(r: Result<Stmt, CompileError>) -> Result<StmtV, PErr> {
    match r {
        Ok(e) => Ok(stmt_view(e)),
        Err(e) => Err(err_view(e)),
    }
}

/// A statement-list result as plain values.
pub open spec fn res_stmts(r: Result<Vec<Stmt>, CompileError>) -> Result<Seq<StmtV>, PErr> {
    match r {
        Ok(e) => Ok(stmts_view(e@)),
        Err(e) => Err(err_view(e)),
    }
}

/// A parameter-list result as plain values.
pub open spec fn res_names(r: Result<Vec<String>, CompileError>) -> Result<Seq<Seq<char>>, PErr> {
    match r {
        Ok(e) => Ok(names_view(e@)),
        Err(e) => Err(err_view(e)),
    }
}

/// A parser over the tokens of one source text.
pub struct Parser {
    lexer: Lexer,
    current: Token,
    pending: Option<CompileError>,
}

impl Parser {
    /// The lexer is consistent.
    pub closed spec fn wf(&self) -> bool {
        &&& self.lexer.wf()
        &&& 0 <= self.lexer.pos() <= self.lexer.text().len()
    }

    /// The source text.
    pub closed spec fn text(&self) -> Seq<char> {
        self.lexer.text()
    }

    /// Where parsing stands.
    pub closed spec fn state(&self) -> PState {
        (self.lexer.pos(), self.current@, self.lexer.start_line(), self.lexer.start_column())
    }

    /// Where parsing starts: the state after the first token, or the
    /// lexer's error at it.
    pub closed spec fn start(&self) -> Result<PState, PErr> {
        match self.pending {
            Some(e) => Err(err_view(e)),
            None => Ok(self.state()),
        }
    }

    /// A parser whose current token is the first token of the lexer's text.
    pub fn new(lexer: Lexer) -> (r: Self)
        requires
            lexer.wf(),
        ensures
            r.wf(),
            r.text() == lexer.text(),
            r.start() == sp_advance(lexer.text(), (lexer.pos(), TokenView::EOF, 0, 0)),
    {
        let mut lexer = lexer;
        let res = lexer.next_token();
        proof {
            lexer.lemma_bounds();
        }
        match res {
            Ok(t) => Parser { lexer, current: t, pending: None },
            Err(e) => Parser { lexer, current: Token::EOF, pending: Some(e) },
        }
    }

    fn error(&self, msg: &str) -> (r: CompileError)
        ensures
            err_view(r) == perr(msg@, self.state(), None),
    {
        CompileError::new(msg, self.lexer.token_line(), self.lexer.token_column())
    }

    fn error_help(&self, msg: &str, help: &str) -> (r: CompileError)
        ensures
            err_view(r) == perr(msg@, self.state(), Some(help@)),
    {
        CompileError::new(msg, self.lexer.token_line(), self.lexer.token_column()).help(help)
    }

    /// Moves to the next token.
    fn advance(&mut self) -> (r: Result<(), CompileError>)
        requires
            old(self).wf(),
        ensures
            final(self).wf(),
            final(self).text() == old(self).text(),
            match sp_advance(old(self).text(), old(self).state()) {
                Ok(st) => r is Ok && final(self).state() == st,
                Err(e) => r matches Err(x) && err_view(x) == e,
            },
            r is Ok ==> left_of(final(self).text(), final(self).state()) <= left_of(old(self).text(), old(self).state()),
            r is Ok && !(old(self).state().1 is EOF) ==> left_of(final(self).text(), final(self).state()) < left_of(
                old(self).text(),
                old(self).state(),
            ),
    {
        let ghost s = self.text();
        let ghost st0 = self.state();
        let ghost q = skip_spaces(s, st0.0);
        proof {
            self.lexer.lemma_bounds();
            lemma_skip_spaces(s, self.lexer.pos());
            lemma_scan_progress(s, q);
        }
        let res = self.lexer.next_token();
        proof {
            self.lexer.lemma_bounds();
        }
        match res {
            Ok(t) => {
                self.current = t;
                assert(scan(s, q).0 == Ok::<TokenView, LexFault>(t@));
                assert(self.state() == (scan(s, q).1, t@, line_at(s, q), column_at(s, q)));
                Ok(())
            },
            Err(e) => {
                assert(scan(s, q).0 is Err);
                assert(e.message@ == scan(s, q).0->Err_0.0);
                assert(e.line as int == line_at(s, q));
                assert(e.column as int == column_at(s, q));
                Err(e)
            },
        }
    }

    fn at_eof(&self) -> (r: bool)
        ensures
            r == (self.state().1 is EOF),
    {
        match self.current {
            Token::EOF => true,
            _ => false,
        }
    }

    fn at_rbrace(&self) -> (r: bool)
        ensures
            r == (self.state().1 is RBrace),
    {
        match self.current {
            Token::RBrace => true,
            _ => false,
        }
    }

    fn at_rparen(&self) -> (r: bool)
        ensures
            r == (self.state().1 is RParen),
    {
        match self.current {
            Token::RParen => true,
            _ => false,
        }
    }

    fn at_lparen(&self) -> (r: bool)
        ensures
            r == (self.state().1 is LParen),
    {
        match self.current {
            Token::LParen => true,
            _ => false,
        }
    }

    fn at_comma(&self) -> (r: bool)
        ensures
            r == (self.state().1 is Comma),
    {
        match self.current {
            Token::Comma => true,
            _ => false,
        }
    }

    fn at_assign(&self) -> (r: bool)
        ensures
            r == (self.state().1 is Assign),
    {
        match self.current {
            Token::Assign => true,
            _ => false,
        }
    }

    fn at_lbrace(&self) -> (r: bool)
        ensures
            r == (self.state().1 is LBrace),
    {
        match self.current {
            Token::LBrace => true,
            _ => false,
        }
    }

    /// The identifier text of the current token, if it is an identifier.
    fn identifier(&self) -> (r: Option<String>)
        ensures
            r is Some <==> self.state().1 is Identifier,
            r matches Some(n) ==> self.state().1 == TokenView::Identifier(n@),
    {
        match &self.current {
            Token::Identifier(n) => Some(n.clone()),
            _ => None,
        }
    }

    /// Parses a whole text: imports and functions, skipping any other
    /// top-level token. Returns the first error.
    pub fn parse(&mut self) -> (r: Result<Vec<Stmt>, CompileError>)
        requires
            old(self).wf(),
        ensures
            final(self).wf(),
            res_stmts(r) == match old(self).start() {
                Ok(st) => match sp_program(old(self).text(), st, seq![], fuel_of(old(self).text(), st, 15)) {
                    Ok((v, _)) => Ok::<Seq<StmtV>, PErr>(v),
                    Err(e) => Err(e),
                },
                Err(e) => Err(e),
            },
    {
        if self.pending.is_some() {
            let mut taken: Option<CompileError> = None;
            std::mem::swap(&mut self.pending, &mut taken);
            match taken {
                Some(e) => {
                    return Err(e);
                },
                None => {},
            }
        }
        let r = self.parse_program(Vec::new());
        r
    }

    fn parse_program(&mut self, acc: Vec<Stmt>) -> (r: Result<Vec<Stmt>, CompileError>)
        requires
            old(self).wf(),
        ensures
            final(self).wf(),
            final(self).text() == old(self).text(),
            agrees(res_stmts(r), sp_program(old(self).text(), old(self).state(), stmts_view(acc@), fuel_of(old(self).text(), old(self).state(), 15)), final(self).state()),
        decreases left_of(old(self).text(), old(self).state()) * 32 + 30,
    {
        let ghost s = self.text();
        let ghost st = self.state();
        proof { self.lexer.lemma_bounds(); }
        let mut acc = acc;
        match &self.current {
            Token::EOF => Ok(acc),
            Token::Import => {
                let x = self.parse_import()?;
                let ghost a0 = acc@;
                acc.push(x);
                assert(acc@.drop_last() =~= a0);
                self.parse_program(acc)
            },
            Token::Export => {
                let x = self.parse_export_function()?;
                let ghost a0 = acc@;
                acc.push(x);
                assert(acc@.drop_last() =~= a0);
                self.parse_program(acc)
            },
            Token::Fn => {
                let x = self.parse_function(false)?;
                let ghost a0 = acc@;
                acc.push(x);
                assert(acc@.drop_last() =~= a0);
                self.parse_program(acc)
            },
            _ => {
                self.advance()?;
                self.parse_program(acc)
            },
        }
    }

    fn parse_import(&mut self) -> (r: Result<Stmt, CompileError>)
        requires
            old(self).wf(),
        ensures
            final(self).wf(),
            final(self).text() == old(self).text(),
            agrees(res_stmt(r), sp_import(old(self).text(), old(self).state(), fuel_of(old(self).text(), old(self).state(), 13)), final(self).state()),
            r is Ok ==> left_of(final(self).text(), final(self).state()) < left_of(old(self).text(), old(self).state()),
    {
        self.advance()?;
        let name = match self.identifier() {
            Some(n) => n,
            None => {
                return Err(self.error_help("Expected module name after 'import'", "Example: import math"));
            },
        };
        self.advance()?;
        Ok(Stmt::Import(name))
    }

    fn parse_export_function(&mut self) -> (r: Result<Stmt, CompileError>)
        requires
            old(self).wf(),
        ensures
            final(self).wf(),
            final(self).text() == old(self).text(),
            agrees(res_stmt(r), sp_export(old(self).text(), old(self).state(), fuel_of(old(self).text(), old(self).state(), 14)), final(self).state()),
            r is Ok ==> left_of(final(self).text(), final(self).state()) < left_of(old(self).text(), old(self).state()),
    {
        self.advance()?;
        match self.current {
            Token::Fn => {},
            _ => {
                return Err(self.error_help(
                    "Expected 'fn' after 'export'",
                    "Only functions can be exported. Example: export fn add(a, b) { }",
                ));
            },
        }
        self.parse_function(true)
    }

    fn parse_function(&mut self, exported: bool) -> (r: Result<Stmt, CompileError>)
        requires
            old(self).wf(),
        ensures
            final(self).wf(),
            final(self).text() == old(self).text(),
            agrees(res_stmt(r), sp_function(old(self).text(), old(self).state(), exported, fuel_of(old(self).text(), old(self).state(), 12)), final(self).state()),
            r is Ok ==> left_of(final(self).text(), final(self).state()) < left_of(old(self).text(), old(self).state()),
    {
        self.advance()?;
        let name = match self.identifier() {
            Some(n) => n,
            None => {
                return Err(self.error_help("Expected function name", "Function names must be valid identifiers"));
            },
        };
        self.advance()?;
        proof {
            assert(names_view(Seq::<String>::empty()) =~= Seq::<Seq<char>>::empty());
        }
        let params = if self.at_lparen() {
            self.advance()?;
            self.parse_params(Vec::new())?
        } else {
            Vec::new()
        };
        let body = if self.at_lbrace() {
            self.advance()?;
            let b = self.parse_block(Vec::new())?;
            if self.at_rbrace() {
                self.advance()?;
            }
            b
        } else {
            Vec::new()
        };
        Ok(Stmt::Function { name, params, return_type: Type::Void, body, exported })
    }

    fn parse_params(&mut self, acc: Vec<String>) -> (r: Result<Vec<String>, CompileError>)
        requires
            old(self).wf(),
        ensures
            final(self).wf(),
            final(self).text() == old(self).text(),
            agrees(res_names(r), sp_params(old(self).text(), old(self).state(), names_view(acc@), fuel_of(old(self).text(), old(self).state(), 11)), final(self).state()),
            r is Ok ==> left_of(final(self).text(), final(self).state()) <= left_of(old(self).text(), old(self).state()),
        decreases left_of(old(self).text(), old(self).state()) * 32 + 22,
    {
        proof { self.lexer.lemma_bounds(); }
        if self.at_rparen() {
            self.advance()?;
            return Ok(acc);
        }
        if self.at_eof() {
            return Ok(acc);
        }
        let mut acc = acc;
        match self.identifier() {
            Some(p) => {
                let ghost a0 = names_view(acc@);
                acc.push(p);
                assert(names_view(acc@) =~= a0.push(p@));
                self.advance()?;
                if self.at_comma() {
                    self.advance()?;
                }
                self.parse_params(acc)
            },
            None => Err(self.error("Expected parameter name")),
        }
    }

    fn parse_block(&mut self, acc: Vec<Stmt>) -> (r: Result<Vec<Stmt>, CompileError>)
        requires
            old(self).wf(),
        ensures
            final(self).wf(),
            final(self).text() == old(self).text(),
            agrees(res_stmts(r), sp_block(old(self).text(), old(self).state(), stmts_view(acc@), fuel_of(old(self).text(), old(self).state(), 9)), final(self).state()),
            r is Ok ==> left_of(final(self).text(), final(self).state()) <= left_of(old(self).text(), old(self).state()),
        decreases left_of(old(self).text(), old(self).state()) * 32 + 18,
    {
        proof { self.lexer.lemma_bounds(); }
        if self.at_rbrace() || self.at_eof() {
            return Ok(acc);
        }
        if let Token::Semicolon = self.current {
            self.advance()?;
            return self.parse_block(acc);
        }
        let x = self.parse_statement()?;
        let mut acc = acc;
        let ghost a0 = acc@;
        acc.push(x);
        assert(acc@.drop_last() =~= a0);
        self.parse_block(acc)
    }

    fn parse_braced(&mut self, open_msg: &str, close_msg: &str) -> (r: Result<Vec<Stmt>, CompileError>)
        requires
            old(self).wf(),
        ensures
            final(self).wf(),
            final(self).text() == old(self).text(),
            agrees(res_stmts(r), sp_braced(old(self).text(), old(self).state(), open_msg@, close_msg@, fuel_of(old(self).text(), old(self).state(), 10)), final(self).state()),
            r is Ok ==> left_of(final(self).text(), final(self).state()) < left_of(old(self).text(), old(self).state()),
        decreases left_of(old(self).text(), old(self).state()) * 32 + 20,
    {
        if !self.at_lbrace() {
            return Err(self.error(open_msg));
        }
        self.advance()?;
        let body = self.parse_block(Vec::new())?;
        if !self.at_rbrace() {
            return Err(self.error(close_msg));
        }
        self.advance()?;
        Ok(body)
    }

    fn parse_statement(&mut self) -> (r: Result<Stmt, CompileError>)
        requires
            old(self).wf(),
        ensures
            final(self).wf(),
            final(self).text() == old(self).text(),
            agrees(res_stmt(r), sp_statement(old(self).text(), old(self).state(), fuel_of(old(self).text(), old(self).state(), 8)), final(self).state()),
            r is Ok ==> left_of(final(self).text(), final(self).state()) < left_of(old(self).text(), old(self).state()),
        decreases left_of(old(self).text(), old(self).state()) * 32 + 16,
    {
        proof { self.lexer.lemma_bounds(); }
        match &self.current {
            Token::Let => self.parse_let(),
            Token::While => self.parse_while(),
            Token::If => self.parse_if(),
            Token::Return => self.parse_return(),
            Token::Panic => self.parse_panic(),
            Token::Identifier(n) => {
                let name = n.clone();
                self.parse_named_statement(name)
            },
            _ => {
                let e = self.parse_expression()?;
                Ok(Stmt::Expression(e))
            },
        }
    }

    fn parse_let(&mut self) -> (r: Result<Stmt, CompileError>)
        requires
            old(self).wf(),
            old(self).state().1 is Let,
        ensures
            final(self).wf(),
            final(self).text() == old(self).text(),
            agrees(res_stmt(r), sp_statement(old(self).text(), old(self).state(), fuel_of(old(self).text(), old(self).state(), 8)), final(self).state()),
            r is Ok ==> left_of(final(self).text(), final(self).state()) < left_of(old(self).text(), old(self).state()),
        decreases left_of(old(self).text(), old(self).state()) * 32 + 15,
    {
        proof { self.lexer.lemma_bounds(); }
        self.advance()?;
        let name = match self.identifier() {
            Some(n) => n,
            None => {
                return Err(self.error("Expected variable name after 'let'"));
            },
        };
        self.advance()?;
        if !self.at_assign() {
            return Err(self.error("Expected '=' after variable name"));
        }
        self.advance()?;
        let value = self.parse_expression()?;
        Ok(Stmt::Let { name, value })
    }

    fn parse_while(&mut self) -> (r: Result<Stmt, CompileError>)
        requires
            old(self).wf(),
            old(self).state().1 is While,
        ensures
            final(self).wf(),
            final(self).text() == old(self).text(),
            agrees(res_stmt(r), sp_statement(old(self).text(), old(self).state(), fuel_of(old(self).text(), old(self).state(), 8)), final(self).state()),
            r is Ok ==> left_of(final(self).text(), final(self).state()) < left_of(old(self).text(), old(self).state()),
        decreases left_of(old(self).text(), old(self).state()) * 32 + 15,
    {
        proof { self.lexer.lemma_bounds(); }
        self.advance()?;
        let condition = self.parse_expression()?;
        let body = self.parse_braced("Expected '{' after while condition", "Expected '}' after while body")?;
        Ok(Stmt::While { condition, body })
    }

    #[verifier::rlimit(100)]
    fn parse_if(&mut self) -> (r: Result<Stmt, CompileError>)
        requires
            old(self).wf(),
            old(self).state().1 is If,
        ensures
            final(self).wf(),
            final(self).text() == old(self).text(),
            agrees(res_stmt(r), sp_statement(old(self).text(), old(self).state(), fuel_of(old(self).text(), old(self).state(), 8)), final(self).state()),
            r is Ok ==> left_of(final(self).text(), final(self).state()) < left_of(old(self).text(), old(self).state()),
        decreases left_of(old(self).text(), old(self).state()) * 32 + 15,
    {
        proof { self.lexer.lemma_bounds(); }
        self.advance()?;
        let condition = self.parse_expression()?;
        let then_body = self.parse_braced("Expected '{' after if condition", "Expected '}' after if body")?;
        if let Token::Else = self.current {
            self.advance()?;
            let b = self.parse_braced("Expected '{' after else", "Expected '}' after else body")?;
            Ok(Stmt::If { condition, then_body, else_body: Some(b) })
        } else {
            Ok(Stmt::If { condition, then_body, else_body: None })
        }
    }

    fn parse_return(&mut self) -> (r: Result<Stmt, CompileError>)
        requires
            old(self).wf(),
            old(self).state().1 is Return,
        ensures
            final(self).wf(),
            final(self).text() == old(self).text(),
            agrees(res_stmt(r), sp_statement(old(self).text(), old(self).state(), fuel_of(old(self).text(), old(self).state(), 8)), final(self).state()),
            r is Ok ==> left_of(final(self).text(), final(self).state()) < left_of(old(self).text(), old(self).state()),
        decreases left_of(old(self).text(), old(self).state()) * 32 + 15,
    {
        proof { self.lexer.lemma_bounds(); }
        self.advance()?;
        let e = self.parse_expression()?;
        Ok(Stmt::Return(e))
    }

    fn parse_panic(&mut self) -> (r: Result<Stmt, CompileError>)
        requires
            old(self).wf(),
            old(self).state().1 is Panic,
        ensures
            final(self).wf(),
            final(self).text() == old(self).text(),
            agrees(res_stmt(r), sp_statement(old(self).text(), old(self).state(), fuel_of(old(self).text(), old(self).state(), 8)), final(self).state()),
            r is Ok ==> left_of(final(self).text(), final(self).state()) < left_of(old(self).text(), old(self).state()),
        decreases left_of(old(self).text(), old(self).state()) * 32 + 15,
    {
        proof { self.lexer.lemma_bounds(); }
        self.advance()?;
        if !self.at_lparen() {
            return Err(self.error("Expected '(' after 'panic'"));
        }
        self.advance()?;
        let e = self.parse_expression()?;
        if !self.at_rparen() {
            return Err(self.error("Expected ')' after panic message"));
        }
        self.advance()?;
        Ok(Stmt::Panic(e))
    }

    fn parse_named_statement(&mut self, name: String) -> (r: Result<Stmt, CompileError>)
        requires
            old(self).wf(),
            old(self).state().1 == TokenView::Identifier(name@),
        ensures
            final(self).wf(),
            final(self).text() == old(self).text(),
            agrees(res_stmt(r), sp_statement(old(self).text(), old(self).state(), fuel_of(old(self).text(), old(self).state(), 8)), final(self).state()),
            r is Ok ==> left_of(final(self).text(), final(self).state()) < left_of(old(self).text(), old(self).state()),
        decreases left_of(old(self).text(), old(self).state()) * 32 + 15,
    {
        proof { self.lexer.lemma_bounds(); }
        self.advance()?;
        if self.at_assign() {
            self.advance()?;
            let value = self.parse_expression()?;
            Ok(Stmt::Assign { name, value })
        } else {
            let e = self.parse_call_after(name)?;
            let e = self.parse_operators_after(e)?;
            Ok(Stmt::Expression(e))
        }
    }

    fn parse_expression(&mut self) -> (r: Result<Expr, CompileError>)
        requires
            old(self).wf(),
        ensures
            final(self).wf(),
            final(self).text() == old(self).text(),
            agrees(res_expr(r), sp_expression(old(self).text(), old(self).state(), fuel_of(old(self).text(), old(self).state(), 7)), final(self).state()),
            r is Ok ==> left_of(final(self).text(), final(self).state()) < left_of(old(self).text(), old(self).state()),
        decreases left_of(old(self).text(), old(self).state()) * 32 + 14,
    {
        let e = self.parse_primary_call()?;
        self.parse_operators_after(e)
    }

    fn parse_operators_after(&mut self, first: Expr) -> (r: Result<Expr, CompileError>)
        requires
            old(self).wf(),
        ensures
            final(self).wf(),
            final(self).text() == old(self).text(),
            agrees(res_expr(r), sp_operators_after(old(self).text(), old(self).state(), expr_view(first), fuel_of(old(self).text(), old(self).state(), 6)), final(self).state()),
            r is Ok ==> left_of(final(self).text(), final(self).state()) <= left_of(old(self).text(), old(self).state()),
        decreases left_of(old(self).text(), old(self).state()) * 32 + 12,
    {
        let a = self.parse_mul_after(first)?;
        let b = self.parse_add_after(a)?;
        self.parse_cmp_after(b)
    }

    fn binary_expr(op: &Token, a: Expr, b: Expr) -> (r: Expr)
        ensures
            expr_view(r) == binary(op@, expr_view(a), expr_view(b)),
    {
        match op {
            Token::Star => Expr::Mul(Box::new(a), Box::new(b)),
            Token::Slash => Expr::Div(Box::new(a), Box::new(b)),
            Token::Percent => Expr::Mod(Box::new(a), Box::new(b)),
            Token::Plus => Expr::Add(Box::new(a), Box::new(b)),
            Token::Minus => Expr::Sub(Box::new(a), Box::new(b)),
            Token::Greater => Expr::Gt(Box::new(a), Box::new(b)),
            Token::Less => Expr::Lt(Box::new(a), Box::new(b)),
            Token::GreaterEqual => Expr::Ge(Box::new(a), Box::new(b)),
            Token::LessEqual => Expr::Le(Box::new(a), Box::new(b)),
            Token::EqualEqual => Expr::Eq(Box::new(a), Box::new(b)),
            _ => Expr::Ne(Box::new(a), Box::new(b)),
        }
    }

    fn copy_token(&self) -> (r: Token)
        ensures
            r@ == self.state().1,
    {
        match &self.current {
            Token::Identifier(x) => Token::Identifier(x.clone()),
            Token::Float(x) => Token::Float(x.clone()),
            Token::String(x) => Token::String(x.clone()),
            Token::Number(n) => Token::Number(*n),
            Token::Fn => Token::Fn,
            Token::Let => Token::Let,
            Token::Return => Token::Return,
            Token::If => Token::If,
            Token::Else => Token::Else,
            Token::While => Token::While,
            Token::Panic => Token::Panic,
            Token::Import => Token::Import,
            Token::Export => Token::Export,
            Token::True => Token::True,
            Token::False => Token::False,
            Token::LParen => Token::LParen,
            Token::RParen => Token::RParen,
            Token::LBrace => Token::LBrace,
            Token::RBrace => Token::RBrace,
            Token::Comma => Token::Comma,
            Token::Colon => Token::Colon,
            Token::Semicolon => Token::Semicolon,
            Token::Dot => Token::Dot,
            Token::Plus => Token::Plus,
            Token::Minus => Token::Minus,
            Token::Star => Token::Star,
            Token::Slash => Token::Slash,
            Token::Percent => Token::Percent,
            Token::Assign => Token::Assign,
            Token::EqualEqual => Token::EqualEqual,
            Token::NotEqual => Token::NotEqual,
            Token::Less => Token::Less,
            Token::LessEqual => Token::LessEqual,
            Token::Greater => Token::Greater,
            Token::GreaterEqual => Token::GreaterEqual,
            Token::EOF => Token::EOF,
        }
    }

    fn at_mul_op(&self) -> (r: bool)
        ensures
            r == mul_op(self.state().1),
    {
        match self.current {
            Token::Star | Token::Slash | Token::Percent => true,
            _ => false,
        }
    }

    fn at_add_op(&self) -> (r: bool)
        ensures
            r == add_op(self.state().1),
    {
        match self.current {
            Token::Plus | Token::Minus => true,
            _ => false,
        }
    }

    fn at_cmp_op(&self) -> (r: bool)
        ensures
            r == cmp_op(self.state().1),
    {
        match self.current {
            Token::Less | Token::LessEqual | Token::Greater | Token::GreaterEqual | Token::EqualEqual
            | Token::NotEqual => true,
            _ => false,
        }
    }

    fn parse_mul_after(&mut self, first: Expr) -> (r: Result<Expr, CompileError>)
        requires
            old(self).wf(),
        ensures
            final(self).wf(),
            final(self).text() == old(self).text(),
            agrees(res_expr(r), sp_mul_after(old(self).text(), old(self).state(), expr_view(first), fuel_of(old(self).text(), old(self).state(), 3)), final(self).state()),
            r is Ok ==> left_of(final(self).text(), final(self).state()) <= left_of(old(self).text(), old(self).state()),
        decreases left_of(old(self).text(), old(self).state()) * 32 + 6,
    {
        proof { self.lexer.lemma_bounds(); }
        if !self.at_mul_op() {
            return Ok(first);
        }
        let op = self.copy_token();
        self.advance()?;
        let right = self.parse_primary_call()?;
        let e = Self::binary_expr(&op, first, right);
        self.parse_mul_after(e)
    }

    fn parse_add_after(&mut self, first: Expr) -> (r: Result<Expr, CompileError>)
        requires
            old(self).wf(),
        ensures
            final(self).wf(),
            final(self).text() == old(self).text(),
            agrees(res_expr(r), sp_add_after(old(self).text(), old(self).state(), expr_view(first), fuel_of(old(self).text(), old(self).state(), 4)), final(self).state()),
            r is Ok ==> left_of(final(self).text(), final(self).state()) <= left_of(old(self).text(), old(self).state()),
        decreases left_of(old(self).text(), old(self).state()) * 32 + 8,
    {
        proof { self.lexer.lemma_bounds(); }
        if !self.at_add_op() {
            return Ok(first);
        }
        let op = self.copy_token();
        self.advance()?;
        let right = self.parse_primary_call()?;
        let right = self.parse_mul_after(right)?;
        let e = Self::binary_expr(&op, first, right);
        self.parse_add_after(e)
    }

    fn parse_cmp_after(&mut self, first: Expr) -> (r: Result<Expr, CompileError>)
        requires
            old(self).wf(),
        ensures
            final(self).wf(),
            final(self).text() == old(self).text(),
            agrees(res_expr(r), sp_cmp_after(old(self).text(), old(self).state(), expr_view(first), fuel_of(old(self).text(), old(self).state(), 5)), final(self).state()),
            r is Ok ==> left_of(final(self).text(), final(self).state()) <= left_of(old(self).text(), old(self).state()),
        decreases left_of(old(self).text(), old(self).state()) * 32 + 10,
    {
        proof { self.lexer.lemma_bounds(); }
        if !self.at_cmp_op() {
            return Ok(first);
        }
        let op = self.copy_token();
        self.advance()?;
        let right = self.parse_primary_call()?;
        let right = self.parse_mul_after(right)?;
        let right = self.parse_add_after(right)?;
        let e = Self::binary_expr(&op, first, right);
        self.parse_cmp_after(e)
    }

    fn parse_primary_call(&mut self) -> (r: Result<Expr, CompileError>)
        requires
            old(self).wf(),
        ensures
            final(self).wf(),
            final(self).text() == old(self).text(),
            agrees(res_expr(r), sp_primary_call(old(self).text(), old(self).state(), fuel_of(old(self).text(), old(self).state(), 2)), final(self).state()),
            r is Ok ==> left_of(final(self).text(), final(self).state()) < left_of(old(self).text(), old(self).state()),
        decreases left_of(old(self).text(), old(self).state()) * 32 + 4,
    {
        proof { self.lexer.lemma_bounds(); }
        match self.identifier() {
            Some(name) => {
                self.advance()?;
                self.parse_call_after(name)
            },
            None => self.parse_primary(),
        }
    }

    fn parse_call_after(&mut self, name: String) -> (r: Result<Expr, CompileError>)
        requires
            old(self).wf(),
        ensures
            final(self).wf(),
            final(self).text() == old(self).text(),
            agrees(res_expr(r), sp_call_after(old(self).text(), old(self).state(), name@, fuel_of(old(self).text(), old(self).state(), 1)), final(self).state()),
            r is Ok ==> left_of(final(self).text(), final(self).state()) <= left_of(old(self).text(), old(self).state()),
        decreases left_of(old(self).text(), old(self).state()) * 32 + 2,
    {
        proof { self.lexer.lemma_bounds(); }
        if let Token::Dot = self.current {
            self.advance()?;
            let function_name = match self.identifier() {
                Some(f) => f,
                None => {
                    return Err(self.error("Expected function name after '.'"));
                },
            };
            self.advance()?;
            if self.at_lparen() {
                let args = self.parse_arguments()?;
                return Ok(Expr::ModuleCall(name, function_name, args));
            } else {
                return Err(self.error("Expected '(' after module function name"));
            }
        }
        if self.at_lparen() {
            let args = self.parse_arguments()?;
            return Ok(Expr::Call(name, args));
        }
        Ok(Expr::Identifier(name))
    }

    fn parse_arguments(&mut self) -> (r: Result<Vec<Expr>, CompileError>)
        requires
            old(self).wf(),
            old(self).state().1 is LParen,
        ensures
            final(self).wf(),
            final(self).text() == old(self).text(),
            agrees(res_exprs(r), sp_arguments(old(self).text(), old(self).state(), fuel_of(old(self).text(), old(self).state(), 0)), final(self).state()),
            r is Ok ==> left_of(final(self).text(), final(self).state()) <= left_of(old(self).text(), old(self).state()),
        decreases left_of(old(self).text(), old(self).state()) * 32 + 0,
    {
        proof { self.lexer.lemma_bounds(); }
        self.advance()?;
        proof {
            assert(exprs_view(Seq::<Expr>::empty()) =~= Seq::<ExprV>::empty());
        }
        self.parse_args_rest(Vec::new())
    }

    fn parse_args_rest(&mut self, acc: Vec<Expr>) -> (r: Result<Vec<Expr>, CompileError>)
        requires
            old(self).wf(),
        ensures
            final(self).wf(),
            final(self).text() == old(self).text(),
            agrees(res_exprs(r), sp_args_rest(old(self).text(), old(self).state(), exprs_view(acc@), fuel_of(old(self).text(), old(self).state(), 8)), final(self).state()),
            r is Ok ==> left_of(final(self).text(), final(self).state()) <= left_of(old(self).text(), old(self).state()),
        decreases left_of(old(self).text(), old(self).state()) * 32 + 16,
    {
        proof { self.lexer.lemma_bounds(); }
        if self.at_rparen() {
            self.advance()?;
            return Ok(acc);
        }
        if self.at_eof() {
            return Ok(acc);
        }
        let a = self.parse_expression()?;
        let mut acc = acc;
        let ghost a0 = acc@;
        acc.push(a);
        assert(acc@.drop_last() =~= a0);
        if self.at_comma() {
            self.advance()?;
        }
        self.parse_args_rest(acc)
    }

    fn parse_primary(&mut self) -> (r: Result<Expr, CompileError>)
        requires
            old(self).wf(),
        ensures
            final(self).wf(),
            final(self).text() == old(self).text(),
            agrees(res_expr(r), sp_primary(old(self).text(), old(self).state(), fuel_of(old(self).text(), old(self).state(), 0)), final(self).state()),
            r is Ok ==> left_of(final(self).text(), final(self).state()) < left_of(old(self).text(), old(self).state()),
        decreases left_of(old(self).text(), old(self).state()) * 32 + 0,
    {
        proof { self.lexer.lemma_bounds(); }
        let e = match &self.current {
            Token::Number(n) => Expr::Number(*n),
            Token::Float(f) => Expr::Float(f.clone()),
            Token::True => Expr::Bool(true),
            Token::False => Expr::Bool(false),
            Token::String(s) => Expr::String(s.clone()),
            Token::Identifier(id) => Expr::Identifier(id.clone()),
            Token::LParen => {
                self.advance()?;
                let inner = self.parse_expression()?;
                if self.at_rparen() {
                    self.advance()?;
                }
                return Ok(inner);
            },
            _ => {
                return Err(self.error("Unexpected token in expression"));
            },
        };
        self.advance()?;
        Ok(e)
    }
}

/// Lexes and parses a whole source text.
pub fn parse_source(text: &str) -> (r: Result<Vec<Stmt>, CompileError>)
    ensures
        res_stmts(r) == parse_text(text@),
{
    let lexer = Lexer::new(text);
    let mut parser = Parser::new(lexer);
    proof {
        assert(stmts_view(Seq::<Stmt>::empty()) =~= Seq::<StmtV>::empty());
    }
    parser.parse()
}

} // verus!

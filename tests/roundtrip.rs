use astrixa::ast::{Expr, Stmt};
use astrixa::ir::IRInstr;
use astrixa::lexer::Lexer;
use astrixa::lowering::lower;
use astrixa::opt::optimize_module;
use astrixa::parser::Parser;

fn parse(src: &str) -> Vec<Stmt> {
    Parser::new(Lexer::new(src)).parse().expect("parses")
}

fn print_expr(e: &Expr) -> String {
    let bin = |a: &Expr, op: &str, b: &Expr| format!("({} {} {})", print_expr(a), op, print_expr(b));
    match e {
        Expr::Number(n) => n.to_string(),
        Expr::Float(t) => t.clone(),
        Expr::Bool(b) => b.to_string(),
        Expr::String(s) => format!("\"{}\"", s.replace('\\', "\\\\").replace('"', "\\\"")),
        Expr::Identifier(x) => x.clone(),
        Expr::Call(n, args) => format!("{}({})", n, args.iter().map(print_expr).collect::<Vec<_>>().join(", ")),
        Expr::ModuleCall(m, n, args) => {
            format!("{}.{}({})", m, n, args.iter().map(print_expr).collect::<Vec<_>>().join(", "))
        }
        Expr::Add(a, b) => bin(a, "+", b),
        Expr::Sub(a, b) => bin(a, "-", b),
        Expr::Mul(a, b) => bin(a, "*", b),
        Expr::Div(a, b) => bin(a, "/", b),
        Expr::Mod(a, b) => bin(a, "%", b),
        Expr::Eq(a, b) => bin(a, "==", b),
        Expr::Ne(a, b) => bin(a, "!=", b),
        Expr::Lt(a, b) => bin(a, "<", b),
        Expr::Le(a, b) => bin(a, "<=", b),
        Expr::Gt(a, b) => bin(a, ">", b),
        Expr::Ge(a, b) => bin(a, ">=", b),
    }
}

fn print_block(ss: &[Stmt]) -> String {
    format!("{{ {} }}", ss.iter().map(print_stmt).collect::<Vec<_>>().join("; "))
}

fn print_stmt(s: &Stmt) -> String {
    match s {
        Stmt::Import(m) => format!("import {}", m),
        Stmt::Function { name, params, body, exported, .. } => format!(
            "{}fn {}({}) {}",
            if *exported { "export " } else { "" },
            name,
            params.join(", "),
            print_block(body)
        ),
        Stmt::Expression(e) => print_expr(e),
        Stmt::Let { name, value } => format!("let {} = {}", name, print_expr(value)),
        Stmt::Assign { name, value } => format!("{} = {}", name, print_expr(value)),
        Stmt::If { condition, then_body, else_body } => match else_body {
            Some(b) => format!("if {} {} else {}", print_expr(condition), print_block(then_body), print_block(b)),
            None => format!("if {} {}", print_expr(condition), print_block(then_body)),
        },
        Stmt::While { condition, body } => format!("while {} {}", print_expr(condition), print_block(body)),
        Stmt::Return(e) => format!("return {}", print_expr(e)),
        Stmt::Panic(e) => format!("panic({})", print_expr(e)),
    }
}

#[test]
fn parse_print_parse_gives_the_same_tree() {
    let src = "import math\nexport fn f(a, b) { let x = a + b * 2 - 1; if x >= 3 == true { return math.g(x, \"q\\\"\") } else { x = x % 4 } while x < 10 { x = x + 1 } panic(\"stop\") }";
    let first = parse(src);
    let printed = first.iter().map(print_stmt).collect::<Vec<_>>().join("\n");
    assert_eq!(parse(&printed), first);
}

#[test]
fn truncation_keeps_loop_exits() {
    let module = optimize_module(&lower(&parse("fn count { let i = 0; while i < 3 { i = i + 1 } return i }")));
    let code = &module.functions[0].instructions;
    assert_eq!(code.last(), Some(&IRInstr::Return));
    let n = code.len();
    for i in code {
        if let IRInstr::Jump(t) | IRInstr::JumpIfFalse(t) = i {
            assert!(*t < n);
        }
    }
}

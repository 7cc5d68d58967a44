use astrixa::ast::{Expr, Stmt};
use astrixa::codegen::wasm::generate_wasm_module;
use astrixa::ir::{IRFunction, IRInstr, IRModule};
use astrixa::lexer::Lexer;
use astrixa::loader::ModuleLoader;
use astrixa::lowering::lower;
use astrixa::opt::optimize_module;
use astrixa::parser::Parser;
use astrixa::token::Token;
use astrixa::typechecker::TypeChecker;
use astrixa::types::Type;

fn parse(src: &str) -> Vec<Stmt> {
    let mut p = Parser::new(Lexer::new(src));
    p.parse().expect("parses")
}

fn tokens(src: &str) -> Vec<Token> {
    let mut lx = Lexer::new(src);
    let mut out = Vec::new();
    loop {
        let t = lx.next_token().expect("lexes");
        if t == Token::EOF {
            break;
        }
        out.push(t);
    }
    out
}

#[test]
fn lexer_tokens_and_operators() {
    assert_eq!(
        tokens("fn f(a) { return a <= 10 != true }"),
        vec![
            Token::Fn,
            Token::Identifier("f".to_string()),
            Token::LParen,
            Token::Identifier("a".to_string()),
            Token::RParen,
            Token::LBrace,
            Token::Return,
            Token::Identifier("a".to_string()),
            Token::LessEqual,
            Token::Number(10),
            Token::NotEqual,
            Token::True,
            Token::RBrace,
        ]
    );
    assert_eq!(
        tokens("= == < > >= % 3.25 \"a\\n\\\"b\" x_1"),
        vec![
            Token::Assign,
            Token::EqualEqual,
            Token::Less,
            Token::Greater,
            Token::GreaterEqual,
            Token::Percent,
            Token::Float("3.25".to_string()),
            Token::String("a\n\"b".to_string()),
            Token::Identifier("x_1".to_string()),
        ]
    );
}

#[test]
fn lexer_tracks_lines_and_columns() {
    let mut lx = Lexer::new("let\n  x");
    assert_eq!((lx.line(), lx.column()), (1, 1));
    assert_eq!(lx.next_token().unwrap(), Token::Let);
    assert_eq!((lx.token_line(), lx.token_column()), (1, 1));
    assert_eq!(lx.next_token().unwrap(), Token::Identifier("x".to_string()));
    assert_eq!((lx.token_line(), lx.token_column()), (2, 3));
    assert_eq!(lx.next_token().unwrap(), Token::EOF);
}

#[test]
fn lexer_errors() {
    let mut lx = Lexer::new("  \"open");
    let e = lx.next_token().unwrap_err();
    assert_eq!(e.message, "Unterminated string");
    assert_eq!((e.line, e.column), (1, 3));

    let mut lx = Lexer::new("a ! b");
    lx.next_token().unwrap();
    let e = lx.next_token().unwrap_err();
    assert_eq!(e.message, "Unexpected '!'");
    assert_eq!(e.column, 3);

    let mut lx = Lexer::new("@");
    let e = lx.next_token().unwrap_err();
    assert_eq!(e.message, "Unknown character '@'");
    assert_eq!(e.help.as_deref(), Some("unexpected character"));
}

#[test]
fn number_too_large_is_an_error() {
    let mut lx = Lexer::new("x 99999999999999999999");
    lx.next_token().unwrap();
    let e = lx.next_token().unwrap_err();
    assert_eq!(e.message, "Integer literal too large");
    assert_eq!((e.line, e.column), (1, 3));
    assert_eq!(tokens("9223372036854775807"), vec![Token::Number(i64::MAX)]);
}

#[test]
fn relexing_printed_tokens_gives_the_same_stream() {
    let src = "fn main(a, b) { let x = a * (b + 2) % 7; if x >= 3 { return math.f(\"q\") } }";
    let first = tokens(src);
    let printed: Vec<String> = first
        .iter()
        .map(|t| match t {
            Token::Identifier(s) => s.clone(),
            Token::Number(n) => n.to_string(),
            Token::String(s) => format!("\"{}\"", s),
            Token::Fn => "fn".to_string(),
            Token::Let => "let".to_string(),
            Token::If => "if".to_string(),
            Token::Return => "return".to_string(),
            Token::LParen => "(".to_string(),
            Token::RParen => ")".to_string(),
            Token::LBrace => "{".to_string(),
            Token::RBrace => "}".to_string(),
            Token::Comma => ",".to_string(),
            Token::Semicolon => ";".to_string(),
            Token::Dot => ".".to_string(),
            Token::Assign => "=".to_string(),
            Token::Star => "*".to_string(),
            Token::Plus => "+".to_string(),
            Token::Percent => "%".to_string(),
            Token::GreaterEqual => ">=".to_string(),
            other => panic!("unexpected token {:?}", other),
        })
        .collect();
    assert_eq!(tokens(&printed.join(" ")), first);
}

#[test]
fn parser_precedence_and_calls() {
    let stmts = parse("fn f { return 1 + 2 * 3 < m.g(4, x) }");
    match &stmts[0] {
        Stmt::Function { name, body, params, .. } => {
            assert_eq!(name, "f");
            assert!(params.is_empty());
            let expected = Stmt::Return(Expr::Lt(
                Box::new(Expr::Add(
                    Box::new(Expr::Number(1)),
                    Box::new(Expr::Mul(Box::new(Expr::Number(2)), Box::new(Expr::Number(3)))),
                )),
                Box::new(Expr::ModuleCall(
                    "m".to_string(),
                    "g".to_string(),
                    vec![Expr::Number(4), Expr::Identifier("x".to_string())],
                )),
            ));
            assert_eq!(body[0], expected);
        }
        _ => panic!("expected a function"),
    }
}

#[test]
fn parser_statements() {
    let stmts = parse("import math export fn g(a, b) { a = a + 1; while a < b { print(a) } panic(\"no\") }");
    assert_eq!(stmts[0], Stmt::Import("math".to_string()));
    match &stmts[1] {
        Stmt::Function { name, params, body, exported, .. } => {
            assert_eq!(name, "g");
            assert_eq!(params, &vec!["a".to_string(), "b".to_string()]);
            assert!(*exported);
            assert_eq!(body.len(), 3);
            assert!(matches!(body[0], Stmt::Assign { .. }));
            assert!(matches!(body[1], Stmt::While { .. }));
            assert_eq!(body[2], Stmt::Panic(Expr::String("no".to_string())));
        }
        _ => panic!("expected a function"),
    }
}

#[test]
fn parser_errors() {
    let mut p = Parser::new(Lexer::new("fn f { let = 3 }"));
    let e = p.parse().unwrap_err();
    assert_eq!(e.message, "Expected variable name after 'let'");
    let mut p = Parser::new(Lexer::new("export let"));
    assert_eq!(p.parse().unwrap_err().message, "Expected 'fn' after 'export'");
    let mut p = Parser::new(Lexer::new("fn f { if x return 1 }"));
    assert_eq!(p.parse().unwrap_err().message, "Expected '{' after if condition");
}

#[test]
fn scenario_integer_arithmetic() {
    let stmts = parse("fn main { let x = 2 + 3 * 4; return x }");
    let module = optimize_module(&lower(&stmts));
    let main = &module.functions[0];
    assert_eq!(
        main.instructions,
        vec![IRInstr::LoadConstInt(14), IRInstr::StoreLocal(0), IRInstr::LoadLocal(0), IRInstr::Return]
    );
    assert_eq!(main.local_count, 1);
    let wat = generate_wasm_module(&module);
    assert!(wat.contains("i32.const 14"));
    assert!(wat.contains("    (local i32)\n"));
    assert!(wat.contains("(export \"main\" (func $main))"));
}

#[test]
fn scenario_if_else_return_inference() {
    let stmts = parse("fn sign(n) { if n > 0 { return 1 } else { return 0 } }");
    let mut tc = TypeChecker::new();
    assert!(tc.check(&stmts).is_ok());
    let sig = tc.signature("sign").unwrap();
    assert_eq!(sig.params, vec![Type::Int]);
    assert_eq!(sig.return_type, Type::Int);
    let module = lower(&stmts);
    let code = &module.functions[0].instructions;
    let len = code.len();
    let jifs: Vec<usize> = code.iter().filter_map(|i| match i { IRInstr::JumpIfFalse(t) => Some(*t), _ => None }).collect();
    let jumps: Vec<usize> = code.iter().filter_map(|i| match i { IRInstr::Jump(t) => Some(*t), _ => None }).collect();
    assert_eq!(jifs.len(), 1);
    assert_eq!(jumps.len(), 1);
    assert!(jifs[0] <= len && jumps[0] <= len);
}

#[test]
fn scenario_while_loop() {
    let stmts = parse("fn count { let i = 0; while i < 3 { i = i + 1 } return i }");
    let module = lower(&stmts);
    let code = &module.functions[0].instructions;
    let jump_at = code.iter().position(|i| matches!(i, IRInstr::Jump(_))).unwrap();
    let jif = code.iter().find_map(|i| match i { IRInstr::JumpIfFalse(t) => Some(*t), _ => None }).unwrap();
    assert_eq!(jif, jump_at + 1);
    assert_eq!(code[jump_at], IRInstr::Jump(2));
}

#[test]
fn scenario_module_import() {
    let mut loader = ModuleLoader::new();
    loader.load_module("main", "import math\nfn main { return math.add(2, 3) }").unwrap();
    assert_eq!(loader.missing_imports(), vec!["math".to_string()]);
    loader.load_module("math", "export fn add(a, b) { return a + b }").unwrap();
    assert!(loader.missing_imports().is_empty());
    let stmts = loader.flatten("main").unwrap();
    let names: Vec<&str> = stmts
        .iter()
        .filter_map(|s| match s { Stmt::Function { name, .. } => Some(name.as_str()), _ => None })
        .collect();
    assert_eq!(names, vec!["math.add", "main"]);
    let module = lower(&stmts);
    assert!(module.functions[1].instructions.contains(&IRInstr::Call("math.add".to_string(), 2)));
    let wat = generate_wasm_module(&module);
    assert!(wat.contains("call $math_add"));
    assert!(wat.contains("(func $math_add"));
    assert!(wat.contains("(export \"math.add\" (func $math_add))"));
}

#[test]
fn loader_refuses_cycles_and_missing_modules() {
    let mut loader = ModuleLoader::new();
    loader.load_module("a", "import b fn fa { return 1 }").unwrap();
    loader.load_module("b", "import a fn fb { return 2 }").unwrap();
    let e = loader.flatten("a").unwrap_err();
    assert!(e.message.contains("'a'") && e.message.contains("'b'"));

    let mut loader = ModuleLoader::new();
    loader.load_module("s", "import s fn f { return 1 }").unwrap();
    assert!(loader.flatten("s").unwrap_err().message.contains("cycle"));

    let mut loader = ModuleLoader::new();
    loader.load_module("m", "import gone fn f { return 1 }").unwrap();
    assert_eq!(loader.flatten("m").unwrap_err().message, "Module 'gone' not found in search paths");
    assert_eq!(loader.candidate_files("gone"), vec!["./gone.ax".to_string(), "./stdlib/gone.ax".to_string()]);
}

#[test]
fn loader_keeps_the_first_load() {
    let mut loader = ModuleLoader::new();
    loader.load_module("m", "fn one { return 1 }").unwrap();
    loader.load_module("m", "fn two { return 2 }").unwrap();
    assert_eq!(loader.module_count(), 1);
    assert!(loader.get_module("m").is_some());
    assert!(loader.load_module("bad", "fn f { let = }").is_err());
    assert_eq!(loader.module_count(), 1);
}

#[test]
fn test_module_loader_creation() {
    let loader = ModuleLoader::new();
    assert_eq!(loader.module_count(), 0);
    assert!(loader.search_paths().len() >= 2);
}

#[test]
fn scenario_panic_lowering() {
    let stmts = parse("fn bad { panic(\"nope\") }");
    let module = lower(&stmts);
    let code = &module.functions[0].instructions;
    assert_eq!(
        code[code.len() - 4..].to_vec(),
        vec![
            IRInstr::LoadConstString("nope".to_string()),
            IRInstr::Panic,
            IRInstr::LoadConstInt(0),
            IRInstr::Return
        ]
    );
    let wat = generate_wasm_module(&module);
    assert!(wat.contains("(data (i32.const 0) \"nope\")"));
    assert!(wat.contains("i32.const 4  ;; len"));
    assert!(wat.contains("call $panic\n    unreachable"));
}

#[test]
fn scenario_inlining() {
    let stmts = parse("fn add(a, b) { return a + b } fn main { return add(2, 3) }");
    let module = optimize_module(&lower(&stmts));
    let main = module.functions.iter().find(|f| f.name == "main").unwrap();
    assert!(main.instructions.iter().all(|i| !matches!(i, IRInstr::Call(_, _))));
    assert_eq!(main.local_count, 2);
    assert_eq!(main.instructions.last(), Some(&IRInstr::Return));
}

#[test]
fn typechecker_collects_errors_in_order() {
    let stmts = parse("fn f(a) { let s = \"x\"; let y = s + 1; panic(3); z = 1; return y } fn g { return f(1, 2) }");
    let mut tc = TypeChecker::new();
    let errs = tc.check(&stmts).unwrap_err();
    assert_eq!(errs.len(), 4);
    assert!(errs[0].contains("arithmetic"));
    assert!(errs[1].contains("panic"));
    assert!(errs[2].contains("'z' not defined"));
    assert!(errs[3].contains("wrong number of arguments"));
    assert_eq!(tc.get_errors(), errs);
}

#[test]
fn typechecker_reports_inconsistent_returns() {
    let stmts = parse("fn f(a) { if a { return 1 } return \"s\" }");
    let mut tc = TypeChecker::new();
    let errs = tc.check(&stmts).unwrap_err();
    assert_eq!(errs.len(), 1);
    assert!(errs[0].contains("inconsistent return types"));
    assert_eq!(tc.signature("f").unwrap().return_type, Type::Unknown);
    let mut tc = TypeChecker::new();
    assert!(tc.check(&parse("fn v { print(1) }")).is_ok());
    assert_eq!(tc.signature("v").unwrap().return_type, Type::Void);
}

#[test]
fn empty_body_lowers_to_zero_return() {
    let module = lower(&parse("fn e { }"));
    assert_eq!(module.functions[0].instructions, vec![IRInstr::LoadConstInt(0), IRInstr::Return]);
}

#[test]
fn if_without_else_jumps_past_then() {
    let module = lower(&parse("fn f(c) { if c { print(1) } return 2 }"));
    let code = &module.functions[0].instructions;
    assert_eq!(code[1], IRInstr::JumpIfFalse(4));
    assert_eq!(code[3], IRInstr::CallStd("print".to_string()));
}

#[test]
fn test_lower_empty_function() {
    let stmts = vec![Stmt::Function {
        name: "test".to_string(),
        params: vec![],
        return_type: Type::Void,
        body: vec![],
        exported: false,
    }];
    let module = lower(&stmts);
    assert_eq!(module.functions.len(), 1);
    assert_eq!(module.functions[0].name, "test");
    assert_eq!(module.functions[0].instructions.len(), 2);
    assert!(matches!(module.functions[0].instructions[1], IRInstr::Return));
}

#[test]
fn test_lower_multiple_functions() {
    let stmts = vec![
        Stmt::Function { name: "foo".to_string(), params: vec![], return_type: Type::Void, body: vec![], exported: false },
        Stmt::Function { name: "bar".to_string(), params: vec![], return_type: Type::Void, body: vec![], exported: false },
    ];
    let module = lower(&stmts);
    assert_eq!(module.functions.len(), 2);
    assert_eq!(module.functions[0].name, "foo");
    assert_eq!(module.functions[1].name, "bar");
}

#[test]
fn call_classification() {
    let module = lower(&parse("fn f { ai.generate(\"p\"); web3.wallet(); fs.read(1); print(2); g(1, 2) }"));
    let code = &module.functions[0].instructions;
    assert!(code.contains(&IRInstr::CallAI("ai.generate".to_string())));
    assert!(code.contains(&IRInstr::CallWeb3("web3.wallet".to_string())));
    assert!(code.contains(&IRInstr::CallFS("fs.read".to_string())));
    assert!(code.contains(&IRInstr::CallStd("print".to_string())));
    assert!(code.contains(&IRInstr::Call("g".to_string(), 2)));
}

#[test]
fn lowered_functions_are_well_formed() {
    let module = lower(&parse(
        "fn f(a, b) { let x = a; while x < b { if x == 3 { return x } else { x = x + 1 } } let y = 0 }",
    ));
    for f in &module.functions {
        let n = f.instructions.len();
        assert_eq!(f.instructions[n - 1], IRInstr::Return);
        assert!(f.param_count <= f.local_count);
        for i in &f.instructions {
            match i {
                IRInstr::Jump(t) | IRInstr::JumpIfFalse(t) => assert!(*t <= n),
                IRInstr::LoadLocal(k) | IRInstr::StoreLocal(k) => assert!((*k as usize) < f.local_count),
                _ => {}
            }
        }
    }
}

#[test]
fn module_find_function() {
    let mut m = IRModule::new();
    m.add_function(IRFunction::new("a".to_string()));
    m.add_function(IRFunction::new("b".to_string()));
    assert_eq!(m.find_function("b").unwrap().name, "b");
    assert!(m.find_function("c").is_none());
}

#[test]
fn typechecker_error_variants() {
    let check = |src: &str| {
        let mut tc = TypeChecker::new();
        tc.check(&parse(src)).err().unwrap_or_default()
    };
    let e = check("fn f { if \"s\" { return 1 } }");
    assert_eq!(e.len(), 1);
    assert!(e[0].contains("if condition must be Int or Bool, got String"));
    let e = check("fn f { let x = 1; x = \"s\" }");
    assert_eq!(e, vec!["Type error: cannot assign String to variable of type Int".to_string()]);
    let e = check("fn g(a) { return a } fn f { return g(\"s\") }");
    assert_eq!(e, vec!["Type error: argument of function 'g' expects Int, got String".to_string()]);
    let e = check("fn f { while \"a\" < 1 { } }");
    assert_eq!(e, vec!["Type error: comparison operators require Int operands, got String and Int".to_string()]);
    assert!(check("fn f(a) { let b = a == 1; if b { return 2 } return 3 }").is_empty());
}

#[test]
fn unknown_operands_raise_no_further_errors() {
    let stmts = parse("fn f { let y = z + 1; return y } fn g(n) { if n > 0 { return q } else { return 1 } }");
    let mut tc = TypeChecker::new();
    assert!(tc.check(&stmts).is_ok());
    assert_eq!(tc.signature("g").unwrap().return_type, Type::Int);
    let mut tc = TypeChecker::new();
    let errs = tc.check(&parse("fn f { return \"a\" + 1 }")).unwrap_err();
    assert_eq!(errs.len(), 1);
}

#[test]
fn load_module_records_imports_in_order() {
    let mut loader = ModuleLoader::new();
    loader.load_module("m", "import b import a fn f { return 1 }").unwrap();
    assert_eq!(loader.get_module("m").unwrap().imports, vec!["b".to_string(), "a".to_string()]);
    assert_eq!(loader.get_module("m").unwrap().statements.len(), 3);
    let e = loader.not_found_error("x");
    assert_eq!(e.help.as_deref(), Some("Searched for 'x.ax' in: ., ./stdlib"));
}

#[test]
fn optimized_sign_keeps_its_else_branch() {
    let module = optimize_module(&lower(&parse("fn sign(n) { if n > 0 { return 1 } else { return 0 } }")));
    let code = &module.functions[0].instructions;
    let n = code.len();
    assert!(code.contains(&IRInstr::LoadConstInt(0)));
    for i in code {
        if let IRInstr::Jump(t) | IRInstr::JumpIfFalse(t) = i {
            assert!(*t <= n);
        }
    }
}

#[test]
fn parser_grammar_examples() {
    let stmts = parse("fn main { return 1 - 2 - 3 * 4 < 5 }");
    let n = |v| Box::new(Expr::Number(v));
    let expected = Stmt::Return(Expr::Lt(
        Box::new(Expr::Sub(
            Box::new(Expr::Sub(n(1), n(2))),
            Box::new(Expr::Mul(n(3), n(4))),
        )),
        n(5),
    ));
    match &stmts[0] {
        Stmt::Function { body, .. } => assert_eq!(body[0], expected),
        _ => panic!("expected a function"),
    }
    let e = astrixa::parser::parse_source("fn f { let x 5 }").unwrap_err();
    assert_eq!(e.message, "Expected '=' after variable name");
    assert_eq!(e.line, 1);
}

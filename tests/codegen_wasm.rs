use astrixa::codegen::wasm::{
    escape_string, escape_wat_string, generate_import, generate_wasm_module, generate_wat, sanitize,
    MemoryAllocator,
};
use astrixa::ir::{IRFunction, IRInstr, IRModule};

#[test]
fn test_generate_wat_simple_add() {
    let instrs = vec![
        IRInstr::LoadConstInt(5),
        IRInstr::LoadConstInt(3),
        IRInstr::Add,
        IRInstr::Return,
    ];
    let wat = generate_wat("add_test", &instrs);
    assert!(wat.contains("i32.const 5"));
    assert!(wat.contains("i32.const 3"));
    assert!(wat.contains("i32.add"));
    assert!(wat.contains("return"));
    assert!(wat.contains("(export \"add_test\""));
}

#[test]
fn test_generate_wat_multiplication() {
    let instrs = vec![
        IRInstr::LoadConstInt(4),
        IRInstr::LoadConstInt(5),
        IRInstr::Mul,
        IRInstr::Return,
    ];
    let wat = generate_wat("mul_test", &instrs);
    assert!(wat.contains("i32.const 4"));
    assert!(wat.contains("i32.const 5"));
    assert!(wat.contains("i32.mul"));
    assert!(wat.contains("(export \"mul_test\""));
}

#[test]
fn test_generate_wat_comparison() {
    let instrs = vec![
        IRInstr::LoadConstInt(5),
        IRInstr::LoadConstInt(3),
        IRInstr::Lt,
        IRInstr::Return,
    ];
    let wat = generate_wat("cmp_test", &instrs);
    assert!(wat.contains("i32.lt_s"));
    assert!(wat.contains("(export \"cmp_test\""));
}

#[test]
fn test_generate_wasm_module() {
    let mut module = IRModule::new();
    let mut func = IRFunction::new("test".to_string());
    func.add_instruction(IRInstr::LoadConstInt(42));
    func.add_instruction(IRInstr::Return);
    module.add_function(func);

    let wasm = generate_wasm_module(&module);

    assert!(wasm.contains("(module"));
    assert!(wasm.contains("(memory (export \"memory\")"));
    assert!(wasm.contains("(func $test"));
    assert!(wasm.contains("i32.const 42"));
    assert!(wasm.contains("(export \"test\""));
    assert!(wasm.contains(")"));
}

#[test]
fn test_stdlib_call() {
    let mut module = IRModule::new();
    let mut func = IRFunction::new("main".to_string());
    func.add_instruction(IRInstr::LoadConstInt(42));
    func.add_instruction(IRInstr::CallStd("print".to_string()));
    func.add_instruction(IRInstr::LoadConstInt(0));
    func.add_instruction(IRInstr::Return);
    module.add_function(func);

    let wasm = generate_wasm_module(&module);

    assert!(wasm.contains("(import \"env\" \"print_str\""));
    assert!(wasm.contains("call $print"));
    assert!(wasm.contains("(memory (export \"memory\")"));
}

#[test]
fn test_string_constant() {
    let mut module = IRModule::new();
    let mut func = IRFunction::new("main".to_string());
    func.add_instruction(IRInstr::LoadConstString("Hello ASTRIXA".to_string()));
    func.add_instruction(IRInstr::CallStd("print".to_string()));
    func.add_instruction(IRInstr::LoadConstInt(0));
    func.add_instruction(IRInstr::Return);
    module.add_function(func);

    let wasm = generate_wasm_module(&module);

    assert!(wasm.contains("(data"));
    assert!(wasm.contains("Hello ASTRIXA"));
    assert!(wasm.contains("(memory (export \"memory\")"));
    assert!(wasm.contains("(import \"env\" \"print_str\""));
}

#[test]
fn test_multiple_stdlib_calls() {
    let mut module = IRModule::new();
    let mut func = IRFunction::new("main".to_string());
    func.add_instruction(IRInstr::LoadConstString("Hello".to_string()));
    func.add_instruction(IRInstr::CallStd("print".to_string()));
    func.add_instruction(IRInstr::LoadConstString("World".to_string()));
    func.add_instruction(IRInstr::CallStd("print".to_string()));
    func.add_instruction(IRInstr::LoadConstInt(0));
    func.add_instruction(IRInstr::Return);
    module.add_function(func);

    let wasm = generate_wasm_module(&module);

    assert!(wasm.contains("(import \"env\" \"print_str\""));
    assert!(wasm.contains("Hello"));
    assert!(wasm.contains("World"));
}

#[test]
fn test_escape_string() {
    let s = "Hello \"world\" with \\ backslash";
    let escaped = escape_string(s);
    assert!(escaped.contains("\\\""));
    assert!(escaped.contains("\\\\"));
}

#[test]
fn test_escape_wat_string() {
    let s = "Hello\nWorld";
    let escaped = escape_wat_string(s);
    assert!(escaped.contains("\\n"));
}

#[test]
fn escape_wat_string_exact_forms() {
    assert_eq!(escape_wat_string("a\"b\\c\nd\re\tf"), "a\\\"b\\\\c\\nd\\re\\tf");
    assert_eq!(escape_wat_string("\u{1}"), "\\01");
    assert_eq!(escape_wat_string("é"), "\\c3\\a9");
    assert_eq!(escape_wat_string("~ "), "~ ");
}

#[test]
fn escape_string_exact_forms() {
    assert_eq!(escape_string("q\"\\\n\r\t"), "q\\\"\\\\\\n\\r\t");
}

#[test]
fn sanitize_replaces_dots() {
    assert_eq!(sanitize("math.add"), "math_add");
    assert_eq!(sanitize("plain"), "plain");
}

#[test]
fn import_lines_use_fixed_signatures() {
    assert_eq!(
        generate_import("print"),
        "  (import \"env\" \"print_str\" (func $print (param i32 i32)))\n"
    );
    assert_eq!(
        generate_import("web3.verify"),
        "  (import \"env\" \"web3_verify\" (func $web3_verify (param i32 i32 i32 i32) (result i32)))\n"
    );
    assert_eq!(
        generate_import("fs.read"),
        "  (import \"env\" \"fs_read\" (func $fs_read (param i32)))\n"
    );
}

#[test]
fn allocator_places_strings_one_after_another() {
    let mut a = MemoryAllocator::new();
    assert_eq!(a.allocate_string("nope"), (0, 4));
    assert_eq!(a.allocate_string("hello"), (4, 5));
    assert_eq!(a.allocate_string("nope"), (0, 4));
    assert_eq!(a.allocate_string("é"), (9, 2));
    assert_eq!(a.find("hello"), Some((4, 5)));
    assert_eq!(a.find("other"), None);
    let data = a.get_data_section();
    assert_eq!(
        data,
        "  (data (i32.const 0) \"nope\")\n  (data (i32.const 4) \"hello\")\n  (data (i32.const 9) \"\\c3\\a9\")\n"
    );
}

#[test]
fn data_section_holds_each_string_once() {
    let mut module = IRModule::new();
    let mut f = IRFunction::new("a".to_string());
    f.add_instruction(IRInstr::LoadConstString("x".to_string()));
    f.add_instruction(IRInstr::LoadConstString("yy".to_string()));
    f.add_instruction(IRInstr::LoadConstString("x".to_string()));
    f.add_instruction(IRInstr::Return);
    let mut g = IRFunction::new("b".to_string());
    g.add_instruction(IRInstr::LoadConstString("yy".to_string()));
    g.add_instruction(IRInstr::Return);
    module.add_function(f);
    module.add_function(g);
    let wasm = generate_wasm_module(&module);
    assert_eq!(wasm.matches("(data ").count(), 2);
    assert!(wasm.contains("(data (i32.const 0) \"x\")"));
    assert!(wasm.contains("(data (i32.const 1) \"yy\")"));
    assert!(wasm.contains("i32.const 1  ;; ptr to \"yy\""));
}

#[test]
fn imports_are_declared_once_each() {
    let mut module = IRModule::new();
    let mut f = IRFunction::new("main".to_string());
    f.add_instruction(IRInstr::CallStd("print".to_string()));
    f.add_instruction(IRInstr::CallAI("ai.generate".to_string()));
    f.add_instruction(IRInstr::CallStd("print".to_string()));
    f.add_instruction(IRInstr::CallFS("fs.read".to_string()));
    f.add_instruction(IRInstr::Panic);
    f.add_instruction(IRInstr::Panic);
    f.add_instruction(IRInstr::Return);
    module.add_function(f);
    let wasm = generate_wasm_module(&module);
    assert_eq!(wasm.matches("\"print_str\"").count(), 1);
    assert_eq!(wasm.matches("\"ai_generate\"").count(), 1);
    assert_eq!(wasm.matches("\"fs_read\"").count(), 1);
    assert_eq!(wasm.matches("(import \"env\" \"panic\"").count(), 1);
    assert!(wasm.contains("call $ai_generate"));
    assert!(wasm.contains("call $panic\n    unreachable\n"));
}

#[test]
fn function_declares_extra_locals_and_exports_dotted_name() {
    let mut module = IRModule::new();
    let mut f = IRFunction::new("math.add".to_string());
    f.param_count = 2;
    f.local_count = 3;
    f.add_instruction(IRInstr::LoadLocal(0));
    f.add_instruction(IRInstr::Return);
    module.add_function(f);
    let wasm = generate_wasm_module(&module);
    assert!(wasm.contains("  (func $math_add (param i32) (param i32) (result i32)\n    (local i32)\n"));
    assert!(wasm.contains("(export \"math.add\" (func $math_add))"));
    assert!(wasm.contains("local.get 0  ;; load from slot 0"));
}

#[test]
fn negative_constants_are_written_in_decimal() {
    let wat = generate_wat("neg", &[IRInstr::LoadConstInt(-1234567890123), IRInstr::Return]);
    assert!(wat.contains("i32.const -1234567890123\n"));
}

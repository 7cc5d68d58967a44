use astrixa::error::CompileError;
use astrixa::lowering::{classify, CallFamily, LowerCtx};
use astrixa::types::Type;

#[test]
fn compile_error_with_help() {
    let e = CompileError::new("bad", 3, 7).help("fix it");
    assert_eq!(e.message, "bad");
    assert_eq!((e.line, e.column), (3, 7));
    assert_eq!(e.help.as_deref(), Some("fix it"));
    assert!(CompileError::new("x", 0, 0).help.is_none());
}

#[test]
fn type_names() {
    assert_eq!(Type::Int.to_string(), "Int");
    assert_eq!(Type::Unknown.to_string(), "Unknown");
    assert_eq!(Type::Void.to_string(), "Void");
}

#[test]
fn lowering_slots() {
    let mut ctx = LowerCtx::new();
    assert_eq!(ctx.alloc_slot("a".to_string()), 0);
    assert_eq!(ctx.alloc_slot("b".to_string()), 1);
    assert_eq!(ctx.alloc_slot("a".to_string()), 2);
    assert_eq!(ctx.get("a"), Some(2));
    assert_eq!(ctx.get("b"), Some(1));
    assert_eq!(ctx.get("c"), None);
    assert_eq!(ctx.num_locals(), 3);
}

#[test]
fn call_family_order() {
    assert_eq!(classify("fs.exists"), CallFamily::FS);
    assert_eq!(classify("web3.balance"), CallFamily::Web3);
    assert_eq!(classify("ai.classify"), CallFamily::AI);
    assert_eq!(classify("sqrt"), CallFamily::Std);
    assert_eq!(classify("mine"), CallFamily::User);
}

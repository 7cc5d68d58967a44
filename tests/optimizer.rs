use astrixa::bytecode::{Instruction, OpCode};
use astrixa::gas::{estimate_gas, gas_cost, GasContext, GasLimits};
use astrixa::ir::{IRFunction, IRInstr, IRModule};
use astrixa::opt::{const_fold, dead_code_elim, fold_triple, inline_small_functions, optimize, optimize_module};

#[test]
fn folds_constant_addition() {
    let mut ir = vec![IRInstr::LoadConstInt(10), IRInstr::LoadConstInt(20), IRInstr::Add, IRInstr::Return];
    optimize(&mut ir);
    assert_eq!(ir.len(), 2);
    assert!(matches!(ir[0], IRInstr::LoadConstInt(30)));
}

#[test]
fn truncates_dead_code_after_return() {
    let mut ir = vec![IRInstr::LoadConstInt(1), IRInstr::Return, IRInstr::LoadConstInt(2)];
    optimize(&mut ir);
    assert_eq!(ir.len(), 2);
    assert!(matches!(ir[1], IRInstr::Return));
}

#[test]
fn inlines_small_function_body() {
    let module = IRModule {
        functions: vec![
            IRFunction {
                name: "add".to_string(),
                param_count: 2,
                instructions: vec![IRInstr::LoadLocal(0), IRInstr::LoadLocal(1), IRInstr::Add, IRInstr::Return],
                local_count: 2,
            },
            IRFunction {
                name: "main".to_string(),
                param_count: 0,
                instructions: vec![
                    IRInstr::LoadConstInt(2),
                    IRInstr::LoadConstInt(3),
                    IRInstr::Call("add".to_string(), 2),
                    IRInstr::Return,
                ],
                local_count: 0,
            },
        ],
    };
    let optimized = optimize_module(&module);
    let main = optimized.functions.iter().find(|f| f.name == "main").unwrap();
    assert!(main.instructions.iter().all(|i| !matches!(i, IRInstr::Call(_, _))));
    assert_eq!(main.local_count, 2);
    assert!(matches!(main.instructions.last(), Some(IRInstr::Return)));
    assert_eq!(
        main.instructions,
        vec![
            IRInstr::LoadConstInt(2),
            IRInstr::LoadConstInt(3),
            IRInstr::StoreLocal(1),
            IRInstr::StoreLocal(0),
            IRInstr::LoadLocal(0),
            IRInstr::LoadLocal(1),
            IRInstr::Add,
            IRInstr::Return,
        ]
    );
}

#[test]
fn folding_is_wrapping_and_skips_division_by_zero() {
    let c = IRInstr::LoadConstInt;
    assert_eq!(fold_triple(&c(i64::MAX), &c(1), &IRInstr::Add), Some(i64::MIN));
    assert_eq!(fold_triple(&c(i64::MIN), &c(1), &IRInstr::Sub), Some(i64::MAX));
    assert_eq!(fold_triple(&c(i64::MAX), &c(2), &IRInstr::Mul), Some(-2));
    assert_eq!(fold_triple(&c(-7), &c(2), &IRInstr::Div), Some(-3));
    assert_eq!(fold_triple(&c(-7), &c(2), &IRInstr::Mod), Some(-1));
    assert_eq!(fold_triple(&c(i64::MIN), &c(-1), &IRInstr::Div), Some(i64::MIN));
    assert_eq!(fold_triple(&c(i64::MIN), &c(-1), &IRInstr::Mod), Some(0));
    assert_eq!(fold_triple(&c(5), &c(0), &IRInstr::Div), None);
    assert_eq!(fold_triple(&c(5), &c(0), &IRInstr::Mod), None);
    assert_eq!(fold_triple(&c(3), &c(4), &IRInstr::Lt), Some(1));
    assert_eq!(fold_triple(&c(3), &c(4), &IRInstr::Ge), Some(0));
    assert_eq!(fold_triple(&c(3), &IRInstr::LoadLocal(0), &IRInstr::Add), None);
    assert_eq!(fold_triple(&c(3), &c(4), &IRInstr::And), None);
}

#[test]
fn folding_reaches_nested_constants() {
    let mut ir = vec![
        IRInstr::LoadConstInt(2),
        IRInstr::LoadConstInt(3),
        IRInstr::LoadConstInt(4),
        IRInstr::Mul,
        IRInstr::Add,
        IRInstr::LoadConstInt(1),
        IRInstr::LoadConstInt(0),
        IRInstr::Div,
    ];
    const_fold(&mut ir);
    assert_eq!(
        ir,
        vec![IRInstr::LoadConstInt(14), IRInstr::LoadConstInt(1), IRInstr::LoadConstInt(0), IRInstr::Div]
    );
}

#[test]
fn truncation_stops_at_first_exit_but_not_at_jump() {
    let mut ir = vec![IRInstr::Jump(0), IRInstr::LoadConstInt(1), IRInstr::Panic, IRInstr::Return];
    dead_code_elim(&mut ir);
    assert_eq!(ir, vec![IRInstr::Jump(0), IRInstr::LoadConstInt(1), IRInstr::Panic]);
    let mut none = vec![IRInstr::Nop, IRInstr::Nop];
    dead_code_elim(&mut none);
    assert_eq!(none.len(), 2);
}

#[test]
fn inlining_keeps_import_calls_in_order() {
    let mut module = IRModule {
        functions: vec![
            IRFunction {
                name: "log".to_string(),
                param_count: 1,
                instructions: vec![IRInstr::LoadLocal(0), IRInstr::CallWeb3("web3.sign".to_string()), IRInstr::Return],
                local_count: 1,
            },
            IRFunction {
                name: "main".to_string(),
                param_count: 0,
                instructions: vec![
                    IRInstr::CallStd("time".to_string()),
                    IRInstr::Call("log".to_string(), 1),
                    IRInstr::CallStd("exit".to_string()),
                    IRInstr::Return,
                ],
                local_count: 3,
            },
        ],
    };
    inline_small_functions(&mut module);
    let main = &module.functions[1];
    assert_eq!(
        main.instructions,
        vec![
            IRInstr::CallStd("time".to_string()),
            IRInstr::StoreLocal(3),
            IRInstr::LoadLocal(3),
            IRInstr::CallWeb3("web3.sign".to_string()),
            IRInstr::CallStd("exit".to_string()),
            IRInstr::Return,
        ]
    );
    assert_eq!(main.local_count, 4);
}

#[test]
fn calls_with_other_arity_or_to_large_functions_stay() {
    let mut module = IRModule {
        functions: vec![
            IRFunction {
                name: "big".to_string(),
                param_count: 0,
                instructions: vec![IRInstr::Nop, IRInstr::Nop, IRInstr::Nop, IRInstr::Nop, IRInstr::Nop, IRInstr::Return],
                local_count: 0,
            },
            IRFunction {
                name: "one".to_string(),
                param_count: 1,
                instructions: vec![IRInstr::LoadLocal(0), IRInstr::Return],
                local_count: 1,
            },
            IRFunction {
                name: "main".to_string(),
                param_count: 0,
                instructions: vec![IRInstr::Call("big".to_string(), 0), IRInstr::Call("one".to_string(), 2), IRInstr::Return],
                local_count: 0,
            },
        ],
    };
    inline_small_functions(&mut module);
    assert_eq!(
        module.functions[2].instructions,
        vec![IRInstr::Call("big".to_string(), 0), IRInstr::Call("one".to_string(), 2), IRInstr::Return]
    );
}

#[test]
fn gas_model() {
    assert_eq!(gas_cost(&OpCode::Call), 10);
    assert_eq!(gas_cost(&OpCode::Div), 8);
    assert_eq!(gas_cost(&OpCode::LoadConst), 1);
    assert_eq!(estimate_gas(21), 42);
    let limits = GasLimits::default();
    assert_eq!((limits.script, limits.contract, limits.transaction), (1_000_000, 100_000, 10_000_000));
    assert_eq!(GasLimits::test().contract, 10_000);
    let mut ctx = GasContext::new(100, 3);
    assert_eq!(ctx.remaining(), 100);
    ctx.gas_used = 40;
    assert_eq!(ctx.remaining(), 60);
    assert_eq!(ctx.total_cost(), 120);
    assert!(!ctx.is_out_of_gas());
    ctx.gas_used = 101;
    assert_eq!(ctx.remaining(), 0);
    assert!(ctx.is_out_of_gas());
    let big = GasContext { gas_limit: u64::MAX, gas_price: u64::MAX, gas_used: u64::MAX };
    assert_eq!(big.total_cost(), (u64::MAX as u128) * (u64::MAX as u128));
}

#[test]
fn bytecode_constructors() {
    let j = Instruction::jump_instr(17);
    assert_eq!(j.opcode, OpCode::Jump);
    assert_eq!(j.operand.as_deref(), Some("17"));
    assert_eq!(Instruction::jump_if_false(0).operand.as_deref(), Some("0"));
    assert_eq!(Instruction::array_instr(3).opcode, OpCode::Array);
    assert_eq!(Instruction::call_instr("f".to_string()).operand.as_deref(), Some("f"));
    assert_eq!(Instruction::const_instr("1".to_string()).opcode, OpCode::LoadConst);
    assert_eq!(Instruction::var_instr("v".to_string()).opcode, OpCode::LoadVar);
    assert_eq!(Instruction::store_var("v".to_string()).opcode, OpCode::StoreVar);
    assert!(Instruction::new(OpCode::Pop, None).operand.is_none());
}

#[test]
fn folding_moves_jump_targets_with_their_instructions() {
    let mut ir = vec![
        IRInstr::LoadConstInt(1),
        IRInstr::LoadConstInt(2),
        IRInstr::Lt,
        IRInstr::JumpIfFalse(6),
        IRInstr::LoadConstInt(5),
        IRInstr::Return,
        IRInstr::LoadConstInt(0),
        IRInstr::Return,
    ];
    const_fold(&mut ir);
    assert_eq!(
        ir,
        vec![
            IRInstr::LoadConstInt(1),
            IRInstr::JumpIfFalse(4),
            IRInstr::LoadConstInt(5),
            IRInstr::Return,
            IRInstr::LoadConstInt(0),
            IRInstr::Return,
        ]
    );
    let mut ir = vec![IRInstr::LoadConstInt(1), IRInstr::LoadConstInt(2), IRInstr::Add, IRInstr::JumpIfFalse(5), IRInstr::Return];
    const_fold(&mut ir);
    assert_eq!(ir, vec![IRInstr::LoadConstInt(3), IRInstr::JumpIfFalse(3), IRInstr::Return]);
}

#[test]
fn window_a_jump_lands_inside_is_not_folded() {
    let mut ir = vec![
        IRInstr::Jump(2),
        IRInstr::LoadConstInt(1),
        IRInstr::LoadConstInt(2),
        IRInstr::Add,
        IRInstr::Return,
    ];
    const_fold(&mut ir);
    assert_eq!(ir.len(), 5);
}

#[test]
fn truncation_keeps_branches_reached_by_jumps() {
    let sign = vec![
        IRInstr::LoadLocal(0),
        IRInstr::LoadConstInt(0),
        IRInstr::Gt,
        IRInstr::JumpIfFalse(7),
        IRInstr::LoadConstInt(1),
        IRInstr::Return,
        IRInstr::Jump(9),
        IRInstr::LoadConstInt(0),
        IRInstr::Return,
    ];
    let mut ir = sign.clone();
    dead_code_elim(&mut ir);
    assert_eq!(ir, sign);
    let mut tail = vec![IRInstr::JumpIfFalse(2), IRInstr::Nop, IRInstr::Return, IRInstr::Nop, IRInstr::Return];
    dead_code_elim(&mut tail);
    assert_eq!(tail, vec![IRInstr::JumpIfFalse(2), IRInstr::Nop, IRInstr::Return]);
}

#[test]
fn inlining_moves_jump_targets_past_the_call() {
    let mut module = IRModule {
        functions: vec![
            IRFunction {
                name: "two".to_string(),
                param_count: 2,
                instructions: vec![IRInstr::LoadLocal(0), IRInstr::LoadLocal(1), IRInstr::Add, IRInstr::Return],
                local_count: 2,
            },
            IRFunction {
                name: "main".to_string(),
                param_count: 1,
                instructions: vec![
                    IRInstr::LoadLocal(0),
                    IRInstr::JumpIfFalse(5),
                    IRInstr::LoadConstInt(1),
                    IRInstr::LoadConstInt(2),
                    IRInstr::Call("two".to_string(), 2),
                    IRInstr::Return,
                ],
                local_count: 1,
            },
        ],
    };
    inline_small_functions(&mut module);
    let main = &module.functions[1];
    assert_eq!(main.instructions[1], IRInstr::JumpIfFalse(9));
    assert_eq!(main.instructions.len(), 10);
    assert_eq!(main.instructions[9], IRInstr::Return);
}

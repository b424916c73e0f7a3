use kayton::bytecode::{BytecodeModule, Constant, Function, Instruction, VerificationError};

fn rich_module() -> BytecodeModule {
    let mut module = BytecodeModule::new();
    let one = module.add_constant(Constant::Int(1));
    let yes = module.add_constant(Constant::Bool(true));
    let hi = module.add_constant(Constant::String(String::from("hi")));
    let unit = module.add_constant(Constant::Unit);
    let neg = module.add_constant(Constant::Int(-123456789));
    module.add_global("ONE", one);
    module.add_global("GREETING", hi);
    module.add_function(Function::new(
        "main",
        0,
        2,
        vec![
            Instruction::LoadConst(one),
            Instruction::StoreLocal(0),
            Instruction::LoadLocal(0),
            Instruction::LoadConst(neg),
            Instruction::Add,
            Instruction::Sub,
            Instruction::Mul,
            Instruction::Div,
            Instruction::Neg,
            Instruction::Not,
            Instruction::Eq,
            Instruction::Ne,
            Instruction::Lt,
            Instruction::Le,
            Instruction::Gt,
            Instruction::Ge,
            Instruction::Jump(0),
            Instruction::JumpIfFalse(1),
            Instruction::Call(0, 0),
            Instruction::CallHost(0, 1),
            Instruction::CallHostDynamic(yes, 2),
            Instruction::Pop,
            Instruction::Return,
        ],
    ));
    let _ = unit;
    module
}

#[test]
fn serialize_round_trip() {
    let mut module = BytecodeModule::new();
    let unit = module.add_constant(Constant::Unit);
    module.add_global("ANSWER", unit);
    module.add_function(Function::new(
        "main",
        0,
        0,
        vec![Instruction::LoadConst(unit), Instruction::Return],
    ));

    let bytes = module.serialize();
    let decoded = BytecodeModule::deserialize(&bytes).expect("deserialize");
    assert_eq!(module.constants, decoded.constants);
    assert_eq!(module.globals.len(), decoded.globals.len());
    assert_eq!(module.functions.len(), decoded.functions.len());
}

#[test]
fn serialize_round_trip_preserves_every_field() {
    let module = rich_module();
    let bytes = module.serialize();
    let decoded = BytecodeModule::deserialize(&bytes).expect("deserialize");
    assert_eq!(module.constants, decoded.constants);
    assert_eq!(module.globals.len(), decoded.globals.len());
    for (a, b) in module.globals.iter().zip(decoded.globals.iter()) {
        assert_eq!(a.name, b.name);
        assert_eq!(a.value, b.value);
    }
    assert_eq!(module.functions.len(), decoded.functions.len());
    for (a, b) in module.functions.iter().zip(decoded.functions.iter()) {
        assert_eq!(a.name, b.name);
        assert_eq!(a.params, b.params);
        assert_eq!(a.locals, b.locals);
        assert_eq!(a.instructions, b.instructions);
    }
}

#[test]
fn deserialize_rejects_garbage() {
    assert!(BytecodeModule::deserialize(&[]).is_err());
    assert!(BytecodeModule::deserialize(&[1, 2, 3]).is_err());
    let mut bytes = rich_module().serialize();
    bytes.push(0);
    assert!(BytecodeModule::deserialize(&bytes).is_err());
}

#[test]
fn verifier_accepts_in_bounds_module() {
    let mut module = BytecodeModule::new();
    let c = module.add_constant(Constant::Int(1));
    module.add_function(Function::new(
        "main",
        0,
        1,
        vec![
            Instruction::LoadConst(c),
            Instruction::StoreLocal(0),
            Instruction::LoadLocal(0),
            Instruction::Jump(4),
            Instruction::Call(0, 0),
            Instruction::Return,
        ],
    ));
    assert!(module.verify().is_ok());
}

#[test]
fn verifier_rejects_bad_jump() {
    let mut module = BytecodeModule::new();
    let unit = module.add_constant(Constant::Unit);
    module.add_function(Function::new(
        "main",
        0,
        0,
        vec![
            Instruction::Jump(99),
            Instruction::LoadConst(unit),
            Instruction::Return,
        ],
    ));
    let err = module.verify().err().expect("rejected");
    assert_eq!(err, VerificationError::BadJump { instruction: 0 });
}

#[test]
fn verifier_rejects_bad_constant() {
    let mut module = BytecodeModule::new();
    module.add_function(Function::new("main", 0, 0, vec![Instruction::LoadConst(7)]));
    let err = module.verify().err().expect("rejected");
    assert_eq!(err, VerificationError::BadConstant { instruction: 0 });
}

#[test]
fn verifier_rejects_bad_local() {
    let mut module = BytecodeModule::new();
    module.add_function(Function::new(
        "main",
        0,
        1,
        vec![Instruction::LoadLocal(0), Instruction::StoreLocal(3)],
    ));
    let err = module.verify().err().expect("rejected");
    assert_eq!(err, VerificationError::BadLocal { instruction: 1 });
}

#[test]
fn verifier_rejects_bad_function() {
    let mut module = BytecodeModule::new();
    module.add_function(Function::new("main", 0, 0, vec![Instruction::Call(5, 0)]));
    let err = module.verify().err().expect("rejected");
    assert_eq!(err, VerificationError::BadFunction { instruction: 0 });
}

#[test]
fn function_index_finds_first_match() {
    let mut module = BytecodeModule::new();
    module.add_function(Function::new("a", 0, 0, vec![Instruction::Return]));
    module.add_function(Function::new("b", 0, 0, vec![Instruction::Return]));
    assert_eq!(module.function_index("a"), Some(0));
    assert_eq!(module.function_index("b"), Some(1));
    assert_eq!(module.function_index("c"), None);
}

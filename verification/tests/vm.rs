use kayton::abi::KayValueKind;
use kayton::api::{KayCallable, KayCtx, KayHandle, KayResult};
use kayton::bytecode::{BytecodeModule, Constant, Function, Instruction};
use kayton::host::KayHost;
use kayton::stdlib::LenCallable;
use kayton::vm::{run_module, Value, VmError};

fn stdlib_host() -> KayHost<LenCallable> {
    let mut host: KayHost<LenCallable> = KayHost::new();
    host.register_extensions(kayton::stdlib::extensions()).expect("register stdlib");
    host
}

#[test]
fn runs_arithmetic() {
    // fn main(): let x = 2; let y = 3; x + y
    let mut module = BytecodeModule::new();
    let two = module.add_constant(Constant::Int(2));
    let three = module.add_constant(Constant::Int(3));
    module.add_function(Function::new(
        "main",
        0,
        2,
        vec![
            Instruction::LoadConst(two),
            Instruction::StoreLocal(0),
            Instruction::LoadConst(three),
            Instruction::StoreLocal(1),
            Instruction::LoadLocal(0),
            Instruction::LoadLocal(1),
            Instruction::Add,
            Instruction::Return,
        ],
    ));
    assert!(module.verify().is_ok());
    let mut host = stdlib_host();
    let value = run_module(&module, "main", &mut host).expect("vm run");
    assert_eq!(value, Value::Int(5));
}

#[test]
fn runs_branch() {
    // fn main(): if 1 < 2: 10 else: 20
    let mut module = BytecodeModule::new();
    let one = module.add_constant(Constant::Int(1));
    let two = module.add_constant(Constant::Int(2));
    let ten = module.add_constant(Constant::Int(10));
    let twenty = module.add_constant(Constant::Int(20));
    module.add_function(Function::new(
        "main",
        0,
        0,
        vec![
            Instruction::LoadConst(one),
            Instruction::LoadConst(two),
            Instruction::Lt,
            Instruction::JumpIfFalse(6),
            Instruction::LoadConst(ten),
            Instruction::Jump(7),
            Instruction::LoadConst(twenty),
            Instruction::Return,
        ],
    ));
    assert!(module.verify().is_ok());
    let mut host = stdlib_host();
    let value = run_module(&module, "main", &mut host).expect("vm run");
    assert_eq!(value, Value::Int(10));
}

#[test]
fn runs_recursion() {
    // fn fact(n): if n < 2: 1 else: n * fact(n - 1); fn main(): fact(5)
    let mut module = BytecodeModule::new();
    let one = module.add_constant(Constant::Int(1));
    let two = module.add_constant(Constant::Int(2));
    let five = module.add_constant(Constant::Int(5));
    module.add_function(Function::new(
        "fact",
        1,
        1,
        vec![
            Instruction::LoadLocal(0),
            Instruction::LoadConst(two),
            Instruction::Lt,
            Instruction::JumpIfFalse(6),
            Instruction::LoadConst(one),
            Instruction::Return,
            Instruction::LoadLocal(0),
            Instruction::LoadLocal(0),
            Instruction::LoadConst(one),
            Instruction::Sub,
            Instruction::Call(0, 1),
            Instruction::Mul,
            Instruction::Return,
        ],
    ));
    module.add_function(Function::new(
        "main",
        0,
        0,
        vec![
            Instruction::LoadConst(five),
            Instruction::Call(0, 1),
            Instruction::Return,
        ],
    ));
    assert!(module.verify().is_ok());
    let mut host = stdlib_host();
    let value = run_module(&module, "main", &mut host).expect("vm run");
    assert_eq!(value, Value::Int(120));
}

#[test]
fn calls_host_extension() {
    // fn main(): len("hi"), with `len` registered as an extension.
    let mut module = BytecodeModule::new();
    let hi = module.add_constant(Constant::String(String::from("hi")));
    module.add_function(Function::new(
        "main",
        0,
        0,
        vec![
            Instruction::LoadConst(hi),
            Instruction::CallHost(0, 1),
            Instruction::Return,
        ],
    ));
    let mut host = stdlib_host();
    let value = run_module(&module, "main", &mut host).expect("vm run");
    assert_eq!(value, Value::Int(2));
}

#[test]
fn calls_host_extension_by_name() {
    let mut module = BytecodeModule::new();
    let hi = module.add_constant(Constant::String(String::from("hi!")));
    let name = module.add_constant(Constant::String(String::from("len")));
    module.add_function(Function::new(
        "main",
        0,
        0,
        vec![
            Instruction::LoadConst(hi),
            Instruction::CallHostDynamic(name, 1),
            Instruction::Return,
        ],
    ));
    let mut host = stdlib_host();
    let value = run_module(&module, "main", &mut host).expect("vm run");
    assert_eq!(value, Value::Int(3));
}

#[derive(Clone)]
struct Identity;

impl KayCallable for Identity {
    fn call(&self, ctx: &mut KayCtx<Self>, args: &Vec<KayHandle>) -> KayResult<KayHandle> {
        // Hand the argument back; the clone acquires the reference the
        // caller consumes.
        ctx.clone_raw(args[0].raw())
    }
}

fn identity_host() -> KayHost<Identity> {
    let mut host: KayHost<Identity> = KayHost::new();
    host.register_extension(kayton::api::KayExtension::new("id", Identity, 1, Some(1), "identity"))
        .expect("register");
    host
}

#[test]
fn bridge_round_trip_int() {
    // Lifting an integer across the host boundary and lowering the returned
    // handle destructures back to the original value.
    let mut module = BytecodeModule::new();
    let c = module.add_constant(Constant::Int(42));
    module.add_function(Function::new(
        "main",
        0,
        0,
        vec![
            Instruction::LoadConst(c),
            Instruction::CallHost(0, 1),
            Instruction::Return,
        ],
    ));
    let mut host = identity_host();
    let value = run_module(&module, "main", &mut host).expect("vm run");
    assert_eq!(value, Value::Int(42));
}

#[test]
fn bridge_round_trip_string_stays_handle() {
    // Strings come back as handles that describe to the original contents.
    let mut module = BytecodeModule::new();
    let c = module.add_constant(Constant::String(String::from("hi")));
    module.add_function(Function::new(
        "main",
        0,
        0,
        vec![
            Instruction::LoadConst(c),
            Instruction::CallHost(0, 1),
            Instruction::Return,
        ],
    ));
    let mut host = identity_host();
    let value = run_module(&module, "main", &mut host).expect("vm run");
    match value {
        Value::Handle(h) => match h.describe(host.api_ctx_ref()) {
            Ok(KayValueKind::String(s)) => assert_eq!(s, "hi"),
            other => panic!("unexpected kind: {other:?}"),
        },
        other => panic!("expected handle, got {other:?}"),
    }
}

#[derive(Clone)]
struct MakeBuf;

impl KayCallable for MakeBuf {
    fn call(&self, ctx: &mut KayCtx<Self>, _args: &Vec<KayHandle>) -> KayResult<KayHandle> {
        ctx.new_capsule("buf", 7)
    }
}

#[test]
fn capsule_handles_are_released_when_dropped() {
    // Register an extension that allocates a capsule of tag "buf" and call
    // it twice; both returned handles describe to that capsule, and after
    // both references are released the store holds neither id.
    let mut host: KayHost<MakeBuf> = KayHost::new();
    host.register_extension(kayton::api::KayExtension::new("buf", MakeBuf, 0, Some(0), ""))
        .expect("register");
    let ctx = host.api_ctx();
    let h1 = ctx.call_slot(0, &vec![]).expect("first call");
    let h2 = ctx.call_slot(0, &vec![]).expect("second call");
    for h in [&h1, &h2] {
        match h.describe(ctx).expect("describe") {
            KayValueKind::Capsule { tag } => assert_eq!(tag, "buf"),
            other => panic!("unexpected kind: {other:?}"),
        }
    }
    ctx.dec_ref(h1.raw()).expect("release");
    ctx.dec_ref(h2.raw()).expect("release");
    assert!(!ctx.contains_handle(h1.raw()));
    assert!(!ctx.contains_handle(h2.raw()));
}

#[test]
fn entry_not_found() {
    let module = BytecodeModule::new();
    let mut host = stdlib_host();
    let err = run_module(&module, "main", &mut host).err().expect("no entry");
    assert!(matches!(err, VmError::EntryNotFound(name) if name == "main"));
}

#[test]
fn entry_with_parameters_fails_arity() {
    let mut module = BytecodeModule::new();
    module.add_function(Function::new("main", 1, 1, vec![Instruction::Return]));
    let mut host = stdlib_host();
    let err = run_module(&module, "main", &mut host).err().expect("arity");
    assert!(matches!(err, VmError::CallArity { expected: 1, found: 0 }));
}

#[test]
fn stack_underflow_is_fatal() {
    let mut module = BytecodeModule::new();
    module.add_function(Function::new("main", 0, 0, vec![Instruction::Pop]));
    let mut host = stdlib_host();
    let err = run_module(&module, "main", &mut host).err().expect("underflow");
    assert!(matches!(err, VmError::StackUnderflow));
}

#[test]
fn type_error_is_fatal() {
    let mut module = BytecodeModule::new();
    let t = module.add_constant(Constant::Bool(true));
    module.add_function(Function::new(
        "main",
        0,
        0,
        vec![
            Instruction::LoadConst(t),
            Instruction::Neg,
            Instruction::Return,
        ],
    ));
    let mut host = stdlib_host();
    let err = run_module(&module, "main", &mut host).err().expect("type");
    assert!(matches!(err, VmError::TypeError { .. }));
}

#[test]
fn division_by_zero_is_reported() {
    let mut module = BytecodeModule::new();
    let one = module.add_constant(Constant::Int(1));
    let zero = module.add_constant(Constant::Int(0));
    module.add_function(Function::new(
        "main",
        0,
        0,
        vec![
            Instruction::LoadConst(one),
            Instruction::LoadConst(zero),
            Instruction::Div,
            Instruction::Return,
        ],
    ));
    let mut host = stdlib_host();
    let err = run_module(&module, "main", &mut host).err().expect("division");
    assert!(matches!(err, VmError::DivisionByZero));
}

#[test]
fn arithmetic_wraps_in_twos_complement() {
    let mut module = BytecodeModule::new();
    let max = module.add_constant(Constant::Int(i64::MAX));
    let one = module.add_constant(Constant::Int(1));
    module.add_function(Function::new(
        "main",
        0,
        0,
        vec![
            Instruction::LoadConst(max),
            Instruction::LoadConst(one),
            Instruction::Add,
            Instruction::Return,
        ],
    ));
    let mut host = stdlib_host();
    let value = run_module(&module, "main", &mut host).expect("vm run");
    assert_eq!(value, Value::Int(i64::MIN));
}

#[test]
fn division_truncates_toward_zero() {
    let mut module = BytecodeModule::new();
    let a = module.add_constant(Constant::Int(-7));
    let b = module.add_constant(Constant::Int(2));
    module.add_function(Function::new(
        "main",
        0,
        0,
        vec![
            Instruction::LoadConst(a),
            Instruction::LoadConst(b),
            Instruction::Div,
            Instruction::Return,
        ],
    ));
    let mut host = stdlib_host();
    let value = run_module(&module, "main", &mut host).expect("vm run");
    assert_eq!(value, Value::Int(-3));
}

#[test]
fn bad_function_id_is_fatal() {
    let mut module = BytecodeModule::new();
    module.add_function(Function::new("main", 0, 0, vec![Instruction::Call(9, 0)]));
    let mut host = stdlib_host();
    let err = run_module(&module, "main", &mut host).err().expect("bad function");
    assert!(matches!(err, VmError::BadFunction(9)));
}

#[test]
fn host_name_must_be_a_string_constant() {
    let mut module = BytecodeModule::new();
    let n = module.add_constant(Constant::Int(3));
    module.add_function(Function::new(
        "main",
        0,
        0,
        vec![Instruction::CallHostDynamic(n, 0), Instruction::Return],
    ));
    let mut host = stdlib_host();
    let err = run_module(&module, "main", &mut host).err().expect("name type");
    assert!(matches!(err, VmError::HostNameType));
}

#[test]
fn host_failure_carries_the_abi_error() {
    // Calling the stdlib `len` on an integer is a TypeMismatch at the ABI,
    // surfaced as a fatal HostFailure.
    let mut module = BytecodeModule::new();
    let n = module.add_constant(Constant::Int(3));
    module.add_function(Function::new(
        "main",
        0,
        0,
        vec![
            Instruction::LoadConst(n),
            Instruction::CallHost(0, 1),
            Instruction::Return,
        ],
    ));
    let mut host = stdlib_host();
    let err = run_module(&module, "main", &mut host).err().expect("host failure");
    match err {
        VmError::HostFailure(e) => {
            assert_eq!(e.code, kayton::abi::KayErrorCode::TypeMismatch)
        },
        other => panic!("unexpected: {other:?}"),
    }
}

#[test]
fn boolean_logic_and_comparisons() {
    // fn main(): not (3 == 4)
    let mut module = BytecodeModule::new();
    let three = module.add_constant(Constant::Int(3));
    let four = module.add_constant(Constant::Int(4));
    module.add_function(Function::new(
        "main",
        0,
        0,
        vec![
            Instruction::LoadConst(three),
            Instruction::LoadConst(four),
            Instruction::Eq,
            Instruction::Not,
            Instruction::Return,
        ],
    ));
    let mut host = stdlib_host();
    let value = run_module(&module, "main", &mut host).expect("vm run");
    assert_eq!(value, Value::Bool(true));
}

#[test]
fn negation_wraps_at_the_minimum() {
    let mut module = BytecodeModule::new();
    let min = module.add_constant(Constant::Int(i64::MIN));
    module.add_function(Function::new(
        "main",
        0,
        0,
        vec![
            Instruction::LoadConst(min),
            Instruction::Neg,
            Instruction::Return,
        ],
    ));
    let mut host = stdlib_host();
    let value = run_module(&module, "main", &mut host).expect("vm run");
    assert_eq!(value, Value::Int(i64::MIN));
}

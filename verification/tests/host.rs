use kayton::abi::{KayErrorCode, KayValueKind};
use kayton::api::{FromKay, KayCallable, KayCtx, KayExtension, KayHandle, KayResult, ToKay};
use kayton::host::{HostError, KayHost};

#[derive(Clone)]
struct AddOne;

impl KayCallable for AddOne {
    fn call(&self, ctx: &mut KayCtx<Self>, args: &Vec<KayHandle>) -> KayResult<KayHandle> {
        let value = i64::from_kay(ctx, &args[0])?;
        (value + 1).to_kay(ctx)
    }
}

fn sample_extension() -> KayExtension<AddOne> {
    KayExtension::new("test.add_one", AddOne, 1, Some(1), "adds one")
}

#[test]
fn registers_and_calls_extension() {
    let mut host: KayHost<AddOne> = KayHost::new();
    host.register_extension(sample_extension()).expect("register");
    let ctx = host.api_ctx();
    let input = 41_i64.to_kay(ctx).expect("alloc");
    let raw = ctx.call_slot(0, &vec![input]).expect("call").raw();
    let result = ctx.clone_raw(raw).expect("clone");
    let value = i64::from_kay(ctx, &result).expect("from_kay");
    assert_eq!(value, 42);
}

#[test]
fn duplicate_registration_fails_already_exists() {
    let mut host: KayHost<AddOne> = KayHost::new();
    host.register_extension(sample_extension()).expect("register");
    let err = host.register_extension(sample_extension()).err().expect("duplicate");
    assert_eq!(err.code, KayErrorCode::AlreadyExists);
    // The failed registration changes nothing: the original is still there.
    assert_eq!(host.resolve("test.add_one"), Some(0));
}

#[test]
fn slots_are_stable_across_later_registrations() {
    let mut host: KayHost<AddOne> = KayHost::new();
    host.register_extension(KayExtension::new("alpha", AddOne, 0, None, "")).expect("register");
    host.register_extension(KayExtension::new("beta", AddOne, 0, None, "")).expect("register");
    assert_eq!(host.resolve("alpha"), Some(0));
    assert_eq!(host.resolve("beta"), Some(1));
    host.register_extension(KayExtension::new("gamma", AddOne, 0, None, "")).expect("register");
    host.register_extension(KayExtension::new("delta", AddOne, 0, None, "")).expect("register");
    assert_eq!(host.resolve("alpha"), Some(0));
    assert_eq!(host.resolve("beta"), Some(1));
    assert_eq!(host.resolve("gamma"), Some(2));
    assert_eq!(host.resolve("delta"), Some(3));
    assert_eq!(host.resolve("missing"), None);
}

#[test]
fn arity_violation_fails_invalid_argument() {
    let mut host: KayHost<AddOne> = KayHost::new();
    host.register_extension(sample_extension()).expect("register");
    let ctx = host.api_ctx();
    let a = 1_i64.to_kay(ctx).expect("alloc");
    let b = 2_i64.to_kay(ctx).expect("alloc");
    let too_many = ctx.call_slot(0, &vec![a, b]);
    assert_eq!(too_many.err().expect("arity").code, KayErrorCode::InvalidArgument);
    let too_few = ctx.call_slot(0, &vec![]);
    assert_eq!(too_few.err().expect("arity").code, KayErrorCode::InvalidArgument);
}

#[test]
fn unknown_slot_and_name_fail_not_found() {
    let mut host: KayHost<AddOne> = KayHost::new();
    let ctx = host.api_ctx();
    let missing_slot = ctx.call_slot(9, &vec![]);
    assert_eq!(missing_slot.err().expect("slot").code, KayErrorCode::NotFound);
    let missing_name = ctx.call_dynamic("nowhere", &vec![]);
    assert_eq!(missing_name.err().expect("name").code, KayErrorCode::NotFound);
}

#[test]
fn call_dynamic_resolves_by_name() {
    let mut host: KayHost<AddOne> = KayHost::new();
    host.register_extension(sample_extension()).expect("register");
    let ctx = host.api_ctx();
    let input = 10_i64.to_kay(ctx).expect("alloc");
    let out = ctx.call_dynamic("test.add_one", &vec![input]).expect("call");
    assert!(matches!(out.describe(ctx), Ok(KayValueKind::Int(11))));
}

#[test]
fn register_extensions_stops_at_first_failure() {
    let mut host: KayHost<AddOne> = KayHost::new();
    let batch = vec![
        KayExtension::new("one", AddOne, 0, None, ""),
        KayExtension::new("one", AddOne, 0, None, ""),
        KayExtension::new("two", AddOne, 0, None, ""),
    ];
    let err = host.register_extensions(batch).err().expect("duplicate in batch");
    assert_eq!(err.code, KayErrorCode::AlreadyExists);
    assert_eq!(host.resolve("one"), Some(0));
    assert_eq!(host.resolve("two"), None);
}

#[test]
fn host_error_maps_onto_abi_codes() {
    assert_eq!(HostError::UnknownHandle(4).to_error().code, KayErrorCode::NotFound);
    assert_eq!(
        HostError::DuplicateExtension(String::from("x")).to_error().code,
        KayErrorCode::AlreadyExists
    );
    assert_eq!(HostError::UnknownSlot(2).to_error().code, KayErrorCode::NotFound);
}

#[test]
fn extension_arity_check_via_descriptor() {
    let mut host: KayHost<AddOne> = KayHost::new();
    let ext = sample_extension();
    let ctx = host.api_ctx();
    let input = 5_i64.to_kay(ctx).expect("alloc");
    let out = ext.call(ctx, &vec![input]).expect("call");
    assert!(matches!(out.describe(ctx), Ok(KayValueKind::Int(6))));
    let err = ext.call(ctx, &vec![]).err().expect("arity");
    assert_eq!(err.code, KayErrorCode::InvalidArgument);
}

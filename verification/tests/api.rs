use kayton::abi::{KayErrorCode, KayValueKind};
use kayton::api::{FromKay, KayBorrowedStr, KayBytes, KayCapsule, KayStr, ToKay};
use kayton::host::KayHost;
use kayton::stdlib::LenCallable;

#[test]
fn borrowed_str_deref() {
    let view = KayBorrowedStr::new(String::from("hello"));
    assert_eq!(view.as_ref(), "hello");
    assert_eq!(view.as_ref(), "hello");
    assert_eq!(view.to_string(), "hello".to_string());
}

#[test]
fn inspect_reports_allocated_int() {
    let mut host: KayHost<LenCallable> = KayHost::new();
    let ctx = host.api_ctx();
    let h = ctx.alloc_int(7).expect("alloc");
    assert!(matches!(h.describe(ctx), Ok(KayValueKind::Int(7))));
}

#[test]
fn inspect_reports_allocated_bool() {
    let mut host: KayHost<LenCallable> = KayHost::new();
    let ctx = host.api_ctx();
    let h = ctx.alloc_bool(true).expect("alloc");
    assert!(matches!(h.describe(ctx), Ok(KayValueKind::Bool(true))));
}

#[test]
fn inspect_reports_allocated_string() {
    let mut host: KayHost<LenCallable> = KayHost::new();
    let ctx = host.api_ctx();
    let h = ctx.alloc_string(String::from("abc")).expect("alloc");
    match h.describe(ctx) {
        Ok(KayValueKind::String(s)) => assert_eq!(s, "abc"),
        other => panic!("unexpected: {other:?}"),
    }
}

#[test]
fn inspect_reports_allocated_bytes() {
    let mut host: KayHost<LenCallable> = KayHost::new();
    let ctx = host.api_ctx();
    let h = ctx.alloc_bytes(vec![1u8, 2, 3]).expect("alloc");
    match h.describe(ctx) {
        Ok(KayValueKind::Bytes(b)) => assert_eq!(b, vec![1u8, 2, 3]),
        other => panic!("unexpected: {other:?}"),
    }
}

#[test]
fn inspect_reports_allocated_unit() {
    let mut host: KayHost<LenCallable> = KayHost::new();
    let ctx = host.api_ctx();
    let h = ctx.alloc_unit().expect("alloc");
    assert!(matches!(h.describe(ctx), Ok(KayValueKind::Unit)));
}

#[test]
fn handles_are_never_zero_and_monotone() {
    let mut host: KayHost<LenCallable> = KayHost::new();
    let ctx = host.api_ctx();
    let a = ctx.alloc_int(1).expect("alloc").raw();
    let b = ctx.alloc_int(2).expect("alloc").raw();
    assert_ne!(a, 0);
    assert_ne!(b, 0);
    assert!(b > a);
}

#[test]
fn typed_string_wrapper_round_trip() {
    let mut host: KayHost<LenCallable> = KayHost::new();
    let ctx = host.api_ctx();
    let h = String::from("kayton").to_kay(ctx).expect("alloc");
    let s = KayStr::new(ctx, h).expect("typed");
    assert_eq!(s.to_string(ctx).expect("contents"), "kayton");
    let view = s.as_borrowed(ctx).expect("borrow");
    assert_eq!(view.as_ref(), "kayton");
    let not_bytes = KayBytes::new(ctx, h);
    assert_eq!(not_bytes.err().expect("mismatch").code, KayErrorCode::TypeMismatch);
}

#[test]
fn from_kay_rejects_wrong_kind() {
    let mut host: KayHost<LenCallable> = KayHost::new();
    let ctx = host.api_ctx();
    let h = true.to_kay(ctx).expect("alloc");
    let as_int = i64::from_kay(ctx, &h);
    assert_eq!(as_int.err().expect("mismatch").code, KayErrorCode::TypeMismatch);
    let as_bool = bool::from_kay(ctx, &h).expect("bool");
    assert!(as_bool);
}

#[test]
fn capsule_preserves_tag_and_payload() {
    let mut host: KayHost<LenCallable> = KayHost::new();
    let ctx = host.api_ctx();
    let capsule = KayCapsule::new(ctx, 99, "buf").expect("capsule");
    assert_eq!(capsule.tag(), "buf");
    assert_eq!(capsule.payload(ctx, "buf").expect("payload"), 99);
    let mismatch = capsule.payload(ctx, "other");
    assert_eq!(mismatch.err().expect("tag mismatch").code, KayErrorCode::TypeMismatch);
    let again = KayCapsule::from_handle(ctx, *capsule.handle()).expect("from handle");
    assert_eq!(again.tag(), "buf");
    assert_eq!(again.payload(ctx, "buf").expect("payload"), 99);
}

#[test]
fn handle_scope_releases_tracked_references() {
    let mut host: KayHost<LenCallable> = KayHost::new();
    let ctx = host.api_ctx();
    let mut scope = kayton::api::HandleScope::new();
    let a = ctx.alloc_int(1).expect("alloc");
    let b = ctx.alloc_int(2).expect("alloc");
    let scoped_a = scope.track(a);
    scope.track(b);
    // A scoped handle can mint its own reference, independent of the scope's.
    let own = scoped_a.to_handle(ctx).expect("clone");
    assert_eq!(ctx.ref_count(a.raw()), Some(2));
    scope.release(ctx);
    // The scope's references are gone; the independently minted one remains.
    assert_eq!(ctx.ref_count(own.raw()), Some(1));
    assert!(!ctx.contains_handle(b.raw()));
    ctx.dec_ref(own.raw()).expect("release own");
    assert!(!ctx.contains_handle(a.raw()));
}

use kayton::abi::KayErrorCode;
use kayton::api::ToKay;
use kayton::host::KayHost;
use kayton::stdlib::{extensions, len, LenCallable};

#[test]
fn print_and_len_extensions_work() {
    let mut host: KayHost<LenCallable> = KayHost::new();
    host.register_extensions(extensions()).expect("register");
    let ctx = host.api_ctx();
    let hello = String::from("hello").to_kay(ctx).expect("alloc");
    let length = len(ctx, &hello).expect("len");
    assert_eq!(length, 5);
}

#[test]
fn len_counts_bytes() {
    let mut host: KayHost<LenCallable> = KayHost::new();
    let ctx = host.api_ctx();
    let blob = ctx.alloc_bytes(vec![9u8; 4]).expect("alloc");
    assert_eq!(len(ctx, &blob).expect("len"), 4);
}

#[test]
fn len_rejects_other_kinds() {
    let mut host: KayHost<LenCallable> = KayHost::new();
    let ctx = host.api_ctx();
    let n = 5_i64.to_kay(ctx).expect("alloc");
    let err = len(ctx, &n).err().expect("mismatch");
    assert_eq!(err.code, KayErrorCode::TypeMismatch);
    let gone = kayton::api::KayCtx::handle_from_raw(ctx, 999);
    let missing = len(ctx, &gone).err().expect("missing");
    assert_eq!(missing.code, KayErrorCode::NotFound);
}

use kayton::abi::KayErrorCode;
use kayton::host::KayHost;
use kayton::stdlib::LenCallable;

#[test]
fn refcount_balance_reaches_zero_exactly_when_balanced() {
    let mut host: KayHost<LenCallable> = KayHost::new();
    let ctx = host.api_ctx();
    let h = ctx.alloc_int(5).expect("alloc").raw();
    // One reference from the allocation, two more acquired.
    ctx.inc_ref(h).expect("inc");
    ctx.inc_ref(h).expect("inc");
    assert_eq!(ctx.ref_count(h), Some(3));
    ctx.dec_ref(h).expect("dec");
    ctx.dec_ref(h).expect("dec");
    assert_eq!(ctx.ref_count(h), Some(1));
    assert!(ctx.contains_handle(h));
    // The release that balances the allocation plus the acquisitions.
    ctx.dec_ref(h).expect("dec");
    assert!(!ctx.contains_handle(h));
    // After zero, every further operation on the id fails NotFound.
    assert_eq!(ctx.inc_ref(h).err().expect("gone").code, KayErrorCode::NotFound);
    assert_eq!(ctx.dec_ref(h).err().expect("gone").code, KayErrorCode::NotFound);
    assert_eq!(ctx.inspect(h).err().expect("gone").code, KayErrorCode::NotFound);
}

#[test]
fn retired_ids_are_not_reused() {
    let mut host: KayHost<LenCallable> = KayHost::new();
    let ctx = host.api_ctx();
    let a = ctx.alloc_int(1).expect("alloc").raw();
    ctx.dec_ref(a).expect("dec");
    let b = ctx.alloc_int(2).expect("alloc").raw();
    assert_ne!(a, b);
}

#[test]
fn capsule_data_requires_a_capsule() {
    let mut host: KayHost<LenCallable> = KayHost::new();
    let ctx = host.api_ctx();
    let i = ctx.alloc_int(3).expect("alloc").raw();
    assert_eq!(
        ctx.capsule_data(i).err().expect("not a capsule").code,
        KayErrorCode::TypeMismatch
    );
    let c = ctx.new_capsule("blob", 17).expect("capsule").raw();
    let data = ctx.capsule_data(c).expect("capsule data");
    assert_eq!(data.tag, "blob");
    assert_eq!(data.payload, 17);
}

#[test]
fn handle_count_tracks_live_entries() {
    let mut host: KayHost<LenCallable> = KayHost::new();
    let ctx = host.api_ctx();
    assert_eq!(ctx.handle_count(), 0);
    let a = ctx.alloc_int(1).expect("alloc").raw();
    let _b = ctx.alloc_int(2).expect("alloc").raw();
    assert_eq!(ctx.handle_count(), 2);
    ctx.dec_ref(a).expect("dec");
    assert_eq!(ctx.handle_count(), 1);
}

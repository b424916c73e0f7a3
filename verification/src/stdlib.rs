//! The standard library of host extensions. The pure half — `len` — lives
//! here, verified; the printing extension performs output and therefore
//! belongs to the embedder, which renders the handle kinds this crate
//! exposes and writes them out itself.

use vstd::prelude::*;
use vstd::utf8::encode_utf8;

use crate::abi::{KayError, KayErrorCode, ValueModel};
use crate::api::{ExtModel, KayCallable, KayCtx, KayExtension, KayHandle, KayResult};

verus! {

/// Returns the length of a string (in UTF-8 bytes) or of a byte sequence;
/// any other kind fails `TypeMismatch`, a dead handle `NotFound`.
pub fn len<E>(ctx: &KayCtx<E>, value: &KayHandle) -> (r: KayResult<i64>)
    ensures
        r is Ok <==> (ctx.store_model().contains_key(value@) && (
        ctx.store_model()[value@].value is Str || ctx.store_model()[value@].value is Bytes)),
        match r {
            Ok(n) => match ctx.store_model()[value@].value {
                ValueModel::Str(s) => encode_utf8(s).len() <= i64::MAX ==> n as int == encode_utf8(
                    s,
                ).len(),
                ValueModel::Bytes(b) => b.len() <= i64::MAX ==> n as int == b.len(),
                _ => false,
            },
            Err(e) => {
                &&& !ctx.store_model().contains_key(value@) ==> e.code == KayErrorCode::NotFound
                &&& (ctx.store_model().contains_key(value@) && !(ctx.store_model()[value@].value
                    is Str || ctx.store_model()[value@].value is Bytes)) ==> e.code
                    == KayErrorCode::TypeMismatch
            },
        },
{
    match value.describe(ctx) {
        Err(e) => Err(e),
        Ok(kind) => match kind {
            crate::abi::KayValueKind::String(data) => {
                let l = data.as_str().as_bytes().len();
                if (l as u64) <= (i64::MAX as u64) {
                    Ok(l as i64)
                } else {
                    Ok(#[verifier::truncate] (l as i64))
                }
            },
            crate::abi::KayValueKind::Bytes(data) => {
                let l = data.len();
                if (l as u64) <= (i64::MAX as u64) {
                    Ok(l as i64)
                } else {
                    Ok(#[verifier::truncate] (l as i64))
                }
            },
            _ => Err(KayError::new(
                KayErrorCode::TypeMismatch,
                Some(String::from_str("len is not defined for this kind")),
            )),
        },
    }
}

/// The callable behind the `len` extension.
#[derive(Debug, Clone, Copy)]
pub struct LenCallable;

impl KayCallable for LenCallable {
    fn call(&self, ctx: &mut KayCtx<Self>, args: &Vec<KayHandle>) -> (r: KayResult<KayHandle>) {
        if args.len() != 1 {
            return Err(KayError::new(
                KayErrorCode::InvalidArgument,
                Some(String::from_str("len takes one argument")),
            ));
        }
        let n = match len(ctx, &args[0]) {
            Ok(n) => n,
            Err(e) => {
                return Err(e);
            },
        };
        ctx.alloc_int(n)
    }
}

/// The `len` extension descriptor: exactly one argument.
pub fn len_extension() -> (r: KayExtension<LenCallable>)
    ensures
        r@ == (ExtModel {
            name: "len"@,
            min_arity: 1,
            max_arity: Some(1),
            doc: "Return the length of a string or bytes value."@,
        }),
{
    KayExtension::new(
        "len",
        LenCallable,
        1,
        Some(1),
        "Return the length of a string or bytes value.",
    )
}

/// The verified standard extensions. Printing is deliberately absent: it
/// writes to the embedder's output and must be registered by the embedder.
pub fn extensions() -> (r: Vec<KayExtension<LenCallable>>)
    ensures
        r@.len() == 1,
        r@[0]@ == (ExtModel {
            name: "len"@,
            min_arity: 1,
            max_arity: Some(1),
            doc: "Return the length of a string or bytes value."@,
        }),
{
    let mut v: Vec<KayExtension<LenCallable>> = Vec::new();
    v.push(len_extension());
    v
}

} // verus!

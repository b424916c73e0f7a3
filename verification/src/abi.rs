//! The ABI-level data model: status and error codes, the opaque context
//! record, value-kind projections, and capsule descriptors.

use vstd::prelude::*;

verus! {

/// An opaque handle id naming a refcounted entry in a context's handle store.
/// `0` is never a valid handle.
pub type KayRawHandle = u64;

/// An opaque id naming a context.
pub type KayContextId = u64;

/// A stable integer index naming an extension within a context.
pub type KayHostSlot = u32;

#[derive(Debug, Clone, Copy, PartialEq, Eq, Structural)]
pub enum KayStatus {
    Success,
    Failure,
}

/// The closed error taxonomy of the ABI surface.
#[derive(Debug, Clone, Copy, PartialEq, Eq, Structural)]
pub enum KayErrorCode {
    GeneralFailure,
    TypeMismatch,
    NotFound,
    AlreadyExists,
    InvalidArgument,
    Panic,
}

/// An ABI error: a stable code plus an optional human-readable message.
#[derive(Debug, Clone)]
pub struct KayError {
    pub code: KayErrorCode,
    pub message: Option<String>,
}

impl KayError {
    pub fn new(code: KayErrorCode, message: Option<String>) -> (r: Self)
        ensures
            r.code == code,
            r.message == message,
    {
        KayError { code, message }
    }
}

pub type KayAbiResult<T> = Result<T, KayError>;

/// The opaque context record handed across the ABI: extensions and the VM see
/// a context only through its id.
#[derive(Debug, Clone, Copy, PartialEq, Eq, Structural)]
pub struct KayContext {
    pub id: KayContextId,
}

/// The ghost projection of a stored value, used by every contract that speaks
/// about handle-store contents.
pub enum ValueModel {
    Int(i64),
    Bool(bool),
    Str(Seq<char>),
    Bytes(Seq<u8>),
    Unit,
    Capsule { tag: Seq<char>, payload: u64 },
}

/// The ghost projection of a value-kind report: what `inspect` reveals.
/// For capsules only the tag is projected; the payload needs `capsule_data`.
pub enum KindModel {
    Int(i64),
    Bool(bool),
    Str(Seq<char>),
    Bytes(Seq<u8>),
    Unit,
    Capsule { tag: Seq<char> },
}

/// The kind (and, for primitives, the payload) of a stored value.
#[derive(Debug, Clone)]
pub enum KayValueKind {
    Int(i64),
    Bool(bool),
    String(String),
    Bytes(Vec<u8>),
    Unit,
    Capsule { tag: String },
}

impl View for KayValueKind {
    type V = KindModel;

    open spec fn view(&self) -> KindModel {
        match self {
            KayValueKind::Int(v) => KindModel::Int(*v),
            KayValueKind::Bool(v) => KindModel::Bool(*v),
            KayValueKind::String(s) => KindModel::Str(s@),
            KayValueKind::Bytes(b) => KindModel::Bytes(b@),
            KayValueKind::Unit => KindModel::Unit,
            KayValueKind::Capsule { tag } => KindModel::Capsule { tag: tag@ },
        }
    }
}

/// The projection of a `ValueModel` that `inspect` is allowed to reveal.
pub open spec fn kind_of(v: ValueModel) -> KindModel {
    match v {
        ValueModel::Int(i) => KindModel::Int(i),
        ValueModel::Bool(b) => KindModel::Bool(b),
        ValueModel::Str(s) => KindModel::Str(s),
        ValueModel::Bytes(b) => KindModel::Bytes(b),
        ValueModel::Unit => KindModel::Unit,
        ValueModel::Capsule { tag, payload: _ } => KindModel::Capsule { tag },
    }
}

/// A read-only projection of a handle's value, as returned by `inspect`.
#[derive(Debug, Clone)]
pub struct KayValueInfo {
    pub kind: KayValueKind,
}

/// What a host supplies to create a capsule: a stable tag naming the payload
/// type and an opaque payload token owned by the host.
#[derive(Debug, Clone)]
pub struct KayCapsuleSpec {
    pub tag: String,
    pub payload: u64,
}

/// What `capsule_data` returns: the capsule's tag and its payload token.
#[derive(Debug, Clone)]
pub struct KayCapsuleData {
    pub tag: String,
    pub payload: u64,
}

} // verus!

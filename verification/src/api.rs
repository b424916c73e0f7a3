//! The host-facing API surface: handles, typed wrappers, extension
//! descriptors, and the context type through which every ABI operation runs.

use vstd::prelude::*;

use crate::abi::{kind_of, KayCapsuleData, KayContext, KayContextId, KayError, KayErrorCode,
    KayHostSlot, KayRawHandle, KayValueInfo, KayValueKind, ValueModel};
use crate::registry::Registry;
use crate::store::{EntryModel, HandleStore, StoredValue};

verus! {

pub type KayResult<T> = Result<T, KayError>;

/// An opaque name for a refcounted entry in a context's handle store. The
/// wrapper does not own a reference by itself: references are managed
/// through the context's `inc_ref`/`dec_ref`.
#[derive(Debug, Clone, Copy, PartialEq, Eq, Structural)]
pub struct KayHandle {
    raw: KayRawHandle,
}

impl View for KayHandle {
    type V = KayRawHandle;

    closed spec fn view(&self) -> KayRawHandle {
        self.raw
    }
}

impl KayHandle {
    pub(crate) fn wrap(raw: KayRawHandle) -> (r: Self)
        ensures
            r@ == raw,
    {
        KayHandle { raw }
    }

    /// The raw 64-bit id of this handle.
    pub fn raw(&self) -> (r: KayRawHandle)
        ensures
            r == self@,
    {
        self.raw
    }
}

/// The ghost projection of an extension descriptor; the callable itself is
/// opaque to specifications.
pub struct ExtModel {
    pub name: Seq<char>,
    pub min_arity: int,
    pub max_arity: Option<int>,
    pub doc: Seq<char>,
}

/// A host extension: a stable name, a callable, an inclusive arity range,
/// and a documentation string.
pub struct KayExtension<E> {
    pub name: String,
    pub callable: E,
    pub min_arity: usize,
    pub max_arity: Option<usize>,
    pub doc: String,
}

impl<E> View for KayExtension<E> {
    type V = ExtModel;

    open spec fn view(&self) -> ExtModel {
        ExtModel {
            name: self.name@,
            min_arity: self.min_arity as int,
            max_arity: match self.max_arity {
                Some(m) => Some(m as int),
                None => None,
            },
            doc: self.doc@,
        }
    }
}

/// Whether an argument count lies in an inclusive arity range.
pub open spec fn arity_fits(min: int, max: Option<int>, n: int) -> bool {
    &&& min <= n
    &&& match max {
        Some(m) => n <= m,
        None => true,
    }
}

/// Whether an argument count lies in the descriptor's inclusive arity range.
pub open spec fn arity_ok(m: ExtModel, n: int) -> bool {
    arity_fits(m.min_arity, m.max_arity, n)
}

/// A per-host context: the handle store, the extension registry, and the
/// context's opaque id. Extensions and the VM reach it by `&mut` borrow; the
/// operations below are the ABI surface that the frozen vtable routes on
/// behalf of extensions.
pub struct KayCtx<E> {
    id: KayContextId,
    store: HandleStore,
    registry: Registry<E>,
}

impl<E> KayCtx<E> {
    /// The context's id.
    pub closed spec fn id_spec(&self) -> KayContextId {
        self.id
    }

    /// The handle store's contents.
    pub closed spec fn store_model(&self) -> Map<u64, EntryModel> {
        self.store@
    }

    /// The id the next allocation will use.
    pub closed spec fn next_handle(&self) -> u64 {
        self.store.next_id()
    }

    /// The registered extensions, in slot order.
    pub closed spec fn exts(&self) -> Seq<ExtModel> {
        self.registry@
    }

    pub closed spec fn wf(&self) -> bool {
        &&& self.store.wf()
        &&& self.registry.wf()
    }
}

/// What a successful allocation does to a context: it installs `v` under the
/// fresh id `next_handle` with one reference, and the id space advances.
/// Allocation fails (with `GeneralFailure`) only when the 64-bit id space is
/// exhausted; the context is then unchanged.
pub open spec fn alloc_post<E>(
    pre: KayCtx<E>,
    post: KayCtx<E>,
    r: KayResult<KayHandle>,
    v: ValueModel,
) -> bool {
    &&& post.wf()
    &&& post.id_spec() == pre.id_spec()
    &&& post.exts() == pre.exts()
    &&& (r is Ok <==> pre.next_handle() < u64::MAX)
    &&& match r {
        Ok(h) => {
            &&& h@ == pre.next_handle()
            &&& h@ != 0
            &&& !pre.store_model().contains_key(h@)
            &&& post.store_model() == pre.store_model().insert(
                h@,
                EntryModel { value: v, refs: 1 },
            )
            &&& post.next_handle() == pre.next_handle() + 1
        },
        Err(e) => {
            &&& e.code == KayErrorCode::GeneralFailure
            &&& post.store_model() == pre.store_model()
            &&& post.next_handle() == pre.next_handle()
        },
    }
}

/// Inspection after allocation reveals exactly what was allocated: a
/// successful allocation of `v` maps the returned handle to `v` with one
/// reference, so `inspect` on that handle reports the variant and payload of
/// `v` — for every primitive and for capsules alike.
pub proof fn lemma_inspect_after_alloc<E>(
    pre: KayCtx<E>,
    post: KayCtx<E>,
    h: KayHandle,
    v: ValueModel,
)
    requires
        alloc_post(pre, post, Ok(h), v),
    ensures
        post.store_model().contains_key(h@),
        post.store_model()[h@] == (EntryModel { value: v, refs: 1 }),
        kind_of(post.store_model()[h@].value) == kind_of(v),
{
}

impl<E> KayCtx<E> {
    /// A fresh context carrying the given opaque record: empty handle store,
    /// no registered extensions.
    pub fn from_raw(raw: KayContext) -> (r: Self)
        ensures
            r.wf(),
            r.id_spec() == raw.id,
            r.store_model() == Map::<u64, EntryModel>::empty(),
            r.next_handle() == 1,
            r.exts() == Seq::<ExtModel>::empty(),
    {
        KayCtx { id: raw.id, store: HandleStore::new(), registry: Registry::new() }
    }

    /// The opaque record naming this context.
    pub fn raw(&self) -> (r: KayContext)
        ensures
            r.id == self.id_spec(),
    {
        KayContext { id: self.id }
    }

    fn alloc_stored(&mut self, value: StoredValue) -> (r: KayResult<KayHandle>)
        requires
            old(self).wf(),
        ensures
            alloc_post(*old(self), *final(self), r, value@),
    {
        match self.store.alloc_value(value) {
            Ok(raw) => Ok(KayHandle::wrap(raw)),
            Err(e) => Err(e),
        }
    }

    /// Allocates a fresh integer handle with one reference.
    pub fn alloc_int(&mut self, value: i64) -> (r: KayResult<KayHandle>)
        requires
            old(self).wf(),
        ensures
            alloc_post(*old(self), *final(self), r, ValueModel::Int(value)),
    {
        self.alloc_stored(StoredValue::Int(value))
    }

    /// Allocates a fresh boolean handle with one reference.
    pub fn alloc_bool(&mut self, value: bool) -> (r: KayResult<KayHandle>)
        requires
            old(self).wf(),
        ensures
            alloc_post(*old(self), *final(self), r, ValueModel::Bool(value)),
    {
        self.alloc_stored(StoredValue::Bool(value))
    }

    /// Allocates a fresh string handle with one reference.
    pub fn alloc_string(&mut self, value: String) -> (r: KayResult<KayHandle>)
        requires
            old(self).wf(),
        ensures
            alloc_post(*old(self), *final(self), r, ValueModel::Str(value@)),
    {
        self.alloc_stored(StoredValue::String(value))
    }

    /// Allocates a fresh byte-sequence handle with one reference.
    pub fn alloc_bytes(&mut self, value: Vec<u8>) -> (r: KayResult<KayHandle>)
        requires
            old(self).wf(),
        ensures
            alloc_post(*old(self), *final(self), r, ValueModel::Bytes(value@)),
    {
        self.alloc_stored(StoredValue::Bytes(value))
    }

    /// Allocates a fresh unit handle with one reference.
    pub fn alloc_unit(&mut self) -> (r: KayResult<KayHandle>)
        requires
            old(self).wf(),
        ensures
            alloc_post(*old(self), *final(self), r, ValueModel::Unit),
    {
        self.alloc_stored(StoredValue::Unit)
    }

    /// Allocates a fresh capsule handle with one reference, carrying the
    /// given tag and opaque payload token.
    pub fn new_capsule(&mut self, tag: &str, payload: u64) -> (r: KayResult<KayHandle>)
        requires
            old(self).wf(),
        ensures
            alloc_post(
                *old(self),
                *final(self),
                r,
                ValueModel::Capsule { tag: tag@, payload: payload },
            ),
    {
        self.alloc_stored(StoredValue::Capsule { tag: String::from_str(tag), payload })
    }

    /// Adds one reference to the handle; fails `NotFound` for a dead handle.
    pub fn inc_ref(&mut self, raw: KayRawHandle) -> (r: KayResult<()>)
        requires
            old(self).wf(),
        ensures
            final(self).wf(),
            final(self).id_spec() == old(self).id_spec(),
            final(self).exts() == old(self).exts(),
            final(self).next_handle() == old(self).next_handle(),
            r is Ok <==> (old(self).store_model().contains_key(raw)
                && old(self).store_model()[raw].refs < usize::MAX),
            match r {
                Ok(_) => final(self).store_model() == crate::store::apply_inc(
                    old(self).store_model(),
                    raw,
                ),
                Err(e) => {
                    &&& final(self).store_model() == old(self).store_model()
                    &&& !old(self).store_model().contains_key(raw) ==> e.code
                        == KayErrorCode::NotFound
                    &&& old(self).store_model().contains_key(raw) ==> e.code
                        == KayErrorCode::GeneralFailure
                },
            },
    {
        self.store.inc_ref(raw)
    }

    /// Releases one reference; removes the entry when the count reaches
    /// zero. Fails `NotFound` for a dead handle.
    pub fn dec_ref(&mut self, raw: KayRawHandle) -> (r: KayResult<()>)
        requires
            old(self).wf(),
        ensures
            final(self).wf(),
            final(self).id_spec() == old(self).id_spec(),
            final(self).exts() == old(self).exts(),
            final(self).next_handle() == old(self).next_handle(),
            r is Ok <==> old(self).store_model().contains_key(raw),
            match r {
                Ok(_) => final(self).store_model() == crate::store::apply_dec(
                    old(self).store_model(),
                    raw,
                ),
                Err(e) => {
                    &&& final(self).store_model() == old(self).store_model()
                    &&& e.code == KayErrorCode::NotFound
                },
            },
    {
        self.store.dec_ref(raw)
    }

    /// Read-only projection of the value behind a handle; never changes a
    /// reference count.
    pub fn inspect(&self, handle: KayRawHandle) -> (r: KayResult<KayValueInfo>)
        ensures
            r is Ok <==> self.store_model().contains_key(handle),
            match r {
                Ok(info) => info.kind@ == kind_of(self.store_model()[handle].value),
                Err(e) => e.code == KayErrorCode::NotFound,
            },
    {
        self.store.inspect(handle)
    }

    /// The tag and payload token behind a capsule handle.
    pub fn capsule_data(&self, handle: KayRawHandle) -> (r: KayResult<KayCapsuleData>)
        ensures
            r is Ok <==> (self.store_model().contains_key(handle)
                && self.store_model()[handle].value is Capsule),
            match r {
                Ok(data) => self.store_model()[handle].value == (ValueModel::Capsule {
                    tag: data.tag@,
                    payload: data.payload,
                }),
                Err(e) => {
                    &&& !self.store_model().contains_key(handle) ==> e.code
                        == KayErrorCode::NotFound
                    &&& (self.store_model().contains_key(handle) && !(self.store_model()[handle].value
                        is Capsule)) ==> e.code == KayErrorCode::TypeMismatch
                },
            },
    {
        self.store.capsule_data(handle)
    }

    /// Wraps a raw id without touching any reference count.
    pub fn handle_from_raw(&self, raw: KayRawHandle) -> (r: KayHandle)
        ensures
            r@ == raw,
    {
        KayHandle::wrap(raw)
    }

    /// Adds a reference to a raw id and wraps it: the caller now owns one
    /// reference of its own.
    pub fn clone_raw(&mut self, raw: KayRawHandle) -> (r: KayResult<KayHandle>)
        requires
            old(self).wf(),
        ensures
            final(self).wf(),
            final(self).id_spec() == old(self).id_spec(),
            final(self).exts() == old(self).exts(),
            final(self).next_handle() == old(self).next_handle(),
            r is Ok <==> (old(self).store_model().contains_key(raw)
                && old(self).store_model()[raw].refs < usize::MAX),
            match r {
                Ok(h) => {
                    &&& h@ == raw
                    &&& final(self).store_model() == crate::store::apply_inc(
                        old(self).store_model(),
                        raw,
                    )
                },
                Err(e) => {
                    &&& final(self).store_model() == old(self).store_model()
                    &&& !old(self).store_model().contains_key(raw) ==> e.code
                        == KayErrorCode::NotFound
                    &&& old(self).store_model().contains_key(raw) ==> e.code
                        == KayErrorCode::GeneralFailure
                },
            },
    {
        match self.inc_ref(raw) {
            Ok(_) => Ok(KayHandle::wrap(raw)),
            Err(e) => Err(e),
        }
    }

    /// Whether a handle is currently live; a test hook mirroring the store.
    pub fn contains_handle(&self, raw: KayRawHandle) -> (r: bool)
        ensures
            r == self.store_model().contains_key(raw),
    {
        self.store.contains_handle(raw)
    }

    /// The number of live handle entries.
    pub fn handle_count(&self) -> (r: usize)
        ensures
            r == self.store_model().dom().len(),
    {
        self.store.handle_count()
    }

    /// The current reference count of a handle, if it is live.
    pub fn ref_count(&self, raw: KayRawHandle) -> (r: Option<usize>)
        ensures
            match r {
                Some(n) => self.store_model().contains_key(raw) && n
                    == self.store_model()[raw].refs,
                None => !self.store_model().contains_key(raw),
            },
    {
        self.store.ref_count(raw)
    }

    pub(crate) fn register(&mut self, ext: KayExtension<E>) -> (r: KayResult<KayHostSlot>)
        requires
            old(self).wf(),
        ensures
            final(self).wf(),
            final(self).id_spec() == old(self).id_spec(),
            final(self).store_model() == old(self).store_model(),
            final(self).next_handle() == old(self).next_handle(),
            r is Ok <==> (crate::registry::lookup_index(old(self).exts(), ext@.name) is None
                && old(self).exts().len() < u32::MAX),
            match r {
                Ok(slot) => {
                    &&& slot == old(self).exts().len()
                    &&& final(self).exts() == old(self).exts().push(ext@)
                },
                Err(e) => {
                    &&& final(self).exts() == old(self).exts()
                    &&& crate::registry::lookup_index(old(self).exts(), ext@.name) is Some
                        ==> e.code == KayErrorCode::AlreadyExists
                },
            },
    {
        self.registry.register(ext)
    }

    pub(crate) fn resolve_slot(&self, name: &str) -> (r: Option<KayHostSlot>)
        requires
            self.wf(),
        ensures
            match r {
                Some(slot) => crate::registry::lookup_index(self.exts(), name@) == Some(
                    slot as int,
                ),
                None => crate::registry::lookup_index(self.exts(), name@) is None,
            },
    {
        match self.registry.lookup_by_name(name) {
            Ok((slot, _)) => Some(slot),
            Err(_) => None,
        }
    }
}

/// What a host-provided extension callable must look like. The contract is
/// the whole trust boundary towards native extension code: whatever an
/// extension does through the context's verified operations, the context
/// stays well formed, keeps its identity and its registered extensions, and
/// never reuses a retired handle id.
pub trait KayCallable: Sized + Clone {
    fn call(&self, ctx: &mut KayCtx<Self>, args: &Vec<KayHandle>) -> (r: KayResult<KayHandle>)
        requires
            old(ctx).wf(),
        ensures
            final(ctx).wf(),
            final(ctx).id_spec() == old(ctx).id_spec(),
            final(ctx).exts() == old(ctx).exts(),
            final(ctx).next_handle() >= old(ctx).next_handle(),
    ;
}

impl<E: KayCallable> KayCtx<E> {
    /// The shared tail of a host call: check the
    /// argument count, give the extension one reference per argument, invoke
    /// the callable, then take those references back. The returned handle's
    /// count already includes the caller's reference; it is passed through
    /// untouched.
    fn invoke_extension(
        &mut self,
        min_arity: usize,
        max_arity: Option<usize>,
        callable: E,
        args: &Vec<KayHandle>,
    ) -> (r: KayResult<KayHandle>)
        requires
            old(self).wf(),
        ensures
            final(self).wf(),
            final(self).id_spec() == old(self).id_spec(),
            final(self).exts() == old(self).exts(),
            final(self).next_handle() >= old(self).next_handle(),
            !arity_fits(
                min_arity as int,
                match max_arity {
                    Some(m) => Some(m as int),
                    None => None,
                },
                args@.len() as int,
            ) ==> {
                &&& r matches Err(e) && e.code == KayErrorCode::InvalidArgument
                &&& final(self).store_model() == old(self).store_model()
                &&& final(self).next_handle() == old(self).next_handle()
            },
    {
        if args.len() < min_arity {
            return Err(KayError::new(
                KayErrorCode::InvalidArgument,
                Some(String::from_str("too few arguments")),
            ));
        }
        if let Some(max) = max_arity {
            if args.len() > max {
                return Err(KayError::new(
                    KayErrorCode::InvalidArgument,
                    Some(String::from_str("too many arguments")),
                ));
            }
        }
        let n = args.len();
        let mut raws: Vec<u64> = Vec::new();
        let mut i: usize = 0;
        while i < n
            invariant
                i <= n,
                n == args@.len(),
                raws@.len() == i,
            decreases n - i,
        {
            raws.push(args[i].raw());
            i = i + 1;
        }
        match self.store.inc_all(&raws) {
            Err(e) => Err(e),
            Ok(_) => {
                let result = callable.call(self, args);
                self.store.dec_all(&raws);
                result
            },
        }
    }

    /// Fast-path host call: resolve a slot to its extension and invoke it.
    /// A slot out of range fails `NotFound`; an argument count outside the
    /// extension's arity range fails `InvalidArgument`; in both cases the
    /// store is untouched. Otherwise the result is whatever the extension
    /// returned, and the context is still well formed whatever it did.
    pub fn call_slot(&mut self, slot: KayHostSlot, args: &Vec<KayHandle>) -> (r: KayResult<
        KayHandle,
    >)
        requires
            old(self).wf(),
        ensures
            final(self).wf(),
            final(self).id_spec() == old(self).id_spec(),
            final(self).exts() == old(self).exts(),
            final(self).next_handle() >= old(self).next_handle(),
            old(self).exts().len() <= slot as int ==> {
                &&& r matches Err(e) && e.code == KayErrorCode::NotFound
                &&& final(self).store_model() == old(self).store_model()
                &&& final(self).next_handle() == old(self).next_handle()
            },
            ((slot as int) < old(self).exts().len() && !arity_ok(
                old(self).exts()[slot as int],
                args@.len() as int,
            )) ==> {
                &&& r matches Err(e) && e.code == KayErrorCode::InvalidArgument
                &&& final(self).store_model() == old(self).store_model()
                &&& final(self).next_handle() == old(self).next_handle()
            },
    {
        let (min, max, callable) = match self.registry.lookup_by_slot(slot) {
            Err(e) => {
                return Err(e);
            },
            Ok(ext) => (ext.min_arity, ext.max_arity, ext.callable.clone()),
        };
        self.invoke_extension(min, max, callable, args)
    }

    /// Name-path host call: resolve a name to its extension and invoke it,
    /// as [`Self::call_slot`] does for slots. An unknown name fails
    /// `NotFound` with the store untouched.
    pub fn call_dynamic(&mut self, name: &str, args: &Vec<KayHandle>) -> (r: KayResult<KayHandle>)
        requires
            old(self).wf(),
        ensures
            final(self).wf(),
            final(self).id_spec() == old(self).id_spec(),
            final(self).exts() == old(self).exts(),
            final(self).next_handle() >= old(self).next_handle(),
            crate::registry::lookup_index(old(self).exts(), name@) is None ==> {
                &&& r matches Err(e) && e.code == KayErrorCode::NotFound
                &&& final(self).store_model() == old(self).store_model()
                &&& final(self).next_handle() == old(self).next_handle()
            },
            match crate::registry::lookup_index(old(self).exts(), name@) {
                Some(i) => !arity_ok(old(self).exts()[i], args@.len() as int) ==> {
                    &&& r matches Err(e) && e.code == KayErrorCode::InvalidArgument
                    &&& final(self).store_model() == old(self).store_model()
                    &&& final(self).next_handle() == old(self).next_handle()
                },
                None => true,
            },
    {
        let (min, max, callable) = match self.registry.lookup_by_name(name) {
            Err(e) => {
                return Err(e);
            },
            Ok((_, ext)) => (ext.min_arity, ext.max_arity, ext.callable.clone()),
        };
        self.invoke_extension(min, max, callable, args)
    }
}

impl<E: KayCallable> KayExtension<E> {
    /// A descriptor's arity range is inclusive and non-empty: when a maximum
    /// is set it must not undercut the minimum.
    pub fn new(name: &str, callable: E, min_arity: usize, max_arity: Option<usize>, doc: &str) -> (
        r: Self)
        requires
            max_arity matches Some(m) ==> min_arity <= m,
        ensures
            r@ == (ExtModel {
                name: name@,
                min_arity: min_arity as int,
                max_arity: match max_arity {
                    Some(m) => Some(m as int),
                    None => None,
                },
                doc: doc@,
            }),
    {
        KayExtension {
            name: String::from_str(name),
            callable,
            min_arity,
            max_arity,
            doc: String::from_str(doc),
        }
    }

    /// Invokes the callable after checking the argument count against the
    /// descriptor's arity range; a violation fails `InvalidArgument` without
    /// touching the context.
    pub fn call(&self, ctx: &mut KayCtx<E>, args: &Vec<KayHandle>) -> (r: KayResult<KayHandle>)
        requires
            old(ctx).wf(),
        ensures
            final(ctx).wf(),
            final(ctx).id_spec() == old(ctx).id_spec(),
            final(ctx).exts() == old(ctx).exts(),
            final(ctx).next_handle() >= old(ctx).next_handle(),
            !arity_ok(self@, args@.len() as int) ==> {
                &&& r matches Err(e) && e.code == KayErrorCode::InvalidArgument
                &&& final(ctx).store_model() == old(ctx).store_model()
            },
    {
        if args.len() < self.min_arity {
            return Err(KayError::new(
                KayErrorCode::InvalidArgument,
                Some(String::from_str("too few arguments")),
            ));
        }
        if let Some(max) = self.max_arity {
            if args.len() > max {
                return Err(KayError::new(
                    KayErrorCode::InvalidArgument,
                    Some(String::from_str("too many arguments")),
                ));
            }
        }
        self.callable.call(ctx, args)
    }
}

impl KayHandle {
    /// The kind of the value behind this handle, read through a context.
    pub fn describe<E>(&self, ctx: &KayCtx<E>) -> (r: KayResult<KayValueKind>)
        ensures
            r is Ok <==> ctx.store_model().contains_key(self@),
            match r {
                Ok(kind) => kind@ == kind_of(ctx.store_model()[self@].value),
                Err(e) => e.code == KayErrorCode::NotFound,
            },
    {
        match ctx.inspect(self.raw) {
            Ok(info) => Ok(info.kind),
            Err(e) => Err(e),
        }
    }

    /// Erases the handle's static type: an explicit "any value" wrapper.
    pub fn into_any(self) -> (r: KayAny)
        ensures
            r.handle_id() == self@,
    {
        KayAny { handle: self }
    }
}

/// API-level failures raised by the typed wrappers before anything reaches
/// the store.
#[derive(Debug, Clone)]
pub enum KayApiError {
    TypeMismatch { expected: String, found: KayValueKind },
    CapsuleTagMismatch { expected: String, found: String },
}

impl KayApiError {
    /// Maps an API-level failure onto the closed ABI error taxonomy: both
    /// variants report a type mismatch.
    pub fn to_error(self) -> (r: KayError)
        ensures
            r.code == KayErrorCode::TypeMismatch,
    {
        match self {
            KayApiError::TypeMismatch { expected, found: _ } => KayError::new(
                KayErrorCode::TypeMismatch,
                Some(expected),
            ),
            KayApiError::CapsuleTagMismatch { expected, found: _ } => KayError::new(
                KayErrorCode::TypeMismatch,
                Some(expected),
            ),
        }
    }
}

/// A handle with its static type deliberately erased.
#[derive(Debug, Clone, Copy)]
pub struct KayAny {
    handle: KayHandle,
}

impl KayAny {
    /// The id of the wrapped handle.
    pub closed spec fn handle_id(&self) -> KayRawHandle {
        self.handle@
    }

    pub fn handle(&self) -> (r: &KayHandle)
        ensures
            r@ == self.handle_id(),
    {
        &self.handle
    }

    /// The kind of the value behind the wrapped handle.
    pub fn describe<E>(&self, ctx: &KayCtx<E>) -> (r: KayResult<KayValueKind>)
        ensures
            r is Ok <==> ctx.store_model().contains_key(self.handle_id()),
            match r {
                Ok(kind) => kind@ == kind_of(ctx.store_model()[self.handle_id()].value),
                Err(e) => e.code == KayErrorCode::NotFound,
            },
    {
        self.handle.describe(ctx)
    }
}

/// The unit value as a named API type.
pub struct KayUnit;

/// A handle checked, at construction, to refer to a string value.
#[derive(Debug, Clone, Copy)]
pub struct KayStr {
    handle: KayHandle,
}

impl KayStr {
    pub closed spec fn handle_id(&self) -> KayRawHandle {
        self.handle@
    }

    /// Wraps a handle after checking that it refers to a string; any other
    /// kind fails `TypeMismatch`, a dead handle `NotFound`.
    pub fn new<E>(ctx: &KayCtx<E>, handle: KayHandle) -> (r: KayResult<KayStr>)
        ensures
            r is Ok <==> (ctx.store_model().contains_key(handle@)
                && ctx.store_model()[handle@].value is Str),
            match r {
                Ok(s) => s.handle_id() == handle@,
                Err(e) => {
                    &&& !ctx.store_model().contains_key(handle@) ==> e.code
                        == KayErrorCode::NotFound
                    &&& (ctx.store_model().contains_key(handle@)
                        && !(ctx.store_model()[handle@].value is Str)) ==> e.code
                        == KayErrorCode::TypeMismatch
                },
            },
    {
        match handle.describe(ctx) {
            Err(e) => Err(e),
            Ok(kind) => match kind {
                KayValueKind::String(_) => Ok(KayStr { handle }),
                found => Err(
                    KayApiError::TypeMismatch {
                        expected: String::from_str("string"),
                        found,
                    }.to_error(),
                ),
            },
        }
    }

    /// A borrowed view of the string's current contents.
    pub fn as_borrowed<E>(&self, ctx: &KayCtx<E>) -> (r: KayResult<KayBorrowedStr>)
        ensures
            r is Ok <==> (ctx.store_model().contains_key(self.handle_id())
                && ctx.store_model()[self.handle_id()].value is Str),
            match r {
                Ok(view) => ctx.store_model()[self.handle_id()].value == ValueModel::Str(view@),
                Err(_) => true,
            },
    {
        match self.handle.describe(ctx) {
            Err(e) => Err(e),
            Ok(kind) => match kind {
                KayValueKind::String(s) => Ok(KayBorrowedStr { inner: s }),
                found => Err(
                    KayApiError::TypeMismatch {
                        expected: String::from_str("string"),
                        found,
                    }.to_error(),
                ),
            },
        }
    }

    /// The string's current contents as an owned `String`.
    pub fn to_string<E>(&self, ctx: &KayCtx<E>) -> (r: KayResult<String>)
        ensures
            r is Ok <==> (ctx.store_model().contains_key(self.handle_id())
                && ctx.store_model()[self.handle_id()].value is Str),
            match r {
                Ok(s) => ctx.store_model()[self.handle_id()].value == ValueModel::Str(s@),
                Err(_) => true,
            },
    {
        match self.as_borrowed(ctx) {
            Ok(view) => Ok(view.inner),
            Err(e) => Err(e),
        }
    }

    pub fn handle(&self) -> (r: &KayHandle)
        ensures
            r@ == self.handle_id(),
    {
        &self.handle
    }
}

/// An owned snapshot of a string value's contents.
#[derive(Debug, Clone)]
pub struct KayBorrowedStr {
    inner: String,
}

impl View for KayBorrowedStr {
    type V = Seq<char>;

    closed spec fn view(&self) -> Seq<char> {
        self.inner@
    }
}

impl KayBorrowedStr {
    pub fn new(inner: String) -> (r: Self)
        ensures
            r@ == inner@,
    {
        KayBorrowedStr { inner }
    }

    pub fn as_ref(&self) -> (r: &str)
        ensures
            r@ == self@,
    {
        self.inner.as_str()
    }

    pub fn to_string(&self) -> (r: String)
        ensures
            r@ == self@,
    {
        self.inner.clone()
    }
}

/// A handle checked, at construction, to refer to a byte-sequence value.
#[derive(Debug, Clone, Copy)]
pub struct KayBytes {
    handle: KayHandle,
}

impl KayBytes {
    pub closed spec fn handle_id(&self) -> KayRawHandle {
        self.handle@
    }

    /// Wraps a handle after checking that it refers to bytes; any other
    /// kind fails `TypeMismatch`, a dead handle `NotFound`.
    pub fn new<E>(ctx: &KayCtx<E>, handle: KayHandle) -> (r: KayResult<KayBytes>)
        ensures
            r is Ok <==> (ctx.store_model().contains_key(handle@)
                && ctx.store_model()[handle@].value is Bytes),
            match r {
                Ok(b) => b.handle_id() == handle@,
                Err(e) => {
                    &&& !ctx.store_model().contains_key(handle@) ==> e.code
                        == KayErrorCode::NotFound
                    &&& (ctx.store_model().contains_key(handle@)
                        && !(ctx.store_model()[handle@].value is Bytes)) ==> e.code
                        == KayErrorCode::TypeMismatch
                },
            },
    {
        match handle.describe(ctx) {
            Err(e) => Err(e),
            Ok(kind) => match kind {
                KayValueKind::Bytes(_) => Ok(KayBytes { handle }),
                found => Err(
                    KayApiError::TypeMismatch {
                        expected: String::from_str("bytes"),
                        found,
                    }.to_error(),
                ),
            },
        }
    }

    /// A borrowed view of the byte sequence's current contents.
    pub fn as_borrowed<E>(&self, ctx: &KayCtx<E>) -> (r: KayResult<KayBorrowedBytes>)
        ensures
            r is Ok <==> (ctx.store_model().contains_key(self.handle_id())
                && ctx.store_model()[self.handle_id()].value is Bytes),
            match r {
                Ok(view) => ctx.store_model()[self.handle_id()].value == ValueModel::Bytes(view@),
                Err(_) => true,
            },
    {
        match self.handle.describe(ctx) {
            Err(e) => Err(e),
            Ok(kind) => match kind {
                KayValueKind::Bytes(b) => Ok(KayBorrowedBytes { inner: b }),
                found => Err(
                    KayApiError::TypeMismatch {
                        expected: String::from_str("bytes"),
                        found,
                    }.to_error(),
                ),
            },
        }
    }

    pub fn handle(&self) -> (r: &KayHandle)
        ensures
            r@ == self.handle_id(),
    {
        &self.handle
    }
}

/// An owned snapshot of a byte value's contents.
#[derive(Debug, Clone)]
pub struct KayBorrowedBytes {
    inner: Vec<u8>,
}

impl View for KayBorrowedBytes {
    type V = Seq<u8>;

    closed spec fn view(&self) -> Seq<u8> {
        self.inner@
    }
}

impl KayBorrowedBytes {
    pub fn new(inner: Vec<u8>) -> (r: Self)
        ensures
            r@ == inner@,
    {
        KayBorrowedBytes { inner }
    }

    pub fn as_ref(&self) -> (r: &[u8])
        ensures
            r@ == self@,
    {
        self.inner.as_slice()
    }
}

/// A handle checked to refer to a capsule, together with its tag.
#[derive(Debug, Clone)]
pub struct KayCapsule {
    handle: KayHandle,
    tag: String,
}

impl KayCapsule {
    pub closed spec fn handle_id(&self) -> KayRawHandle {
        self.handle@
    }

    pub closed spec fn tag_spec(&self) -> Seq<char> {
        self.tag@
    }

    /// Creates a fresh capsule in the context and wraps its handle.
    pub fn new<E>(ctx: &mut KayCtx<E>, payload: u64, tag: &str) -> (r: KayResult<KayCapsule>)
        requires
            old(ctx).wf(),
        ensures
            final(ctx).wf(),
            final(ctx).id_spec() == old(ctx).id_spec(),
            final(ctx).exts() == old(ctx).exts(),
            r is Ok <==> old(ctx).next_handle() < u64::MAX,
            match r {
                Ok(c) => {
                    &&& c.tag_spec() == tag@
                    &&& c.handle_id() == old(ctx).next_handle()
                    &&& final(ctx).store_model() == old(ctx).store_model().insert(
                        c.handle_id(),
                        EntryModel {
                            value: ValueModel::Capsule { tag: tag@, payload: payload },
                            refs: 1,
                        },
                    )
                },
                Err(_) => final(ctx).store_model() == old(ctx).store_model(),
            },
    {
        match ctx.new_capsule(tag, payload) {
            Ok(handle) => Ok(KayCapsule { handle, tag: String::from_str(tag) }),
            Err(e) => Err(e),
        }
    }

    /// Wraps an existing handle after checking that it refers to a capsule,
    /// learning its tag from the store.
    pub fn from_handle<E>(ctx: &KayCtx<E>, handle: KayHandle) -> (r: KayResult<KayCapsule>)
        ensures
            r is Ok <==> (ctx.store_model().contains_key(handle@)
                && ctx.store_model()[handle@].value is Capsule),
            match r {
                Ok(c) => {
                    &&& c.handle_id() == handle@
                    &&& ctx.store_model()[handle@].value matches ValueModel::Capsule {
                        tag,
                        payload: _,
                    } && c.tag_spec() == tag
                },
                Err(e) => {
                    &&& !ctx.store_model().contains_key(handle@) ==> e.code
                        == KayErrorCode::NotFound
                    &&& (ctx.store_model().contains_key(handle@) && !(
                    ctx.store_model()[handle@].value is Capsule)) ==> e.code
                        == KayErrorCode::TypeMismatch
                },
            },
    {
        match ctx.capsule_data(handle.raw()) {
            Ok(data) => Ok(KayCapsule { handle, tag: data.tag }),
            Err(e) => Err(e),
        }
    }

    /// The tag this capsule was created with.
    pub fn tag(&self) -> (r: &str)
        ensures
            r@ == self.tag_spec(),
    {
        self.tag.as_str()
    }

    pub fn handle(&self) -> (r: &KayHandle)
        ensures
            r@ == self.handle_id(),
    {
        &self.handle
    }

    /// The payload token, checked against an expected tag: a mismatch fails
    /// `TypeMismatch`, exactly as a failed downcast would.
    pub fn payload<E>(&self, ctx: &KayCtx<E>, expected_tag: &str) -> (r: KayResult<u64>)
        ensures
            r is Ok <==> ({
                &&& ctx.store_model().contains_key(self.handle_id())
                &&& (ctx.store_model()[self.handle_id()].value matches ValueModel::Capsule {
                    tag,
                    payload: _,
                } && tag == expected_tag@)
            }),
            match r {
                Ok(p) => ctx.store_model()[self.handle_id()].value matches ValueModel::Capsule {
                    tag: _,
                    payload,
                } && p == payload,
                Err(e) => {
                    &&& !ctx.store_model().contains_key(self.handle_id()) ==> e.code
                        == KayErrorCode::NotFound
                    &&& (ctx.store_model().contains_key(self.handle_id()) && !(
                    ctx.store_model()[self.handle_id()].value is Capsule)) ==> e.code
                        == KayErrorCode::TypeMismatch
                    &&& (ctx.store_model().contains_key(self.handle_id())
                        && (ctx.store_model()[self.handle_id()].value
                        matches ValueModel::Capsule { tag, payload: _ } && tag != expected_tag@))
                        ==> e.code == KayErrorCode::TypeMismatch
                },
            },
    {
        match ctx.capsule_data(self.handle.raw()) {
            Err(e) => Err(e),
            Ok(data) => {
                if crate::text::str_eq(data.tag.as_str(), expected_tag) {
                    Ok(data.payload)
                } else {
                    Err(
                        KayApiError::CapsuleTagMismatch {
                            expected: String::from_str(expected_tag),
                            found: data.tag,
                        }.to_error(),
                    )
                }
            },
        }
    }
}

/// A collector of handle references that are given back together: a caller
/// parks the references it owns in a scope and releases them in one call.
/// Verified code carries no destructors, so the release is an explicit
/// `release` rather than an automatic one; a reference that has already
/// died by then is skipped, exactly as a best-effort release behaves.
pub struct HandleScope {
    handles: Vec<KayRawHandle>,
}

impl View for HandleScope {
    type V = Seq<KayRawHandle>;

    closed spec fn view(&self) -> Seq<KayRawHandle> {
        self.handles@
    }
}

impl HandleScope {
    pub fn new() -> (r: Self)
        ensures
            r@ == Seq::<KayRawHandle>::empty(),
    {
        HandleScope { handles: Vec::new() }
    }

    /// Parks a handle's reference in the scope and hands back a scoped name
    /// for it; the scope now owns that reference.
    pub fn track(&mut self, handle: KayHandle) -> (r: KayScopedHandle)
        ensures
            final(self)@ == old(self)@.push(handle@),
            r.raw_id() == handle@,
    {
        let raw = handle.raw();
        self.handles.push(raw);
        KayScopedHandle { raw }
    }

    /// Releases every tracked reference, in tracking order; the store ends
    /// exactly at the fold of those releases.
    pub fn release<E>(self, ctx: &mut KayCtx<E>)
        requires
            old(ctx).wf(),
        ensures
            final(ctx).wf(),
            final(ctx).id_spec() == old(ctx).id_spec(),
            final(ctx).exts() == old(ctx).exts(),
            final(ctx).next_handle() == old(ctx).next_handle(),
            final(ctx).store_model() == crate::store::apply_decs(
                old(ctx).store_model(),
                self@,
                self@.len() as int,
            ),
    {
        ctx.store.dec_all(&self.handles);
    }
}

/// A name for a reference parked in a [`HandleScope`].
#[derive(Debug, Clone, Copy)]
pub struct KayScopedHandle {
    raw: KayRawHandle,
}

impl KayScopedHandle {
    pub closed spec fn raw_id(&self) -> KayRawHandle {
        self.raw
    }

    /// A fresh owned reference to the tracked handle, independent of the
    /// scope's own; fails `NotFound` once the handle is dead.
    pub fn to_handle<E>(&self, ctx: &mut KayCtx<E>) -> (r: KayResult<KayHandle>)
        requires
            old(ctx).wf(),
        ensures
            final(ctx).wf(),
            final(ctx).id_spec() == old(ctx).id_spec(),
            final(ctx).exts() == old(ctx).exts(),
            final(ctx).next_handle() == old(ctx).next_handle(),
            r is Ok <==> (old(ctx).store_model().contains_key(self.raw_id())
                && old(ctx).store_model()[self.raw_id()].refs < usize::MAX),
            match r {
                Ok(h) => {
                    &&& h@ == self.raw_id()
                    &&& final(ctx).store_model() == crate::store::apply_inc(
                        old(ctx).store_model(),
                        self.raw_id(),
                    )
                },
                Err(e) => {
                    &&& final(ctx).store_model() == old(ctx).store_model()
                    &&& !old(ctx).store_model().contains_key(self.raw_id()) ==> e.code
                        == KayErrorCode::NotFound
                },
            },
    {
        ctx.clone_raw(self.raw)
    }
}

/// Conversion of a plain value into a fresh handle in a context.
pub trait ToKay: Sized {
    fn to_kay<E>(self, ctx: &mut KayCtx<E>) -> (r: KayResult<KayHandle>)
        requires
            old(ctx).wf(),
        ensures
            final(ctx).wf(),
            final(ctx).id_spec() == old(ctx).id_spec(),
            final(ctx).exts() == old(ctx).exts(),
            final(ctx).next_handle() >= old(ctx).next_handle(),
    ;
}

/// Conversion of the value behind a handle back into a plain value.
pub trait FromKay: Sized {
    fn from_kay<E>(ctx: &KayCtx<E>, handle: &KayHandle) -> KayResult<Self>;
}

impl ToKay for i64 {
    fn to_kay<E>(self, ctx: &mut KayCtx<E>) -> (r: KayResult<KayHandle>) {
        ctx.alloc_int(self)
    }
}

impl FromKay for i64 {
    fn from_kay<E>(ctx: &KayCtx<E>, handle: &KayHandle) -> (r: KayResult<Self>) {
        match handle.describe(ctx) {
            Err(e) => Err(e),
            Ok(kind) => match kind {
                KayValueKind::Int(v) => Ok(v),
                found => Err(
                    KayApiError::TypeMismatch {
                        expected: String::from_str("int"),
                        found,
                    }.to_error(),
                ),
            },
        }
    }
}

impl ToKay for bool {
    fn to_kay<E>(self, ctx: &mut KayCtx<E>) -> (r: KayResult<KayHandle>) {
        ctx.alloc_bool(self)
    }
}

impl FromKay for bool {
    fn from_kay<E>(ctx: &KayCtx<E>, handle: &KayHandle) -> (r: KayResult<Self>) {
        match handle.describe(ctx) {
            Err(e) => Err(e),
            Ok(kind) => match kind {
                KayValueKind::Bool(v) => Ok(v),
                found => Err(
                    KayApiError::TypeMismatch {
                        expected: String::from_str("bool"),
                        found,
                    }.to_error(),
                ),
            },
        }
    }
}

impl ToKay for String {
    fn to_kay<E>(self, ctx: &mut KayCtx<E>) -> (r: KayResult<KayHandle>) {
        ctx.alloc_string(self)
    }
}

impl FromKay for String {
    fn from_kay<E>(ctx: &KayCtx<E>, handle: &KayHandle) -> (r: KayResult<Self>) {
        match handle.describe(ctx) {
            Err(e) => Err(e),
            Ok(kind) => match kind {
                KayValueKind::String(s) => Ok(s),
                found => Err(
                    KayApiError::TypeMismatch {
                        expected: String::from_str("string"),
                        found,
                    }.to_error(),
                ),
            },
        }
    }
}

impl ToKay for () {
    fn to_kay<E>(self, ctx: &mut KayCtx<E>) -> (r: KayResult<KayHandle>) {
        ctx.alloc_unit()
    }
}

impl FromKay for () {
    fn from_kay<E>(ctx: &KayCtx<E>, handle: &KayHandle) -> (r: KayResult<Self>) {
        match handle.describe(ctx) {
            Err(e) => Err(e),
            Ok(kind) => match kind {
                KayValueKind::Unit => Ok(()),
                found => Err(
                    KayApiError::TypeMismatch {
                        expected: String::from_str("unit"),
                        found,
                    }.to_error(),
                ),
            },
        }
    }
}

impl ToKay for KayHandle {
    fn to_kay<E>(self, _ctx: &mut KayCtx<E>) -> (r: KayResult<KayHandle>) {
        Ok(self)
    }
}

impl FromKay for KayHandle {
    fn from_kay<E>(_ctx: &KayCtx<E>, handle: &KayHandle) -> (r: KayResult<Self>) {
        Ok(*handle)
    }
}

impl ToKay for KayAny {
    fn to_kay<E>(self, _ctx: &mut KayCtx<E>) -> (r: KayResult<KayHandle>) {
        Ok(self.handle)
    }
}

impl FromKay for KayAny {
    fn from_kay<E>(_ctx: &KayCtx<E>, handle: &KayHandle) -> (r: KayResult<Self>) {
        Ok((*handle).into_any())
    }
}

} // verus!

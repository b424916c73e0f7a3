//! The host facade: owns a context and hands out the ABI surface. A
//! process-wide directory of contexts behind a global mutex would let
//! extensions name a context by id alone; a verified library has no global
//! state, so here each host owns its context outright and a stale context
//! id cannot even be formed — destroying the host destroys the context and
//! releases every remaining handle.

use vstd::prelude::*;

use crate::abi::{KayContext, KayError, KayErrorCode, KayHostSlot, KayRawHandle};
use crate::api::{ExtModel, KayCtx, KayExtension, KayResult};
use crate::registry::lookup_index;
use crate::store::EntryModel;

verus! {

/// Host-side failures, mapped onto the ABI taxonomy by [`HostError::to_error`].
#[derive(Debug, Clone)]
pub enum HostError {
    UnknownHandle(KayRawHandle),
    DuplicateExtension(String),
    UnknownSlot(KayHostSlot),
}

impl HostError {
    /// Maps onto the closed ABI error taxonomy: unknown handles and slots
    /// are `NotFound`, a duplicate extension name is `AlreadyExists`.
    pub fn to_error(self) -> (r: KayError)
        ensures
            match self {
                HostError::UnknownHandle(_) => r.code == KayErrorCode::NotFound,
                HostError::DuplicateExtension(_) => r.code == KayErrorCode::AlreadyExists,
                HostError::UnknownSlot(_) => r.code == KayErrorCode::NotFound,
            },
    {
        match self {
            HostError::UnknownHandle(_) => KayError::new(
                KayErrorCode::NotFound,
                Some(String::from_str("handle not found")),
            ),
            HostError::DuplicateExtension(name) => KayError::new(
                KayErrorCode::AlreadyExists,
                Some(name),
            ),
            HostError::UnknownSlot(_) => KayError::new(
                KayErrorCode::NotFound,
                Some(String::from_str("slot not found")),
            ),
        }
    }
}

/// The descriptors of a batch of extensions, in order.
pub open spec fn ext_views<E>(exts: Seq<KayExtension<E>>) -> Seq<ExtModel> {
    exts.map_values(|e: KayExtension<E>| e@)
}

/// Whether the `i`-th descriptor of a batch registers cleanly once the
/// first `i` have: its name is still fresh and a slot is still free.
pub open spec fn batch_admits(base: Seq<ExtModel>, batch: Seq<ExtModel>, i: int) -> bool {
    &&& lookup_index(base + batch.take(i), batch[i].name) is None
    &&& (base + batch.take(i)).len() < u32::MAX
}

/// A host: one context plus the operations a host embedder needs.
pub struct KayHost<E> {
    ctx: KayCtx<E>,
}

impl<E> KayHost<E> {
    /// The owned context, as a specification value.
    pub closed spec fn ctx_spec(&self) -> KayCtx<E> {
        self.ctx
    }

    pub open spec fn wf(&self) -> bool {
        self.ctx_spec().wf()
    }

    /// A fresh host with a fresh, empty context.
    pub fn new() -> (r: Self)
        ensures
            r.wf(),
            r.ctx_spec().store_model() == Map::<u64, EntryModel>::empty(),
            r.ctx_spec().exts() == Seq::<ExtModel>::empty(),
            r.ctx_spec().next_handle() == 1,
    {
        KayHost { ctx: KayCtx::from_raw(KayContext { id: 1 }) }
    }

    /// The opaque record naming the host's context.
    pub fn context(&self) -> (r: KayContext)
        ensures
            r.id == self.ctx_spec().id_spec(),
    {
        self.ctx.raw()
    }

    /// The context itself, for ABI calls.
    pub fn api_ctx(&mut self) -> (r: &mut KayCtx<E>)
        ensures
            *r == old(self).ctx_spec(),
            final(self).ctx_spec() == *final(r),
    {
        &mut self.ctx
    }

    /// The context, read-only.
    pub fn api_ctx_ref(&self) -> (r: &KayCtx<E>)
        ensures
            *r == self.ctx_spec(),
    {
        &self.ctx
    }

    /// Registers one extension; a duplicate name fails `AlreadyExists` and
    /// changes nothing.
    pub fn register_extension(&mut self, ext: KayExtension<E>) -> (r: KayResult<KayHostSlot>)
        requires
            old(self).wf(),
        ensures
            final(self).wf(),
            final(self).ctx_spec().id_spec() == old(self).ctx_spec().id_spec(),
            final(self).ctx_spec().store_model() == old(self).ctx_spec().store_model(),
            final(self).ctx_spec().next_handle() == old(self).ctx_spec().next_handle(),
            r is Ok <==> (lookup_index(old(self).ctx_spec().exts(), ext@.name) is None && old(
                self,
            ).ctx_spec().exts().len() < u32::MAX),
            match r {
                Ok(slot) => {
                    &&& slot == old(self).ctx_spec().exts().len()
                    &&& final(self).ctx_spec().exts() == old(self).ctx_spec().exts().push(ext@)
                },
                Err(e) => {
                    &&& final(self).ctx_spec().exts() == old(self).ctx_spec().exts()
                    &&& lookup_index(old(self).ctx_spec().exts(), ext@.name) is Some ==> e.code
                        == KayErrorCode::AlreadyExists
                },
            },
    {
        self.ctx.register(ext)
    }

    /// Registers a batch of extensions in order, receiving consecutive
    /// slots, and stops at the first failure; extensions registered before
    /// the failure stay registered. Succeeds exactly when every descriptor's
    /// name is fresh — against what was already registered and against the
    /// batch's own earlier names — with slot room at every step; a duplicate
    /// name fails `AlreadyExists`.
    pub fn register_extensions(&mut self, exts: Vec<KayExtension<E>>) -> (r: KayResult<()>)
        requires
            old(self).wf(),
        ensures
            final(self).wf(),
            final(self).ctx_spec().id_spec() == old(self).ctx_spec().id_spec(),
            final(self).ctx_spec().store_model() == old(self).ctx_spec().store_model(),
            final(self).ctx_spec().next_handle() == old(self).ctx_spec().next_handle(),
            r is Ok <==> (forall|i: int|
                0 <= i < exts@.len() ==> #[trigger] batch_admits(
                    old(self).ctx_spec().exts(),
                    ext_views(exts@),
                    i,
                )),
            r is Ok ==> final(self).ctx_spec().exts() == old(self).ctx_spec().exts()
                + ext_views(exts@),
            r matches Err(e) ==> exists|i: int|
                {
                    &&& 0 <= i < exts@.len()
                    &&& !#[trigger] batch_admits(old(self).ctx_spec().exts(), ext_views(exts@), i)
                    &&& forall|j: int|
                        0 <= j < i ==> batch_admits(
                            old(self).ctx_spec().exts(),
                            ext_views(exts@),
                            j,
                        )
                    &&& final(self).ctx_spec().exts() == old(self).ctx_spec().exts() + ext_views(
                        exts@,
                    ).take(i)
                    &&& (lookup_index(
                        old(self).ctx_spec().exts() + ext_views(exts@).take(i),
                        ext_views(exts@)[i].name,
                    ) is Some ==> e.code == KayErrorCode::AlreadyExists)
                },
    {
        proof {
            assert(self.ctx_spec().exts() =~= old(self).ctx_spec().exts() + exts@.map_values(
                |e: KayExtension<E>| e@,
            ).take(0));
        }
        let n = exts.len();
        let mut rest = exts;
        let mut i: usize = 0;
        while i < n
            invariant
                i <= n,
                n == exts@.len(),
                rest@ == exts@.skip(i as int),
                self.wf(),
                self.ctx_spec().id_spec() == old(self).ctx_spec().id_spec(),
                self.ctx_spec().store_model() == old(self).ctx_spec().store_model(),
                self.ctx_spec().next_handle() == old(self).ctx_spec().next_handle(),
                self.ctx_spec().exts() == old(self).ctx_spec().exts() + exts@.map_values(
                    |e: KayExtension<E>| e@,
                ).take(i as int),
                forall|j: int|
                    0 <= j < i ==> #[trigger] batch_admits(
                        old(self).ctx_spec().exts(),
                        ext_views(exts@),
                        j,
                    ),
            decreases n - i,
        {
            let ext = rest.remove(0);
            proof {
                assert(ext == exts@[i as int]);
                assert(rest@ =~= exts@.skip(i as int + 1));
            }
            match self.ctx.register(ext) {
                Ok(_) => {
                    proof {
                        assert(ext_views(exts@)[i as int] == ext@);
                        assert(ext_views(exts@).take(i as int) =~= exts@.map_values(
                            |x: KayExtension<E>| x@,
                        ).take(i as int));
                        assert(batch_admits(
                            old(self).ctx_spec().exts(),
                            ext_views(exts@),
                            i as int,
                        ));
                    }
                },
                Err(e) => {
                    proof {
                        assert(ext_views(exts@)[i as int] == ext@);
                        assert(ext_views(exts@).take(i as int) =~= exts@.map_values(
                            |x: KayExtension<E>| x@,
                        ).take(i as int));
                        assert(self.ctx_spec().exts() == old(self).ctx_spec().exts() + ext_views(
                            exts@,
                        ).take(i as int));
                        assert(!batch_admits(
                            old(self).ctx_spec().exts(),
                            ext_views(exts@),
                            i as int,
                        ));
                    }
                    return Err(e);
                },
            }
            proof {
                assert(exts@.map_values(|x: KayExtension<E>| x@).take(i + 1)
                    =~= exts@.map_values(|x: KayExtension<E>| x@).take(i as int).push(ext@));
                assert(self.ctx_spec().exts() =~= old(self).ctx_spec().exts() + exts@.map_values(
                    |x: KayExtension<E>| x@,
                ).take(i + 1));
            }
            i = i + 1;
        }
        proof {
            assert(exts@.map_values(|x: KayExtension<E>| x@).take(n as int) =~= exts@.map_values(
                |x: KayExtension<E>| x@,
            ));
        }
        Ok(())
    }

    /// Resolves an extension name to its stable slot, if registered.
    pub fn resolve(&self, name: &str) -> (r: Option<KayHostSlot>)
        requires
            self.wf(),
        ensures
            match r {
                Some(slot) => lookup_index(self.ctx_spec().exts(), name@) == Some(slot as int),
                None => lookup_index(self.ctx_spec().exts(), name@) is None,
            },
    {
        self.ctx.resolve_slot(name)
    }
}

} // verus!

//! The per-context handle store: a map from opaque handle id to a
//! reference-counted entry. Ids are assigned monotonically starting at 1 and
//! never reused while the context lives; an entry exists exactly while its
//! reference count is at least 1.

use std::collections::HashMap;
use vstd::prelude::*;

use crate::abi::{kind_of, KayAbiResult, KayCapsuleData, KayError, KayErrorCode, KayRawHandle,
    KayValueInfo, KayValueKind, ValueModel};

verus! {

broadcast use vstd::std_specs::hash::group_hash_axioms;

/// A value as stored in the handle store. Unlike [`KayValueKind`], a capsule
/// here carries its payload token, not just its tag.
#[derive(Debug, Clone)]
pub enum StoredValue {
    Int(i64),
    Bool(bool),
    String(String),
    Bytes(Vec<u8>),
    Unit,
    Capsule { tag: String, payload: u64 },
}

impl View for StoredValue {
    type V = ValueModel;

    open spec fn view(&self) -> ValueModel {
        match self {
            StoredValue::Int(v) => ValueModel::Int(*v),
            StoredValue::Bool(v) => ValueModel::Bool(*v),
            StoredValue::String(s) => ValueModel::Str(s@),
            StoredValue::Bytes(b) => ValueModel::Bytes(b@),
            StoredValue::Unit => ValueModel::Unit,
            StoredValue::Capsule { tag, payload } => ValueModel::Capsule {
                tag: tag@,
                payload: *payload,
            },
        }
    }
}

impl StoredValue {
    /// The read-only projection of this value: payload for primitives, tag
    /// only for capsules.
    pub fn describe(&self) -> (r: KayValueKind)
        ensures
            r@ == kind_of(self@),
    {
        match self {
            StoredValue::Int(v) => KayValueKind::Int(*v),
            StoredValue::Bool(v) => KayValueKind::Bool(*v),
            StoredValue::String(s) => KayValueKind::String(s.clone()),
            StoredValue::Bytes(b) => {
                let c = b.clone();
                proof {
                    assert(c@ =~= b@);
                }
                KayValueKind::Bytes(c)
            },
            StoredValue::Unit => KayValueKind::Unit,
            StoredValue::Capsule { tag, payload: _ } => KayValueKind::Capsule { tag: tag.clone() },
        }
    }
}

/// One handle-store entry: the stored value and its reference count.
#[derive(Debug, Clone)]
pub struct HandleEntry {
    pub value: StoredValue,
    pub refs: usize,
}

/// The ghost projection of a handle-store entry.
pub struct EntryModel {
    pub value: ValueModel,
    pub refs: nat,
}

impl View for HandleEntry {
    type V = EntryModel;

    open spec fn view(&self) -> EntryModel {
        EntryModel { value: self.value@, refs: self.refs as nat }
    }
}

/// The handle store of one context.
pub struct HandleStore {
    entries: HashMap<u64, HandleEntry>,
    next: u64,
}

impl View for HandleStore {
    type V = Map<u64, EntryModel>;

    closed spec fn view(&self) -> Map<u64, EntryModel> {
        self.entries@.map_values(|e: HandleEntry| e@)
    }
}

impl HandleStore {
    /// The id the next allocation will return.
    pub closed spec fn next_id(&self) -> u64 {
        self.next
    }

    /// Well-formedness: 0 is never a handle, every live handle is below the
    /// allocation cursor, and every entry holds at least one reference.
    pub closed spec fn wf(&self) -> bool {
        &&& self.next >= 1
        &&& forall|h: u64| #[trigger] self@.contains_key(h) ==> 1 <= h < self.next
        &&& forall|h: u64| #[trigger] self@.contains_key(h) ==> self@[h].refs >= 1
    }

    pub fn new() -> (r: Self)
        ensures
            r.wf(),
            r@ == Map::<u64, EntryModel>::empty(),
            r.next_id() == 1,
    {
        let r = HandleStore { entries: HashMap::new(), next: 1 };
        proof {
            assert(r@ =~= Map::<u64, EntryModel>::empty());
        }
        r
    }

    /// Installs `value` under a fresh id with one reference. Fails (with
    /// `GeneralFailure`) only when the 64-bit id space is exhausted.
    pub fn alloc_value(&mut self, value: StoredValue) -> (r: KayAbiResult<KayRawHandle>)
        requires
            old(self).wf(),
        ensures
            final(self).wf(),
            r is Ok <==> old(self).next_id() < u64::MAX,
            match r {
                Ok(h) => {
                    &&& h == old(self).next_id()
                    &&& h != 0
                    &&& !old(self)@.contains_key(h)
                    &&& final(self)@ == old(self)@.insert(h, EntryModel { value: value@, refs: 1 })
                    &&& final(self).next_id() == old(self).next_id() + 1
                },
                Err(e) => {
                    &&& e.code == KayErrorCode::GeneralFailure
                    &&& final(self)@ == old(self)@
                    &&& final(self).next_id() == old(self).next_id()
                },
            },
    {
        if self.next == u64::MAX {
            return Err(KayError::new(
                KayErrorCode::GeneralFailure,
                Some(String::from_str("handle id space exhausted")),
            ));
        }
        let handle = self.next;
        self.next = self.next + 1;
        self.entries.insert(handle, HandleEntry { value, refs: 1 });
        proof {
            assert(final(self)@ =~= old(self)@.insert(handle, EntryModel { value: value@, refs: 1 }));
        }
        Ok(handle)
    }

    /// Adds one reference to `handle`. Fails `NotFound` when the handle is
    /// not live, and `GeneralFailure` when the count cannot grow further.
    pub fn inc_ref(&mut self, handle: KayRawHandle) -> (r: KayAbiResult<()>)
        requires
            old(self).wf(),
        ensures
            final(self).wf(),
            final(self).next_id() == old(self).next_id(),
            r is Ok <==> (old(self)@.contains_key(handle) && old(self)@[handle].refs
                < usize::MAX),
            match r {
                Ok(_) => final(self)@ == apply_inc(old(self)@, handle),
                Err(e) => {
                    &&& final(self)@ == old(self)@
                    &&& !old(self)@.contains_key(handle) ==> e.code == KayErrorCode::NotFound
                    &&& old(self)@.contains_key(handle) ==> e.code == KayErrorCode::GeneralFailure
                },
            },
    {
        match self.entries.remove(&handle) {
            None => {
                proof {
                    assert(self@ =~= old(self)@);
                    lemma_wf_from_view(*old(self), *self);
                }
                Err(KayError::new(
                    KayErrorCode::NotFound,
                    Some(String::from_str("handle not found")),
                ))
            },
            Some(entry) => {
                if entry.refs == usize::MAX {
                    self.entries.insert(handle, entry);
                    proof {
                        assert(self@ =~= old(self)@);
                        lemma_wf_from_view(*old(self), *self);
                    }
                    Err(KayError::new(
                        KayErrorCode::GeneralFailure,
                        Some(String::from_str("reference count saturated")),
                    ))
                } else {
                    let bumped = HandleEntry { value: entry.value, refs: entry.refs + 1 };
                    self.entries.insert(handle, bumped);
                    proof {
                        assert(self@ =~= apply_inc(old(self)@, handle));
                        assert forall|h: u64| #[trigger] self@.contains_key(h) implies 1 <= h
                            < self.next && self@[h].refs >= 1 by {
                            assert(old(self)@.contains_key(h));
                        }
                    }
                    Ok(())
                }
            },
        }
    }

    /// Releases one reference to `handle`; the entry is removed when the
    /// count reaches zero, and the id is retired. Fails `NotFound` when the
    /// handle is not live.
    pub fn dec_ref(&mut self, handle: KayRawHandle) -> (r: KayAbiResult<()>)
        requires
            old(self).wf(),
        ensures
            final(self).wf(),
            final(self).next_id() == old(self).next_id(),
            r is Ok <==> old(self)@.contains_key(handle),
            match r {
                Ok(_) => final(self)@ == apply_dec(old(self)@, handle),
                Err(e) => {
                    &&& final(self)@ == old(self)@
                    &&& e.code == KayErrorCode::NotFound
                },
            },
    {
        match self.entries.remove(&handle) {
            None => {
                proof {
                    assert(self@ =~= old(self)@);
                    lemma_wf_from_view(*old(self), *self);
                }
                Err(KayError::new(
                    KayErrorCode::NotFound,
                    Some(String::from_str("handle not found")),
                ))
            },
            Some(entry) => {
                if entry.refs == 0 {
                    // Unreachable while the store is well formed; kept as a
                    // defence against double releases.
                    self.entries.insert(handle, entry);
                    proof {
                        assert(self@ =~= old(self)@);
                        lemma_wf_from_view(*old(self), *self);
                    }
                    Err(KayError::new(
                        KayErrorCode::GeneralFailure,
                        Some(String::from_str("invalid refcount state")),
                    ))
                } else if entry.refs == 1 {
                    proof {
                        assert(self@ =~= apply_dec(old(self)@, handle));
                        assert forall|h: u64| #[trigger] self@.contains_key(h) implies 1 <= h
                            < self.next && self@[h].refs >= 1 by {
                            assert(old(self)@.contains_key(h));
                        }
                    }
                    Ok(())
                } else {
                    let dropped = HandleEntry { value: entry.value, refs: entry.refs - 1 };
                    self.entries.insert(handle, dropped);
                    proof {
                        assert(self@ =~= apply_dec(old(self)@, handle));
                        assert forall|h: u64| #[trigger] self@.contains_key(h) implies 1 <= h
                            < self.next && self@[h].refs >= 1 by {
                            assert(old(self)@.contains_key(h));
                        }
                    }
                    Ok(())
                }
            },
        }
    }

    /// Read-only projection of the value behind `handle`; never changes any
    /// reference count.
    pub fn inspect(&self, handle: KayRawHandle) -> (r: KayAbiResult<KayValueInfo>)
        ensures
            r is Ok <==> self@.contains_key(handle),
            match r {
                Ok(info) => info.kind@ == kind_of(self@[handle].value),
                Err(e) => e.code == KayErrorCode::NotFound,
            },
    {
        match self.entries.get(&handle) {
            None => Err(KayError::new(
                KayErrorCode::NotFound,
                Some(String::from_str("handle not found")),
            )),
            Some(entry) => Ok(KayValueInfo { kind: entry.value.describe() }),
        }
    }

    /// Returns the tag and payload token of a capsule handle. Fails
    /// `NotFound` when the handle is not live and `TypeMismatch` when the
    /// entry is not a capsule.
    pub fn capsule_data(&self, handle: KayRawHandle) -> (r: KayAbiResult<KayCapsuleData>)
        ensures
            r is Ok <==> (self@.contains_key(handle) && self@[handle].value is Capsule),
            match r {
                Ok(data) => self@[handle].value == (ValueModel::Capsule {
                    tag: data.tag@,
                    payload: data.payload,
                }),
                Err(e) => {
                    &&& !self@.contains_key(handle) ==> e.code == KayErrorCode::NotFound
                    &&& (self@.contains_key(handle) && !(self@[handle].value is Capsule))
                        ==> e.code == KayErrorCode::TypeMismatch
                },
            },
    {
        match self.entries.get(&handle) {
            None => Err(KayError::new(
                KayErrorCode::NotFound,
                Some(String::from_str("handle not found")),
            )),
            Some(entry) => match &entry.value {
                StoredValue::Capsule { tag, payload } => Ok(KayCapsuleData {
                    tag: tag.clone(),
                    payload: *payload,
                }),
                _ => Err(KayError::new(
                    KayErrorCode::TypeMismatch,
                    Some(String::from_str("value is not a capsule")),
                )),
            },
        }
    }

    /// The current reference count of `handle`, if it is live.
    pub fn ref_count(&self, handle: KayRawHandle) -> (r: Option<usize>)
        ensures
            match r {
                Some(n) => self@.contains_key(handle) && n == self@[handle].refs,
                None => !self@.contains_key(handle),
            },
    {
        match self.entries.get(&handle) {
            Some(entry) => Some(entry.refs),
            None => None,
        }
    }

    /// Whether `handle` is currently live.
    pub fn contains_handle(&self, handle: KayRawHandle) -> (r: bool)
        ensures
            r == self@.contains_key(handle),
    {
        self.entries.contains_key(&handle)
    }

    /// The number of live entries.
    pub fn handle_count(&self) -> (r: usize)
        ensures
            r == self@.dom().len(),
    {
        proof {
            assert(self@.dom() =~= self.entries@.dom());
        }
        self.entries.len()
    }
}

/// Well-formedness depends only on the view and the allocation cursor.
proof fn lemma_wf_from_view(a: HandleStore, b: HandleStore)
    requires
        a.wf(),
        a@ == b@,
        a.next_id() == b.next_id(),
    ensures
        b.wf(),
{
    assert forall|h: u64| #[trigger] b@.contains_key(h) implies 1 <= h < b.next_id()
        && b@[h].refs >= 1 by {
        assert(a@.contains_key(h));
    }
}

/// The model-level effect of a successful or failed `inc_ref`: absent
/// handles are left untouched (the call reports `NotFound`).
pub open spec fn apply_inc(m: Map<u64, EntryModel>, h: u64) -> Map<u64, EntryModel> {
    if m.contains_key(h) {
        m.insert(h, EntryModel { value: m[h].value, refs: m[h].refs + 1 })
    } else {
        m
    }
}

/// The model-level effect of a `dec_ref`: the entry is removed exactly when
/// its last reference is released; absent handles are left untouched.
pub open spec fn apply_dec(m: Map<u64, EntryModel>, h: u64) -> Map<u64, EntryModel> {
    if m.contains_key(h) {
        if m[h].refs <= 1 {
            m.remove(h)
        } else {
            m.insert(h, EntryModel { value: m[h].value, refs: (m[h].refs - 1) as nat })
        }
    } else {
        m
    }
}

/// The handles of `hs` up to index `k`, each acquired once, in order.
pub open spec fn apply_incs(m: Map<u64, EntryModel>, hs: Seq<u64>, k: int) -> Map<u64, EntryModel>
    decreases k,
{
    if k <= 0 {
        m
    } else {
        apply_inc(apply_incs(m, hs, k - 1), hs[k - 1])
    }
}

/// Whether the first `k` acquisitions of `hs` all succeed: at each step the
/// handle is live in the folded state and its count has headroom.
pub open spec fn incs_admit(m: Map<u64, EntryModel>, hs: Seq<u64>, k: int) -> bool
    decreases k,
{
    if k <= 0 {
        true
    } else {
        &&& incs_admit(m, hs, k - 1)
        &&& apply_incs(m, hs, k - 1).contains_key(hs[k - 1])
        &&& apply_incs(m, hs, k - 1)[hs[k - 1]].refs < usize::MAX
    }
}

/// Once some acquisition fails, every longer prefix fails too.
proof fn lemma_incs_admit_prefix(m: Map<u64, EntryModel>, hs: Seq<u64>, j: int, k: int)
    requires
        0 <= j <= k,
        !incs_admit(m, hs, j),
    ensures
        !incs_admit(m, hs, k),
    decreases k,
{
    if k > j {
        lemma_incs_admit_prefix(m, hs, j, k - 1);
    }
}

/// The handles of `hs` up to index `k`, each released once, in order:
/// absent handles are skipped, exactly as the best-effort release behaves.
pub open spec fn apply_decs(m: Map<u64, EntryModel>, hs: Seq<u64>, k: int) -> Map<u64, EntryModel>
    decreases k,
{
    if k <= 0 {
        m
    } else {
        apply_dec(apply_decs(m, hs, k - 1), hs[k - 1])
    }
}

/// Acquiring references never changes which handles are live, never changes
/// a value, and only grows counts, by at most one per acquisition.
proof fn lemma_apply_incs_facts(m: Map<u64, EntryModel>, hs: Seq<u64>, k: int)
    requires
        0 <= k,
        forall|h: u64| #[trigger] m.contains_key(h) ==> m[h].refs >= 1,
    ensures
        apply_incs(m, hs, k).dom() == m.dom(),
        forall|h: u64| #[trigger] m.contains_key(h) ==> {
            &&& apply_incs(m, hs, k)[h].value == m[h].value
            &&& m[h].refs <= apply_incs(m, hs, k)[h].refs <= m[h].refs + k
        },
    decreases k,
{
    if k == 0 {
        assert(apply_incs(m, hs, k).dom() =~= m.dom());
    } else {
        lemma_apply_incs_facts(m, hs, k - 1);
        let prev = apply_incs(m, hs, k - 1);
        assert(apply_inc(prev, hs[k - 1]).dom() =~= prev.dom());
    }
}

/// Releasing a freshly acquired reference restores the store exactly.
proof fn lemma_inc_then_dec(m: Map<u64, EntryModel>, h: u64)
    requires
        m.contains_key(h),
        m[h].refs >= 1,
    ensures
        apply_dec(apply_inc(m, h), h) == m,
{
    assert(apply_dec(apply_inc(m, h), h) =~= m);
}

impl HandleStore {
    /// Acquires one reference for each handle in `raws`, in order: this is
    /// how an extension is given its own references to its arguments. On any
    /// failure the references already acquired are released again, so the
    /// store is unchanged; the error is the failing acquisition's.
    pub fn inc_all(&mut self, raws: &Vec<u64>) -> (r: KayAbiResult<()>)
        requires
            old(self).wf(),
        ensures
            final(self).wf(),
            final(self).next_id() == old(self).next_id(),
            r is Ok <==> incs_admit(old(self)@, raws@, raws@.len() as int),
            match r {
                Ok(_) => final(self)@ == apply_incs(old(self)@, raws@, raws@.len() as int),
                Err(e) => {
                    &&& final(self)@ == old(self)@
                    &&& (e.code == KayErrorCode::NotFound || e.code
                        == KayErrorCode::GeneralFailure)
                },
            },
    {
        let n = raws.len();
        let mut i: usize = 0;
        while i < n
            invariant
                old(self).wf(),
                self.wf(),
                i <= n,
                n == raws@.len(),
                self.next_id() == old(self).next_id(),
                self@ == apply_incs(old(self)@, raws@, i as int),
                incs_admit(old(self)@, raws@, i as int),
                forall|k: int| 0 <= k < i ==> old(self)@.contains_key(#[trigger] raws@[k]),
            decreases n - i,
        {
            proof {
                lemma_apply_incs_facts(old(self)@, raws@, i as int);
            }
            let raw = raws[i];
            match self.inc_ref(raw) {
                Ok(_) => {
                    proof {
                        assert(self@ == apply_incs(old(self)@, raws@, i + 1));
                    }
                    i = i + 1;
                },
                Err(e) => {
                    proof {
                        assert(!incs_admit(old(self)@, raws@, i + 1));
                        lemma_incs_admit_prefix(old(self)@, raws@, i + 1, raws@.len() as int);
                    }
                    let mut j: usize = i;
                    while j > 0
                        invariant
                            old(self).wf(),
                            self.wf(),
                            j <= i,
                            i <= n,
                            n == raws@.len(),
                            self.next_id() == old(self).next_id(),
                            self@ == apply_incs(old(self)@, raws@, j as int),
                            forall|k: int|
                                0 <= k < i ==> old(self)@.contains_key(#[trigger] raws@[k]),
                        decreases j,
                    {
                        j = j - 1;
                        proof {
                            lemma_apply_incs_facts(old(self)@, raws@, j as int);
                            lemma_inc_then_dec(apply_incs(old(self)@, raws@, j as int), raws@[
                                j as int]);
                        }
                        let res = self.dec_ref(raws[j]);
                        proof {
                            assert(res is Ok);
                        }
                    }
                    return Err(e);
                },
            }
        }
        Ok(())
    }

    /// Releases one reference for each handle in `raws`, best effort: a
    /// handle that is no longer live is skipped. This is how the references
    /// given to an extension are taken back after its call returns.
    pub fn dec_all(&mut self, raws: &Vec<u64>)
        requires
            old(self).wf(),
        ensures
            final(self).wf(),
            final(self).next_id() == old(self).next_id(),
            final(self)@ == apply_decs(old(self)@, raws@, raws@.len() as int),
    {
        let n = raws.len();
        let mut i: usize = 0;
        while i < n
            invariant
                old(self).wf(),
                self.wf(),
                i <= n,
                n == raws@.len(),
                self.next_id() == old(self).next_id(),
                self@ == apply_decs(old(self)@, raws@, i as int),
            decreases n - i,
        {
            let _ = self.dec_ref(raws[i]);
            proof {
                assert(self@ == apply_decs(old(self)@, raws@, i + 1));
            }
            i = i + 1;
        }
    }
}

/// One reference-count operation on a fixed handle.
pub enum RefOp {
    Inc,
    Dec,
}

/// The model-level effect of one [`RefOp`] on the store.
pub open spec fn apply_ref_op(m: Map<u64, EntryModel>, h: u64, op: RefOp) -> Map<u64, EntryModel> {
    match op {
        RefOp::Inc => apply_inc(m, h),
        RefOp::Dec => apply_dec(m, h),
    }
}

/// The model-level effect of a sequence of [`RefOp`]s on the store.
pub open spec fn apply_ref_ops(m: Map<u64, EntryModel>, h: u64, ops: Seq<RefOp>) -> Map<
    u64,
    EntryModel,
>
    decreases ops.len(),
{
    if ops.len() == 0 {
        m
    } else {
        apply_ref_ops(apply_ref_op(m, h, ops[0]), h, ops.drop_first())
    }
}

/// How many acquisitions a sequence holds.
pub open spec fn count_incs(ops: Seq<RefOp>) -> int
    decreases ops.len(),
{
    if ops.len() == 0 {
        0
    } else {
        (if ops[0] is Inc {
            1int
        } else {
            0int
        }) + count_incs(ops.drop_first())
    }
}

/// How many releases a sequence holds.
pub open spec fn count_decs(ops: Seq<RefOp>) -> int
    decreases ops.len(),
{
    if ops.len() == 0 {
        0
    } else {
        (if ops[0] is Dec {
            1int
        } else {
            0int
        }) + count_decs(ops.drop_first())
    }
}

/// The reference count after a sequence of operations, or `None` once the
/// last reference has been released.
pub open spec fn refs_after(r: nat, ops: Seq<RefOp>) -> Option<nat>
    decreases ops.len(),
{
    if ops.len() == 0 {
        Some(r)
    } else {
        match ops[0] {
            RefOp::Inc => refs_after((r + 1) as nat, ops.drop_first()),
            RefOp::Dec => if r <= 1 {
                None
            } else {
                refs_after((r - 1) as nat, ops.drop_first())
            },
        }
    }
}

/// Once a handle is gone, every further operation on it leaves the store
/// unchanged: the calls fail `NotFound` without effect.
pub proof fn lemma_ref_ops_absent(m: Map<u64, EntryModel>, h: u64, ops: Seq<RefOp>)
    requires
        !m.contains_key(h),
    ensures
        apply_ref_ops(m, h, ops) == m,
    decreases ops.len(),
{
    if ops.len() > 0 {
        assert(apply_ref_op(m, h, ops[0]) == m);
        lemma_ref_ops_absent(m, h, ops.drop_first());
    }
}

/// The store tracks the reference-count state machine: after any sequence of
/// operations on a live handle, the entry is present exactly while
/// [`refs_after`] is, with the same value and count.
pub proof fn lemma_ref_ops_track(m: Map<u64, EntryModel>, h: u64, ops: Seq<RefOp>)
    requires
        m.contains_key(h),
        m[h].refs >= 1,
    ensures
        match refs_after(m[h].refs, ops) {
            Some(v) => {
                &&& apply_ref_ops(m, h, ops).contains_key(h)
                &&& apply_ref_ops(m, h, ops)[h] == (EntryModel { value: m[h].value, refs: v })
            },
            None => !apply_ref_ops(m, h, ops).contains_key(h),
        },
    decreases ops.len(),
{
    if ops.len() > 0 {
        let m1 = apply_ref_op(m, h, ops[0]);
        match ops[0] {
            RefOp::Inc => {
                lemma_ref_ops_track(m1, h, ops.drop_first());
            },
            RefOp::Dec => {
                if m[h].refs <= 1 {
                    lemma_ref_ops_absent(m1, h, ops.drop_first());
                } else {
                    lemma_ref_ops_track(m1, h, ops.drop_first());
                }
            },
        }
    }
}

/// Balance law for the reference-count state machine: starting from `r`
/// references, the count survives a sequence of operations exactly when the
/// releases never catch up with `r` plus the acquisitions so far, and while
/// it survives it equals `r + incs - decs`; it is extinguished exactly when
/// some prefix balances.
pub proof fn lemma_refs_after_balance(r: nat, ops: Seq<RefOp>)
    requires
        r >= 1,
    ensures
        refs_after(r, ops) is Some <==> (forall|k: int|
            0 <= k <= ops.len() ==> count_decs(#[trigger] ops.take(k)) < r + count_incs(
                ops.take(k),
            )),
        refs_after(r, ops) is None <==> (exists|k: int|
            0 <= k <= ops.len() && count_decs(#[trigger] ops.take(k)) == r + count_incs(
                ops.take(k),
            )),
        match refs_after(r, ops) {
            Some(v) => v == r + count_incs(ops) - count_decs(ops) && v >= 1,
            None => true,
        },
    decreases ops.len(),
{
    assert(ops.take(0) =~= Seq::<RefOp>::empty());
    if ops.len() == 0 {
        assert forall|k: int| 0 <= k <= ops.len() implies count_decs(#[trigger] ops.take(k)) < r
            + count_incs(ops.take(k)) by {
            assert(ops.take(k) =~= Seq::<RefOp>::empty());
        }
    } else {
        let rest = ops.drop_first();
        assert(ops.take(ops.len() as int) =~= ops);
        assert forall|k: int| 1 <= k <= ops.len() implies {
            &&& count_incs(#[trigger] ops.take(k)) == (if ops[0] is Inc {
                1int
            } else {
                0int
            }) + count_incs(rest.take(k - 1))
            &&& count_decs(ops.take(k)) == (if ops[0] is Dec {
                1int
            } else {
                0int
            }) + count_decs(rest.take(k - 1))
        } by {
            assert(ops.take(k).len() == k);
            assert(ops.take(k)[0] == ops[0]);
            assert(ops.take(k).drop_first() =~= rest.take(k - 1));
        }
        match ops[0] {
            RefOp::Inc => {
                lemma_refs_after_balance((r + 1) as nat, rest);
                if refs_after(r, ops) is Some {
                    assert forall|k: int| 0 <= k <= ops.len() implies count_decs(
                        #[trigger] ops.take(k),
                    ) < r + count_incs(ops.take(k)) by {
                        if k >= 1 {
                            assert(count_decs(rest.take(k - 1)) < (r + 1) + count_incs(
                                rest.take(k - 1),
                            ));
                        }
                    }
                } else {
                    let k0 = choose|k: int|
                        0 <= k <= rest.len() && count_decs(#[trigger] rest.take(k)) == (r + 1)
                            + count_incs(rest.take(k));
                    assert(count_decs(ops.take(k0 + 1)) == r + count_incs(ops.take(k0 + 1)));
                }
            },
            RefOp::Dec => {
                if r <= 1 {
                    assert(count_decs(ops.take(1)) == r + count_incs(ops.take(1)));
                } else {
                    lemma_refs_after_balance((r - 1) as nat, rest);
                    if refs_after(r, ops) is Some {
                        assert forall|k: int| 0 <= k <= ops.len() implies count_decs(
                            #[trigger] ops.take(k),
                        ) < r + count_incs(ops.take(k)) by {
                            if k >= 1 {
                                assert(count_decs(rest.take(k - 1)) < (r - 1) + count_incs(
                                    rest.take(k - 1),
                                ));
                            }
                        }
                    } else {
                        let k0 = choose|k: int|
                            0 <= k <= rest.len() && count_decs(#[trigger] rest.take(k)) == (r - 1)
                                + count_incs(rest.take(k));
                        assert(count_decs(ops.take(k0 + 1)) == r + count_incs(ops.take(k0 + 1)));
                    }
                }
            },
        }
    }
}

/// Reference-count balance, on the store: for a handle live with one
/// reference (as `alloc` installs it) plus any interleaving of `inc_ref` and
/// `dec_ref` effects, the entry reaches zero and is removed exactly when the
/// releases balance the allocation plus the acquisitions; while live its
/// count is exactly `1 + incs - decs`, and its value never changes.
pub proof fn lemma_refcount_balance(m: Map<u64, EntryModel>, h: u64, ops: Seq<RefOp>)
    requires
        m.contains_key(h),
        m[h].refs == 1,
    ensures
        apply_ref_ops(m, h, ops).contains_key(h) <==> (forall|k: int|
            0 <= k <= ops.len() ==> count_decs(#[trigger] ops.take(k)) < 1 + count_incs(
                ops.take(k),
            )),
        apply_ref_ops(m, h, ops).contains_key(h) ==> apply_ref_ops(m, h, ops)[h] == (EntryModel {
            value: m[h].value,
            refs: (1 + count_incs(ops) - count_decs(ops)) as nat,
        }),
{
    lemma_ref_ops_track(m, h, ops);
    lemma_refs_after_balance(1, ops);
}

} // verus!

//! The extension registry of one context: an ordered table of host
//! extensions. A slot index is assigned at registration, is stable for the
//! context's lifetime, and is the currency of the fast-path call opcode;
//! names are resolved by linear search, which is acceptable because
//! registration is bounded and infrequent.

use vstd::prelude::*;

use crate::abi::{KayAbiResult, KayError, KayErrorCode, KayHostSlot};
use crate::api::{ExtModel, KayExtension};
use crate::text::str_eq;

verus! {

/// Distinct names: no two registered extensions share a name.
pub open spec fn distinct_names(s: Seq<ExtModel>) -> bool {
    forall|i: int, j: int|
        0 <= i < s.len() && 0 <= j < s.len() && i != j ==> #[trigger] s[i].name
            != #[trigger] s[j].name
}

/// The slot of the first extension carrying `name`, if any.
pub open spec fn lookup_index(s: Seq<ExtModel>, name: Seq<char>) -> Option<int>
    decreases s.len(),
{
    if s.len() == 0 {
        None
    } else if s[0].name == name {
        Some(0)
    } else {
        match lookup_index(s.drop_first(), name) {
            Some(i) => Some(i + 1),
            None => None,
        }
    }
}

/// What [`lookup_index`] means pointwise: it returns the least index whose
/// name matches, and `None` exactly when no name matches.
pub proof fn lemma_lookup_index(s: Seq<ExtModel>, name: Seq<char>)
    ensures
        match lookup_index(s, name) {
            Some(i) => {
                &&& 0 <= i < s.len()
                &&& s[i].name == name
                &&& forall|j: int| 0 <= j < i ==> #[trigger] s[j].name != name
            },
            None => forall|j: int| 0 <= j < s.len() ==> #[trigger] s[j].name != name,
        },
    decreases s.len(),
{
    if s.len() > 0 {
        let rest = s.drop_first();
        lemma_lookup_index(rest, name);
        if s[0].name != name {
            assert(forall|k: int| 0 <= k < rest.len() ==> #[trigger] rest[k] == s[k + 1]);
            match lookup_index(rest, name) {
                Some(i) => {
                    assert forall|j: int| 0 <= j < i + 1 implies #[trigger] s[j].name != name by {
                        if j > 0 {
                            assert(rest[j - 1].name != name);
                        }
                    }
                },
                None => {
                    assert forall|j: int| 0 <= j < s.len() implies #[trigger] s[j].name
                        != name by {
                        if j > 0 {
                            assert(rest[j - 1].name != name);
                        }
                    }
                },
            }
        }
    }
}

/// Slot stability: in a registry with distinct names, a registered name
/// resolves to exactly the slot it occupies, no matter what was registered
/// after it.
pub proof fn lemma_slot_stable(s: Seq<ExtModel>, i: int)
    requires
        distinct_names(s),
        0 <= i < s.len(),
    ensures
        lookup_index(s, s[i].name) == Some(i),
{
    lemma_lookup_index(s, s[i].name);
    match lookup_index(s, s[i].name) {
        Some(k) => {
            if k != i {
                assert(s[k].name == s[i].name);
            }
        },
        None => {
            assert(s[i].name == s[i].name);
        },
    }
}

/// The ordered extension table of one context.
pub struct Registry<E> {
    exts: Vec<KayExtension<E>>,
}

impl<E> View for Registry<E> {
    type V = Seq<ExtModel>;

    closed spec fn view(&self) -> Seq<ExtModel> {
        self.exts@.map_values(|e: KayExtension<E>| e@)
    }
}

impl<E> Registry<E> {
    /// Well-formedness: names are distinct and the table fits the 32-bit
    /// slot space.
    pub closed spec fn wf(&self) -> bool {
        &&& distinct_names(self@)
        &&& self@.len() <= u32::MAX
    }

    pub fn new() -> (r: Self)
        ensures
            r.wf(),
            r@ == Seq::<ExtModel>::empty(),
    {
        let r = Registry { exts: Vec::new() };
        proof {
            assert(r@ =~= Seq::<ExtModel>::empty());
        }
        r
    }

    /// Registers an extension: rejects a duplicate name with
    /// `AlreadyExists`, otherwise appends it and returns the next slot
    /// index. Fails `GeneralFailure` only when the slot space is exhausted.
    pub fn register(&mut self, ext: KayExtension<E>) -> (r: KayAbiResult<KayHostSlot>)
        requires
            old(self).wf(),
        ensures
            final(self).wf(),
            r is Ok <==> (lookup_index(old(self)@, ext@.name) is None && old(self)@.len()
                < u32::MAX),
            match r {
                Ok(slot) => {
                    &&& slot == old(self)@.len()
                    &&& final(self)@ == old(self)@.push(ext@)
                },
                Err(e) => {
                    &&& final(self)@ == old(self)@
                    &&& lookup_index(old(self)@, ext@.name) is Some ==> e.code
                        == KayErrorCode::AlreadyExists
                    &&& lookup_index(old(self)@, ext@.name) is None ==> e.code
                        == KayErrorCode::GeneralFailure
                },
            },
    {
        let n = self.exts.len();
        let mut i: usize = 0;
        while i < n
            invariant
                old(self).wf(),
                *self == *old(self),
                i <= n,
                n == self.exts@.len(),
                self@.len() == self.exts@.len(),
                forall|j: int| 0 <= j < i ==> #[trigger] self@[j].name != ext@.name,
                forall|j: int|
                    0 <= j < self.exts@.len() ==> #[trigger] self@[j] == self.exts@[j]@,
            decreases n - i,
        {
            if str_eq(self.exts[i].name.as_str(), ext.name.as_str()) {
                proof {
                    lemma_lookup_index(self@, ext@.name);
                    assert(self@[i as int].name == ext@.name);
                    assert(lookup_index(self@, ext@.name) is Some);
                }
                return Err(KayError::new(KayErrorCode::AlreadyExists, Some(ext.name)));
            }
            i = i + 1;
        }
        proof {
            lemma_lookup_index(self@, ext@.name);
        }
        if n >= u32::MAX as usize {
            return Err(KayError::new(
                KayErrorCode::GeneralFailure,
                Some(String::from_str("extension slots exhausted")),
            ));
        }
        let slot: u32 = n as u32;
        self.exts.push(ext);
        proof {
            assert(self@ =~= old(self)@.push(ext@));
            assert forall|a: int, b: int|
                0 <= a < self@.len() && 0 <= b < self@.len() && a != b implies #[trigger] self@[a].name != #[trigger] self@[b].name by {
                if a < old(self)@.len() {
                    assert(self@[a] == old(self)@[a]);
                } else {
                    assert(self@[a] == ext@);
                }
                if b < old(self)@.len() {
                    assert(self@[b] == old(self)@[b]);
                } else {
                    assert(self@[b] == ext@);
                }
            }
        }
        Ok(slot)
    }

    /// Resolves a slot index; fails `NotFound` when it is out of range.
    pub fn lookup_by_slot(&self, slot: KayHostSlot) -> (r: KayAbiResult<&KayExtension<E>>)
        ensures
            r is Ok <==> (slot as int) < self@.len(),
            match r {
                Ok(ext) => ext@ == self@[slot as int],
                Err(e) => e.code == KayErrorCode::NotFound,
            },
    {
        if (slot as usize) < self.exts.len() {
            Ok(&self.exts[slot as usize])
        } else {
            Err(KayError::new(
                KayErrorCode::NotFound,
                Some(String::from_str("extension slot not found")),
            ))
        }
    }

    /// Resolves a name to its slot and descriptor; fails `NotFound` when no
    /// extension carries the name.
    pub fn lookup_by_name(&self, name: &str) -> (r: KayAbiResult<(KayHostSlot, &KayExtension<E>)>)
        requires
            self.wf(),
        ensures
            r is Ok <==> lookup_index(self@, name@) is Some,
            match r {
                Ok((slot, ext)) => {
                    &&& lookup_index(self@, name@) == Some(slot as int)
                    &&& ext@ == self@[slot as int]
                },
                Err(e) => e.code == KayErrorCode::NotFound,
            },
    {
        let n = self.exts.len();
        let mut i: usize = 0;
        while i < n
            invariant
                self.wf(),
                i <= n,
                n == self.exts@.len(),
                self@.len() == self.exts@.len(),
                forall|j: int| 0 <= j < i ==> #[trigger] self@[j].name != name@,
                forall|j: int|
                    0 <= j < self.exts@.len() ==> #[trigger] self@[j] == self.exts@[j]@,
            decreases n - i,
        {
            if str_eq(self.exts[i].name.as_str(), name) {
                proof {
                    lemma_lookup_index(self@, name@);
                    match lookup_index(self@, name@) {
                        Some(k) => {
                            if k < i {
                                assert(self@[k].name != name@);
                            }
                            if k > i {
                                assert(self@[i as int].name != name@);
                            }
                        },
                        None => {
                            assert(self@[i as int].name == name@);
                        },
                    }
                }
                return Ok((i as u32, &self.exts[i]));
            }
            i = i + 1;
        }
        proof {
            lemma_lookup_index(self@, name@);
        }
        Err(KayError::new(
            KayErrorCode::NotFound,
            Some(String::from_str("extension not found")),
        ))
    }

    /// How many extensions are registered.
    pub fn slot_count(&self) -> (r: usize)
        ensures
            r == self@.len(),
    {
        self.exts.len()
    }
}

} // verus!

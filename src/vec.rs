//! A growable sequence of accessors, with its length at one slot and its elements packed from
//! a slot derived by hashing.
use crate::accessors::{SizedStorageType, StorageType};
use crate::bytes::{
    be_nat, decode_be, encode_be, lemma_be_nat_concat, lemma_be_nat_zeros,
    lemma_pow256_u64, pow256, Slot, Word,
};
use crate::cache::{wrote, Access, StorageCache, StorageWord};
use crate::guard::{StorageGuard, StorageGuardMut};
use crate::slots::{keccak, keccak_of, slot_add};
use std::marker::PhantomData;
use vstd::prelude::*;

verus! {

/// The length held by the word cached at `slot`.
pub open spec fn vec_len(m: Map<Slot, StorageWord>, slot: Slot) -> nat {
    be_nat(m[slot].value@)
}

/// Whether the length word at `slot`, where cached, fits in a `usize`.
pub open spec fn len_fits(m: Map<Slot, StorageWord>, slot: Slot) -> bool {
    m.contains_key(slot) ==> vec_len(m, slot) <= usize::MAX
}

/// `new` is `old` with the length word at `slot` overwritten to hold `len`.
pub open spec fn len_set(old: Map<Slot, StorageWord>, new: Map<Slot, StorageWord>, slot: Slot, len: nat) -> bool {
    &&& new == old.insert(slot, new[slot])
    &&& new[slot].known == None::<Word>
    &&& be_nat(new[slot].value@) == len
}

/// How many elements of `size` bytes share one word.
pub open spec fn density(size: nat) -> nat {
    32nat / size
}

/// The slot, as an integer, of the word holding element `index` of the sequence at `slot`.
pub open spec fn element_slot(slot: Slot, index: nat, size: nat) -> nat {
    (be_nat(keccak_of(slot@)) + index / density(size)) % pow256(32)
}

/// The byte offset of element `index` in its word.
pub open spec fn element_offset(index: nat, size: nat) -> nat {
    (index % density(size)) * size
}

/// Each element lies within its word.
pub proof fn lemma_element_fits(index: nat, size: nat)
    requires
        1 <= size <= 32,
    ensures
        element_offset(index, size) + size <= 32,
{
    let d = density(size);
    assert(1 <= d && d * size <= 32) by (nonlinear_arith)
        requires
            d == 32nat / size,
            1 <= size <= 32,
    ;
    let k = index % d;
    assert(k < d) by (nonlinear_arith)
        requires
            k == index % d,
            d >= 1,
    ;
    assert(k * size + size <= 32) by (nonlinear_arith)
        requires
            k < d,
            d * size <= 32,
    ;
}

/// Whether `e` is the accessor of element `index` of the sequence at `slot`.
pub open spec fn is_element<S: StorageType>(e: S, slot: Slot, index: nat) -> bool {
    &&& be_nat(e.spec_slot()@) == element_slot(slot, index, S::spec_size())
    &&& e.spec_offset() == element_offset(index, S::spec_size())
}

/// Whether the element type's size lets elements be packed into words.
pub open spec fn size_ok<S: StorageType>() -> bool {
    1 <= S::spec_size() <= 32
}

/// Accessor for a storage-backed sequence of `S`. Where its elements start, the hash of its
/// slot, is computed once, when the handle is made.
pub struct StorageVec<S: StorageType> {
    slot: Slot,
    base: Slot,
    marker: PhantomData<S>,
}

impl<S: StorageType> StorageType for StorageVec<S> {
    open spec fn spec_size() -> nat {
        32
    }

    closed spec fn spec_slot(&self) -> Slot {
        self.slot
    }

    closed spec fn spec_offset(&self) -> nat {
        0
    }

    fn size() -> (r: u8) {
        32
    }

    fn new(slot: Slot, offset: u8) -> (r: Self) {
        let base = keccak(&slot);
        StorageVec { slot, base, marker: PhantomData }
    }
}

proof fn lemma_len_word(w: Seq<u8>)
    requires
        w.len() == 32,
        be_nat(w) <= usize::MAX,
    ensures
        be_nat(w) == be_nat(w.subrange(24, 32)),
{
    assert(w =~= w.subrange(0, 24) + w.subrange(24, 32));
    lemma_be_nat_concat(w.subrange(0, 24), w.subrange(24, 32));
    lemma_pow256_u64();
    let hi = be_nat(w.subrange(0, 24));
    assert(hi == 0) by (nonlinear_arith)
        requires
            hi * 0x1_0000_0000_0000_0000 + be_nat(w.subrange(24, 32)) <= usize::MAX,
            usize::MAX < 0x1_0000_0000_0000_0000,
    ;
}

impl<S: StorageType> StorageVec<S> {
    #[verifier::type_invariant]
    spec fn base_known(self) -> bool {
        self.base@ == keccak_of(self.slot@)
    }

    /// Whether the sequence has no elements.
    pub fn is_empty(&self, cache: &StorageCache) -> (r: Access<bool>)
        requires
            len_fits(cache@, self.spec_slot()),
        ensures
            cache@.contains_key(self.spec_slot()) ==> r == Access::Done(vec_len(cache@, self.spec_slot()) == 0),
            !cache@.contains_key(self.spec_slot()) ==> r == Access::<bool>::Load(self.spec_slot()),
    {
        match self.len(cache) {
            Access::Done(n) => Access::Done(n == 0),
            Access::Load(k) => Access::Load(k),
        }
    }

    /// The number of elements, held as a plain word at the sequence's slot.
    pub fn len(&self, cache: &StorageCache) -> (r: Access<usize>)
        requires
            len_fits(cache@, self.spec_slot()),
        ensures
            cache@.contains_key(self.spec_slot()) ==> r == Access::Done(vec_len(cache@, self.spec_slot()) as usize),
            !cache@.contains_key(self.spec_slot()) ==> r == Access::<usize>::Load(self.spec_slot()),
    {
        proof {
            if cache@.contains_key(self.slot) {
                lemma_len_word(cache@[self.slot].value@);
            }
        }
        match cache.get(self.slot, 24, 8) {
            Access::Done(b) => Access::Done(decode_be(b.as_slice()) as usize),
            Access::Load(k) => Access::Load(k),
        }
    }

    /// Overwrites the length. Elements past a shorter length keep their bytes, and a longer
    /// length exposes whatever the words beyond hold.
    pub fn set_len(&mut self, cache: &mut StorageCache, len: usize)
        ensures
            final(self).spec_slot() == old(self).spec_slot(),
            len_set(old(cache)@, final(cache)@, old(self).spec_slot(), len as nat),
    {
        proof {
            lemma_pow256_u64();
        }
        let low = encode_be(len as u128, 8);
        let mut w: Word = [0u8; 32];
        let mut i: usize = 0;
        while i < 8
            invariant
                i <= 8,
                low@.len() == 8,
                forall|j: int| 0 <= j < 24 ==> w@[j] == 0u8,
                forall|j: int| 24 <= j < 24 + i ==> w@[j] == low@[j - 24],
            decreases 8 - i,
        {
            w[24 + i] = low[i];
            i = i + 1;
        }
        proof {
            assert(w@ =~= Seq::new(24, |j: int| 0u8) + low@);
            lemma_be_nat_concat(Seq::new(24, |j: int| 0u8), low@);
            lemma_be_nat_zeros(24);
        }
        cache.set_word(self.slot, w);
        proof {
            assert(final(cache)@ =~= old(cache)@.insert(self.slot, final(cache)@[self.slot]));
        }
    }

    /// Where elements start: the hash of the sequence's slot, computed when the handle was made.
    fn base(&self) -> (r: Slot)
        ensures
            r@ == keccak_of(self.spec_slot()@),
    {
        proof {
            use_type_invariant(self);
        }
        self.base
    }

    /// The accessor of element `index`.
    fn element(&self, index: usize) -> (r: S)
        requires
            size_ok::<S>(),
        ensures
            is_element(r, self.spec_slot(), index as nat),
    {
        let width: usize = S::size() as usize;
        let density: usize = 32 / width;
        let base = self.base();
        proof {
            assert(1 <= density <= 32 && density * width <= 32) by (nonlinear_arith)
                requires
                    density == 32usize / width,
                    1 <= width <= 32,
            ;
        }
        let word = slot_add(&base, index / density);
        let k: usize = index % density;
        proof {
            assert(k * width + width <= 32) by (nonlinear_arith)
                requires
                    k < density,
                    density * width <= 32,
            ;
        }
        let offset: usize = k * width;
        S::new(word, offset as u8)
    }

    /// The accessor of element `index`, unguarded, if `index` is below the length. Nothing
    /// stops two such accessors to the same element from both being used to write.
    pub fn get_raw(&self, cache: &StorageCache, index: usize) -> (r: Access<Option<S>>)
        requires
            size_ok::<S>(),
            len_fits(cache@, self.spec_slot()),
        ensures
            !cache@.contains_key(self.spec_slot()) ==> r == Access::<Option<S>>::Load(self.spec_slot()),
            cache@.contains_key(self.spec_slot()) && index < vec_len(cache@, self.spec_slot()) ==> (
                r matches Access::Done(Some(e)) && is_element(e, self.spec_slot(), index as nat)),
            cache@.contains_key(self.spec_slot()) && index >= vec_len(cache@, self.spec_slot()) ==> r
                == Access::Done(None::<S>),
    {
        match self.len(cache) {
            Access::Load(k) => Access::Load(k),
            Access::Done(n) => {
                if index < n {
                    Access::Done(Some(self.element(index)))
                } else {
                    Access::Done(None)
                }
            },
        }
    }

    /// A shared handle on element `index`, if `index` is below the length.
    pub fn get(&self, cache: &StorageCache, index: usize) -> (r: Access<Option<StorageGuard<S>>>)
        requires
            size_ok::<S>(),
            len_fits(cache@, self.spec_slot()),
        ensures
            !cache@.contains_key(self.spec_slot()) ==> r == Access::<Option<StorageGuard<S>>>::Load(self.spec_slot()),
            cache@.contains_key(self.spec_slot()) && index < vec_len(cache@, self.spec_slot()) ==> (
                r matches Access::Done(Some(g)) && is_element(g.spec_inner(), self.spec_slot(), index as nat)),
            cache@.contains_key(self.spec_slot()) && index >= vec_len(cache@, self.spec_slot()) ==> r
                == Access::Done(None::<StorageGuard<S>>),
    {
        match self.get_raw(cache, index) {
            Access::Load(k) => Access::Load(k),
            Access::Done(Some(e)) => Access::Done(Some(StorageGuard::new(e))),
            Access::Done(None) => Access::Done(None),
        }
    }

    /// A mutable handle on element `index`, if `index` is below the length.
    pub fn get_mut(&mut self, cache: &StorageCache, index: usize) -> (r: Access<Option<StorageGuardMut<S>>>)
        requires
            size_ok::<S>(),
            len_fits(cache@, old(self).spec_slot()),
        ensures
            final(self).spec_slot() == old(self).spec_slot(),
            !cache@.contains_key(old(self).spec_slot()) ==> r == Access::<Option<StorageGuardMut<S>>>::Load(old(self).spec_slot()),
            cache@.contains_key(old(self).spec_slot()) && index < vec_len(cache@, old(self).spec_slot()) ==> (
                r matches Access::Done(Some(g)) && is_element(g.spec_inner(), old(self).spec_slot(), index as nat)),
            cache@.contains_key(old(self).spec_slot()) && index >= vec_len(cache@, old(self).spec_slot()) ==> r
                == Access::Done(None::<StorageGuardMut<S>>),
    {
        match self.get_raw(cache, index) {
            Access::Load(k) => Access::Load(k),
            Access::Done(Some(e)) => Access::Done(Some(StorageGuardMut::new(e))),
            Access::Done(None) => Access::Done(None),
        }
    }

    /// A shared handle on element `index`, if `index` is below the length; the same as `get`.
    pub fn getter(&self, cache: &StorageCache, index: usize) -> (r: Access<Option<StorageGuard<S>>>)
        requires
            size_ok::<S>(),
            len_fits(cache@, self.spec_slot()),
        ensures
            !cache@.contains_key(self.spec_slot()) ==> r == Access::<Option<StorageGuard<S>>>::Load(self.spec_slot()),
            cache@.contains_key(self.spec_slot()) && index < vec_len(cache@, self.spec_slot()) ==> (
                r matches Access::Done(Some(g)) && is_element(g.spec_inner(), self.spec_slot(), index as nat)),
            cache@.contains_key(self.spec_slot()) && index >= vec_len(cache@, self.spec_slot()) ==> r
                == Access::Done(None::<StorageGuard<S>>),
    {
        self.get(cache, index)
    }

    /// A mutable handle on element `index`, if `index` is below the length; the same as
    /// `get_mut`.
    pub fn setter(&mut self, cache: &StorageCache, index: usize) -> (r: Access<Option<StorageGuardMut<S>>>)
        requires
            size_ok::<S>(),
            len_fits(cache@, old(self).spec_slot()),
        ensures
            final(self).spec_slot() == old(self).spec_slot(),
            !cache@.contains_key(old(self).spec_slot()) ==> r == Access::<Option<StorageGuardMut<S>>>::Load(old(self).spec_slot()),
            cache@.contains_key(old(self).spec_slot()) && index < vec_len(cache@, old(self).spec_slot()) ==> (
                r matches Access::Done(Some(g)) && is_element(g.spec_inner(), old(self).spec_slot(), index as nat)),
            cache@.contains_key(old(self).spec_slot()) && index >= vec_len(cache@, old(self).spec_slot()) ==> r
                == Access::Done(None::<StorageGuardMut<S>>),
    {
        self.get_mut(cache, index)
    }

    /// Grows the sequence by one and hands out a mutable handle on the new element, so that
    /// it can be built in place.
    pub fn open(&mut self, cache: &mut StorageCache) -> (r: Access<StorageGuardMut<S>>)
        requires
            size_ok::<S>(),
            len_fits(old(cache)@, old(self).spec_slot()),
            old(cache)@.contains_key(old(self).spec_slot()) ==> vec_len(old(cache)@, old(self).spec_slot()) < usize::MAX,
        ensures
            final(self).spec_slot() == old(self).spec_slot(),
            !old(cache)@.contains_key(old(self).spec_slot()) ==> r == Access::<StorageGuardMut<S>>::Load(old(self).spec_slot())
                && final(cache)@ == old(cache)@,
            old(cache)@.contains_key(old(self).spec_slot()) ==> (r matches Access::Done(g)
                && is_element(g.spec_inner(), old(self).spec_slot(), vec_len(old(cache)@, old(self).spec_slot()))
                && len_set(old(cache)@, final(cache)@, old(self).spec_slot(), vec_len(old(cache)@, old(self).spec_slot()) + 1)),
    {
        match self.len(cache) {
            Access::Load(k) => Access::Load(k),
            Access::Done(n) => {
                self.set_len(cache, n + 1);
                Access::Done(StorageGuardMut::new(self.element(n)))
            },
        }
    }

    /// Removes the last element and hands out its accessor; its bytes stay in storage.
    pub fn pop(&mut self, cache: &mut StorageCache) -> (r: Access<Option<S>>)
        requires
            size_ok::<S>(),
            len_fits(old(cache)@, old(self).spec_slot()),
        ensures
            final(self).spec_slot() == old(self).spec_slot(),
            !old(cache)@.contains_key(old(self).spec_slot()) ==> r == Access::<Option<S>>::Load(old(self).spec_slot())
                && final(cache)@ == old(cache)@,
            old(cache)@.contains_key(old(self).spec_slot()) && vec_len(old(cache)@, old(self).spec_slot()) == 0 ==> r
                == Access::Done(None::<S>) && final(cache)@ == old(cache)@,
            old(cache)@.contains_key(old(self).spec_slot()) && vec_len(old(cache)@, old(self).spec_slot()) > 0 ==> (
                r matches Access::Done(Some(e))
                && is_element(e, old(self).spec_slot(), (vec_len(old(cache)@, old(self).spec_slot()) - 1) as nat)
                && len_set(old(cache)@, final(cache)@, old(self).spec_slot(), (vec_len(old(cache)@, old(self).spec_slot()) - 1) as nat)),
    {
        match self.len(cache) {
            Access::Load(k) => Access::Load(k),
            Access::Done(n) => {
                if n == 0 {
                    Access::Done(None)
                } else {
                    let e = self.element(n - 1);
                    self.set_len(cache, n - 1);
                    Access::Done(Some(e))
                }
            },
        }
    }

    /// Shortens the sequence to `len` elements; does nothing if it is not longer. The removed
    /// elements keep their bytes.
    pub fn truncate(&mut self, cache: &mut StorageCache, len: usize) -> (r: Access<()>)
        requires
            len_fits(old(cache)@, old(self).spec_slot()),
        ensures
            final(self).spec_slot() == old(self).spec_slot(),
            !old(cache)@.contains_key(old(self).spec_slot()) ==> r == Access::<()>::Load(old(self).spec_slot())
                && final(cache)@ == old(cache)@,
            old(cache)@.contains_key(old(self).spec_slot()) && len < vec_len(old(cache)@, old(self).spec_slot()) ==> r
                == Access::Done(()) && len_set(old(cache)@, final(cache)@, old(self).spec_slot(), len as nat),
            old(cache)@.contains_key(old(self).spec_slot()) && len >= vec_len(old(cache)@, old(self).spec_slot()) ==> r
                == Access::Done(()) && final(cache)@ == old(cache)@,
    {
        match self.len(cache) {
            Access::Load(k) => Access::Load(k),
            Access::Done(n) => {
                if len < n {
                    self.set_len(cache, len);
                }
                Access::Done(())
            },
        }
    }
}

impl<S: SizedStorageType> StorageVec<S> {
    /// Appends `value`: writes it in the element past the end, then grows the length by one.
    pub fn push(&mut self, cache: &mut StorageCache, value: S::Value) -> (r: Access<()>)
        requires
            size_ok::<S>(),
            S::storable(value),
            len_fits(old(cache)@, old(self).spec_slot()),
            old(cache)@.contains_key(old(self).spec_slot()) ==> vec_len(old(cache)@, old(self).spec_slot()) < usize::MAX,
        ensures
            final(self).spec_slot() == old(self).spec_slot(),
            !old(cache)@.contains_key(old(self).spec_slot()) ==> r == Access::<()>::Load(old(self).spec_slot())
                && final(cache)@ == old(cache)@,
            old(cache)@.contains_key(old(self).spec_slot()) ==> exists|e: S| #![trigger is_element(e, old(self).spec_slot(), vec_len(old(cache)@, old(self).spec_slot()))]
                is_element(e, old(self).spec_slot(), vec_len(old(cache)@, old(self).spec_slot())) && (
                S::spec_size() == 32 || old(cache)@.contains_key(e.spec_slot()) ==> (r == Access::Done(())
                    && exists|mid: Map<Slot, StorageWord>, b: Seq<u8>| b.len() == S::spec_size() && S::encodes(b, value)
                    && #[trigger] wrote(old(cache)@, mid, e.spec_slot(), e.spec_offset() as int, b)
                    && len_set(mid, final(cache)@, old(self).spec_slot(), vec_len(old(cache)@, old(self).spec_slot()) + 1)))
                && (S::spec_size() < 32 && !old(cache)@.contains_key(e.spec_slot()) ==> r == Access::<()>::Load(e.spec_slot())
                    && final(cache)@ == old(cache)@),
    {
        match self.len(cache) {
            Access::Load(k) => Access::Load(k),
            Access::Done(n) => {
                let ghost before = cache@;
                let mut e = self.element(n);
                let ghost e0 = e;
                proof {
                    lemma_element_fits(n as nat, S::spec_size());
                }
                match e.set_exact(cache, value) {
                    Access::Load(k) => Access::Load(k),
                    Access::Done(()) => {
                        let ghost mid = cache@;
                        self.set_len(cache, n + 1);
                        proof {
                            assert(is_element(e0, self.spec_slot(), n as nat));
                        }
                        Access::Done(())
                    },
                }
            },
        }
    }
}

} // verus!

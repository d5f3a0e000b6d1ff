//! The write-back cache that stands between typed accessors and the host's store.
use crate::bytes::{
    be_nat, lemma_be_nat_concat, lemma_be_nat_zeros, lemma_low_bytes, lemma_sign_extend,
    lemma_sign_truncate, pow256, raw_of, signed_of, splice, widen, Slot, Word,
};
use fnv::FnvHashMap;
use vstd::prelude::*;

verus! {

/// The cached state of one slot.
#[derive(Clone, Copy, Debug)]
pub struct StorageWord {
    /// The current value of the slot.
    pub value: Word,
    /// The value in the host's store, if known.
    pub known: Option<Word>,
}

impl StorageWord {
    /// Whether the word must be written back: its value is not known to be the stored one.
    pub open spec fn is_dirty(self) -> bool {
        match self.known {
            Some(k) => k@ != self.value@,
            None => true,
        }
    }

    /// An entry for a word just read from the host.
    pub fn new_known(known: Word) -> (r: StorageWord)
        ensures
            r == (StorageWord { value: known, known: Some(known) }),
    {
        StorageWord { value: known, known: Some(known) }
    }

    /// An entry for a word whose stored value is not known.
    pub fn new_unknown(value: Word) -> (r: StorageWord)
        ensures
            r == (StorageWord { value, known: None }),
    {
        StorageWord { value, known: None }
    }

    /// Whether the word must be written back.
    pub fn dirty(&self) -> (r: bool)
        ensures
            r == self.is_dirty(),
    {
        match &self.known {
            Some(k) => !words_equal(k, &self.value),
            None => true,
        }
    }
}

fn words_equal(a: &Word, b: &Word) -> (r: bool)
    ensures
        r == (a@ == b@),
{
    let mut i: usize = 0;
    while i < 32
        invariant
            i <= 32,
            forall|j: int| 0 <= j < i ==> a@[j] == b@[j],
        decreases 32 - i,
    {
        if a[i] != b[i] {
            return false;
        }
        i = i + 1;
    }
    assert(a@ =~= b@);
    true
}

/// The slot-to-word table of a cache, held in an FNV-hashed map.
#[verifier::external_body]
pub struct WordMap {
    map: FnvHashMap<Slot, StorageWord>,
}

/// What a `WordMap` holds.
pub uninterp spec fn word_map_contents(m: WordMap) -> Map<Slot, StorageWord>;

impl WordMap {
    /// Relies on `FnvHashMap::default`: a map with no entries.
    #[verifier::external_body]
    fn new() -> (r: WordMap)
        ensures
            word_map_contents(r).dom() == Set::<Slot>::empty(),
    {
        WordMap { map: FnvHashMap::default() }
    }

    /// Relies on `HashMap::get`: the entry of `key`, if there is one.
    #[verifier::external_body]
    fn get(&self, key: &Slot) -> (r: Option<StorageWord>)
        ensures
            r == (if word_map_contents(*self).contains_key(*key) {
                Some(word_map_contents(*self)[*key])
            } else {
                None
            }),
    {
        self.map.get(key).copied()
    }

    /// Relies on `HashMap::insert`: `key` maps to `w` afterwards, other keys are unchanged.
    #[verifier::external_body]
    fn insert(&mut self, key: Slot, w: StorageWord)
        ensures
            word_map_contents(*final(self)) == word_map_contents(*old(self)).insert(key, w),
    {
        self.map.insert(key, w);
    }

    /// Relies on `HashMap::clear`: no entries are left.
    #[verifier::external_body]
    fn clear(&mut self)
        ensures
            word_map_contents(*final(self)).dom() == Set::<Slot>::empty(),
    {
        self.map.clear();
    }

    /// Relies on `HashMap::iter`: each entry once, in some order.
    #[verifier::external_body]
    fn entries(&self) -> (r: Vec<(Slot, StorageWord)>)
        ensures
            forall|i: int|
                0 <= i < r@.len() ==> word_map_contents(*self).contains_key(#[trigger] r@[i].0)
                    && word_map_contents(*self)[r@[i].0] == r@[i].1,
            forall|i: int, j: int|
                0 <= i < j < r@.len() ==> #[trigger] r@[i].0 != #[trigger] r@[j].0,
            forall|k: Slot|
                #[trigger] word_map_contents(*self).contains_key(k) ==> exists|i: int|
                    0 <= i < r@.len() && #[trigger] r@[i].0 == k,
    {
        self.map.iter().map(|(k, w)| (*k, *w)).collect()
    }
}

/// The outcome of a cache operation: done, or waiting for the host's word at a slot.
///
/// An operation that returns `Load(slot)` has changed nothing. Once the host's word is handed
/// to `StorageCache::record_load`, the operation can be made again and no longer waits.
pub enum Access<T> {
    Done(T),
    Load(Slot),
}

/// The write-back cache of one execution context.
pub struct StorageCache {
    words: WordMap,
}

/// What a read of the word at `key` gives on a cache holding `m`.
pub open spec fn word_access(m: Map<Slot, StorageWord>, key: Slot) -> Access<Word> {
    if m.contains_key(key) {
        Access::Done(m[key].value)
    } else {
        Access::Load(key)
    }
}

/// `m` after the host's word `w` at `key` was read: a clean entry, unless `key` was cached.
pub open spec fn loaded(m: Map<Slot, StorageWord>, key: Slot, w: Word) -> Map<Slot, StorageWord> {
    if m.contains_key(key) {
        m
    } else {
        m.insert(key, StorageWord { value: w, known: Some(w) })
    }
}

/// `new` is `old` after `bytes` were written at `offset` of the word at `key`.
///
/// A whole-word write replaces the entry and forgets the stored value; a shorter write
/// changes the addressed bytes of a cached entry and keeps the rest.
pub open spec fn wrote(
    old: Map<Slot, StorageWord>,
    new: Map<Slot, StorageWord>,
    key: Slot,
    offset: int,
    bytes: Seq<u8>,
) -> bool {
    &&& new.dom() == old.dom().insert(key)
    &&& forall|k: Slot| k != key && old.contains_key(k) ==> new[k] == old[k]
    &&& if bytes.len() == 32 {
        new[key].value@ == bytes && new[key].known == None::<Word>
    } else {
        new[key].value@ == splice(old[key].value@, offset, bytes) && new[key].known
            == old[key].known
    }
}

/// The bytes `[offset, offset + n)` of the word cached at `key`.
pub open spec fn read_bytes(m: Map<Slot, StorageWord>, key: Slot, offset: int, n: int) -> Seq<u8> {
    m[key].value@.subrange(offset, offset + n)
}

/// `writes` lists each dirty entry of `m` once, as the slot and the word to store there.
pub open spec fn flush_writes(m: Map<Slot, StorageWord>, writes: Seq<(Slot, Word)>) -> bool {
    &&& forall|i: int|
        0 <= i < writes.len() ==> m.contains_key(#[trigger] writes[i].0) && m[writes[i].0].is_dirty()
            && m[writes[i].0].value == writes[i].1
    &&& forall|i: int, j: int|
        0 <= i < j < writes.len() ==> #[trigger] writes[i].0 != #[trigger] writes[j].0
    &&& forall|k: Slot|
        #[trigger] m.contains_key(k) && m[k].is_dirty() ==> exists|i: int|
            0 <= i < writes.len() && #[trigger] writes[i].0 == k
}

/// `new` is `old` with every entry recorded as clean: its value is the one the store holds.
pub open spec fn recorded(old: Map<Slot, StorageWord>, new: Map<Slot, StorageWord>) -> bool {
    &&& new.dom() == old.dom()
    &&& forall|k: Slot|
        #[trigger] old.contains_key(k) ==> new[k] == (StorageWord {
            value: old[k].value,
            known: Some(old[k].value),
        })
}

impl View for StorageCache {
    type V = Map<Slot, StorageWord>;

    closed spec fn view(&self) -> Map<Slot, StorageWord> {
        word_map_contents(self.words)
    }
}

impl StorageCache {
    /// An empty cache.
    pub fn new() -> (r: StorageCache)
        ensures
            r@ == Map::<Slot, StorageWord>::empty(),
    {
        StorageCache { words: WordMap::new() }
    }

    /// Whether the word at `key` is cached.
    pub fn is_cached(&self, key: &Slot) -> (r: bool)
        ensures
            r == self@.contains_key(*key),
    {
        self.words.get(key).is_some()
    }

    /// Takes in the word `w` that the host holds at `key`. A slot that is cached already keeps
    /// its entry: the cache is the only authority for the slots it holds.
    pub fn record_load(&mut self, key: Slot, w: Word)
        ensures
            final(self)@ == loaded(old(self)@, key, w),
    {
        if self.words.get(&key).is_none() {
            self.words.insert(key, StorageWord::new_known(w));
        }
    }

    /// Reads the 32-byte word at `key`.
    pub fn get_word(&self, key: Slot) -> (r: Access<Word>)
        ensures
            r == word_access(self@, key),
    {
        match self.words.get(&key) {
            Some(w) => Access::Done(w.value),
            None => Access::Load(key),
        }
    }

    /// Reads the `n` bytes at `offset` of the word at `key`, most significant first.
    pub fn get(&self, key: Slot, offset: usize, n: usize) -> (r: Access<Vec<u8>>)
        requires
            offset + n <= 32,
        ensures
            self@.contains_key(key) ==> (r matches Access::Done(v) && v@ == read_bytes(
                self@,
                key,
                offset as int,
                n as int,
            )),
            !self@.contains_key(key) ==> r == Access::<Vec<u8>>::Load(key),
    {
        match self.words.get(&key) {
            None => Access::Load(key),
            Some(w) => {
                let mut out: Vec<u8> = Vec::new();
                let mut i: usize = 0;
                while i < n
                    invariant
                        i <= n,
                        offset + n <= 32,
                        out@ == w.value@.subrange(offset as int, offset + i),
                    decreases n - i,
                {
                    out.push(w.value[offset + i]);
                    i = i + 1;
                    assert(out@ =~= w.value@.subrange(offset as int, offset + i));
                }
                Access::Done(out)
            },
        }
    }

    /// Reads the byte at `offset` of the word at `key`.
    pub fn get_byte(&self, key: Slot, offset: usize) -> (r: Access<u8>)
        requires
            offset < 32,
        ensures
            self@.contains_key(key) ==> r == Access::Done(self@[key].value@[offset as int]),
            !self@.contains_key(key) ==> r == Access::<u8>::Load(key),
    {
        match self.words.get(&key) {
            Some(w) => Access::Done(w.value[offset]),
            None => Access::Load(key),
        }
    }

    /// Reads the unsigned integer held in the `width` bytes at `offset` of the word at `key`,
    /// as a 32-byte big-endian word.
    pub fn get_uint(&self, key: Slot, offset: usize, width: usize) -> (r: Access<Word>)
        requires
            offset + width <= 32,
        ensures
            self@.contains_key(key) ==> (r matches Access::Done(v) && be_nat(v@) == be_nat(
                read_bytes(self@, key, offset as int, width as int),
            )),
            !self@.contains_key(key) ==> r == Access::<Word>::Load(key),
    {
        match self.get(key, offset, width) {
            Access::Done(b) => {
                let v = widen(b.as_slice(), 0);
                proof {
                    let z = Seq::new((32 - width) as nat, |i: int| 0u8);
                    assert(v@ =~= z + b@);
                    lemma_be_nat_concat(z, b@);
                    lemma_be_nat_zeros((32 - width) as nat);
                    assert(0 * pow256(b@.len()) == 0);
                }
                Access::Done(v)
            },
            Access::Load(k) => Access::Load(k),
        }
    }

    /// Reads the two's-complement integer held in the `width` bytes at `offset` of the word
    /// at `key`, sign-extended to a 32-byte word.
    pub fn get_signed(&self, key: Slot, offset: usize, width: usize) -> (r: Access<Word>)
        requires
            1 <= width,
            offset + width <= 32,
        ensures
            self@.contains_key(key) ==> (r matches Access::Done(v) && signed_of(be_nat(v@), 32)
                == signed_of(be_nat(read_bytes(self@, key, offset as int, width as int)), width as nat)),
            !self@.contains_key(key) ==> r == Access::<Word>::Load(key),
    {
        match self.get(key, offset, width) {
            Access::Done(b) => {
                let fill: u8 = if b[0] >= 128 {
                    0xff
                } else {
                    0
                };
                proof {
                    lemma_sign_extend(b@);
                }
                Access::Done(widen(b.as_slice(), fill))
            },
            Access::Load(k) => Access::Load(k),
        }
    }

    /// Overwrites the whole word at `key`. Its stored value is taken as unknown, so the word
    /// is written back on the next flush.
    pub fn set_word(&mut self, key: Slot, value: Word)
        ensures
            final(self)@ == old(self)@.insert(key, StorageWord { value, known: None }),
    {
        self.words.insert(key, StorageWord::new_unknown(value));
    }

    /// Writes `bytes` at `offset` of the word at `key`, leaving the other bytes as they were.
    /// A whole-word write needs no read; a shorter one needs the word to be cached.
    pub fn set(&mut self, key: Slot, offset: usize, bytes: &[u8]) -> (r: Access<()>)
        requires
            offset + bytes@.len() <= 32,
        ensures
            bytes@.len() == 32 || old(self)@.contains_key(key) ==> r == Access::Done(())
                && wrote(old(self)@, final(self)@, key, offset as int, bytes@),
            bytes@.len() < 32 && !old(self)@.contains_key(key) ==> r == Access::<()>::Load(key)
                && final(self)@ == old(self)@,
    {
        let n = bytes.len();
        if n == 32 {
            let mut value: Word = [0u8; 32];
            let mut i: usize = 0;
            while i < 32
                invariant
                    i <= 32,
                    bytes@.len() == 32,
                    forall|j: int| 0 <= j < i ==> value@[j] == bytes@[j],
                decreases 32 - i,
            {
                value[i] = bytes[i];
                i = i + 1;
            }
            assert(value@ =~= bytes@);
            self.set_word(key, value);
            proof {
                assert(final(self)@.dom() =~= old(self)@.dom().insert(key));
            }
            return Access::Done(());
        }
        match self.words.get(&key) {
            None => Access::Load(key),
            Some(w) => {
                let mut entry = w;
                let mut i: usize = 0;
                while i < n
                    invariant
                        i <= n == bytes@.len(),
                        offset + n <= 32,
                        entry.known == w.known,
                        forall|j: int|
                            0 <= j < 32 ==> #[trigger] entry.value@[j] == if offset <= j < offset
                                + i {
                                bytes@[j - offset]
                            } else {
                                w.value@[j]
                            },
                    decreases n - i,
                {
                    entry.value[offset + i] = bytes[i];
                    i = i + 1;
                }
                assert(entry.value@ =~= splice(w.value@, offset as int, bytes@));
                self.words.insert(key, entry);
                proof {
                    assert(final(self)@.dom() =~= old(self)@.dom().insert(key));
                }
                Access::Done(())
            },
        }
    }

    /// Writes the integer `value`, given as a 32-byte big-endian word, as the `width`-byte
    /// big-endian integer at `offset` of the word at `key`. A 32-byte write replaces the word
    /// without reading it.
    pub fn set_uint(&mut self, key: Slot, offset: usize, width: usize, value: Word) -> (r: Access<()>)
        requires
            offset + width <= 32,
            be_nat(value@) < pow256(width as nat),
        ensures
            be_nat(value@.subrange(32 - width, 32)) == be_nat(value@),
            width == 32 || old(self)@.contains_key(key) ==> (r == Access::Done(()) && wrote(
                old(self)@,
                final(self)@,
                key,
                offset as int,
                value@.subrange(32 - width, 32),
            )),
            width < 32 && !old(self)@.contains_key(key) ==> (r == Access::<()>::Load(key)
                && final(self)@ == old(self)@),
    {
        proof {
            lemma_low_bytes(value@, width as nat);
        }
        let b = low_bytes(&value, width);
        self.set(key, offset, b.as_slice())
    }

    /// Writes the two's-complement integer `value`, given sign-extended as a 32-byte word, as
    /// the `width`-byte two's-complement integer at `offset` of the word at `key`.
    pub fn set_signed(&mut self, key: Slot, offset: usize, width: usize, value: Word) -> (r: Access<()>)
        requires
            1 <= width,
            offset + width <= 32,
            -(pow256(width as nat) / 2) <= signed_of(be_nat(value@), 32) < pow256(width as nat) / 2,
        ensures
            be_nat(value@.subrange(32 - width, 32)) == raw_of(signed_of(be_nat(value@), 32), width as nat),
            width == 32 || old(self)@.contains_key(key) ==> (r == Access::Done(()) && wrote(
                old(self)@,
                final(self)@,
                key,
                offset as int,
                value@.subrange(32 - width, 32),
            )),
            width < 32 && !old(self)@.contains_key(key) ==> (r == Access::<()>::Load(key)
                && final(self)@ == old(self)@),
    {
        proof {
            lemma_sign_truncate(value@, width as nat);
        }
        let b = low_bytes(&value, width);
        self.set(key, offset, b.as_slice())
    }

    /// The writes that bring the host's store up to date: each dirty entry once. Every entry
    /// then records its value as the one the store holds, so it is clean until written again.
    pub fn flush(&mut self) -> (r: Vec<(Slot, Word)>)
        ensures
            flush_writes(old(self)@, r@),
            recorded(old(self)@, final(self)@),
    {
        let entries = self.words.entries();
        let mut out: Vec<(Slot, Word)> = Vec::new();
        let mut i: usize = 0;
        let ghost m = self@;
        while i < entries.len()
            invariant
                i <= entries@.len(),
                m == old(self)@,
                self@.dom() == m.dom(),
                forall|k: Slot| #[trigger] m.contains_key(k) ==> self@[k].value == m[k].value,
                forall|c: int|
                    0 <= c < i ==> self@[(#[trigger] entries@[c]).0].known == Some(
                        m[entries@[c].0].value,
                    ),
                forall|a: int|
                    0 <= a < entries@.len() ==> m.contains_key(#[trigger] entries@[a].0)
                        && m[entries@[a].0] == entries@[a].1,
                forall|a: int, b: int|
                    0 <= a < b < entries@.len() ==> #[trigger] entries@[a].0
                        != #[trigger] entries@[b].0,
                forall|k: Slot|
                    #[trigger] m.contains_key(k) ==> exists|a: int|
                        0 <= a < entries@.len() && #[trigger] entries@[a].0 == k,
                forall|a: int|
                    0 <= a < out@.len() ==> m.contains_key(#[trigger] out@[a].0)
                        && m[out@[a].0].is_dirty() && m[out@[a].0].value == out@[a].1
                        && exists|c: int| 0 <= c < i && #[trigger] entries@[c].0 == out@[a].0,
                forall|a: int, b: int|
                    0 <= a < b < out@.len() ==> #[trigger] out@[a].0 != #[trigger] out@[b].0,
                forall|c: int|
                    0 <= c < i && (#[trigger] entries@[c]).1.is_dirty() ==> exists|a: int|
                        0 <= a < out@.len() && #[trigger] out@[a].0 == entries@[c].0,
            decreases entries@.len() - i,
        {
            let (k, w) = entries[i];
            let ghost before = out@;
            let ghost prev = self@;
            if w.dirty() {
                out.push((k, w.value));
                assert(out@[before.len() as int].0 == entries@[i as int].0);
            }
            self.words.insert(k, StorageWord::new_known(w.value));
            proof {
                assert(self@.dom() =~= m.dom());
                assert forall|c: int|
                    0 <= c < i + 1 implies self@[(#[trigger] entries@[c]).0].known == Some(
                    m[entries@[c].0].value,
                ) by {
                    if c < i {
                        if entries@[c].0 != k {
                            assert(self@[entries@[c].0] == prev[entries@[c].0]);
                        }
                    }
                }
            }
            assert forall|c: int|
                0 <= c < i + 1 && (#[trigger] entries@[c]).1.is_dirty() implies exists|a: int|
                0 <= a < out@.len() && #[trigger] out@[a].0 == entries@[c].0 by {
                if c < i {
                    let a = choose|a: int| 0 <= a < before.len() && #[trigger] before[a].0 == entries@[c].0;
                    assert(out@[a] == before[a]);
                } else {
                    assert(out@[before.len() as int].0 == entries@[c].0);
                }
            }
            i = i + 1;
        }
        proof {
            assert forall|k: Slot| #[trigger] m.contains_key(k) && m[k].is_dirty() implies exists|
                a: int,
            | 0 <= a < out@.len() && #[trigger] out@[a].0 == k by {
                let c = choose|c: int| 0 <= c < entries@.len() && #[trigger] entries@[c].0 == k;
                assert(entries@[c].1.is_dirty());
            }
            assert forall|k: Slot| #[trigger] m.contains_key(k) implies self@[k] == (StorageWord {
                value: m[k].value,
                known: Some(m[k].value),
            }) by {
                let c = choose|c: int| 0 <= c < entries@.len() && #[trigger] entries@[c].0 == k;
            }
        }
        out
    }

    /// Flushes, then empties the cache, so that every slot is read from the host again.
    pub fn clear(&mut self) -> (r: Vec<(Slot, Word)>)
        ensures
            flush_writes(old(self)@, r@),
            final(self)@ == Map::<Slot, StorageWord>::empty(),
    {
        let writes = self.flush();
        self.words.clear();
        writes
    }
}

/// The last `n` bytes of `w`.
fn low_bytes(w: &Word, n: usize) -> (r: Vec<u8>)
    requires
        n <= 32,
    ensures
        r@ == w@.subrange(32 - n, 32),
{
    let mut out: Vec<u8> = Vec::new();
    let mut i: usize = 32 - n;
    while i < 32
        invariant
            n <= 32,
            32 - n <= i <= 32,
            out@ == w@.subrange(32 - n, i as int),
        decreases 32 - i,
    {
        out.push(w[i]);
        i = i + 1;
        assert(out@ =~= w@.subrange(32 - n, i as int));
    }
    out
}

} // verus!

//! Typed views onto a byte range of one storage word.
use crate::bytes::{be_nat, pow256, raw_of, signed_of, Slot, Word};
use crate::cache::{read_bytes, word_access, wrote, Access, StorageCache};
use vstd::prelude::*;

verus! {

/// A type that can stand in persistent storage: it has a byte size of at most 32 and is made
/// from a slot and a byte offset alone, without touching storage.
pub trait StorageType: Sized {
    /// The number of bytes the type takes in its word.
    spec fn spec_size() -> nat;

    /// The slot of the word the value lives in.
    spec fn spec_slot(&self) -> Slot;

    /// The offset, in bytes from the most significant end, of the value in its word.
    spec fn spec_offset(&self) -> nat;

    /// The number of bytes the type takes in its word.
    fn size() -> (r: u8)
        ensures
            r as nat == Self::spec_size(),
    ;

    /// An accessor for the value at `offset` of the word at `slot`.
    fn new(slot: Slot, offset: u8) -> (r: Self)
        requires
            offset as nat + Self::spec_size() <= 32,
        ensures
            r.spec_slot() == slot,
            r.spec_offset() == offset as nat,
    ;
}

/// An accessor whose value fits in its own word and can be written there as a whole.
pub trait SizedStorageType: StorageType {
    /// The value read and written through the accessor.
    type Value;

    /// Whether the accessor's type can hold `v`.
    spec fn storable(v: Self::Value) -> bool;

    /// Whether `bytes` is how `v` stands in storage.
    spec fn encodes(bytes: Seq<u8>, v: Self::Value) -> bool;

    /// Writes `value` in the accessor's bytes, leaving the rest of the word as it was.
    fn set_exact(&mut self, cache: &mut StorageCache, value: Self::Value) -> (r: Access<()>)
        requires
            Self::storable(value),
            old(self).spec_offset() + Self::spec_size() <= 32,
        ensures
            *final(self) == *old(self),
            Self::spec_size() == 32 || old(cache)@.contains_key(old(self).spec_slot()) ==> (r
                == Access::Done(()) && exists|b: Seq<u8>|
                b.len() == Self::spec_size() && Self::encodes(b, value) && wrote(
                    old(cache)@,
                    final(cache)@,
                    old(self).spec_slot(),
                    old(self).spec_offset() as int,
                    b,
                )),
            Self::spec_size() < 32 && !old(cache)@.contains_key(old(self).spec_slot()) ==> (r
                == Access::<()>::Load(old(self).spec_slot()) && final(cache)@ == old(cache)@),
    ;

    /// Sets the accessor's bytes to zero, leaving the rest of the word as it was.
    fn erase(&mut self, cache: &mut StorageCache) -> (r: Access<()>)
        requires
            old(self).spec_offset() + Self::spec_size() <= 32,
        ensures
            *final(self) == *old(self),
            Self::spec_size() == 32 || old(cache)@.contains_key(old(self).spec_slot()) ==> (r
                == Access::Done(()) && wrote(
                old(cache)@,
                final(cache)@,
                old(self).spec_slot(),
                old(self).spec_offset() as int,
                Seq::new(Self::spec_size(), |i: int| 0u8),
            )),
            Self::spec_size() < 32 && !old(cache)@.contains_key(old(self).spec_slot()) ==> (r
                == Access::<()>::Load(old(self).spec_slot()) && final(cache)@ == old(cache)@),
    ;
}

/// Writes `n` zero bytes at `offset` of the word at `slot`.
fn zero_bytes(cache: &mut StorageCache, slot: Slot, offset: usize, n: usize) -> (r: Access<()>)
    requires
        offset + n <= 32,
    ensures
        n == 32 || old(cache)@.contains_key(slot) ==> (r == Access::Done(()) && wrote(
            old(cache)@,
            final(cache)@,
            slot,
            offset as int,
            Seq::new(n as nat, |i: int| 0u8),
        )),
        n < 32 && !old(cache)@.contains_key(slot) ==> (r == Access::<()>::Load(slot)
            && final(cache)@ == old(cache)@),
{
    let mut zeros: Vec<u8> = Vec::new();
    let mut i: usize = 0;
    while i < n
        invariant
            i <= n,
            zeros@ == Seq::new(i as nat, |j: int| 0u8),
        decreases n - i,
    {
        zeros.push(0u8);
        i = i + 1;
        assert(zeros@ =~= Seq::new(i as nat, |j: int| 0u8));
    }
    cache.set(slot, offset, zeros.as_slice())
}

/// Accessor for an unsigned integer of `B` bits, `B <= 256`, which takes `B / 8` bytes. Values
/// are handed over as 32-byte big-endian words.
pub struct StorageUint<const B: usize> {
    slot: Slot,
    offset: u8,
}

/// Whether `B` bits is a width that the unsigned accessors handle.
pub open spec fn int_bits_ok(b: nat) -> bool {
    b <= 256
}

/// Whether `B` bits is a width that the two's-complement accessors handle.
pub open spec fn signed_bits_ok(b: nat) -> bool {
    8 <= b <= 256
}

impl<const B: usize> StorageUint<B> {
    /// Reads the integer.
    pub fn get(&self, cache: &StorageCache) -> (r: Access<Word>)
        requires
            int_bits_ok(B as nat),
            self.spec_offset() + B / 8 <= 32,
        ensures
            cache@.contains_key(self.spec_slot()) ==> (r matches Access::Done(v) && be_nat(v@) == be_nat(
                read_bytes(cache@, self.spec_slot(), self.spec_offset() as int, (B / 8) as int),
            )),
            !cache@.contains_key(self.spec_slot()) ==> r == Access::<Word>::Load(self.spec_slot()),
    {
        cache.get_uint(self.slot, self.offset as usize, B / 8)
    }

    /// Writes the integer, which must fit in `B / 8` bytes.
    pub fn set(&mut self, cache: &mut StorageCache, value: Word) -> (r: Access<()>)
        requires
            int_bits_ok(B as nat),
            old(self).spec_offset() + B / 8 <= 32,
            be_nat(value@) < pow256((B / 8) as nat),
        ensures
            *final(self) == *old(self),
            be_nat(value@.subrange(32 - B / 8, 32)) == be_nat(value@),
            B / 8 == 32 || old(cache)@.contains_key(old(self).spec_slot()) ==> (r == Access::Done(()) && wrote(
                old(cache)@,
                final(cache)@,
                old(self).spec_slot(),
                old(self).spec_offset() as int,
                value@.subrange(32 - B / 8, 32),
            )),
            B / 8 < 32 && !old(cache)@.contains_key(old(self).spec_slot()) ==> (r == Access::<()>::Load(old(self).spec_slot())
                && final(cache)@ == old(cache)@),
    {
        cache.set_uint(self.slot, self.offset as usize, B / 8, value)
    }
}

impl<const B: usize> StorageType for StorageUint<B> {
    open spec fn spec_size() -> nat {
        ((B / 8) as u8) as nat
    }

    closed spec fn spec_slot(&self) -> Slot {
        self.slot
    }

    closed spec fn spec_offset(&self) -> nat {
        self.offset as nat
    }

    fn size() -> (r: u8) {
        (B / 8) as u8
    }

    fn new(slot: Slot, offset: u8) -> (r: Self) {
        StorageUint { slot, offset }
    }
}

impl<const B: usize> SizedStorageType for StorageUint<B> {
    type Value = Word;

    open spec fn storable(v: Word) -> bool {
        int_bits_ok(B as nat) && be_nat(v@) < pow256((B / 8) as nat)
    }

    open spec fn encodes(bytes: Seq<u8>, v: Word) -> bool {
        be_nat(bytes) == be_nat(v@)
    }

    fn set_exact(&mut self, cache: &mut StorageCache, value: Word) -> (r: Access<()>) {
        self.set(cache, value)
    }

    fn erase(&mut self, cache: &mut StorageCache) -> (r: Access<()>) {
        zero_bytes(cache, self.slot, self.offset as usize, Self::size() as usize)
    }
}

/// Accessor for a two's-complement integer of `B` bits, `8 <= B <= 256`, which takes `B / 8`
/// bytes. Values are handed over sign-extended to 32-byte words.
pub struct StorageSigned<const B: usize> {
    slot: Slot,
    offset: u8,
}

impl<const B: usize> StorageSigned<B> {
    /// Reads the integer.
    pub fn get(&self, cache: &StorageCache) -> (r: Access<Word>)
        requires
            signed_bits_ok(B as nat),
            self.spec_offset() + B / 8 <= 32,
        ensures
            cache@.contains_key(self.spec_slot()) ==> (r matches Access::Done(v) && signed_of(be_nat(v@), 32)
                == signed_of(
                be_nat(read_bytes(cache@, self.spec_slot(), self.spec_offset() as int, (B / 8) as int)),
                (B / 8) as nat,
            )),
            !cache@.contains_key(self.spec_slot()) ==> r == Access::<Word>::Load(self.spec_slot()),
    {
        cache.get_signed(self.slot, self.offset as usize, B / 8)
    }

    /// Writes the integer, which must fit in `B / 8` bytes.
    pub fn set(&mut self, cache: &mut StorageCache, value: Word) -> (r: Access<()>)
        requires
            signed_bits_ok(B as nat),
            old(self).spec_offset() + B / 8 <= 32,
            -(pow256((B / 8) as nat) / 2) <= signed_of(be_nat(value@), 32) < pow256((B / 8) as nat) / 2,
        ensures
            *final(self) == *old(self),
            be_nat(value@.subrange(32 - B / 8, 32)) == raw_of(signed_of(be_nat(value@), 32), (B / 8) as nat),
            B / 8 == 32 || old(cache)@.contains_key(old(self).spec_slot()) ==> (r == Access::Done(()) && wrote(
                old(cache)@,
                final(cache)@,
                old(self).spec_slot(),
                old(self).spec_offset() as int,
                value@.subrange(32 - B / 8, 32),
            )),
            B / 8 < 32 && !old(cache)@.contains_key(old(self).spec_slot()) ==> (r == Access::<()>::Load(old(self).spec_slot())
                && final(cache)@ == old(cache)@),
    {
        cache.set_signed(self.slot, self.offset as usize, B / 8, value)
    }
}

impl<const B: usize> StorageType for StorageSigned<B> {
    open spec fn spec_size() -> nat {
        ((B / 8) as u8) as nat
    }

    closed spec fn spec_slot(&self) -> Slot {
        self.slot
    }

    closed spec fn spec_offset(&self) -> nat {
        self.offset as nat
    }

    fn size() -> (r: u8) {
        (B / 8) as u8
    }

    fn new(slot: Slot, offset: u8) -> (r: Self) {
        StorageSigned { slot, offset }
    }
}

impl<const B: usize> SizedStorageType for StorageSigned<B> {
    type Value = Word;

    open spec fn storable(v: Word) -> bool {
        signed_bits_ok(B as nat) && -(pow256((B / 8) as nat) / 2) <= signed_of(be_nat(v@), 32)
            < pow256((B / 8) as nat) / 2
    }

    open spec fn encodes(bytes: Seq<u8>, v: Word) -> bool {
        be_nat(bytes) == raw_of(signed_of(be_nat(v@), 32), (B / 8) as nat)
    }

    fn set_exact(&mut self, cache: &mut StorageCache, value: Word) -> (r: Access<()>) {
        self.set(cache, value)
    }

    fn erase(&mut self, cache: &mut StorageCache) -> (r: Access<()>) {
        zero_bytes(cache, self.slot, self.offset as usize, Self::size() as usize)
    }
}

/// Accessor for `N` raw bytes, `N <= 32`.
pub struct StorageFixedBytes<const N: usize> {
    slot: Slot,
    offset: u8,
}

impl<const N: usize> StorageFixedBytes<N> {
    /// Reads the bytes.
    pub fn get(&self, cache: &StorageCache) -> (r: Access<Vec<u8>>)
        requires
            self.spec_offset() + N <= 32,
        ensures
            cache@.contains_key(self.spec_slot()) ==> (r matches Access::Done(v) && v@ == read_bytes(
                cache@,
                self.spec_slot(),
                self.spec_offset() as int,
                N as int,
            )),
            !cache@.contains_key(self.spec_slot()) ==> r == Access::<Vec<u8>>::Load(self.spec_slot()),
    {
        cache.get(self.slot, self.offset as usize, N)
    }

    /// Writes the bytes, of which there must be `N`.
    pub fn set(&mut self, cache: &mut StorageCache, value: &[u8]) -> (r: Access<()>)
        requires
            old(self).spec_offset() + N <= 32,
            value@.len() == N,
        ensures
            *final(self) == *old(self),
            N == 32 || old(cache)@.contains_key(old(self).spec_slot()) ==> (r == Access::Done(()) && wrote(
                old(cache)@,
                final(cache)@,
                old(self).spec_slot(),
                old(self).spec_offset() as int,
                value@,
            )),
            N < 32 && !old(cache)@.contains_key(old(self).spec_slot()) ==> (r == Access::<()>::Load(old(self).spec_slot())
                && final(cache)@ == old(cache)@),
    {
        cache.set(self.slot, self.offset as usize, value)
    }
}

impl<const N: usize> StorageType for StorageFixedBytes<N> {
    open spec fn spec_size() -> nat {
        (N as u8) as nat
    }

    closed spec fn spec_slot(&self) -> Slot {
        self.slot
    }

    closed spec fn spec_offset(&self) -> nat {
        self.offset as nat
    }

    fn size() -> (r: u8) {
        N as u8
    }

    fn new(slot: Slot, offset: u8) -> (r: Self) {
        StorageFixedBytes { slot, offset }
    }
}

impl<const N: usize> SizedStorageType for StorageFixedBytes<N> {
    type Value = Vec<u8>;

    open spec fn storable(v: Vec<u8>) -> bool {
        1 <= N <= 32 && v@.len() == N
    }

    open spec fn encodes(bytes: Seq<u8>, v: Vec<u8>) -> bool {
        bytes == v@
    }

    fn set_exact(&mut self, cache: &mut StorageCache, value: Vec<u8>) -> (r: Access<()>) {
        self.set(cache, value.as_slice())
    }

    fn erase(&mut self, cache: &mut StorageCache) -> (r: Access<()>) {
        zero_bytes(cache, self.slot, self.offset as usize, Self::size() as usize)
    }
}

/// Accessor for a 20-byte account address.
pub struct StorageAddress {
    slot: Slot,
    offset: u8,
}

impl StorageAddress {
    /// Reads the address.
    pub fn get(&self, cache: &StorageCache) -> (r: Access<Vec<u8>>)
        requires
            self.spec_offset() + 20 <= 32,
        ensures
            cache@.contains_key(self.spec_slot()) ==> (r matches Access::Done(v) && v@ == read_bytes(
                cache@,
                self.spec_slot(),
                self.spec_offset() as int,
                20,
            )),
            !cache@.contains_key(self.spec_slot()) ==> r == Access::<Vec<u8>>::Load(self.spec_slot()),
    {
        cache.get(self.slot, self.offset as usize, 20)
    }

    /// Writes the address, which must be 20 bytes long.
    pub fn set(&mut self, cache: &mut StorageCache, value: &[u8]) -> (r: Access<()>)
        requires
            old(self).spec_offset() + 20 <= 32,
            value@.len() == 20,
        ensures
            *final(self) == *old(self),
            old(cache)@.contains_key(old(self).spec_slot()) ==> (r == Access::Done(()) && wrote(
                old(cache)@,
                final(cache)@,
                old(self).spec_slot(),
                old(self).spec_offset() as int,
                value@,
            )),
            !old(cache)@.contains_key(old(self).spec_slot()) ==> (r == Access::<()>::Load(old(self).spec_slot())
                && final(cache)@ == old(cache)@),
    {
        cache.set(self.slot, self.offset as usize, value)
    }
}

impl StorageType for StorageAddress {
    open spec fn spec_size() -> nat {
        20
    }

    closed spec fn spec_slot(&self) -> Slot {
        self.slot
    }

    closed spec fn spec_offset(&self) -> nat {
        self.offset as nat
    }

    fn size() -> (r: u8) {
        20
    }

    fn new(slot: Slot, offset: u8) -> (r: Self) {
        StorageAddress { slot, offset }
    }
}

impl SizedStorageType for StorageAddress {
    type Value = Vec<u8>;

    open spec fn storable(v: Vec<u8>) -> bool {
        v@.len() == 20
    }

    open spec fn encodes(bytes: Seq<u8>, v: Vec<u8>) -> bool {
        bytes == v@
    }

    fn set_exact(&mut self, cache: &mut StorageCache, value: Vec<u8>) -> (r: Access<()>) {
        self.set(cache, value.as_slice())
    }

    fn erase(&mut self, cache: &mut StorageCache) -> (r: Access<()>) {
        zero_bytes(cache, self.slot, self.offset as usize, 20)
    }
}

/// Accessor for a block number: an unsigned 8-byte integer.
pub struct StorageBlockNumber {
    slot: Slot,
    offset: u8,
}

impl StorageBlockNumber {
    /// Reads the block number.
    pub fn get(&self, cache: &StorageCache) -> (r: Access<u64>)
        requires
            self.spec_offset() + 8 <= 32,
        ensures
            cache@.contains_key(self.spec_slot()) ==> (r matches Access::Done(v) && v as nat == be_nat(
                read_bytes(cache@, self.spec_slot(), self.spec_offset() as int, 8),
            )),
            !cache@.contains_key(self.spec_slot()) ==> r == Access::<u64>::Load(self.spec_slot()),
    {
        proof {
            crate::bytes::lemma_pow256_u64();
            if cache@.contains_key(self.slot) {
                crate::bytes::lemma_be_nat_bound(read_bytes(cache@, self.slot, self.offset as int, 8));
            }
        }
        match cache.get(self.slot, self.offset as usize, 8) {
            Access::Done(b) => Access::Done(crate::bytes::decode_be(b.as_slice()) as u64),
            Access::Load(k) => Access::Load(k),
        }
    }

    /// Writes the block number.
    pub fn set(&self, cache: &mut StorageCache, value: u64) -> (r: Access<()>)
        requires
            self.spec_offset() + 8 <= 32,
        ensures
            old(cache)@.contains_key(self.spec_slot()) ==> (r == Access::Done(()) && exists|b: Seq<u8>|
                b.len() == 8 && be_nat(b) == value as nat && wrote(
                    old(cache)@,
                    final(cache)@,
                    self.spec_slot(),
                    self.spec_offset() as int,
                    b,
                )),
            !old(cache)@.contains_key(self.spec_slot()) ==> (r == Access::<()>::Load(self.spec_slot())
                && final(cache)@ == old(cache)@),
    {
        proof {
            crate::bytes::lemma_pow256_u64();
        }
        let b = crate::bytes::encode_be(value as u128, 8);
        cache.set(self.slot, self.offset as usize, b.as_slice())
    }
}

impl StorageType for StorageBlockNumber {
    open spec fn spec_size() -> nat {
        8
    }

    closed spec fn spec_slot(&self) -> Slot {
        self.slot
    }

    closed spec fn spec_offset(&self) -> nat {
        self.offset as nat
    }

    fn size() -> (r: u8) {
        8
    }

    fn new(slot: Slot, offset: u8) -> (r: Self) {
        StorageBlockNumber { slot, offset }
    }
}

impl SizedStorageType for StorageBlockNumber {
    type Value = u64;

    open spec fn storable(v: u64) -> bool {
        true
    }

    open spec fn encodes(bytes: Seq<u8>, v: u64) -> bool {
        be_nat(bytes) == v as nat
    }

    fn set_exact(&mut self, cache: &mut StorageCache, value: u64) -> (r: Access<()>) {
        self.set(cache, value)
    }

    fn erase(&mut self, cache: &mut StorageCache) -> (r: Access<()>) {
        zero_bytes(cache, self.slot, self.offset as usize, 8)
    }
}

/// Accessor for a block hash, which takes a whole word.
pub struct StorageBlockHash {
    slot: Slot,
    offset: u8,
}

impl StorageBlockHash {
    /// Reads the block hash.
    pub fn get(&self, cache: &StorageCache) -> (r: Access<Word>)
        ensures
            r == word_access(cache@, self.spec_slot()),
    {
        cache.get_word(self.slot)
    }

    /// Writes the block hash.
    pub fn set(&mut self, cache: &mut StorageCache, value: Word)
        ensures
            *final(self) == *old(self),
            final(cache)@ == old(cache)@.insert(
                old(self).spec_slot(),
                crate::cache::StorageWord { value, known: None },
            ),
    {
        cache.set_word(self.slot, value)
    }
}

impl StorageType for StorageBlockHash {
    open spec fn spec_size() -> nat {
        32
    }

    closed spec fn spec_slot(&self) -> Slot {
        self.slot
    }

    closed spec fn spec_offset(&self) -> nat {
        self.offset as nat
    }

    fn size() -> (r: u8) {
        32
    }

    fn new(slot: Slot, offset: u8) -> (r: Self) {
        StorageBlockHash { slot, offset }
    }
}

impl SizedStorageType for StorageBlockHash {
    type Value = Word;

    open spec fn storable(v: Word) -> bool {
        true
    }

    open spec fn encodes(bytes: Seq<u8>, v: Word) -> bool {
        bytes == v@
    }

    fn set_exact(&mut self, cache: &mut StorageCache, value: Word) -> (r: Access<()>) {
        self.set(cache, value);
        proof {
            assert(final(cache)@.dom() =~= old(cache)@.dom().insert(self.slot));
            assert(wrote(old(cache)@, final(cache)@, self.slot, self.offset as int, value@));
        }
        Access::Done(())
    }

    fn erase(&mut self, cache: &mut StorageCache) -> (r: Access<()>) {
        zero_bytes(cache, self.slot, self.offset as usize, 32)
    }
}

/// Accessor for a storage-backed zero-width unsigned integer, which holds only zero.
pub type StorageU0 = StorageUint<0>;

/// Accessor for a storage-backed one-bit unsigned integer; it takes no bytes and holds only zero.
pub type StorageU1 = StorageUint<1>;

/// Accessor for a storage-backed unsigned 8-bit integer.
pub type StorageU8 = StorageUint<8>;

/// Accessor for a storage-backed signed 8-bit integer.
pub type StorageI8 = StorageSigned<8>;

/// Accessor for a storage-backed unsigned 16-bit integer.
pub type StorageU16 = StorageUint<16>;

/// Accessor for a storage-backed signed 16-bit integer.
pub type StorageI16 = StorageSigned<16>;

/// Accessor for a storage-backed unsigned 32-bit integer.
pub type StorageU32 = StorageUint<32>;

/// Accessor for a storage-backed signed 32-bit integer.
pub type StorageI32 = StorageSigned<32>;

/// Accessor for a storage-backed unsigned 64-bit integer.
pub type StorageU64 = StorageUint<64>;

/// Accessor for a storage-backed signed 64-bit integer.
pub type StorageI64 = StorageSigned<64>;

/// Accessor for a storage-backed unsigned 128-bit integer.
pub type StorageU128 = StorageUint<128>;

/// Accessor for a storage-backed signed 128-bit integer.
pub type StorageI128 = StorageSigned<128>;

/// Accessor for a storage-backed unsigned 160-bit integer.
pub type StorageU160 = StorageUint<160>;

/// Accessor for a storage-backed signed 160-bit integer.
pub type StorageI160 = StorageSigned<160>;

/// Accessor for a storage-backed unsigned 192-bit integer.
pub type StorageU192 = StorageUint<192>;

/// Accessor for a storage-backed signed 192-bit integer.
pub type StorageI192 = StorageSigned<192>;

/// Accessor for a storage-backed unsigned 256-bit integer.
pub type StorageU256 = StorageUint<256>;

/// Accessor for a storage-backed signed 256-bit integer.
pub type StorageI256 = StorageSigned<256>;

/// Accessor for zero storage-backed bytes.
pub type StorageB0 = StorageFixedBytes<0>;

/// Accessor for 1 storage-backed bytes.
pub type StorageB8 = StorageFixedBytes<1>;

/// Accessor for 2 storage-backed bytes.
pub type StorageB16 = StorageFixedBytes<2>;

/// Accessor for 4 storage-backed bytes.
pub type StorageB32 = StorageFixedBytes<4>;

/// Accessor for 8 storage-backed bytes.
pub type StorageB64 = StorageFixedBytes<8>;

/// Accessor for 12 storage-backed bytes.
pub type StorageB96 = StorageFixedBytes<12>;

/// Accessor for 16 storage-backed bytes.
pub type StorageB128 = StorageFixedBytes<16>;

/// Accessor for 20 storage-backed bytes.
pub type StorageB160 = StorageFixedBytes<20>;

/// Accessor for 24 storage-backed bytes.
pub type StorageB192 = StorageFixedBytes<24>;

/// Accessor for 28 storage-backed bytes.
pub type StorageB224 = StorageFixedBytes<28>;

/// Accessor for 32 storage-backed bytes.
pub type StorageB256 = StorageFixedBytes<32>;

} // verus!

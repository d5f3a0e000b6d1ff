use std::collections::HashMap;

use alloy_primitives::{keccak256, U256};
use stylus_storage::accessors::{
    SizedStorageType, StorageAddress, StorageBlockHash, StorageBlockNumber, StorageFixedBytes,
    StorageSigned, StorageType, StorageUint, StorageU256,
};
use stylus_storage::bytes::{Slot, Word};
use stylus_storage::cache::{Access, StorageCache, StorageWord};
use stylus_storage::guard::{StorageGuard, StorageGuardMut};
use stylus_storage::tx::{gas_to_ink, ink_to_gas};
use stylus_storage::vec::StorageVec;

/// A host store that records every load and store made against it.
struct Host {
    words: HashMap<Slot, Word>,
    loads: Vec<Slot>,
    stores: Vec<(Slot, Word)>,
}

impl Host {
    fn new() -> Host {
        Host { words: HashMap::new(), loads: Vec::new(), stores: Vec::new() }
    }

    fn load(&mut self, key: Slot) -> Word {
        self.loads.push(key);
        *self.words.get(&key).unwrap_or(&[0u8; 32])
    }

    fn store_all(&mut self, writes: Vec<(Slot, Word)>) {
        for (k, w) in writes {
            self.words.insert(k, w);
            self.stores.push((k, w));
        }
    }
}

/// Runs `op` against the cache, serving each load it asks for from `host`.
fn run<T>(
    cache: &mut StorageCache,
    host: &mut Host,
    mut op: impl FnMut(&mut StorageCache) -> Access<T>,
) -> T {
    loop {
        match op(cache) {
            Access::Done(v) => return v,
            Access::Load(k) => {
                let w = host.load(k);
                cache.record_load(k, w);
            }
        }
    }
}

/// The result of an operation whose words are all cached already.
fn done<T>(a: Access<T>) -> T {
    match a {
        Access::Done(v) => v,
        Access::Load(_) => panic!("operation waits for a load"),
    }
}

fn slot(n: u64) -> Slot {
    U256::from(n).to_be_bytes::<32>()
}

/// `v` as a 32-byte big-endian word.
fn uw(v: u128) -> Word {
    U256::from(v).to_be_bytes::<32>()
}

/// `v` sign-extended to a 32-byte two's-complement word.
fn sw(v: i128) -> Word {
    let mut w = if v < 0 { [0xffu8; 32] } else { [0u8; 32] };
    w[16..].copy_from_slice(&v.to_be_bytes());
    w
}

fn word_of(n: u64) -> Word {
    U256::from(n).to_be_bytes::<32>()
}

#[test]
fn bytes_round_trip_at_every_width() {
    let mut host = Host::new();
    let mut cache = StorageCache::new();
    for w in 1..=32usize {
        for offset in [0usize, 32 - w] {
            let value: Vec<u8> = (0..w).map(|i| (i as u8).wrapping_mul(37).wrapping_add(1)).collect();
            run(&mut cache, &mut host, |c| c.set(slot(3), offset, &value));
            let back = run(&mut cache, &mut host, |c| c.get(slot(3), offset, w));
            assert_eq!(back, value);
        }
    }
}

#[test]
fn uint_round_trip_with_boundaries() {
    let mut host = Host::new();
    let mut cache = StorageCache::new();
    for w in 0..=32usize {
        let max: U256 = if w == 32 { U256::MAX } else { (U256::from(1u64) << (8 * w)) - U256::from(1u64) };
        for v in [U256::ZERO, max, max >> 1usize, max & U256::from(0x1234_5678u64)] {
            let v: Word = v.to_be_bytes::<32>();
            for offset in [0usize, 32 - w] {
                run(&mut cache, &mut host, |c| c.set_uint(slot(1), offset, w, v));
                assert_eq!(run(&mut cache, &mut host, |c| c.get_uint(slot(1), offset, w)), v);
            }
        }
    }
}

#[test]
fn signed_round_trip_with_boundaries() {
    let mut host = Host::new();
    let mut cache = StorageCache::new();
    for w in 1..=32usize {
        // The largest value of `w` bytes, and the smallest, sign-extended to 32 bytes.
        let mut max = [0u8; 32];
        let mut min = [0xffu8; 32];
        for i in 32 - w..32 {
            max[i] = 0xff;
            min[i] = 0;
        }
        max[32 - w] = 0x7f;
        min[32 - w] = 0x80;
        for v in [sw(0), sw(-1), sw(1), max, min] {
            run(&mut cache, &mut host, |c| c.set_signed(slot(2), 32 - w, w, v));
            assert_eq!(run(&mut cache, &mut host, |c| c.get_signed(slot(2), 32 - w, w)), v);
        }
    }
}

#[test]
fn signed_bytes_are_twos_complement() {
    let mut host = Host::new();
    let mut cache = StorageCache::new();
    run(&mut cache, &mut host, |c| c.set_signed(slot(2), 30, 2, sw(-2)));
    assert_eq!(run(&mut cache, &mut host, |c| c.get(slot(2), 30, 2)), vec![0xff, 0xfe]);
    assert_eq!(run(&mut cache, &mut host, |c| c.get_uint(slot(2), 30, 2)), uw(0xfffe));
}

#[test]
fn wide_integers_round_trip() {
    let mut host = Host::new();
    let mut cache = StorageCache::new();
    let mut a = StorageUint::<256>::new(slot(13), 0);
    run(&mut cache, &mut host, |c| a.set(c, U256::MAX.to_be_bytes::<32>()));
    assert_eq!(run(&mut cache, &mut host, |c| a.get(c)), [0xffu8; 32]);
    // A whole-word integer write needs no read and is always written back.
    assert!(host.loads.is_empty());
    assert_eq!(cache.flush(), vec![(slot(13), [0xffu8; 32])]);
    let mut b = StorageUint::<160>::new(slot(14), 12);
    let v: Word = (U256::from(1u64) << 159usize).to_be_bytes::<32>();
    run(&mut cache, &mut host, |c| b.set(c, v));
    assert_eq!(run(&mut cache, &mut host, |c| b.get(c)), v);
    let mut s = StorageSigned::<192>::new(slot(15), 8);
    run(&mut cache, &mut host, |c| s.set(c, sw(-123456789)));
    assert_eq!(run(&mut cache, &mut host, |c| s.get(c)), sw(-123456789));
    let raw = run(&mut cache, &mut host, |c| c.get(slot(15), 8, 24));
    assert_eq!(raw, sw(-123456789)[8..].to_vec());
    let mut t = StorageSigned::<256>::new(slot(16), 0);
    let mut min = [0u8; 32];
    min[0] = 0x80;
    run(&mut cache, &mut host, |c| t.set(c, min));
    assert_eq!(run(&mut cache, &mut host, |c| t.get(c)), min);
}

#[test]
fn typed_accessors_round_trip() {
    let mut host = Host::new();
    let mut cache = StorageCache::new();
    let mut a = StorageUint::<64>::new(slot(9), 0);
    run(&mut cache, &mut host, |c| a.set(c, uw(0x0102_0304_0506_0708)));
    assert_eq!(run(&mut cache, &mut host, |c| a.get(c)), uw(0x0102_0304_0506_0708));
    let mut s = StorageSigned::<32>::new(slot(9), 8);
    run(&mut cache, &mut host, |c| s.set(c, sw(-5)));
    assert_eq!(run(&mut cache, &mut host, |c| s.get(c)), sw(-5));
    let mut addr = StorageAddress::new(slot(9), 12);
    let who: Vec<u8> = (1..=20).collect();
    run(&mut cache, &mut host, |c| addr.set(c, &who));
    assert_eq!(run(&mut cache, &mut host, |c| addr.get(c)), who);
    // The earlier fields are untouched by the later ones.
    assert_eq!(run(&mut cache, &mut host, |c| a.get(c)), uw(0x0102_0304_0506_0708));
    assert_eq!(run(&mut cache, &mut host, |c| s.get(c)), sw(-5));
    let n = StorageBlockNumber::new(slot(10), 24);
    run(&mut cache, &mut host, |c| n.set(c, 1234567));
    assert_eq!(run(&mut cache, &mut host, |c| n.get(c)), 1234567);
    let mut h = StorageBlockHash::new(slot(11), 0);
    h.set(&mut cache, word_of(77));
    assert_eq!(run(&mut cache, &mut host, |c| h.get(c)), word_of(77));
    let mut fb = StorageFixedBytes::<4>::new(slot(12), 4);
    run(&mut cache, &mut host, |c| fb.set(c, &[9, 8, 7, 6]));
    assert_eq!(run(&mut cache, &mut host, |c| fb.get(c)), vec![9, 8, 7, 6]);
    run(&mut cache, &mut host, |c| fb.erase(c));
    assert_eq!(run(&mut cache, &mut host, |c| fb.get(c)), vec![0, 0, 0, 0]);
}

#[test]
fn read_is_clean_and_write_is_dirty() {
    let mut host = Host::new();
    host.words.insert(slot(4), word_of(8));
    let mut cache = StorageCache::new();
    assert_eq!(run(&mut cache, &mut host, |c| c.get_word(slot(4))), word_of(8));
    assert!(cache.flush().is_empty());
    run(&mut cache, &mut host, |c| c.set_uint(slot(4), 31, 1, uw(9)));
    let writes = cache.flush();
    assert_eq!(writes, vec![(slot(4), word_of(9))]);
    host.store_all(writes);
    // The flushed word is clean: a second flush stores nothing.
    assert!(cache.flush().is_empty());
    // Writing back the value first read is a change: the host now holds 9.
    run(&mut cache, &mut host, |c| c.set_uint(slot(4), 31, 1, uw(8)));
    let writes = cache.flush();
    assert_eq!(writes, vec![(slot(4), word_of(8))]);
    host.store_all(writes);
    assert_eq!(host.words[&slot(4)], word_of(8));
    // Writing what the host holds leaves the word clean.
    run(&mut cache, &mut host, |c| c.set_uint(slot(4), 31, 1, uw(8)));
    assert!(cache.flush().is_empty());
    // A whole-word write is always dirty, even with the same value.
    cache.set_word(slot(4), word_of(8));
    assert_eq!(cache.flush(), vec![(slot(4), word_of(8))]);
    assert!(cache.flush().is_empty());
    assert_eq!(host.loads, vec![slot(4)]);
}

#[test]
fn one_store_per_changed_word() {
    let mut host = Host::new();
    let mut cache = StorageCache::new();
    for k in 0..5u64 {
        run(&mut cache, &mut host, |c| c.get_word(slot(k)));
    }
    cache.set_word(slot(1), word_of(11));
    run(&mut cache, &mut host, |c| c.set_uint(slot(3), 0, 1, uw(0xaa)));
    let mut writes = cache.clear();
    writes.sort();
    let mut expected = vec![(slot(1), word_of(11)), (slot(3), {
        let mut w = [0u8; 32];
        w[0] = 0xaa;
        w
    })];
    expected.sort();
    assert_eq!(writes, expected);
    host.store_all(writes);
    assert_eq!(host.stores.len(), 2);
    assert!(cache.flush().is_empty());
}

#[test]
fn clear_makes_the_next_read_fresh() {
    let mut host = Host::new();
    host.words.insert(slot(6), word_of(1));
    let mut cache = StorageCache::new();
    assert_eq!(run(&mut cache, &mut host, |c| c.get_word(slot(6))), word_of(1));
    // Until a clear, the cache answers alone, even if the store changes underneath.
    host.words.insert(slot(6), word_of(2));
    assert_eq!(run(&mut cache, &mut host, |c| c.get_word(slot(6))), word_of(1));
    assert!(cache.clear().is_empty());
    assert!(!cache.is_cached(&slot(6)));
    assert_eq!(run(&mut cache, &mut host, |c| c.get_word(slot(6))), word_of(2));
    assert_eq!(host.loads, vec![slot(6), slot(6)]);
}

#[test]
fn record_load_keeps_cached_entry() {
    let mut cache = StorageCache::new();
    cache.set_word(slot(7), word_of(5));
    cache.record_load(slot(7), word_of(6));
    assert!(matches!(cache.get_word(slot(7)), Access::Done(w) if w == word_of(5)));
    assert!(matches!(cache.get_word(slot(8)), Access::Load(k) if k == slot(8)));
}

#[test]
fn packed_fields_do_not_disturb_each_other() {
    let mut host = Host::new();
    let mut initial = [0u8; 32];
    for (i, b) in initial.iter_mut().enumerate() {
        *b = 0xc0 + i as u8;
    }
    host.words.insert(slot(0), initial);
    let mut cache = StorageCache::new();
    run(&mut cache, &mut host, |c| c.set_uint(slot(0), 0, 8, uw(0x1111_2222_3333_4444)));
    run(&mut cache, &mut host, |c| c.set_uint(slot(0), 8, 8, uw(0x5555_6666_7777_8888)));
    assert_eq!(run(&mut cache, &mut host, |c| c.get_uint(slot(0), 0, 8)), uw(0x1111_2222_3333_4444));
    assert_eq!(run(&mut cache, &mut host, |c| c.get_uint(slot(0), 8, 8)), uw(0x5555_6666_7777_8888));
    let word = run(&mut cache, &mut host, |c| c.get_word(slot(0)));
    assert_eq!(&word[16..], &initial[16..]);
    assert_eq!(run(&mut cache, &mut host, |c| c.get_byte(slot(0), 15)), 0x88);
}

#[test]
fn storage_word_dirtiness() {
    assert!(!StorageWord::new_known(word_of(3)).dirty());
    assert!(StorageWord::new_unknown(word_of(3)).dirty());
    let w = StorageWord { value: word_of(4), known: Some(word_of(3)) };
    assert!(w.dirty());
}

#[test]
fn empty_sequence() {
    let mut host = Host::new();
    let mut cache = StorageCache::new();
    let mut v = StorageVec::<StorageUint<64>>::new(slot(20), 0);
    assert_eq!(run(&mut cache, &mut host, |c| v.len(c)), 0);
    assert!(run(&mut cache, &mut host, |c| v.is_empty(c)));
    assert!(run(&mut cache, &mut host, |c| v.pop(c)).is_none());
    assert!(run(&mut cache, &mut host, |c| v.get(c, 0)).is_none());
}

#[test]
fn push_then_get() {
    let mut host = Host::new();
    let mut cache = StorageCache::new();
    let mut v = StorageVec::<StorageUint<64>>::new(slot(21), 0);
    run(&mut cache, &mut host, |c| v.push(c, uw(42)));
    assert_eq!(run(&mut cache, &mut host, |c| v.len(c)), 1);
    let g = run(&mut cache, &mut host, |c| v.get(c, 0)).unwrap();
    let e: &StorageUint<64> = g.inner();
    assert_eq!(run(&mut cache, &mut host, |c| e.get(c)), uw(42));
    // The index equal to the length is out of range.
    assert!(run(&mut cache, &mut host, |c| v.get_raw(c, 1)).is_none());
}

#[test]
fn small_elements_share_words() {
    let mut host = Host::new();
    let mut cache = StorageCache::new();
    let mut v = StorageVec::<StorageUint<64>>::new(slot(22), 0);
    for x in 0..5u128 {
        run(&mut cache, &mut host, |c| v.push(c, uw(100 + x)));
    }
    let base = keccak256(slot(22)).0;
    let word0 = run(&mut cache, &mut host, |c| c.get_word(base));
    for i in 0..4usize {
        let mut expect = [0u8; 8];
        expect.copy_from_slice(&(100u64 + i as u64).to_be_bytes());
        assert_eq!(&word0[i * 8..i * 8 + 8], &expect);
    }
    let next: Slot = (U256::from_be_bytes(base) + U256::from(1u64)).to_be_bytes::<32>();
    let word1 = run(&mut cache, &mut host, |c| c.get_word(next));
    assert_eq!(&word1[0..8], &104u64.to_be_bytes());
    for i in 0..5usize {
        let g = run(&mut cache, &mut host, |c| v.getter(c, i)).unwrap();
        assert_eq!(run(&mut cache, &mut host, |c| g.get(c)), uw(100 + i as u128));
    }
}

#[test]
fn truncate_keeps_bytes_until_overwritten() {
    let mut host = Host::new();
    let mut cache = StorageCache::new();
    let mut v = StorageVec::<StorageUint<64>>::new(slot(23), 0);
    for x in [1u128, 2, 3] {
        run(&mut cache, &mut host, |c| v.push(c, uw(x)));
    }
    run(&mut cache, &mut host, |c| v.truncate(c, 1));
    assert_eq!(run(&mut cache, &mut host, |c| v.len(c)), 1);
    // A longer length is no truncation.
    run(&mut cache, &mut host, |c| v.truncate(c, 5));
    assert_eq!(run(&mut cache, &mut host, |c| v.len(c)), 1);
    run(&mut cache, &mut host, |c| v.push(c, uw(9)));
    assert_eq!(run(&mut cache, &mut host, |c| v.len(c)), 2);
    let first = run(&mut cache, &mut host, |c| v.get(c, 0)).unwrap();
    assert_eq!(run(&mut cache, &mut host, |c| first.get(c)), uw(1));
    let second = run(&mut cache, &mut host, |c| v.get(c, 1)).unwrap();
    assert_eq!(run(&mut cache, &mut host, |c| second.get(c)), uw(9));
    // Element 2 was not overwritten: its bytes are still there.
    v.set_len(&mut cache, 3);
    let third = run(&mut cache, &mut host, |c| v.get(c, 2)).unwrap();
    assert_eq!(run(&mut cache, &mut host, |c| third.get(c)), uw(3));
}

#[test]
fn open_and_mutable_handles() {
    let mut host = Host::new();
    let mut cache = StorageCache::new();
    let mut v = StorageVec::<StorageUint<128>>::new(slot(24), 0);
    assert_eq!(run(&mut cache, &mut host, |c| v.len(c)), 0);
    let mut g = done(v.open(&mut cache));
    run(&mut cache, &mut host, |c| g.inner_mut().set(c, uw(77)));
    assert_eq!(run(&mut cache, &mut host, |c| v.len(c)), 1);
    let mut m = done(v.setter(&cache, 0)).unwrap();
    run(&mut cache, &mut host, |c| m.set(c, uw(78)));
    let h = done(v.get_mut(&cache, 0)).unwrap();
    assert_eq!(run(&mut cache, &mut host, |c| h.get(c)), uw(78));
    let popped = run(&mut cache, &mut host, |c| v.pop(c)).unwrap();
    assert_eq!(run(&mut cache, &mut host, |c| popped.get(c)), uw(78));
    assert_eq!(run(&mut cache, &mut host, |c| v.len(c)), 0);
}

#[test]
fn nested_sequence_opens_in_place() {
    let mut host = Host::new();
    let mut cache = StorageCache::new();
    let mut outer = StorageVec::<StorageVec<StorageUint<128>>>::new(slot(0), 0);
    assert_eq!(run(&mut cache, &mut host, |c| outer.len(c)), 0);
    let mut inner = done(outer.open(&mut cache));
    run(&mut cache, &mut host, |c| inner.push(c, uw(8)));
    assert_eq!(run(&mut cache, &mut host, |c| inner.len(c)), 1);
    let value = run(&mut cache, &mut host, |c| inner.get(c, 0)).unwrap();
    assert_eq!(run(&mut cache, &mut host, |c| value.get(c)), uw(8));
    assert_eq!(run(&mut cache, &mut host, |c| outer.len(c)), 1);
}

#[test]
fn guards_hand_out_the_accessor() {
    let g: StorageGuard<u32> = StorageGuard::new(5);
    assert_eq!(*g, 5);
    assert_eq!(*g.inner(), 5);
    let mut m: StorageGuardMut<u32> = StorageGuardMut::new(6);
    *m += 1;
    assert_eq!(*m, 7);
    *m.inner_mut() = 9;
    assert_eq!(*m.inner(), 9);
}

#[test]
fn flush_clear_reload_scenario() {
    let mut host = Host::new();
    let mut cache = StorageCache::new();
    cache.set_word(slot(0), word_of(1));
    let writes = cache.flush();
    assert_eq!(writes, vec![(slot(0), word_of(1))]);
    host.store_all(writes);
    assert_eq!(host.stores, vec![(slot(0), word_of(1))]);
    let writes = cache.clear();
    assert!(writes.is_empty());
    host.store_all(writes);
    assert_eq!(host.stores.len(), 1);
    assert_eq!(run(&mut cache, &mut host, |c| c.get_word(slot(0))), word_of(1));
    assert_eq!(host.loads, vec![slot(0)]);
}

#[test]
fn whole_word_sequence_scenario() {
    let mut host = Host::new();
    let mut cache = StorageCache::new();
    let mut v = StorageVec::<StorageU256>::new(slot(5), 0);
    run(&mut cache, &mut host, |c| v.push(c, word_of(100)));
    run(&mut cache, &mut host, |c| v.push(c, word_of(200)));
    assert_eq!(run(&mut cache, &mut host, |c| v.len(c)), 2);
    let base = keccak256(U256::from(5u64).to_be_bytes::<32>()).0;
    let base1: Slot = (U256::from_be_bytes(base) + U256::from(1u64)).to_be_bytes::<32>();
    assert_eq!(run(&mut cache, &mut host, |c| c.get_uint(base, 0, 32)), word_of(100));
    assert_eq!(run(&mut cache, &mut host, |c| c.get_uint(base1, 0, 32)), word_of(200));
    let last = run(&mut cache, &mut host, |c| v.pop(c)).unwrap();
    assert_eq!(run(&mut cache, &mut host, |c| last.get(c)), word_of(200));
    assert_eq!(run(&mut cache, &mut host, |c| v.len(c)), 1);
}

#[test]
fn gas_and_ink_conversions() {
    assert_eq!(gas_to_ink(5, 10000), 5);
    assert_eq!(gas_to_ink(3, 5000), 6);
    assert_eq!(gas_to_ink(u64::MAX, 1), u64::MAX);
    assert_eq!(ink_to_gas(20000, 5000), 10000);
    assert_eq!(ink_to_gas(u64::MAX, 2), u64::MAX / 10000);
}

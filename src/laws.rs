//! What holds across several operations of the cache and the sequence.
use crate::accessors::StorageType;
use crate::bytes::{
    be_nat, lemma_be_nat_zeros, pow256, raw_of, signed_of, splice, Slot, Word,
    lemma_pow256_monotone, lemma_pow256_positive, lemma_pow256_u64,
};
use crate::cache::{flush_writes, loaded, recorded, read_bytes, word_access, wrote, Access, StorageWord};
use crate::vec::{
    density, element_offset, element_slot, is_element, lemma_element_fits, len_set, vec_len,
};
use crate::slots::keccak_of;
use vstd::prelude::*;

verus! {

/// Reading back the byte range just written gives the bytes written.
pub proof fn lemma_write_then_read(
    old: Map<Slot, StorageWord>,
    new: Map<Slot, StorageWord>,
    key: Slot,
    offset: int,
    bytes: Seq<u8>,
)
    requires
        0 <= offset,
        offset + bytes.len() <= 32,
        bytes.len() == 32 || old.contains_key(key),
        wrote(old, new, key, offset, bytes),
    ensures
        new.contains_key(key),
        read_bytes(new, key, offset, bytes.len() as int) == bytes,
{
    assert(new.dom().contains(key));
    if bytes.len() == 32 {
        assert(new[key].value@.subrange(offset, offset + 32) =~= bytes);
    } else {
        assert(read_bytes(new, key, offset, bytes.len() as int) =~= bytes);
    }
}

/// An unsigned integer written in `w` bytes is read back unchanged.
pub proof fn lemma_uint_round_trip(
    old: Map<Slot, StorageWord>,
    new: Map<Slot, StorageWord>,
    key: Slot,
    offset: int,
    b: Seq<u8>,
    v: nat,
)
    requires
        0 <= offset,
        offset + b.len() <= 32,
        b.len() == 32 || old.contains_key(key),
        be_nat(b) == v,
        wrote(old, new, key, offset, b),
    ensures
        be_nat(read_bytes(new, key, offset, b.len() as int)) == v,
{
    lemma_write_then_read(old, new, key, offset, b);
}

/// A two's-complement integer that fits in `w` bytes is read back unchanged from its
/// encoding; with the round trip of the bytes, a signed write then read gives the value.
pub proof fn lemma_signed_round_trip(v: int, w: nat)
    requires
        1 <= w,
        -(pow256(w) / 2) <= v < pow256(w) / 2,
    ensures
        raw_of(v, w) < pow256(w),
        signed_of(raw_of(v, w), w) == v,
{
    lemma_pow256_positive((w - 1) as nat);
    assert(pow256(w) == 256 * pow256((w - 1) as nat));
}

/// A two's-complement integer written in `w` bytes, from its 32-byte sign extension, is read
/// back with the same value.
pub proof fn lemma_signed_write_then_read(
    old: Map<Slot, StorageWord>,
    new: Map<Slot, StorageWord>,
    key: Slot,
    offset: int,
    w: nat,
    value: Word,
)
    requires
        0 <= offset,
        1 <= w,
        offset + w <= 32,
        w == 32 || old.contains_key(key),
        -(pow256(w) / 2) <= signed_of(be_nat(value@), 32) < pow256(w) / 2,
        be_nat(value@.subrange(32 - w, 32)) == raw_of(signed_of(be_nat(value@), 32), w),
        wrote(old, new, key, offset, value@.subrange(32 - w, 32)),
    ensures
        signed_of(be_nat(read_bytes(new, key, offset, w as int)), w) == signed_of(be_nat(value@), 32),
{
    lemma_write_then_read(old, new, key, offset, value@.subrange(32 - w, 32));
    lemma_signed_round_trip(signed_of(be_nat(value@), 32), w);
}

/// A word just read from the host is clean.
pub proof fn lemma_loaded_is_clean(m: Map<Slot, StorageWord>, key: Slot, w: Word)
    requires
        !m.contains_key(key),
    ensures
        loaded(m, key, w).contains_key(key),
        !loaded(m, key, w)[key].is_dirty(),
{
}

/// A whole-word write leaves the word dirty.
pub proof fn lemma_set_word_dirty(m: Map<Slot, StorageWord>, key: Slot, value: Word)
    ensures
        m.insert(key, StorageWord { value, known: None })[key].is_dirty(),
{
}

/// A write that leaves the word different from what the host is known to hold leaves it
/// dirty.
pub proof fn lemma_write_dirty(
    old: Map<Slot, StorageWord>,
    new: Map<Slot, StorageWord>,
    key: Slot,
    offset: int,
    bytes: Seq<u8>,
)
    requires
        wrote(old, new, key, offset, bytes),
        bytes.len() == 32 || !(old[key].known matches Some(k) && k@ == splice(
            old[key].value@,
            offset,
            bytes,
        )),
    ensures
        new[key].is_dirty(),
{
}

/// A flush writes only dirty words, each once; a clean word is never written.
pub proof fn lemma_flush_skips_clean(m: Map<Slot, StorageWord>, writes: Seq<(Slot, Word)>, key: Slot)
    requires
        flush_writes(m, writes),
        m.contains_key(key),
        !m[key].is_dirty(),
    ensures
        forall|i: int| 0 <= i < writes.len() ==> #[trigger] writes[i].0 != key,
{
}

/// After a clear, a flush writes nothing.
pub proof fn lemma_flush_after_clear(writes: Seq<(Slot, Word)>)
    requires
        flush_writes(Map::<Slot, StorageWord>::empty(), writes),
    ensures
        writes.len() == 0,
{
    if writes.len() > 0 {
        assert(Map::<Slot, StorageWord>::empty().contains_key(writes[0].0));
    }
}

/// Right after a flush, with no write since, a second flush (or the flush inside a clear)
/// writes nothing: each change reaches the store once.
pub proof fn lemma_second_flush_writes_nothing(
    m: Map<Slot, StorageWord>,
    after: Map<Slot, StorageWord>,
    writes: Seq<(Slot, Word)>,
)
    requires
        recorded(m, after),
        flush_writes(after, writes),
    ensures
        writes.len() == 0,
{
    if writes.len() > 0 {
        let k = writes[0].0;
        assert(after.contains_key(k));
        assert(m.contains_key(k));
    }
}

/// After a flush, a word given any value other than the one the flush left in the store is
/// dirty, even where that value is the one first read from the store.
pub proof fn lemma_flush_records_written_value(
    m: Map<Slot, StorageWord>,
    after: Map<Slot, StorageWord>,
    key: Slot,
    new_value: Word,
)
    requires
        recorded(m, after),
        m.contains_key(key),
        new_value@ != m[key].value@,
    ensures
        (StorageWord { value: new_value, known: after[key].known }).is_dirty(),
{
}

/// After a clear, reading a slot asks the host again, and takes what the host now holds.
pub proof fn lemma_clear_reads_fresh(key: Slot, w: Word)
    ensures
        word_access(Map::<Slot, StorageWord>::empty(), key) == Access::<Word>::Load(key),
        word_access(loaded(Map::<Slot, StorageWord>::empty(), key, w), key) == Access::Done(w),
{
}

/// Two writes to disjoint byte ranges of one word leave each other, and the bytes outside
/// both, untouched.
pub proof fn lemma_disjoint_writes(
    m0: Map<Slot, StorageWord>,
    m1: Map<Slot, StorageWord>,
    m2: Map<Slot, StorageWord>,
    key: Slot,
    oa: int,
    a: Seq<u8>,
    ob: int,
    b: Seq<u8>,
)
    requires
        m0.contains_key(key),
        0 <= oa,
        0 <= ob,
        a.len() < 32,
        b.len() < 32,
        oa + a.len() <= ob || ob + b.len() <= oa,
        oa + a.len() <= 32,
        ob + b.len() <= 32,
        wrote(m0, m1, key, oa, a),
        wrote(m1, m2, key, ob, b),
    ensures
        read_bytes(m2, key, oa, a.len() as int) == a,
        read_bytes(m2, key, ob, b.len() as int) == b,
        forall|j: int|
            0 <= j < 32 && !(oa <= j < oa + a.len()) && !(ob <= j < ob + b.len())
                ==> #[trigger] m2[key].value@[j] == m0[key].value@[j],
{
    assert(m1.dom().contains(key));
    assert(read_bytes(m2, key, oa, a.len() as int) =~= a);
    assert(read_bytes(m2, key, ob, b.len() as int) =~= b);
}

/// A length word of zero is an empty sequence.
pub proof fn lemma_zero_length(m: Map<Slot, StorageWord>, slot: Slot)
    requires
        m.contains_key(slot),
        m[slot].value@ == Seq::new(32, |i: int| 0u8),
    ensures
        vec_len(m, slot) == 0,
{
    lemma_be_nat_zeros(32);
}

/// After a push onto a sequence of length `n`, the length is `n + 1`.
pub proof fn lemma_push_length(
    mid: Map<Slot, StorageWord>,
    new: Map<Slot, StorageWord>,
    slot: Slot,
    n: nat,
)
    requires
        len_set(mid, new, slot, n + 1),
    ensures
        new.contains_key(slot),
        vec_len(new, slot) == n + 1,
{
    assert(new.dom().contains(slot));
}

/// After a push onto a sequence of length `n`, the length is `n + 1` and element `n` holds
/// the bytes written, unless the element's word is the length's own slot.
pub proof fn lemma_push_then_get<S: StorageType>(
    old: Map<Slot, StorageWord>,
    mid: Map<Slot, StorageWord>,
    new: Map<Slot, StorageWord>,
    slot: Slot,
    n: nat,
    e: S,
    b: Seq<u8>,
)
    requires
        1 <= S::spec_size() <= 32,
        is_element(e, slot, n),
        e.spec_slot() != slot,
        b.len() == S::spec_size(),
        b.len() == 32 || old.contains_key(e.spec_slot()),
        wrote(old, mid, e.spec_slot(), e.spec_offset() as int, b),
        len_set(mid, new, slot, n + 1),
    ensures
        vec_len(new, slot) == n + 1,
        new.contains_key(e.spec_slot()),
        read_bytes(new, e.spec_slot(), e.spec_offset() as int, b.len() as int) == b,
{
    lemma_element_fits(n, S::spec_size());
    lemma_write_then_read(old, mid, e.spec_slot(), e.spec_offset() as int, b);
    assert(new[e.spec_slot()] == mid[e.spec_slot()]);
}

/// Truncating to `m` and then pushing leaves every other element's bytes as they were:
/// element `m` alone is overwritten. This holds where the words involved are not the length's
/// own slot.
pub proof fn lemma_truncate_then_push_keeps_others<S: StorageType>(
    old: Map<Slot, StorageWord>,
    mid1: Map<Slot, StorageWord>,
    mid2: Map<Slot, StorageWord>,
    new: Map<Slot, StorageWord>,
    slot: Slot,
    m: nat,
    e: S,
    b: Seq<u8>,
    j: nat,
    f: S,
)
    requires
        1 <= S::spec_size() <= 32,
        len_set(old, mid1, slot, m),
        is_element(e, slot, m),
        b.len() == S::spec_size(),
        b.len() == 32 || mid1.contains_key(e.spec_slot()),
        wrote(mid1, mid2, e.spec_slot(), e.spec_offset() as int, b),
        len_set(mid2, new, slot, m + 1),
        is_element(f, slot, j),
        j != m,
        j <= usize::MAX,
        m <= usize::MAX,
        old.contains_key(f.spec_slot()),
        f.spec_slot() != slot,
        e.spec_slot() != slot,
        b.len() == 32 ==> f.spec_slot() != e.spec_slot(),
    ensures
        new.contains_key(f.spec_slot()),
        read_bytes(new, f.spec_slot(), f.spec_offset() as int, S::spec_size() as int) == read_bytes(
            old,
            f.spec_slot(),
            f.spec_offset() as int,
            S::spec_size() as int,
        ),
        vec_len(new, slot) == m + 1,
{
    let size = S::spec_size();
    lemma_element_fits(j, size);
    lemma_element_fits(m, size);
    assert(mid1[f.spec_slot()] == old[f.spec_slot()]);
    assert(mid1.dom().contains(f.spec_slot()));
    assert(new[f.spec_slot()] == mid2[f.spec_slot()]);
    if f.spec_slot() == e.spec_slot() {
        // Two elements of one word: their byte ranges are disjoint.
        let d = density(size);
        assert(d >= 1 && d * size <= 32) by (nonlinear_arith)
            requires
                d == 32nat / size,
                1 <= size <= 32,
        ;
        lemma_pow256_positive(32);
        assert(be_nat(f.spec_slot()@) == be_nat(e.spec_slot()@));
        assert(element_slot(slot, j, size) == element_slot(slot, m, size));
        lemma_same_word(slot, j, m, size);
        lemma_packing(slot, j, m, size);
        assert(read_bytes(new, f.spec_slot(), f.spec_offset() as int, size as int) =~= read_bytes(
            old,
            f.spec_slot(),
            f.spec_offset() as int,
            size as int,
        ));
    }
    assert(new.dom().contains(slot));
}

/// Two elements whose words are the same slot fall in the same group of `32 / size`.
proof fn lemma_same_word(slot: Slot, i: nat, j: nat, size: nat)
    requires
        1 <= size <= 32,
        i <= usize::MAX,
        j <= usize::MAX,
        element_slot(slot, i, size) == element_slot(slot, j, size),
    ensures
        i / density(size) == j / density(size),
{
    let d = density(size);
    assert(d >= 1) by (nonlinear_arith)
        requires
            d == 32nat / size,
            1 <= size <= 32,
    ;
    let qi = i / d;
    let qj = j / d;
    assert(qi <= i && qj <= j) by (nonlinear_arith)
        requires
            d >= 1,
            qi == i / d,
            qj == j / d,
    ;
    lemma_pow256_u64();
    lemma_pow256_monotone(8, 32);
    let p = pow256(32);
    let base = be_nat(keccak_of(slot@));
    let x = base + qi;
    let y = base + qj;
    vstd::arithmetic::div_mod::lemma_fundamental_div_mod(x as int, p as int);
    vstd::arithmetic::div_mod::lemma_fundamental_div_mod(y as int, p as int);
    let kx = x / p;
    let ky = y / p;
    assert(kx == ky) by (nonlinear_arith)
        requires
            x == p * kx + x % p,
            y == p * ky + y % p,
            x % p == y % p,
            x - y < p,
            y - x < p,
            p > 0,
    ;
}

/// Changing the length touches no other word: elements past a shortened length keep their
/// bytes until they are written again.
pub proof fn lemma_len_set_keeps_elements(
    old: Map<Slot, StorageWord>,
    new: Map<Slot, StorageWord>,
    slot: Slot,
    len: nat,
    k: Slot,
)
    requires
        len_set(old, new, slot, len),
        k != slot,
        old.contains_key(k),
    ensures
        new.contains_key(k),
        new[k] == old[k],
{
}

/// Elements `i` and `j` share a word when they fall in the same group of `32 / size`, and two
/// different elements of one word take disjoint bytes.
pub proof fn lemma_packing(slot: Slot, i: nat, j: nat, size: nat)
    requires
        1 <= size <= 32,
        i / density(size) == j / density(size),
        i != j,
    ensures
        element_slot(slot, i, size) == element_slot(slot, j, size),
        element_offset(i, size) + size <= element_offset(j, size) || element_offset(j, size)
            + size <= element_offset(i, size),
{
    let d = density(size);
    assert(d >= 1) by (nonlinear_arith)
        requires
            d == 32nat / size,
            1 <= size <= 32,
    ;
    let q = i / d;
    vstd::arithmetic::div_mod::lemma_fundamental_div_mod(i as int, d as int);
    vstd::arithmetic::div_mod::lemma_fundamental_div_mod(j as int, d as int);
    assert(i % d != j % d) by (nonlinear_arith)
        requires
            i == d * q + i % d,
            j == d * q + j % d,
            i != j,
    ;
    let x = i % d;
    let y = j % d;
    assert(x * size + size <= y * size || y * size + size <= x * size) by (nonlinear_arith)
        requires
            x != y,
            size >= 1,
    ;
}

} // verus!

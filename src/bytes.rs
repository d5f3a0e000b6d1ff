//! Big-endian byte strings and the integers they encode.
use vstd::prelude::*;

verus! {

/// A 32-byte storage word, most-significant byte first.
pub type Word = [u8; 32];

/// A 256-bit storage key, as its 32 big-endian bytes.
pub type Slot = [u8; 32];

/// `256^n`.
pub open spec fn pow256(n: nat) -> nat
    decreases n,
{
    if n == 0 {
        1
    } else {
        256 * pow256((n - 1) as nat)
    }
}

/// The unsigned integer whose big-endian bytes are `s`.
pub open spec fn be_nat(s: Seq<u8>) -> nat
    decreases s.len(),
{
    if s.len() == 0 {
        0
    } else {
        be_nat(s.drop_last()) * 256 + s.last() as nat
    }
}

/// The two's-complement value of the `w`-byte string whose unsigned value is `raw`.
pub open spec fn signed_of(raw: nat, w: nat) -> int {
    if w > 0 && raw >= pow256(w) / 2 {
        raw - pow256(w)
    } else {
        raw as int
    }
}

/// The `w`-byte two's-complement encoding of `v`, as an unsigned value.
pub open spec fn raw_of(v: int, w: nat) -> nat {
    if v < 0 {
        (v + pow256(w)) as nat
    } else {
        v as nat
    }
}

/// `word` with the bytes from `offset` on replaced by `bytes`.
pub open spec fn splice(word: Seq<u8>, offset: int, bytes: Seq<u8>) -> Seq<u8> {
    word.take(offset) + bytes + word.skip(offset + bytes.len())
}

pub proof fn lemma_pow256_positive(n: nat)
    ensures
        pow256(n) > 0,
    decreases n,
{
    if n > 0 {
        lemma_pow256_positive((n - 1) as nat);
    }
}

pub proof fn lemma_pow256_monotone(a: nat, b: nat)
    requires
        a <= b,
    ensures
        pow256(a) <= pow256(b),
    decreases b,
{
    if a < b {
        lemma_pow256_monotone(a, (b - 1) as nat);
        lemma_pow256_positive((b - 1) as nat);
    }
}

pub proof fn lemma_pow256_16()
    ensures
        pow256(16) == 0x1_0000_0000_0000_0000_0000_0000_0000_0000,
        pow256(15) == 0x1_0000_0000_0000_0000_0000_0000_0000_00,
{
    assert(pow256(0) == 1);
    assert(pow256(1) == 256 * pow256(0));
    assert(pow256(2) == 256 * pow256(1));
    assert(pow256(3) == 256 * pow256(2));
    assert(pow256(4) == 256 * pow256(3));
    assert(pow256(5) == 256 * pow256(4));
    assert(pow256(6) == 256 * pow256(5));
    assert(pow256(7) == 256 * pow256(6));
    assert(pow256(8) == 256 * pow256(7));
    assert(pow256(9) == 256 * pow256(8));
    assert(pow256(10) == 256 * pow256(9));
    assert(pow256(11) == 256 * pow256(10));
    assert(pow256(12) == 256 * pow256(11));
    assert(pow256(13) == 256 * pow256(12));
    assert(pow256(14) == 256 * pow256(13));
    assert(pow256(15) == 256 * pow256(14));
    assert(pow256(16) == 256 * pow256(15));
}

pub proof fn lemma_pow256_u64()
    ensures
        pow256(8) == 0x1_0000_0000_0000_0000,
{
    assert(pow256(0) == 1);
    assert(pow256(1) == 256 * pow256(0));
    assert(pow256(2) == 256 * pow256(1));
    assert(pow256(3) == 256 * pow256(2));
    assert(pow256(4) == 256 * pow256(3));
    assert(pow256(5) == 256 * pow256(4));
    assert(pow256(6) == 256 * pow256(5));
    assert(pow256(7) == 256 * pow256(6));
    assert(pow256(8) == 256 * pow256(7));
}

pub proof fn lemma_be_nat_bound(s: Seq<u8>)
    ensures
        be_nat(s) < pow256(s.len()),
    decreases s.len(),
{
    if s.len() > 0 {
        lemma_be_nat_bound(s.drop_last());
        let p = pow256((s.len() - 1) as nat);
        let h = be_nat(s.drop_last());
        assert(h * 256 + s.last() < p * 256) by (nonlinear_arith)
            requires
                h < p,
                s.last() < 256,
        ;
    }
}

pub proof fn lemma_be_nat_concat(a: Seq<u8>, b: Seq<u8>)
    ensures
        be_nat(a + b) == be_nat(a) * pow256(b.len()) + be_nat(b),
    decreases b.len(),
{
    if b.len() == 0 {
        assert(a + b =~= a);
        assert(pow256(0) == 1);
        assert(be_nat(b) == 0);
        assert(be_nat(a) * 1 == be_nat(a));
    } else {
        let b1 = b.drop_last();
        assert((a + b).drop_last() =~= a + b1);
        assert((a + b).last() == b.last());
        lemma_be_nat_concat(a, b1);
        let x = be_nat(a);
        let p = pow256(b1.len());
        let y = be_nat(b1);
        assert((x * p + y) * 256 + b.last() == x * (256 * p) + (y * 256 + b.last()))
            by (nonlinear_arith);
        assert(be_nat(a + b) == be_nat(a + b1) * 256 + b.last());
        assert(be_nat(b) == y * 256 + b.last());
        assert(pow256(b.len()) == 256 * p);
    }
}

pub proof fn lemma_be_nat_zeros(n: nat)
    ensures
        be_nat(Seq::new(n, |i: int| 0u8)) == 0,
    decreases n,
{
    if n > 0 {
        assert(Seq::new(n, |i: int| 0u8).drop_last() =~= Seq::new((n - 1) as nat, |i: int| 0u8));
        lemma_be_nat_zeros((n - 1) as nat);
    }
}

pub proof fn lemma_pow256_add(a: nat, b: nat)
    ensures
        pow256(a + b) == pow256(a) * pow256(b),
    decreases a,
{
    if a > 0 {
        lemma_pow256_add((a - 1) as nat, b);
        let p = pow256((a - 1) as nat);
        let q = pow256(b);
        assert(pow256(a + b) == 256 * pow256((a - 1 + b) as nat));
        assert(256 * (p * q) == (256 * p) * q) by (nonlinear_arith);
    } else {
        assert(pow256(0) == 1);
        assert(a + b == b);
    }
}

pub proof fn lemma_be_nat_ones(n: nat)
    ensures
        be_nat(Seq::new(n, |i: int| 0xffu8)) + 1 == pow256(n),
    decreases n,
{
    if n > 0 {
        let s = Seq::new(n, |i: int| 0xffu8);
        assert(s.drop_last() =~= Seq::new((n - 1) as nat, |i: int| 0xffu8));
        lemma_be_nat_ones((n - 1) as nat);
        assert(s.last() == 0xffu8);
        assert(be_nat(s) == be_nat(s.drop_last()) * 256 + 255);
        assert(pow256(n) == 256 * pow256((n - 1) as nat));
    } else {
        assert(Seq::new(n, |i: int| 0xffu8).len() == 0);
        assert(pow256(0) == 1);
    }
}

/// The leading byte of a string weighs `256^(len - 1)`.
pub proof fn lemma_be_nat_first(b: Seq<u8>)
    requires
        b.len() > 0,
    ensures
        be_nat(b) == b[0] * pow256((b.len() - 1) as nat) + be_nat(b.skip(1)),
{
    let h = seq![b[0]];
    assert(b =~= h + b.skip(1));
    lemma_be_nat_concat(h, b.skip(1));
    assert(h.drop_last() =~= Seq::<u8>::empty());
    assert(be_nat(h.drop_last()) == 0);
    assert(be_nat(h) == be_nat(h.drop_last()) * 256 + h.last());
    assert(be_nat(h) == b[0]);
}

/// A string's leading byte has its top bit set exactly when its value is in the upper half.
pub proof fn lemma_sign_bit(b: Seq<u8>)
    requires
        b.len() > 0,
    ensures
        (b[0] >= 128) == (be_nat(b) >= pow256(b.len()) / 2),
{
    lemma_be_nat_first(b);
    lemma_be_nat_bound(b.skip(1));
    let p = pow256((b.len() - 1) as nat);
    assert(pow256(b.len()) == 256 * p);
    let x = b[0] as nat;
    let r = be_nat(b.skip(1));
    assert((x >= 128) == (x * p + r >= (256 * p) / 2)) by (nonlinear_arith)
        requires
            r < p,
            x < 256,
    ;
}

/// Of a 32-byte string whose value fits in `w` bytes, the last `w` bytes hold that value.
pub proof fn lemma_low_bytes(v: Seq<u8>, w: nat)
    requires
        v.len() == 32,
        w <= 32,
        be_nat(v) < pow256(w),
    ensures
        be_nat(v.subrange(32 - w, 32)) == be_nat(v),
{
    let hi = v.subrange(0, 32 - w);
    let lo = v.subrange(32 - w, 32);
    assert(v =~= hi + lo);
    lemma_be_nat_concat(hi, lo);
    let x = be_nat(hi);
    let p = pow256(w);
    assert(x == 0) by (nonlinear_arith)
        requires
            x * p + be_nat(lo) < p,
    ;
}

/// `fill` repeated `32 - w` times, then `b`: the 32-byte extension of a `w`-byte string.
pub open spec fn extend(b: Seq<u8>, fill: u8) -> Seq<u8> {
    Seq::new((32 - b.len()) as nat, |i: int| fill) + b
}

/// The 32-byte word holding `b` in its last bytes and `fill` before.
pub fn widen(b: &[u8], fill: u8) -> (r: Word)
    requires
        b@.len() <= 32,
    ensures
        r@ == extend(b@, fill),
{
    let n = b.len();
    let mut w: Word = [fill; 32];
    let mut i: usize = 0;
    while i < n
        invariant
            n == b@.len() <= 32,
            i <= n,
            forall|j: int| 0 <= j < 32 - n ==> w@[j] == fill,
            forall|j: int| 32 - n <= j < 32 - n + i ==> w@[j] == b@[j - (32 - n)],
        decreases n - i,
    {
        w[32 - n + i] = b[i];
        i = i + 1;
    }
    assert(w@ =~= extend(b@, fill));
    w
}

/// The byte that extends `b` to 32 bytes with its value in two's complement kept.
pub open spec fn sign_fill(b: Seq<u8>) -> u8 {
    if b.len() > 0 && b[0] >= 128 {
        0xff
    } else {
        0
    }
}

/// Extending a string with copies of its sign keeps its two's-complement value.
pub proof fn lemma_sign_extend(b: Seq<u8>)
    requires
        1 <= b.len() <= 32,
    ensures
        signed_of(be_nat(extend(b, sign_fill(b))), 32) == signed_of(be_nat(b), b.len()),
{
    let w = b.len();
    let n = (32 - w) as nat;
    let fill = sign_fill(b);
    let f = Seq::new(n, |i: int| fill);
    let e = extend(b, fill);
    lemma_be_nat_concat(f, b);
    lemma_pow256_add(n, w);
    lemma_sign_bit(b);
    lemma_sign_bit(e);
    lemma_be_nat_bound(b);
    assert(e[0] == if n > 0 { fill } else { b[0] });
    let pn = pow256(n);
    let pw = pow256(w);
    let bb = be_nat(b);
    if fill == 0xff {
        lemma_be_nat_ones(n);
        assert((pn - 1) * pw + bb == pn * pw - pw + bb) by (nonlinear_arith);
    } else {
        assert(f =~= Seq::new(n, |i: int| 0u8));
        lemma_be_nat_zeros(n);
    }
}

/// The last `w` bytes of a 32-byte two's-complement value that fits in `w` bytes encode it.
pub proof fn lemma_sign_truncate(v: Seq<u8>, w: nat)
    requires
        v.len() == 32,
        1 <= w <= 32,
        -(pow256(w) / 2) <= signed_of(be_nat(v), 32) < pow256(w) / 2,
    ensures
        be_nat(v.subrange(32 - w, 32)) == raw_of(signed_of(be_nat(v), 32), w),
{
    let n = (32 - w) as nat;
    let hi = v.subrange(0, 32 - w);
    let lo = v.subrange(32 - w, 32);
    assert(v =~= hi + lo);
    lemma_be_nat_concat(hi, lo);
    lemma_pow256_add(n, w);
    lemma_be_nat_bound(hi);
    lemma_be_nat_bound(lo);
    lemma_pow256_positive((w - 1) as nat);
    assert(pow256(w) == 256 * pow256((w - 1) as nat));
    let pn = pow256(n);
    let pw = pow256(w);
    let h2 = pw / 2;
    assert(pw == 2 * h2);
    let x = be_nat(hi);
    let y = be_nat(lo);
    let big = be_nat(v);
    if big >= pow256(32) / 2 {
        assert(x == pn - 1) by (nonlinear_arith)
            requires
                x * pw + y >= pn * pw - h2,
                y < pw,
                x < pn,
                pw == 2 * h2,
                h2 > 0,
        ;
        assert((pn - 1) * pw == pn * pw - pw) by (nonlinear_arith);
    } else {
        lemma_low_bytes(v, w);
    }
}

/// The decoding of `s`'s bytes, most significant first.
pub fn decode_be(s: &[u8]) -> (r: u128)
    requires
        s@.len() <= 16,
    ensures
        r as nat == be_nat(s@),
{
    let mut acc: u128 = 0;
    let mut i: usize = 0;
    while i < s.len()
        invariant
            i <= s@.len() <= 16,
            acc as nat == be_nat(s@.take(i as int)),
        decreases s@.len() - i,
    {
        proof {
            let t = s@.take(i as int + 1);
            assert(t.drop_last() =~= s@.take(i as int));
            lemma_be_nat_bound(s@.take(i as int));
            lemma_pow256_monotone(i as nat, 15);
            lemma_pow256_16();
            assert(pow256(16) == 256 * pow256(15));
            assert(acc * 256 + s@[i as int] < pow256(16)) by (nonlinear_arith)
                requires
                    acc < pow256(i as nat),
                    pow256(i as nat) <= pow256(15),
                    s@[i as int] < 256,
                    pow256(16) == 256 * pow256(15),
            ;
        }
        acc = acc * 256 + s[i] as u128;
        i = i + 1;
    }
    assert(s@.take(s@.len() as int) =~= s@);
    acc
}

/// `256^n` for `n <= 15`.
pub fn pow256_exec(n: usize) -> (r: u128)
    requires
        n <= 15,
    ensures
        r as nat == pow256(n as nat),
{
    let mut r: u128 = 1;
    let mut i: usize = 0;
    while i < n
        invariant
            i <= n <= 15,
            r as nat == pow256(i as nat),
        decreases n - i,
    {
        proof {
            lemma_pow256_monotone(i as nat + 1, 15);
            lemma_pow256_16();
            assert(pow256(16) == 256 * pow256(15));
            assert(pow256(i as nat + 1) == 256 * pow256(i as nat));
        }
        r = r * 256;
        i = i + 1;
    }
    r
}

proof fn lemma_div_step(v: nat, q: nat)
    requires
        q > 0,
    ensures
        (v / (q * 256)) * 256 + (v / q) % 256 == v / q,
{
    vstd::arithmetic::div_mod::lemma_div_denominator(v as int, q as int, 256);
    vstd::arithmetic::div_mod::lemma_fundamental_div_mod((v / q) as int, 256);
}

/// The `w` big-endian bytes of `v`.
pub fn encode_be(v: u128, w: usize) -> (r: Vec<u8>)
    requires
        w <= 16,
        (v as nat) < pow256(w as nat),
    ensures
        r@.len() == w,
        be_nat(r@) == v as nat,
{
    let mut out: Vec<u8> = Vec::new();
    let mut i: usize = 0;
    proof {
        lemma_pow256_positive(w as nat);
        vstd::arithmetic::div_mod::lemma_basic_div(v as int, pow256(w as nat) as int);
    }
    while i < w
        invariant
            i <= w <= 16,
            (v as nat) < pow256(w as nat),
            out@.len() == i,
            be_nat(out@) == (v as nat) / pow256((w - i) as nat),
        decreases w - i,
    {
        let k: usize = w - 1 - i;
        let p: u128 = pow256_exec(k);
        proof {
            lemma_pow256_positive(k as nat);
        }
        let byte: u8 = ((v / p) % 256) as u8;
        proof {
            lemma_div_step(v as nat, pow256(k as nat));
            assert(pow256((w - i) as nat) == pow256(k as nat) * 256);
            assert(out@.push(byte).drop_last() =~= out@);
        }
        out.push(byte);
        i = i + 1;
    }
    assert(pow256(0) == 1);
    assert((v as nat) / 1 == v as nat);
    out
}

} // verus!

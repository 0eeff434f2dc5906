use vstd::arithmetic::power2::{lemma2_to64, lemma_pow2_pos, lemma_pow2_unfold, pow2};
use vstd::prelude::*;

verus! {

/// Number of one bits in the binary representation of `x`.
pub open spec fn popcount(x: nat) -> nat
    decreases x,
{
    if x == 0 {
        0
    } else {
        (x % 2) + popcount(x / 2)
    }
}

/// 1 for `true`, 0 for `false`.
pub open spec fn bool_count(b: bool) -> nat {
    if b {
        1
    } else {
        0
    }
}

/// `1 << n` when `b` holds, 0 otherwise.
pub open spec fn flag_bit(b: bool, n: u32) -> u32 {
    if b {
        1u32 << n
    } else {
        0u32
    }
}

/// 1 when `b` holds, 0 otherwise, as a word.
pub open spec fn bit_word(b: bool) -> u32 {
    if b {
        1u32
    } else {
        0u32
    }
}

/// The word of a flag is its count.
pub proof fn lemma_bit_word(b: bool)
    ensures
        bit_word(b) as nat == bool_count(b),
{
}

/// A flag counts one bit exactly when it is set.
pub proof fn lemma_popcount_flag(b: bool)
    ensures
        popcount(bool_count(b)) == bool_count(b),
{
    reveal_with_fuel(popcount, 2);
}

/// Zero has no one bits; doubling keeps the one bits; doubling and adding one adds one.
pub proof fn lemma_popcount_rules(x: nat)
    ensures
        popcount(0) == 0,
        popcount(2 * x) == popcount(x),
        popcount(2 * x + 1) == popcount(x) + 1,
{
    if x > 0 {
        assert((2 * x) / 2 == x);
        assert((2 * x) % 2 == 0);
    }
    assert((2 * x + 1) / 2 == x);
    assert((2 * x + 1) % 2 == 1);
}

/// A number never has more one bits than its value.
pub proof fn lemma_popcount_le(x: nat)
    ensures
        popcount(x) <= x,
    decreases x,
{
    if x != 0 {
        lemma_popcount_le(x / 2);
    }
}

/// Only zero has no one bits.
pub proof fn lemma_popcount_zero(x: nat)
    ensures
        popcount(x) == 0 <==> x == 0,
{
    if x != 0 {
        assert(x % 2 == 1 || x / 2 > 0);
        if x / 2 > 0 {
            assert(popcount(x / 2) > 0) by {
                lemma_popcount_pos(x / 2);
            }
        }
    }
}

proof fn lemma_popcount_pos(x: nat)
    requires
        x > 0,
    ensures
        popcount(x) > 0,
    decreases x,
{
    if x % 2 == 0 {
        lemma_popcount_pos(x / 2);
    }
}

/// The one bits of `hi` placed above `k` low bits `lo` are those of `hi` and of `lo`.
pub proof fn lemma_popcount_split(hi: nat, lo: nat, k: nat)
    requires
        lo < pow2(k),
    ensures
        popcount(hi * pow2(k) + lo) == popcount(hi) + popcount(lo),
    decreases k,
{
    if k == 0 {
        lemma2_to64();
        assert(pow2(k) == 1);
        assert(hi * pow2(k) == hi) by (nonlinear_arith)
            requires
                pow2(k) == 1,
        ;
    } else {
        lemma_pow2_unfold(k);
        lemma_pow2_pos((k - 1) as nat);
        let q = pow2((k - 1) as nat);
        let m = hi * q;
        assert(hi * pow2(k) == 2 * m) by (nonlinear_arith)
            requires
                pow2(k) == 2 * q,
                m == hi * q,
        ;
        assert(m == 0 ==> hi == 0) by (nonlinear_arith)
            requires
                m == hi * q,
                q > 0,
        ;
        lemma_popcount_split(hi, lo / 2, (k - 1) as nat);
        let x = 2 * m + lo;
        assert(x % 2 == lo % 2);
        assert(x / 2 == m + lo / 2);
    }
}

/// Counts the one bits of `x` (the value of `count_ones` on it).
pub fn count_ones(x: u32) -> (r: u32)
    ensures
        r == popcount(x as nat),
{
    let mut v: u32 = x;
    let mut c: u32 = 0;
    proof {
        lemma_popcount_le(x as nat);
    }
    while v != 0
        invariant
            c + popcount(v as nat) == popcount(x as nat),
            popcount(x as nat) <= x,
        decreases v,
    {
        c = c + v % 2;
        v = v / 2;
    }
    c
}

/// Reading and writing single bits of a machine word.
pub trait Bit: Sized {
    /// `n` names a bit of the word.
    spec fn bit_index_ok(n: Self) -> bool;

    /// Bit `n` of `self` is one.
    spec fn bit_is_set(&self, n: Self) -> bool;

    /// `self` with bit `n` set to `val` and every other bit unchanged.
    spec fn with_bit(&self, n: Self, val: bool) -> Self;

    fn set_bit(&mut self, n: Self, val: bool)
        requires
            Self::bit_index_ok(n),
        ensures
            *final(self) == old(self).with_bit(n, val),
    ;

    fn get_bit(&self, n: Self) -> (b: bool)
        requires
            Self::bit_index_ok(n),
        ensures
            b == self.bit_is_set(n),
    ;
}

impl Bit for u32 {
    open spec fn bit_index_ok(n: u32) -> bool {
        n < 32
    }

    open spec fn bit_is_set(&self, n: u32) -> bool {
        (*self >> n) & 1 == 1
    }

    open spec fn with_bit(&self, n: u32, val: bool) -> u32 {
        if val {
            *self | (1u32 << n)
        } else {
            *self & !(1u32 << n)
        }
    }

    fn set_bit(&mut self, n: u32, val: bool) {
        let mask: u32 = 1u32 << n;
        *self = if val {
            *self | mask
        } else {
            *self & !mask
        };
    }

    fn get_bit(&self, n: u32) -> (b: bool) {
        let mask: u32 = 1u32 << n;
        let r = (*self & mask) != 0;
        proof {
            let w = *self;
            assert(((w & (1u32 << n)) != 0) == ((w >> n) & 1 == 1)) by (bit_vector)
                requires
                    n < 32,
            ;
        }
        r
    }
}

impl Bit for u8 {
    open spec fn bit_index_ok(n: u8) -> bool {
        n < 8
    }

    open spec fn bit_is_set(&self, n: u8) -> bool {
        (*self >> n) & 1 == 1
    }

    open spec fn with_bit(&self, n: u8, val: bool) -> u8 {
        if val {
            *self | (1u8 << n)
        } else {
            *self & !(1u8 << n)
        }
    }

    fn set_bit(&mut self, n: u8, val: bool) {
        let mask: u8 = 1u8 << n;
        *self = if val {
            *self | mask
        } else {
            *self & !mask
        };
    }

    fn get_bit(&self, n: u8) -> (b: bool) {
        let mask: u8 = 1u8 << n;
        let r = (*self & mask) != 0;
        proof {
            let w = *self;
            assert(((w & (1u8 << n)) != 0) == ((w >> n) & 1 == 1)) by (bit_vector)
                requires
                    n < 8,
            ;
        }
        r
    }
}

impl Bit for u16 {
    open spec fn bit_index_ok(n: u16) -> bool {
        n < 16
    }

    open spec fn bit_is_set(&self, n: u16) -> bool {
        (*self >> n) & 1 == 1
    }

    open spec fn with_bit(&self, n: u16, val: bool) -> u16 {
        if val {
            *self | (1u16 << n)
        } else {
            *self & !(1u16 << n)
        }
    }

    fn set_bit(&mut self, n: u16, val: bool) {
        let mask: u16 = 1u16 << n;
        *self = if val {
            *self | mask
        } else {
            *self & !mask
        };
    }

    fn get_bit(&self, n: u16) -> (b: bool) {
        let mask: u16 = 1u16 << n;
        let r = (*self & mask) != 0;
        proof {
            let w = *self;
            assert(((w & (1u16 << n)) != 0) == ((w >> n) & 1 == 1)) by (bit_vector)
                requires
                    n < 16,
            ;
        }
        r
    }
}

impl Bit for u64 {
    open spec fn bit_index_ok(n: u64) -> bool {
        n < 64
    }

    open spec fn bit_is_set(&self, n: u64) -> bool {
        (*self >> n) & 1 == 1
    }

    open spec fn with_bit(&self, n: u64, val: bool) -> u64 {
        if val {
            *self | (1u64 << n)
        } else {
            *self & !(1u64 << n)
        }
    }

    fn set_bit(&mut self, n: u64, val: bool) {
        let mask: u64 = 1u64 << n;
        *self = if val {
            *self | mask
        } else {
            *self & !mask
        };
    }

    fn get_bit(&self, n: u64) -> (b: bool) {
        let mask: u64 = 1u64 << n;
        let r = (*self & mask) != 0;
        proof {
            let w = *self;
            assert(((w & (1u64 << n)) != 0) == ((w >> n) & 1 == 1)) by (bit_vector)
                requires
                    n < 64,
            ;
        }
        r
    }
}

/// Bit `n` of a `u8` is set exactly when the value divided by 2 to the `n` is odd.
pub proof fn lemma_u8_bit_value(w: u8, n: u8)
    requires
        n < 8,
    ensures
        w.bit_is_set(n) <==> (w as nat / pow2(n as nat)) % 2 == 1,
{
    vstd::bits::lemma_u8_shr_is_div(w, n);
    let x = w >> n;
    assert((x & 1 == 1) <==> (x % 2 == 1)) by (bit_vector);
}

/// Writing bit `n` of a `u8` and reading bit `m` back gives what was written when
/// `m == n`, and the old bit otherwise.
pub proof fn lemma_u8_get_after_set(w: u8, n: u8, m: u8, val: bool)
    requires
        n < 8,
        m < 8,
    ensures
        w.with_bit(n, val).bit_is_set(m) == if m == n {
            val
        } else {
            w.bit_is_set(m)
        },
{
    let one: u8 = 1;
    if val {
        assert(((w | (one << n)) >> m) & 1 == 1 <==> (m == n || (w >> m) & 1 == 1))
            by (bit_vector)
            requires
                n < 8,
                m < 8,
                one == 1,
        ;
    } else {
        assert(((w & !(one << n)) >> m) & 1 == 1 <==> (m != n && (w >> m) & 1 == 1))
            by (bit_vector)
            requires
                n < 8,
                m < 8,
                one == 1,
        ;
    }
}

/// Bit `n` of a `u16` is set exactly when the value divided by 2 to the `n` is odd.
pub proof fn lemma_u16_bit_value(w: u16, n: u16)
    requires
        n < 16,
    ensures
        w.bit_is_set(n) <==> (w as nat / pow2(n as nat)) % 2 == 1,
{
    vstd::bits::lemma_u16_shr_is_div(w, n);
    let x = w >> n;
    assert((x & 1 == 1) <==> (x % 2 == 1)) by (bit_vector);
}

/// Writing bit `n` of a `u16` and reading bit `m` back gives what was written when
/// `m == n`, and the old bit otherwise.
pub proof fn lemma_u16_get_after_set(w: u16, n: u16, m: u16, val: bool)
    requires
        n < 16,
        m < 16,
    ensures
        w.with_bit(n, val).bit_is_set(m) == if m == n {
            val
        } else {
            w.bit_is_set(m)
        },
{
    let one: u16 = 1;
    if val {
        assert(((w | (one << n)) >> m) & 1 == 1 <==> (m == n || (w >> m) & 1 == 1))
            by (bit_vector)
            requires
                n < 16,
                m < 16,
                one == 1,
        ;
    } else {
        assert(((w & !(one << n)) >> m) & 1 == 1 <==> (m != n && (w >> m) & 1 == 1))
            by (bit_vector)
            requires
                n < 16,
                m < 16,
                one == 1,
        ;
    }
}

/// Bit `n` of a `u32` is set exactly when the value divided by 2 to the `n` is odd.
pub proof fn lemma_u32_bit_value(w: u32, n: u32)
    requires
        n < 32,
    ensures
        w.bit_is_set(n) <==> (w as nat / pow2(n as nat)) % 2 == 1,
{
    vstd::bits::lemma_u32_shr_is_div(w, n);
    let x = w >> n;
    assert((x & 1 == 1) <==> (x % 2 == 1)) by (bit_vector);
}

/// Writing bit `n` of a `u32` and reading bit `m` back gives what was written when
/// `m == n`, and the old bit otherwise.
pub proof fn lemma_get_after_set(w: u32, n: u32, m: u32, val: bool)
    requires
        n < 32,
        m < 32,
    ensures
        w.with_bit(n, val).bit_is_set(m) == if m == n {
            val
        } else {
            w.bit_is_set(m)
        },
{
    let one: u32 = 1;
    if val {
        assert(((w | (one << n)) >> m) & 1 == 1 <==> (m == n || (w >> m) & 1 == 1))
            by (bit_vector)
            requires
                n < 32,
                m < 32,
                one == 1,
        ;
    } else {
        assert(((w & !(one << n)) >> m) & 1 == 1 <==> (m != n && (w >> m) & 1 == 1))
            by (bit_vector)
            requires
                n < 32,
                m < 32,
                one == 1,
        ;
    }
}

/// Bit `n` of a `u64` is set exactly when the value divided by 2 to the `n` is odd.
pub proof fn lemma_u64_bit_value(w: u64, n: u64)
    requires
        n < 64,
    ensures
        w.bit_is_set(n) <==> (w as nat / pow2(n as nat)) % 2 == 1,
{
    vstd::bits::lemma_u64_shr_is_div(w, n);
    let x = w >> n;
    assert((x & 1 == 1) <==> (x % 2 == 1)) by (bit_vector);
}

/// Writing bit `n` of a `u64` and reading bit `m` back gives what was written when
/// `m == n`, and the old bit otherwise.
pub proof fn lemma_u64_get_after_set(w: u64, n: u64, m: u64, val: bool)
    requires
        n < 64,
        m < 64,
    ensures
        w.with_bit(n, val).bit_is_set(m) == if m == n {
            val
        } else {
            w.bit_is_set(m)
        },
{
    let one: u64 = 1;
    if val {
        assert(((w | (one << n)) >> m) & 1 == 1 <==> (m == n || (w >> m) & 1 == 1))
            by (bit_vector)
            requires
                n < 64,
                m < 64,
                one == 1,
        ;
    } else {
        assert(((w & !(one << n)) >> m) & 1 == 1 <==> (m != n && (w >> m) & 1 == 1))
            by (bit_vector)
            requires
                n < 64,
                m < 64,
                one == 1,
        ;
    }
}

/// The 32-bit word whose big-endian bytes are `b[0..4]`.
pub open spec fn word_from_be(b: Seq<u8>) -> u32
    recommends
        b.len() == 4,
{
    ((b[0] as u32) << 24u32) | ((b[1] as u32) << 16u32) | ((b[2] as u32) << 8u32) | (b[3] as u32)
}

/// The big-endian bytes of `w`, most significant first.
pub open spec fn be_bytes(w: u32) -> Seq<u8> {
    seq![(w >> 24u32) as u8, (w >> 16u32) as u8, (w >> 8u32) as u8, w as u8]
}

/// Big-endian bytes of a word, most significant first (`u32::to_be_bytes`).
pub fn word_to_be_bytes(w: u32) -> (r: [u8; 4])
    ensures
        r@ == be_bytes(w),
{
    let r = [(w >> 24u32) as u8, (w >> 16u32) as u8, (w >> 8u32) as u8, w as u8];
    assert(r@ =~= be_bytes(w));
    r
}

/// The word of four big-endian bytes (`u32::from_be_bytes`).
pub fn word_from_be_bytes(b: [u8; 4]) -> (r: u32)
    ensures
        r == word_from_be(b@),
{
    ((b[0] as u32) << 24u32) | ((b[1] as u32) << 16u32) | ((b[2] as u32) << 8u32) | (b[3] as u32)
}

/// Reading back the bytes of a word gives the word.
pub proof fn lemma_be_word_roundtrip(w: u32)
    ensures
        word_from_be(be_bytes(w)) == w,
{
    let b0 = (w >> 24u32) as u8;
    let b1 = (w >> 16u32) as u8;
    let b2 = (w >> 8u32) as u8;
    let b3 = w as u8;
    assert(((b0 as u32) << 24u32) | ((b1 as u32) << 16u32) | ((b2 as u32) << 8u32) | (b3 as u32)
        == w) by (bit_vector)
        requires
            b0 == (w >> 24u32) as u8,
            b1 == (w >> 16u32) as u8,
            b2 == (w >> 8u32) as u8,
            b3 == w as u8,
    ;
}

/// Writing out the word of four bytes gives the same four bytes.
pub proof fn lemma_be_bytes_roundtrip(b: Seq<u8>)
    requires
        b.len() == 4,
    ensures
        be_bytes(word_from_be(b)) == b,
{
    let b0 = b[0];
    let b1 = b[1];
    let b2 = b[2];
    let b3 = b[3];
    let w = word_from_be(b);
    assert((w >> 24u32) as u8 == b0 && (w >> 16u32) as u8 == b1 && (w >> 8u32) as u8 == b2
        && w as u8 == b3) by (bit_vector)
        requires
            w == ((b0 as u32) << 24u32) | ((b1 as u32) << 16u32) | ((b2 as u32) << 8u32) | (
            b3 as u32),
    ;
    assert(be_bytes(w) =~= b);
}

} // verus!

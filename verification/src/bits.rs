//! Single bits of machine words.

use vstd::prelude::*;

verus! {

/// Bit `i` of a 32-bit word.
pub open spec fn bit32(w: u32, i: int) -> bool {
    (w >> (i as u32)) & 1 == 1
}

/// Bit `i` of a 64-bit word.
pub open spec fn bit64(w: u64, i: int) -> bool {
    (w >> (i as u64)) & 1 == 1
}

/// Setting one bit leaves the others alone.
pub proof fn lemma_set_bit32(w: u32, i: u32)
    requires
        i < 32,
    ensures
        forall|j: int|
            0 <= j < 32 ==> #[trigger] bit32(w | (1u32 << i), j) == (j == i || bit32(w, j)),
{
    assert forall|j: int| 0 <= j < 32 implies #[trigger] bit32(w | (1u32 << i), j) == (j == i
        || bit32(w, j)) by {
        let k: u32 = j as u32;
        assert(((w | (1u32 << i)) >> k) & 1 == 1 <==> (k == i || (w >> k) & 1 == 1)) by (bit_vector)
            requires
                i < 32,
                k < 32,
        ;
    }
}

/// A zero word has no bit set.
pub proof fn lemma_zero32()
    ensures
        forall|j: int| 0 <= j < 32 ==> !#[trigger] bit32(0, j),
{
    assert forall|j: int| 0 <= j < 32 implies !#[trigger] bit32(0, j) by {
        let k: u32 = j as u32;
        assert((0u32 >> k) & 1 == 0) by (bit_vector);
    }
}

/// Test bit `i` of a 32-bit word.
pub fn test_bit32(w: u32, i: u32) -> (b: bool)
    requires
        i < 32,
    ensures
        b == bit32(w, i as int),
{
    (w >> i) & 1 == 1
}

/// Number of set bits among the lowest `n` bits.
pub open spec fn bits_below(w: u64, n: nat) -> nat
    decreases n,
{
    if n == 0 {
        0
    } else {
        bits_below(w, (n - 1) as nat) + if bit64(w, n - 1) {
            1nat
        } else {
            0nat
        }
    }
}

/// Number of set bits of a word.
pub open spec fn ones64(w: u64) -> nat {
    bits_below(w, 64)
}

/// At most `n` of the lowest `n` bits are set.
pub proof fn lemma_bits_below_bound(w: u64, n: nat)
    ensures
        bits_below(w, n) <= n,
    decreases n,
{
    if n > 0 {
        lemma_bits_below_bound(w, (n - 1) as nat);
    }
}

/// Count the set bits of a word.
pub fn count_ones(w: u64) -> (n: u32)
    ensures
        n == ones64(w),
        n <= 64,
{
    let mut n: u32 = 0;
    let mut i: u64 = 0;
    while i < 64
        invariant
            i <= 64,
            n <= i,
            n == bits_below(w, i as nat),
        decreases 64 - i,
    {
        if (w >> i) & 1 == 1 {
            n = n + 1;
        }
        i = i + 1;
    }
    n
}

/// Total number of set bits of a sequence of words.
pub open spec fn ones_sum(words: Seq<u64>) -> nat
    decreases words.len(),
{
    if words.len() == 0 {
        0
    } else {
        ones_sum(words.drop_last()) + ones64(words.last())
    }
}

/// The positions (word, bit) of all set bits.
pub open spec fn ones_set(words: Seq<u64>) -> Set<(int, int)> {
    Set::new(|p: (int, int)| 0 <= p.0 < words.len() && 0 <= p.1 < 64 && bit64(words[p.0], p.1))
}

spec fn word_ones_set(i: int, w: u64, n: nat) -> Set<(int, int)> {
    Set::new(|p: (int, int)| p.0 == i && 0 <= p.1 < n && bit64(w, p.1))
}

proof fn lemma_word_ones(i: int, w: u64, n: nat)
    ensures
        word_ones_set(i, w, n).finite(),
        word_ones_set(i, w, n).len() == bits_below(w, n),
    decreases n,
{
    if n == 0 {
        assert(word_ones_set(i, w, n) =~= Set::empty());
    } else {
        let m = (n - 1) as nat;
        lemma_word_ones(i, w, m);
        if bit64(w, n - 1) {
            assert(word_ones_set(i, w, n) =~= word_ones_set(i, w, m).insert((i, n - 1)));
        } else {
            assert(word_ones_set(i, w, n) =~= word_ones_set(i, w, m));
        }
    }
}

/// The bit total is the number of set positions.
pub proof fn ones_sum_counts_positions(words: Seq<u64>)
    ensures
        ones_set(words).finite(),
        ones_set(words).len() == ones_sum(words),
    decreases words.len(),
{
    if words.len() == 0 {
        assert(ones_set(words) =~= Set::empty());
    } else {
        let rest = words.drop_last();
        let i = words.len() - 1;
        ones_sum_counts_positions(rest);
        lemma_word_ones(i, words.last(), 64);
        let last = word_ones_set(i, words.last(), 64);
        assert(ones_set(words) =~= ones_set(rest).union(last));
        assert(ones_set(rest).disjoint(last));
        vstd::set_lib::lemma_set_disjoint_lens(ones_set(rest), last);
    }
}

/// Longer prefixes hold at least as many set bits.
pub proof fn lemma_ones_sum_prefix(words: Seq<u64>, n: int)
    requires
        0 <= n <= words.len(),
    ensures
        ones_sum(words.take(n)) <= ones_sum(words),
        ones_sum(words) <= ones_sum(words.take(n)) + 64 * (words.len() - n),
    decreases words.len() - n,
{
    if n < words.len() {
        lemma_ones_sum_prefix(words, n + 1);
        assert(words.take(n + 1).drop_last() =~= words.take(n));
        lemma_bits_below_bound(words[n], 64);
    } else {
        assert(words.take(n) =~= words);
    }
}

/// Count the set bits of a slice of words.
pub fn count_ones_sum(words: &[u64]) -> (n: u32)
    requires
        ones_sum(words@) <= u32::MAX,
    ensures
        n == ones_sum(words@),
{
    let mut n: u32 = 0;
    let mut i: usize = 0;
    while i < words.len()
        invariant
            i <= words@.len(),
            n == ones_sum(words@.take(i as int)),
            ones_sum(words@) <= u32::MAX,
        decreases words@.len() - i,
    {
        proof {
            assert(words@.take(i + 1).drop_last() =~= words@.take(i as int));
            lemma_ones_sum_prefix(words@, i + 1);
        }
        n = n + count_ones(words[i]);
        i = i + 1;
    }
    proof {
        assert(words@.take(i as int) =~= words@);
    }
    n
}

/// A zero word has no bit set.
pub proof fn lemma_zero64()
    ensures
        forall|j: int| 0 <= j < 64 ==> !#[trigger] bit64(0, j),
{
    assert forall|j: int| 0 <= j < 64 implies !#[trigger] bit64(0, j) by {
        let k: u64 = j as u64;
        assert((0u64 >> k) & 1 == 0) by (bit_vector);
    }
}

/// A word without set bits is zero.
pub proof fn lemma_zero_if_no_bits(w: u64)
    requires
        forall|j: int| 0 <= j < 64 ==> !#[trigger] bit64(w, j),
    ensures
        w == 0,
{
    vstd::std_specs::bits::axiom_u64_trailing_zeros(w);
    if w != 0 {
        assert(bit64(w, vstd::std_specs::bits::u64_trailing_zeros(w) as int));
    }
}

/// Words with the same bits are the same.
pub proof fn lemma_same_bits(a: u32, b: u32)
    requires
        forall|j: int| 0 <= j < 32 ==> #[trigger] bit32(a, j) == bit32(b, j),
    ensures
        a == b,
{
    let d: u64 = (a ^ b) as u64;
    assert forall|j: int| 0 <= j < 64 implies !#[trigger] bit64(d, j) by {
        let k: u64 = j as u64;
        if j < 32 {
            let i: u32 = j as u32;
            assert(bit32(a, j) == bit32(b, j));
            assert((((a ^ b) as u64) >> k) & 1 == 1 <==> ((a >> i) & 1 == 1) != ((b >> i) & 1 == 1))
                by (bit_vector)
                requires
                    k == i as u64,
                    i < 32,
            ;
        } else {
            assert((((a ^ b) as u64) >> k) & 1 == 0) by (bit_vector)
                requires
                    32 <= k < 64,
            ;
        }
    }
    lemma_zero_if_no_bits(d);
    assert((a ^ b) as u64 == 0 ==> a == b) by (bit_vector);
}

/// Two 32-bit halves side by side.
pub proof fn lemma_join_halves(lo: u32, hi: u32)
    ensures
        forall|j: int|
            0 <= j < 64 ==> #[trigger] bit64(lo as u64 | ((hi as u64) << 32), j) == if j < 32 {
                bit32(lo, j)
            } else {
                bit32(hi, j - 32)
            },
{
    let w: u64 = lo as u64 | ((hi as u64) << 32);
    assert forall|j: int| 0 <= j < 64 implies #[trigger] bit64(w, j) == if j < 32 {
        bit32(lo, j)
    } else {
        bit32(hi, j - 32)
    } by {
        let k: u64 = j as u64;
        let k32: u32 = (if j < 32 { j } else { j - 32 }) as u32;
        assert(((lo as u64 | ((hi as u64) << 32)) >> k) & 1 == if k < 32 {
            ((lo >> k32) & 1) as u64
        } else {
            ((hi >> k32) & 1) as u64
        }) by (bit_vector)
            requires
                k < 64,
                k < 32 ==> k32 == k,
                k >= 32 ==> k32 == k - 32,
        ;
    }
}

/// Bits of a word shifted right by one.
pub proof fn lemma_shr1(w: u64)
    ensures
        forall|j: int|
            0 <= j < 64 ==> #[trigger] bit64(w >> 1, j) == (j < 63 && bit64(w, j + 1)),
{
    assert forall|j: int| 0 <= j < 64 implies #[trigger] bit64(w >> 1, j) == (j < 63 && bit64(
        w,
        j + 1,
    )) by {
        let k: u64 = j as u64;
        let k1: u64 = (j + 1) as u64;
        assert(((w >> 1) >> k) & 1 == 1 <==> (k < 63 && (w >> k1) & 1 == 1)) by (bit_vector)
            requires
                k < 64,
                k1 == k + 1,
        ;
    }
}

/// Bits of a word shifted left by one.
pub proof fn lemma_shl1(w: u64)
    ensures
        forall|j: int|
            0 <= j < 64 ==> #[trigger] bit64(w << 1, j) == (j > 0 && bit64(w, j - 1)),
{
    assert forall|j: int| 0 <= j < 64 implies #[trigger] bit64(w << 1, j) == (j > 0 && bit64(
        w,
        j - 1,
    )) by {
        let k: u64 = j as u64;
        let k1: u64 = if j > 0 {
            (j - 1) as u64
        } else {
            0
        };
        assert(((w << 1) >> k) & 1 == 1 <==> (k > 0 && (w >> k1) & 1 == 1)) by (bit_vector)
            requires
                k < 64,
                k > 0 ==> k1 == k - 1,
        ;
    }
}

/// Bits of one word where another word has none.
pub proof fn lemma_and_not(c: u64, n: u64)
    ensures
        forall|j: int|
            0 <= j < 64 ==> #[trigger] bit64(c & !n, j) == (bit64(c, j) && !bit64(n, j)),
{
    assert forall|j: int| 0 <= j < 64 implies #[trigger] bit64(c & !n, j) == (bit64(c, j)
        && !bit64(n, j)) by {
        let k: u64 = j as u64;
        assert(((c & !n) >> k) & 1 == 1 <==> ((c >> k) & 1 == 1 && (n >> k) & 1 != 1)) by (
        bit_vector)
            requires
                k < 64,
        ;
    }
}

/// Bits of a word under a mask of the lowest 62 bits.
pub proof fn lemma_mask62(w: u64)
    ensures
        forall|j: int|
            0 <= j < 64 ==> #[trigger] bit64(w & 0x3FFF_FFFF_FFFF_FFFF, j) == (j < 62 && bit64(
                w,
                j,
            )),
{
    assert forall|j: int| 0 <= j < 64 implies #[trigger] bit64(w & 0x3FFF_FFFF_FFFF_FFFF, j) == (j
        < 62 && bit64(w, j)) by {
        let k: u64 = j as u64;
        assert(((w & 0x3FFF_FFFF_FFFF_FFFF) >> k) & 1 == 1 <==> (k < 62 && (w >> k) & 1 == 1)) by (
        bit_vector)
            requires
                k < 64,
        ;
    }
}

/// The `width` bits of a word from bit `at` on.
pub open spec fn field32(w: u32, at: int, width: int) -> u32 {
    (w >> (at as u32)) & (((1u32 << (width as u32)) - 1) as u32)
}

/// Read the `width` bits of a word from bit `at` on.
pub fn read_field32(w: u32, at: u32, width: u32) -> (v: u32)
    requires
        at < 32,
        width < 32,
    ensures
        v == field32(w, at as int, width as int),
{
    assert(1u32 << width >= 1) by (bit_vector)
        requires
            width < 32,
    ;
    (w >> at) & ((1u32 << width) - 1)
}

/// Clearing one bit leaves the others alone.
pub proof fn lemma_clear_bit32(w: u32, i: u32)
    requires
        i < 32,
    ensures
        forall|j: int|
            0 <= j < 32 ==> #[trigger] bit32(w & !(1u32 << i), j) == (j != i && bit32(w, j)),
{
    assert forall|j: int| 0 <= j < 32 implies #[trigger] bit32(w & !(1u32 << i), j) == (j != i
        && bit32(w, j)) by {
        let k: u32 = j as u32;
        assert(((w & !(1u32 << i)) >> k) & 1 == 1 <==> (k != i && (w >> k) & 1 == 1)) by (
        bit_vector)
            requires
                i < 32,
                k < 32,
        ;
    }
}

/// Bits of a widened word.
pub proof fn lemma_widen(w: u32)
    ensures
        forall|j: int|
            0 <= j < 64 ==> #[trigger] bit64(w as u64, j) == (j < 32 && bit32(w, j)),
{
    assert forall|j: int| 0 <= j < 64 implies #[trigger] bit64(w as u64, j) == (j < 32 && bit32(
        w,
        j,
    )) by {
        let k: u64 = j as u64;
        let k32: u32 = if j < 32 {
            j as u32
        } else {
            0
        };
        assert(((w as u64) >> k) & 1 == 1 <==> (k < 32 && (w >> k32) & 1 == 1)) by (bit_vector)
            requires
                k < 64,
                k < 32 ==> k32 == k,
        ;
    }
}

/// Widths at which fields tile a 32-bit word.
pub open spec fn tiles_word(width: int) -> bool {
    width == 1 || width == 2 || width == 4 || width == 8
}

/// Writing a field above all set bits reads back and leaves lower fields alone.
pub proof fn lemma_put_field(w: u32, v: u32, at: u32, width: u32)
    requires
        tiles_word(width as int),
        at + width <= 32,
        at < 32,
        w >> at == 0,
        v == field32(v, 0, width as int),
    ensures
        field32(w | (v << at), at as int, width as int) == v,
        at + width < 32 ==> (w | (v << at)) >> ((at + width) as u32) == 0,
        forall|b: int|
            0 <= b && b + width <= at ==> #[trigger] field32(w | (v << at), b, width as int)
                == field32(w, b, width as int),
{
    let n: u32 = (at + width) as u32;
    let mask: u32 = ((1u32 << width) - 1) as u32;
    assert(1u32 << width >= 1) by (bit_vector)
        requires
            width == 1 || width == 2 || width == 4 || width == 8,
    ;
    assert(((w | (v << at)) >> at) & mask == v && (n < 32 ==> (w | (v << at)) >> n == 0)) by (
    bit_vector)
        requires
            width == 1 || width == 2 || width == 4 || width == 8,
            n == at + width,
            n <= 32,
            at < 32,
            w >> at == 0,
            mask == (1u32 << width) - 1,
            v == (v >> 0) & mask,
    ;
    assert forall|b: int| 0 <= b && b + width <= at implies #[trigger] field32(
        w | (v << at),
        b,
        width as int,
    ) == field32(w, b, width as int) by {
        let c: u32 = b as u32;
        assert(((w | (v << at)) >> c) & mask == (w >> c) & mask) by (bit_vector)
            requires
                width == 1 || width == 2 || width == 4 || width == 8,
                c + width <= at,
                at < 32,
                mask == (1u32 << width) - 1,
        ;
    }
}

/// A field never exceeds its width, and a value that fits is its own field.
pub proof fn lemma_field_of_small(v: u32, width: u32)
    requires
        tiles_word(width as int),
    ensures
        field32(v, 0, width as int) == field32(field32(v, 0, width as int), 0, width as int),
        v < (1u32 << width) ==> field32(v, 0, width as int) == v,
{
    let mask: u32 = ((1u32 << width) - 1) as u32;
    assert(1u32 << width >= 1) by (bit_vector)
        requires
            width == 1 || width == 2 || width == 4 || width == 8,
    ;
    assert(((v >> 0) & mask) == ((((v >> 0) & mask) >> 0) & mask) && (v < (1u32 << width) ==> (v
        >> 0) & mask == v)) by (bit_vector)
        requires
            width == 1 || width == 2 || width == 4 || width == 8,
            mask == (1u32 << width) - 1,
    ;
}

/// The two halves of a word of two 16-bit values.
pub proof fn lemma_halves(lo: u32, hi: u32)
    requires
        lo <= 0xFFFF,
        hi <= 0xFFFF,
    ensures
        lo | (hi << 16) == lo + hi * 0x1_0000,
        field32(lo | (hi << 16), 0, 16) == lo,
        field32(lo | (hi << 16), 16, 16) == hi,
{
    assert((1u32 << 16) - 1 == 0xFFFF) by (bit_vector);
    assert(lo | (hi << 16) == lo + hi * 0x1_0000 && ((lo | (hi << 16)) >> 0) & 0xFFFF == lo && ((lo
        | (hi << 16)) >> 16) & 0xFFFF == hi) by (bit_vector)
        requires
            lo <= 0xFFFF,
            hi <= 0xFFFF,
    ;
}

} // verus!

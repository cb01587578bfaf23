//! Bitmaps kept in bytes, least significant bit first.

use vstd::prelude::*;

verus! {

/// Whether bit `k` of `byte` is set.
pub open spec fn bit_of(byte: u8, k: u8) -> bool {
    byte & (1u8 << k) != 0
}

/// The bits of a run of bytes, eight to the byte.
pub open spec fn bits_of(bytes: Seq<u8>) -> Seq<bool> {
    Seq::new(8 * bytes.len(), |i: int| bit_of(bytes[i / 8], (i % 8) as u8))
}

/// How many bits are set.
pub open spec fn count_set(bits: Seq<bool>) -> nat
    decreases bits.len(),
{
    if bits.len() == 0 {
        0
    } else {
        count_set(bits.drop_last()) + if bits.last() {
            1nat
        } else {
            0nat
        }
    }
}

/// The bits `start..start + n` are all clear.
pub open spec fn run_free(used: Seq<bool>, start: int, n: int) -> bool {
    &&& 0 <= start
    &&& start + n <= used.len()
    &&& forall|j: int| start <= j < start + n ==> !used[j]
}

/// Whether the `n` pages from `start` on are all taken.
pub open spec fn run_taken(used: Seq<bool>, start: int, n: int) -> bool {
    forall|j: int| start <= j < start + n ==> used[j]
}

/// `start` is where the first run of `n` clear bits begins.
pub open spec fn is_first_fit(used: Seq<bool>, n: int, start: int) -> bool {
    &&& run_free(used, start, n)
    &&& forall|s: int| 0 <= s < start ==> !run_free(used, s, n)
}

/// The bits with `start..start + n` all given the value `value`.
pub open spec fn mark(used: Seq<bool>, start: int, n: int, value: bool) -> Seq<bool> {
    Seq::new(
        used.len(),
        |j: int|
            if start <= j < start + n {
                value
            } else {
                used[j]
            },
    )
}

pub fn test_bit(byte: u8, k: u8) -> (r: bool)
    requires
        k < 8,
    ensures
        r == bit_of(byte, k),
{
    byte & (1u8 << k) != 0
}

/// `byte` with bit `k` set.
pub fn with_bit(byte: u8, k: u8) -> (r: u8)
    requires
        k < 8,
    ensures
        forall|j: u8| j < 8 ==> bit_of(r, j) == (j == k || bit_of(byte, j)),
{
    let r = byte | (1u8 << k);
    assert forall|j: u8| j < 8 implies bit_of(r, j) == (j == k || bit_of(byte, j)) by {
        assert(((byte | (1u8 << k)) & (1u8 << j) != 0) == (j == k || (byte & (1u8 << j) != 0)))
            by (bit_vector)
            requires
                k < 8,
                j < 8,
        ;
    }
    r
}

/// `byte` with bit `k` clear.
pub fn without_bit(byte: u8, k: u8) -> (r: u8)
    requires
        k < 8,
    ensures
        forall|j: u8| j < 8 ==> bit_of(r, j) == (j != k && bit_of(byte, j)),
{
    let r = byte & !(1u8 << k);
    assert forall|j: u8| j < 8 implies bit_of(r, j) == (j != k && bit_of(byte, j)) by {
        assert(((byte & !(1u8 << k)) & (1u8 << j) != 0) == (j != k && (byte & (1u8 << j) != 0)))
            by (bit_vector)
            requires
                k < 8,
                j < 8,
        ;
    }
    r
}

/// A zero byte has no bit set.
pub proof fn lemma_zero_byte(k: u8)
    requires
        k < 8,
    ensures
        !bit_of(0u8, k),
{
    assert(0u8 & (1u8 << k) == 0) by (bit_vector);
}

/// Replacing one byte by one that differs in bit `i % 8` alone changes bit
/// `i` alone.
pub proof fn lemma_update_bit(bytes: Seq<u8>, i: int, byte: u8, value: bool)
    requires
        0 <= i < 8 * bytes.len(),
        forall|j: u8|
            j < 8 ==> bit_of(byte, j) == (if j == i % 8 {
                value
            } else {
                bit_of(bytes[i / 8], j)
            }),
    ensures
        bits_of(bytes.update(i / 8, byte)) == bits_of(bytes).update(i, value),
{
    let a = bits_of(bytes.update(i / 8, byte));
    let b = bits_of(bytes).update(i, value);
    assert forall|j: int| 0 <= j < a.len() implies a[j] == b[j] by {
        let k = (j % 8) as u8;
        if j / 8 == i / 8 {
            assert(bit_of(byte, k) == (if k == i % 8 {
                value
            } else {
                bit_of(bytes[i / 8], k)
            }));
        }
    }
    assert(a =~= b);
}

/// Changing one bit changes the count by one, or not at all.
pub proof fn lemma_count_update(bits: Seq<bool>, i: int, value: bool)
    requires
        0 <= i < bits.len(),
    ensures
        count_set(bits.update(i, value)) == count_set(bits) + (if value {
            1int
        } else {
            0int
        }) - (if bits[i] {
            1int
        } else {
            0int
        }),
    decreases bits.len(),
{
    let after = bits.update(i, value);
    if i == bits.len() - 1 {
        assert(after.drop_last() =~= bits.drop_last());
    } else {
        lemma_count_update(bits.drop_last(), i, value);
        assert(after.drop_last() =~= bits.drop_last().update(i, value));
    }
}

/// No more bits are set than there are.
pub proof fn lemma_count_bound(bits: Seq<bool>)
    ensures
        count_set(bits) <= bits.len(),
    decreases bits.len(),
{
    if bits.len() > 0 {
        lemma_count_bound(bits.drop_last());
    }
}

/// Bits that are all clear count zero.
pub proof fn lemma_count_clear(bits: Seq<bool>)
    requires
        forall|j: int| 0 <= j < bits.len() ==> !bits[j],
    ensures
        count_set(bits) == 0,
    decreases bits.len(),
{
    if bits.len() > 0 {
        lemma_count_clear(bits.drop_last());
    }
}

} // verus!

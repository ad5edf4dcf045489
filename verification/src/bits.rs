//! Bit-level foundations: the `bit_at` view of a 64-bit board, lemmas about
//! masking single squares in and out, and a verified population count.

use vstd::prelude::*;

verus! {

/// Whether square `sq` is set in the 64-bit board `bb`.
pub open spec fn bit_at(bb: u64, sq: u64) -> bool
    recommends
        sq < 64,
{
    (bb >> sq) & 1 == 1
}

/// The single-square mask for square `sq`.
pub open spec fn sq_mask(sq: u64) -> u64
    recommends
        sq < 64,
{
    1u64 << sq
}

/// `|` takes the union of the squares of both boards.
pub proof fn lemma_bit_or()
    by (bit_vector)
    ensures
        forall|x: u64, y: u64, i: u64|
            i < 64 ==> (#[trigger] bit_at(x | y, i) <==> bit_at(x, i) || bit_at(y, i)),
{
}

/// `&` takes the intersection of the squares of both boards.
pub proof fn lemma_bit_and()
    by (bit_vector)
    ensures
        forall|x: u64, y: u64, i: u64|
            i < 64 ==> (#[trigger] bit_at(x & y, i) <==> bit_at(x, i) && bit_at(y, i)),
{
}

/// A single-square mask holds exactly its own square.
pub proof fn lemma_bit_single()
    by (bit_vector)
    ensures
        forall|i: u64, j: u64| i < 64 && j < 64 ==> (#[trigger] bit_at(sq_mask(j), i) <==> i == j),
{
}

/// Clearing a square by `& !mask` leaves every other square alone.
pub proof fn lemma_bit_clear()
    by (bit_vector)
    ensures
        forall|x: u64, i: u64, j: u64|
            i < 64 && j < 64 ==> (#[trigger] bit_at(x & !sq_mask(j), i) <==> bit_at(x, i) && i != j),
{
}

/// Setting a square by `| mask` leaves every other square alone.
pub proof fn lemma_bit_set()
    by (bit_vector)
    ensures
        forall|x: u64, i: u64, j: u64|
            i < 64 && j < 64 ==> (#[trigger] bit_at(x | sq_mask(j), i) <==> bit_at(x, i) || i == j),
{
}

/// Complement flips every square.
pub proof fn lemma_bit_not()
    by (bit_vector)
    ensures
        forall|x: u64, i: u64| i < 64 ==> (#[trigger] bit_at(!x, i) <==> !bit_at(x, i)),
{
}

/// The empty board has no squares set.
pub proof fn lemma_bit_none()
    by (bit_vector)
    ensures
        forall|i: u64| i < 64 ==> !(#[trigger] bit_at(0, i)),
{
}

/// A board with no squares set is zero.
pub proof fn lemma_bit_zero(x: u64)
    requires
        forall|i: u64| i < 64 ==> !(#[trigger] bit_at(x, i)),
    ensures
        x == 0,
{
    lemma_bit_none();
    lemma_bit_ext(x, 0);
}

/// Boards that agree on every square are equal.
pub proof fn lemma_bit_ext(x: u64, y: u64)
    requires
        forall|i: u64| i < 64 ==> (#[trigger] bit_at(x, i) <==> bit_at(y, i)),
    ensures
        x == y,
{
    if x != y {
        let d = x ^ y;
        assert(d != 0) by (bit_vector)
            requires
                d == x ^ y && x != y,
        ;
        let j = vstd::std_specs::bits::u64_trailing_zeros(d) as u64;
        vstd::std_specs::bits::axiom_u64_trailing_zeros(d);
        assert(bit_at(x, j) != bit_at(y, j)) by (bit_vector)
            requires
                d == x ^ y && j < 64 && (d >> j) & 1 == 1,
        ;
    }
}

/// A board is nonzero exactly when some square is set.
pub proof fn lemma_nonzero_bit(x: u64)
    ensures
        x != 0 <==> exists|i: u64| i < 64 && #[trigger] bit_at(x, i),
{
    if x != 0 {
        vstd::std_specs::bits::axiom_u64_trailing_zeros(x);
        let j = vstd::std_specs::bits::u64_trailing_zeros(x) as u64;
        assert(j < 64 && bit_at(x, j));
    }
    if exists|i: u64| i < 64 && #[trigger] bit_at(x, i) {
        let i = choose|i: u64| i < 64 && #[trigger] bit_at(x, i);
        assert(x != 0) by (bit_vector)
            requires
                i < 64 && (x >> i) & 1 == 1,
        ;
    }
}

/// How many of the 64 squares below `n` are set in `bb`.
pub open spec fn count_bits_upto(bb: u64, n: nat) -> nat
    decreases n,
{
    if n == 0 {
        0
    } else {
        count_bits_upto(bb, (n - 1) as nat) + if bit_at(bb, (n - 1) as u64) {
            1nat
        } else {
            0nat
        }
    }
}

/// How many squares are set in `bb`.
pub open spec fn count_bits(bb: u64) -> nat {
    count_bits_upto(bb, 64)
}

/// A prefix count never exceeds the number of squares inspected.
pub proof fn lemma_count_bits_upto_bound(bb: u64, n: nat)
    ensures
        count_bits_upto(bb, n) <= n,
    decreases n,
{
    if n > 0 {
        lemma_count_bits_upto_bound(bb, (n - 1) as nat);
    }
}

/// The number of set squares is at most 64.
pub proof fn lemma_count_bits_bound(bb: u64)
    ensures
        count_bits(bb) <= 64,
{
    lemma_count_bits_upto_bound(bb, 64);
}

/// Population count of a 64-bit board.
pub fn pop_count(bb: u64) -> (r: u32)
    ensures
        r == count_bits(bb),
        r <= 64,
{
    let mut r: u32 = 0;
    let mut i: u64 = 0;
    while i < 64
        invariant
            i <= 64,
            r == count_bits_upto(bb, i as nat),
            r <= i,
        decreases 64 - i,
    {
        if (bb >> i) & 1 == 1 {
            r = r + 1;
        }
        i = i + 1;
    }
    r
}

/// XOR with the empty board changes nothing.
pub proof fn lemma_xor_zero()
    by (bit_vector)
    ensures
        forall|x: u64| #[trigger] (x ^ 0) == x,
{
}

/// A board holding exactly one square.
pub open spec fn is_single_bit(x: u64) -> bool {
    exists|j: u64| j < 64 && x == sq_mask(j)
}

/// Distinct squares have distinct masks.
pub proof fn lemma_sq_mask_inj()
    by (bit_vector)
    ensures
        forall|a: u64, b: u64|
            a < 64 && b < 64 && #[trigger] sq_mask(a) == #[trigger] sq_mask(b) ==> a == b,
{
}

/// The square of a one-square board is its number of trailing zeros.
pub proof fn lemma_single_bit_tz(x: u64)
    requires
        is_single_bit(x),
    ensures
        vstd::std_specs::bits::u64_trailing_zeros(x) < 64,
        x == sq_mask(vstd::std_specs::bits::u64_trailing_zeros(x) as u64),
{
    let j = choose|j: u64| j < 64 && x == sq_mask(j);
    assert(x != 0) by (bit_vector)
        requires
            x == 1u64 << j && j < 64,
    ;
    vstd::std_specs::bits::axiom_u64_trailing_zeros(x);
    let tz = vstd::std_specs::bits::u64_trailing_zeros(x) as u64;
    assert((x >> tz) & 1 == 1);
    assert(tz == j) by (bit_vector)
        requires
            x == 1u64 << j && j < 64 && tz < 64 && (x >> tz) & 1 == 1,
    ;
}

} // verus!

//! The frame checksum: a 16-bit cyclic redundancy check with generator
//! polynomial `x^16 + x^12 + x^5 + 1`, most significant bit first, over a
//! register that starts with all bits set.
//!
//! The register is a running value: it can be carried from one buffer to the
//! next, and a frame that ends with the register's own two bytes brings the
//! register to zero.

use super::wire::{spec_u16_to_be, write_u16_be};
use vstd::prelude::*;

verus! {

/// The register before any byte has been accumulated.
pub const INITIAL_VALUE: u16 = 0xFFFF;

/// The register after a whole frame, checksum included, that is intact.
pub const VALID_VALUE: u16 = 0;

/// The low sixteen coefficients of the generator polynomial.
pub const POLYNOMIAL: u16 = 0x1021;

/// The register after it has taken in one zero bit: shifted left by one, and
/// reduced by the generator polynomial when a bit falls off the top.
pub open spec fn spec_shift(crc: u16) -> u16 {
    if crc & 0x8000 != 0 {
        (crc << 1) ^ 0x1021
    } else {
        crc << 1
    }
}

/// The register after `n` shifts.
pub open spec fn spec_shifts(crc: u16, n: nat) -> u16
    decreases n,
{
    if n == 0 {
        crc
    } else {
        spec_shift(spec_shifts(crc, (n - 1) as nat))
    }
}

/// The register after one more byte: the byte is added into the high half and
/// the register is shifted once for each of its eight bits.
pub open spec fn spec_update(crc: u16, byte: u8) -> u16 {
    spec_shifts(crc ^ ((byte as u16) << 8), 8)
}

/// The register after all of `data`, taken in order, starting from `init`.
pub open spec fn spec_compute_partial(init: u16, data: Seq<u8>) -> u16
    decreases data.len(),
{
    if data.len() == 0 {
        init
    } else {
        spec_update(spec_compute_partial(init, data.drop_last()), data.last())
    }
}

/// The checksum of `data`: the register after `data`, starting afresh.
pub open spec fn spec_checksum(data: Seq<u8>) -> u16 {
    spec_compute_partial(INITIAL_VALUE, data)
}

/// Whether a register value marks an intact frame.
pub open spec fn spec_is_valid(checksum: u16) -> bool {
    checksum == VALID_VALUE
}

fn shift(crc: u16) -> (out: u16)
    ensures
        out == spec_shift(crc),
{
    if crc & 0x8000 != 0 {
        (crc << 1) ^ POLYNOMIAL
    } else {
        crc << 1
    }
}

fn update(crc: u16, byte: u8) -> (out: u16)
    ensures
        out == spec_update(crc, byte),
{
    let mut reg: u16 = crc ^ ((byte as u16) << 8);
    let mut k: usize = 0;
    while k < 8
        invariant
            k <= 8,
            reg == spec_shifts(crc ^ ((byte as u16) << 8), k as nat),
        decreases 8 - k,
    {
        reg = shift(reg);
        k += 1;
    }
    reg
}

/// Carries the register `init` over `buf` and returns the register reached.
pub fn compute_partial(init: u16, buf: &[u8]) -> (crc: u16)
    ensures
        crc == spec_compute_partial(init, buf@),
{
    let mut crc: u16 = init;
    let mut i: usize = 0;
    while i < buf.len()
        invariant
            i <= buf@.len(),
            crc == spec_compute_partial(init, buf@.take(i as int)),
        decreases buf@.len() - i,
    {
        proof {
            assert(buf@.take(i + 1).drop_last() =~= buf@.take(i as int));
        }
        crc = update(crc, buf[i]);
        i += 1;
    }
    proof {
        assert(buf@.take(i as int) =~= buf@);
    }
    crc
}

/// Whether `checksum`, taken over a whole frame, marks the frame intact.
pub fn is_valid(checksum: u16) -> (valid: bool)
    ensures
        valid == spec_is_valid(checksum),
{
    checksum == VALID_VALUE
}

/// Appends to `buf` the register that `checksum` reaches over `buf`, most
/// significant byte first.
pub fn append_partial_checksum(checksum: u16, buf: &mut Vec<u8>)
    ensures
        final(buf)@ == old(buf)@ + spec_u16_to_be(spec_compute_partial(checksum, old(buf)@)),
{
    let crc: u16 = compute_partial(checksum, buf.as_slice());
    write_u16_be(buf, crc);
}

/// Appends to `buf` its own checksum, most significant byte first.
pub fn append_checksum(buf: &mut Vec<u8>)
    ensures
        final(buf)@ == old(buf)@ + spec_u16_to_be(spec_checksum(old(buf)@)),
{
    append_partial_checksum(INITIAL_VALUE, buf);
}

proof fn lemma_shift_injective(x: u16, y: u16)
    by (bit_vector)
    requires
        spec_shift(x) == spec_shift(y),
    ensures
        x == y,
{
}

proof fn lemma_shift_small(x: u16)
    by (bit_vector)
    requires
        x < 0x8000,
    ensures
        spec_shift(x) == 2 * x,
{
}

proof fn lemma_shifts_injective(x: u16, y: u16, n: nat)
    requires
        spec_shifts(x, n) == spec_shifts(y, n),
    ensures
        x == y,
    decreases n,
{
    if n > 0 {
        lemma_shift_injective(spec_shifts(x, (n - 1) as nat), spec_shifts(y, (n - 1) as nat));
        lemma_shifts_injective(x, y, (n - 1) as nat);
    }
}

/// Eight shifts move a register that fits in its low half into the high half
/// without any reduction.
proof fn lemma_shifts_low_half(x: u16)
    requires
        x < 256,
    ensures
        spec_shifts(x, 8) == 256 * x,
{
    reveal_with_fuel(spec_shifts, 9);
    lemma_shift_small(x);
    lemma_shift_small((2 * x) as u16);
    lemma_shift_small((4 * x) as u16);
    lemma_shift_small((8 * x) as u16);
    lemma_shift_small((16 * x) as u16);
    lemma_shift_small((32 * x) as u16);
    lemma_shift_small((64 * x) as u16);
    lemma_shift_small((128 * x) as u16);
}

proof fn lemma_fold_high(crc: u16, byte: u8)
    by (bit_vector)
    ensures
        (crc ^ ((byte as u16) << 8)) < 256 <==> byte == crc / 256,
        (crc ^ ((byte as u16) << 8)) < 256 ==> (crc ^ ((byte as u16) << 8)) == crc % 256,
        (256 * (byte as u16)) as u16 ^ ((byte as u16) << 8) == 0,
{
}

proof fn lemma_xor_zero(x: u16, y: u16)
    by (bit_vector)
    requires
        x ^ y == 0,
    ensures
        x == y,
{
}

/// The register carried over `a` and then over `b` is the register carried
/// over `a` followed by `b`.
pub proof fn lemma_compute_partial_concat(init: u16, a: Seq<u8>, b: Seq<u8>)
    ensures
        spec_compute_partial(spec_compute_partial(init, a), b) == spec_compute_partial(
            init,
            a + b,
        ),
    decreases b.len(),
{
    if b.len() == 0 {
        assert(a + b =~= a);
    } else {
        lemma_compute_partial_concat(init, a, b.drop_last());
        assert((a + b).drop_last() =~= a + b.drop_last());
        assert((a + b).last() == b.last());
    }
}

/// The register carried over exactly two bytes is two updates.
pub proof fn lemma_compute_partial_pair(init: u16, hi: u8, lo: u8)
    ensures
        spec_compute_partial(init, seq![hi, lo]) == spec_update(spec_update(init, hi), lo),
{
    let pair = seq![hi, lo];
    let first = seq![hi];
    assert(pair.drop_last() =~= first);
    assert(first.drop_last() =~= Seq::<u8>::empty());
    assert(spec_compute_partial(init, first.drop_last()) == init);
    assert(spec_compute_partial(init, first) == spec_update(init, first.last()));
}

/// Two bytes bring the register `crc` to the valid value exactly when they
/// are the big-endian bytes of `crc` itself.
pub proof fn lemma_valid_iff_own_bytes(crc: u16, hi: u8, lo: u8)
    ensures
        spec_is_valid(spec_compute_partial(crc, seq![hi, lo])) <==> seq![hi, lo] == spec_u16_to_be(
            crc,
        ),
{
    lemma_compute_partial_pair(crc, hi, lo);
    let folded: u16 = crc ^ ((hi as u16) << 8);
    let mid: u16 = spec_update(crc, hi);
    let last: u16 = mid ^ ((lo as u16) << 8);
    lemma_fold_high(crc, hi);
    lemma_fold_high(mid, lo);
    lemma_shifts_low_half(lo as u16);
    lemma_shifts_low_half(0);
    if seq![hi, lo] == spec_u16_to_be(crc) {
        assert(hi == spec_u16_to_be(crc)[0] && lo == spec_u16_to_be(crc)[1]);
        assert(folded == lo as u16);
        assert(mid == 256 * (lo as u16));
        assert(last == 0);
    }
    if spec_update(mid, lo) == 0 {
        lemma_shifts_injective(last, 0, 8);
        lemma_xor_zero(mid, (lo as u16) << 8);
        lemma_xor_zero((256 * (lo as u16)) as u16, (lo as u16) << 8);
        lemma_shifts_injective(folded, lo as u16, 8);
        assert(seq![hi, lo] =~= spec_u16_to_be(crc));
    }
}

/// A buffer followed by its own checksum has the valid value as its checksum.
pub proof fn lemma_appended_checksum_is_valid(init: u16, data: Seq<u8>)
    ensures
        spec_is_valid(
            spec_compute_partial(init, data + spec_u16_to_be(spec_compute_partial(init, data))),
        ),
{
    let crc = spec_compute_partial(init, data);
    let tail = spec_u16_to_be(crc);
    lemma_compute_partial_concat(init, data, tail);
    assert(tail =~= seq![tail[0], tail[1]]);
    lemma_valid_iff_own_bytes(crc, tail[0], tail[1]);
}

} // verus!

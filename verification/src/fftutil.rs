//! Reading a bin of an FFT result with "modulo" indexing.
//!
//! For real-input FFTs, only half of the result is stored, since the result
//! is conjugate symmetric.  The symmetry gives the other half as well.

use vstd::prelude::*;

verus! {

/// A value read from an FFT result.
#[derive(Clone, Copy, Debug)]
pub struct Bin<T> {
    /// The stored value.
    pub value: T,
    /// Whether the bin is the complex conjugate of the stored value.
    pub conjugate: bool,
}

/// The bin number in `0 .. fft_size` that `i` stands for.
pub open spec fn wrapped(i: int, fft_size: int) -> int
    recommends
        fft_size > 0,
{
    i % fft_size
}

/// Whether bin `i` is stored as it is, at its wrapped position.
pub open spec fn is_stored(len: int, fft_size: int, i: int) -> bool {
    wrapped(i, fft_size) < len
}

/// The position in a result of `len` values that holds bin `i`, or its
/// conjugate where the bin itself is not stored.
pub open spec fn slot(len: int, fft_size: int, i: int) -> int {
    if is_stored(len, fft_size, i) {
        wrapped(i, fft_size)
    } else {
        fft_size - wrapped(i, fft_size)
    }
}

/// Whether a result of `len` values holds bin `i` or its conjugate.
pub open spec fn in_reach(len: int, fft_size: int, i: int) -> bool {
    fft_size > 0 && 0 <= slot(len, fft_size, i) < len
}

/// Bin `i` of a stored result.
pub open spec fn bin_of<T>(fft_result: Seq<T>, fft_size: int, i: int) -> Bin<T> {
    Bin {
        value: fft_result[slot(fft_result.len() as int, fft_size, i)],
        conjugate: !is_stored(fft_result.len() as int, fft_size, i),
    }
}

/// A result that stores more than half of the bins holds every bin or its
/// conjugate.  That is so for a complex input, which stores all of them, and
/// for a real input, which stores `fft_size / 2 + 1`.
pub proof fn lemma_every_bin_in_reach(len: int, fft_size: int, i: int)
    requires
        0 < fft_size < 2 * len,
    ensures
        in_reach(len, fft_size, i),
{
}

/// Bins repeat with the period `fft_size`.
pub proof fn lemma_bins_are_periodic<T>(fft_result: Seq<T>, fft_size: int, i: int, turns: int)
    requires
        fft_size > 0,
    ensures
        bin_of(fft_result, fft_size, i + turns * fft_size) == bin_of(fft_result, fft_size, i),
{
    vstd::arithmetic::div_mod::lemma_mod_multiples_vanish(turns, i, fft_size);
    assert(fft_size * turns + i == i + turns * fft_size) by (nonlinear_arith);
}

/// A bin inside the stored range is read as it is: no wrapping, no conjugate.
pub proof fn lemma_stored_bin_is_raw<T>(fft_result: Seq<T>, fft_size: int, i: int)
    requires
        0 <= i < fft_result.len(),
        i < fft_size,
    ensures
        bin_of(fft_result, fft_size, i) == (Bin { value: fft_result[i], conjugate: false }),
{
    vstd::arithmetic::div_mod::lemma_small_mod(i as nat, fft_size as nat);
}

/// Conjugate symmetry: a bin that is not stored is read as the conjugate of
/// its mirror image, which is stored.  These are the negative frequencies of a
/// real input.
pub proof fn lemma_mirror_is_conjugate<T>(fft_result: Seq<T>, fft_size: int, i: int)
    requires
        0 < fft_size,
        0 < i < fft_size,
        !is_stored(fft_result.len() as int, fft_size, i),
        is_stored(fft_result.len() as int, fft_size, fft_size - i),
    ensures
        bin_of(fft_result, fft_size, i).conjugate,
        bin_of(fft_result, fft_size, i).value == bin_of(fft_result, fft_size, fft_size - i).value,
        !bin_of(fft_result, fft_size, fft_size - i).conjugate,
{
    vstd::arithmetic::div_mod::lemma_small_mod(i as nat, fft_size as nat);
    vstd::arithmetic::div_mod::lemma_small_mod((fft_size - i) as nat, fft_size as nat);
}

/// The bin number in `0 .. fft_size` that `i` stands for.
pub fn wrap_bin(fft_size: usize, i: isize) -> (m: usize)
    requires
        fft_size > 0,
    ensures
        m == wrapped(i as int, fft_size as int),
        m < fft_size,
{
    if i >= 0 {
        let m = (i as usize) % fft_size;
        m
    } else {
        // -(i + 1) is the distance of i below -1, and does not overflow.
        let below: usize = (-(i + 1)) as usize;
        let r = below % fft_size;
        proof {
            let n = fft_size as int;
            let q = below as int / n;
            vstd::arithmetic::div_mod::lemma_fundamental_div_mod(below as int, n);
            assert(i as int == n * (-q - 1) + (n - 1 - r)) by (nonlinear_arith)
                requires
                    below as int == n * q + r,
                    below as int == -(i as int + 1),
            ;
            vstd::arithmetic::div_mod::lemma_fundamental_div_mod_converse(
                i as int,
                n,
                -q - 1,
                n - 1 - r,
            );
        }
        fft_size - 1 - r
    }
}

/// Return the bin with the wrapped number `m` from an FFT result buffer: the
/// stored value, or the conjugate of its mirror image.
pub fn get_wrapped_bin<T: Copy>(fft_result: &[T], fft_size: usize, m: usize) -> (bin: Bin<T>)
    requires
        m < fft_size,
        in_reach(fft_result@.len() as int, fft_size as int, m as int),
    ensures
        bin == bin_of(fft_result@, fft_size as int, m as int),
{
    proof {
        vstd::arithmetic::div_mod::lemma_small_mod(m as nat, fft_size as nat);
    }
    if m < fft_result.len() {
        // Always true for a complex FFT, since fft_result.len() == fft_size.
        // True for non-negative frequencies of a real-to-complex FFT.
        Bin { value: fft_result[m], conjugate: false }
    } else {
        // True for a real-to-complex FFT on negative frequencies.
        // Use conjugate symmetry to return the part which is not stored.
        Bin { value: fft_result[fft_size - m], conjugate: true }
    }
}

/// Return a bin from an FFT result buffer with "modulo" indexing.
///
/// A bin number below zero or from `fft_size` on is taken modulo `fft_size`.
/// Where the result does not store the bin, the value at its mirror position
/// is returned and marked as the conjugate.
pub fn get_bin<T: Copy>(fft_result: &[T], fft_size: usize, i: isize) -> (bin: Bin<T>)
    requires
        in_reach(fft_result@.len() as int, fft_size as int, i as int),
    ensures
        bin == bin_of(fft_result@, fft_size as int, i as int),
{
    let m = wrap_bin(fft_size, i);
    proof {
        vstd::arithmetic::div_mod::lemma_mod_twice(i as int, fft_size as int);
    }
    get_wrapped_bin(fft_result, fft_size, m)
}

} // verus!

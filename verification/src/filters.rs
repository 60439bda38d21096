//! The byte-shuffle filter and its inverse.
//!
//! Shuffling a buffer of `n` elements of `s` bytes each gathers the first byte
//! of every element, then the second byte of every element, and so on, which
//! makes the buffer compress better. Unshuffling puts the bytes back.

use vstd::arithmetic::div_mod::lemma_fundamental_div_mod;
use vstd::arithmetic::div_mod::lemma_fundamental_div_mod_converse;
use vstd::prelude::*;

use crate::error::ActiveStorageError;

verus! {

/// Whether a buffer of `len` bytes is a whole number of elements of `element_size` bytes.
pub open spec fn shuffle_fits(len: nat, element_size: nat) -> bool {
    element_size > 0 && len % element_size == 0
}

/// The shuffled form of `data`: byte `j` of element `k` moves to place `j * n + k`.
pub open spec fn shuffled(data: Seq<u8>, element_size: nat) -> Seq<u8> {
    let n = data.len() / element_size;
    Seq::new(data.len(), |i: int| data[(i % n as int) * element_size + i / n as int])
}

/// The buffer whose shuffled form is `data`: output byte `i` is input byte
/// `(i mod s) * n + (i div s)`.
pub open spec fn unshuffled(data: Seq<u8>, element_size: nat) -> Seq<u8> {
    let n = data.len() / element_size;
    Seq::new(data.len(), |i: int| data[(i % element_size as int) * n + i / element_size as int])
}

/// Splitting `i < a * b` as `(i mod a, i div a)` and swapping the roles of the
/// two parts lands on an index below `a * b` that splits back by `b`.
proof fn lemma_transpose_index(i: int, a: int, b: int)
    requires
        0 < a,
        0 < b,
        0 <= i < a * b,
    ensures
        0 <= i % a < a,
        0 <= i / a < b,
        0 <= (i % a) * b + i / a < a * b,
        ((i % a) * b + i / a) % b == i / a,
        ((i % a) * b + i / a) / b == i % a,
        (i / a) * a + i % a == i,
{
    let r = i % a;
    let q = i / a;
    lemma_fundamental_div_mod(i, a);
    assert(0 <= q < b) by (nonlinear_arith)
        requires
            i == a * q + r,
            0 <= r < a,
            0 <= i < a * b,
            0 < a,
    ;
    assert(0 <= r * b + q < a * b) by (nonlinear_arith)
        requires
            0 <= r < a,
            0 <= q < b,
    ;
    lemma_fundamental_div_mod_converse(r * b + q, b, r, q);
    assert(q * a == a * q) by (nonlinear_arith);
}

/// Unshuffling a shuffled buffer gives the buffer back.
pub proof fn lemma_unshuffle_shuffle(data: Seq<u8>, element_size: nat)
    requires
        shuffle_fits(data.len(), element_size),
    ensures
        unshuffled(shuffled(data, element_size), element_size) == data,
{
    let s = element_size as int;
    let n = (data.len() / element_size) as int;
    let mid = shuffled(data, element_size);
    lemma_fundamental_div_mod(data.len() as int, s);
    assert forall|i: int| 0 <= i < data.len() implies unshuffled(mid, element_size)[i]
        == data[i] by {
        assert(n > 0) by (nonlinear_arith)
            requires
                data.len() == s * n,
                0 <= i < data.len(),
                s > 0,
        ;
        lemma_transpose_index(i, s, n);
    }
    assert(unshuffled(mid, element_size) =~= data);
}

/// Shuffling an unshuffled buffer gives the buffer back.
pub proof fn lemma_shuffle_unshuffle(data: Seq<u8>, element_size: nat)
    requires
        shuffle_fits(data.len(), element_size),
    ensures
        shuffled(unshuffled(data, element_size), element_size) == data,
{
    let s = element_size as int;
    let n = (data.len() / element_size) as int;
    let mid = unshuffled(data, element_size);
    lemma_fundamental_div_mod(data.len() as int, s);
    assert forall|i: int| 0 <= i < data.len() implies shuffled(mid, element_size)[i]
        == data[i] by {
        assert(n > 0) by (nonlinear_arith)
            requires
                data.len() == s * n,
                0 <= i < data.len(),
                s > 0,
        ;
        assert(n * s == s * n) by (nonlinear_arith);
        lemma_transpose_index(i, n, s);
    }
    assert(shuffled(mid, element_size) =~= data);
}

/// Shuffles `data`, a buffer of elements of `element_size` bytes each.
///
/// Fails with `ShuffleSizeMismatch` when the buffer is not a whole number of
/// elements.
pub fn shuffle(data: &Vec<u8>, element_size: usize) -> (result: Result<
    Vec<u8>,
    ActiveStorageError,
>)
    ensures
        shuffle_fits(data@.len(), element_size as nat) ==> result is Ok && result->Ok_0@
            == shuffled(data@, element_size as nat),
        !shuffle_fits(data@.len(), element_size as nat) ==> result
            == Err::<Vec<u8>, ActiveStorageError>(ActiveStorageError::ShuffleSizeMismatch),
{
    let len = data.len();
    if element_size == 0 || len % element_size != 0 {
        return Err(ActiveStorageError::ShuffleSizeMismatch);
    }
    let n = len / element_size;
    let mut out: Vec<u8> = Vec::with_capacity(len);
    let mut i: usize = 0;
    proof {
        lemma_fundamental_div_mod(len as int, element_size as int);
        assert(n * element_size == element_size * n) by (nonlinear_arith);
    }
    while i < len
        invariant
            i <= len,
            len == data@.len(),
            element_size > 0,
            n == len / element_size,
            len == n * element_size,
            out@.len() == i,
            forall|k: int| 0 <= k < i ==> out@[k] == shuffled(data@, element_size as nat)[k],
        decreases len - i,
    {
        proof {
            assert(n > 0) by (nonlinear_arith)
                requires
                    len == n * element_size,
                    i < len,
                    element_size > 0,
            ;
            lemma_transpose_index(i as int, n as int, element_size as int);
        }
        out.push(data[(i % n) * element_size + i / n]);
        i += 1;
    }
    assert(out@ =~= shuffled(data@, element_size as nat));
    Ok(out)
}

/// Reverses the shuffle of `data`, a buffer of elements of `element_size` bytes each.
///
/// Fails with `ShuffleSizeMismatch` when the buffer is not a whole number of
/// elements.
pub fn unshuffle(data: &Vec<u8>, element_size: usize) -> (result: Result<
    Vec<u8>,
    ActiveStorageError,
>)
    ensures
        shuffle_fits(data@.len(), element_size as nat) ==> result is Ok && result->Ok_0@
            == unshuffled(data@, element_size as nat),
        !shuffle_fits(data@.len(), element_size as nat) ==> result
            == Err::<Vec<u8>, ActiveStorageError>(ActiveStorageError::ShuffleSizeMismatch),
{
    let len = data.len();
    if element_size == 0 || len % element_size != 0 {
        return Err(ActiveStorageError::ShuffleSizeMismatch);
    }
    let n = len / element_size;
    let mut out: Vec<u8> = Vec::with_capacity(len);
    let mut i: usize = 0;
    proof {
        lemma_fundamental_div_mod(len as int, element_size as int);
    }
    while i < len
        invariant
            i <= len,
            len == data@.len(),
            element_size > 0,
            n == len / element_size,
            len == element_size * n,
            out@.len() == i,
            forall|k: int| 0 <= k < i ==> out@[k] == unshuffled(data@, element_size as nat)[k],
        decreases len - i,
    {
        proof {
            assert(n > 0) by (nonlinear_arith)
                requires
                    len == element_size * n,
                    i < len,
                    element_size > 0,
            ;
            lemma_transpose_index(i as int, element_size as int, n as int);
        }
        out.push(data[(i % element_size) * n + i / element_size]);
        i += 1;
    }
    assert(out@ =~= unshuffled(data@, element_size as nat));
    Ok(out)
}

} // verus!

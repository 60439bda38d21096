//! Elements as bytes: reading, writing, and the in-place byte-order normaliser.

use vstd::arithmetic::div_mod::lemma_div_denominator;
use vstd::arithmetic::div_mod::lemma_fundamental_div_mod;
use vstd::arithmetic::div_mod::lemma_fundamental_div_mod_converse;
use vstd::prelude::*;

use crate::types::ByteOrder;

verus! {

/// 256 to the power `n`.
pub open spec fn pow256(n: nat) -> nat
    decreases n,
{
    if n == 0 {
        1
    } else {
        256 * pow256((n - 1) as nat)
    }
}

/// The number that `bytes` spell with the most significant byte first.
pub open spec fn be_value(bytes: Seq<u8>) -> nat
    decreases bytes.len(),
{
    if bytes.len() == 0 {
        0
    } else {
        be_value(bytes.drop_last()) * 256 + bytes.last() as nat
    }
}

/// The number that `bytes` spell with the least significant byte first.
pub open spec fn le_value(bytes: Seq<u8>) -> nat {
    be_value(bytes.reverse())
}

/// The number that `bytes` spell in the given byte order.
pub open spec fn decode(bytes: Seq<u8>, order: ByteOrder) -> nat {
    match order {
        ByteOrder::Big => be_value(bytes),
        ByteOrder::Little => le_value(bytes),
    }
}

/// Byte `i` of `value`, counted from the least significant.
pub open spec fn byte_of(value: nat, i: nat) -> u8 {
    ((value / pow256(i)) % 256) as u8
}

/// The `n` low bytes of `value` in the given byte order.
pub open spec fn encode(value: nat, n: nat, order: ByteOrder) -> Seq<u8> {
    match order {
        ByteOrder::Big => Seq::new(n, |i: int| byte_of(value, (n - 1 - i) as nat)),
        ByteOrder::Little => Seq::new(n, |i: int| byte_of(value, i as nat)),
    }
}

/// Element `index` of a buffer that holds elements of `size` bytes each.
pub open spec fn element_at(data: Seq<u8>, size: nat, index: int, order: ByteOrder) -> nat {
    decode(data.subrange(index * size, index * size + size), order)
}

/// Where byte `i` of a normalised buffer comes from: the mirrored place inside
/// its run of `size` bytes. A tail shorter than a run stays where it is.
pub open spec fn swap_index(i: int, size: nat, len: nat) -> int {
    if size == 0 || (i / size as int) * size + size > len {
        i
    } else {
        (i / size as int) * size + (size - 1 - i % size as int)
    }
}

/// `data` with the bytes of every full run of `size` bytes reversed.
pub open spec fn swapped(data: Seq<u8>, size: nat) -> Seq<u8> {
    Seq::new(data.len(), |i: int| data[swap_index(i, size, data.len())])
}

impl ByteOrder {
    /// The other byte order.
    pub open spec fn flipped(self) -> ByteOrder {
        match self {
            ByteOrder::Big => ByteOrder::Little,
            ByteOrder::Little => ByteOrder::Big,
        }
    }
}

pub proof fn lemma_pow256_small(n: nat)
    requires
        n <= 8,
    ensures
        pow256(n) <= 0x1_0000_0000_0000_0000,
        n <= 7 ==> pow256(n) <= 0x100_0000_0000_0000,
        n == 4 ==> pow256(n) == 0x1_0000_0000,
        n == 8 ==> pow256(n) == 0x1_0000_0000_0000_0000,
        pow256(n) >= 1,
{
    reveal_with_fuel(pow256, 10);
}

proof fn lemma_swap_index(r: int, t: int, size: nat, len: nat)
    requires
        0 <= r,
        0 <= t < size,
    ensures
        (r * size + t) / size as int == r,
        (r * size + t) % size as int == t,
        swap_index(r * size + t, size, len) == if r * size + size > len {
            r * size + t
        } else {
            r * size + (size - 1 - t)
        },
{
    lemma_fundamental_div_mod_converse(r * size + t, size as int, r, t);
}

/// Reads element `index` of `data`.
pub(crate) fn read_element(data: &Vec<u8>, index: usize, size: usize, order: ByteOrder) -> (value:
    u64)
    requires
        1 <= size <= 8,
        (index + 1) * size <= data.len(),
    ensures
        value == element_at(data@, size as nat, index as int, order),
        value < pow256(size as nat),
{
    assert(index * size + size == (index + 1) * size) by (nonlinear_arith);
    assert(0 <= index * size) by (nonlinear_arith);
    let base = index * size;
    let ghost run = data@.subrange(base as int, base + size);
    let ghost spelt = match order {
        ByteOrder::Big => run,
        ByteOrder::Little => run.reverse(),
    };
    let mut acc: u64 = 0;
    let mut i: usize = 0;
    while i < size
        invariant
            i <= size <= 8,
            base + size <= data.len(),
            run == data@.subrange(base as int, base + size),
            spelt == match order {
                ByteOrder::Big => run,
                ByteOrder::Little => run.reverse(),
            },
            acc == be_value(spelt.take(i as int)),
            acc < pow256(i as nat),
        decreases size - i,
    {
        let b = match order {
            ByteOrder::Big => data[base + i],
            ByteOrder::Little => data[base + size - 1 - i],
        };
        proof {
            lemma_pow256_small(i as nat);
            assert(spelt.take(i + 1).drop_last() == spelt.take(i as int));
            assert(spelt.take(i + 1).last() == b);
        }
        acc = acc * 256 + b as u64;
        i += 1;
    }
    proof {
        assert(spelt.take(size as int) == spelt);
        assert(run.reverse().reverse() == run);
    }
    acc
}

/// Appends the `size` low bytes of `value` to `out`.
pub(crate) fn write_element(out: &mut Vec<u8>, value: u64, size: usize, order: ByteOrder)
    requires
        size <= 8,
    ensures
        final(out)@ == old(out)@ + encode(value as nat, size as nat, order),
{
    let ghost before = out@;
    let mut i: usize = 0;
    let mut low: Vec<u8> = Vec::new();
    let mut rest: u64 = value;
    assert(pow256(0) == 1);
    while i < size
        invariant
            i <= size <= 8,
            low@.len() == i,
            rest == value as nat / pow256(i as nat),
            forall|k: int| 0 <= k < i ==> low@[k] == byte_of(value as nat, k as nat),
        decreases size - i,
    {
        proof {
            lemma_pow256_small(i as nat);
            lemma_div_denominator(value as int, pow256(i as nat) as int, 256);
            assert(pow256((i + 1) as nat) == pow256(i as nat) * 256);
        }
        low.push((rest % 256) as u8);
        rest = rest / 256;
        i += 1;
    }
    let mut j: usize = 0;
    while j < size
        invariant
            j <= size <= 8,
            low@.len() == size,
            forall|k: int| 0 <= k < size ==> low@[k] == byte_of(value as nat, k as nat),
            out@ == before + encode(value as nat, size as nat, order).take(j as int),
        decreases size - j,
    {
        let b = match order {
            ByteOrder::Big => low[size - 1 - j],
            ByteOrder::Little => low[j],
        };
        out.push(b);
        proof {
            let whole = encode(value as nat, size as nat, order);
            assert(whole.take(j + 1) == whole.take(j as int).push(b));
            assert(before + whole.take(j + 1) == (before + whole.take(j as int)).push(b));
        }
        j += 1;
    }
    proof {
        let whole = encode(value as nat, size as nat, order);
        assert(whole.take(size as int) == whole);
    }
}

/// Reverses the bytes of every full run of `size` bytes, in place. This turns
/// a buffer of elements in one byte order into the same elements in the other.
pub fn swap_bytes(data: &mut Vec<u8>, size: usize)
    ensures
        final(data)@ == swapped(old(data)@, size as nat),
{
    let ghost before = data@;
    let len = data.len();
    if size == 0 {
        assert(data@ == swapped(before, 0));
        return ;
    }
    let mut base: usize = 0;
    let ghost mut runs: int = 0;
    while size <= len - base
        invariant
            size > 0,
            len == before.len(),
            data@.len() == len,
            base <= len,
            0 <= runs,
            base == runs * size,
            forall|i: int| 0 <= i < base ==> data@[i] == before[swap_index(i, size as nat, len as nat)],
            forall|i: int| base <= i < len ==> data@[i] == before[i],
        decreases len - base,
    {
        let ghost entry = data@;
        let mut j: usize = 0;
        while j < size / 2
            invariant
                size > 0,
                j <= size / 2,
                base + size <= len,
                data@.len() == len,
                entry.len() == len,
                forall|i: int| 0 <= i < base ==> data@[i] == entry[i],
                forall|i: int| base + size <= i < len ==> data@[i] == entry[i],
                forall|i: int|
                    base <= i < base + size && (i < base + j || i >= base + size - j)
                        ==> #[trigger] data@[i] == entry[2 * base + size - 1 - i],
                forall|i: int| base + j <= i < base + size - j ==> data@[i] == entry[i],
            decreases size / 2 - j,
        {
            let lo = base + j;
            let hi = base + size - 1 - j;
            let a = data[lo];
            let b = data[hi];
            data.set(lo, b);
            data.set(hi, a);
            j += 1;
        }
        proof {
            assert forall|i: int| base <= i < base + size implies data@[i] == before[swap_index(
                i,
                size as nat,
                len as nat,
            )] by {
                let t = i - base;
                lemma_swap_index(runs, t, size as nat, len as nat);
                assert(data@[i] == entry[2 * base + size - 1 - i]);
            }
            assert((runs + 1) * size == runs * size + size) by (nonlinear_arith);
            runs = runs + 1;
            assert forall|i: int| 0 <= i < base + size implies data@[i] == before[swap_index(
                i,
                size as nat,
                len as nat,
            )] by {
                if i < base {
                    assert(data@[i] == entry[i]);
                }
            }
            assert forall|i: int| base + size <= i < len implies data@[i] == before[i] by {
                assert(data@[i] == entry[i]);
            }
        }
        base += size;
    }
    proof {
        assert forall|i: int| 0 <= i < len implies data@[i] == before[swap_index(
            i,
            size as nat,
            len as nat,
        )] by {
            if i >= base {
                let t = i - base;
                lemma_swap_index(runs, t, size as nat, len as nat);
            }
        }
        assert(data@ =~= swapped(before, size as nat));
    }
}

/// Normalising a buffer twice gives it back.
pub proof fn lemma_swap_twice(data: Seq<u8>, size: nat)
    ensures
        swapped(swapped(data, size), size) == data,
{
    let once = swapped(data, size);
    let len = data.len();
    assert forall|i: int| 0 <= i < len implies swapped(once, size)[i] == data[i] by {
        if size > 0 {
            let r = i / size as int;
            let t = i % size as int;
            lemma_fundamental_div_mod(i, size as int);
            assert(size * r == r * size) by (nonlinear_arith);
            assert(0 <= r) by (nonlinear_arith)
                requires
                    0 <= i,
                    size > 0,
                    r == i / size as int,
            ;
            lemma_swap_index(r, t, size, len);
            lemma_swap_index(r, size - 1 - t, size, len);
        }
    }
    assert(swapped(once, size) =~= data);
}

/// After normalising, element `index` read in one byte order is the element
/// that the buffer held in the other.
pub proof fn lemma_swapped_element(data: Seq<u8>, size: nat, index: int, order: ByteOrder)
    requires
        size > 0,
        0 <= index,
        (index + 1) * size <= data.len(),
    ensures
        element_at(swapped(data, size), size, index, order) == element_at(
            data,
            size,
            index,
            order.flipped(),
        ),
{
    let base = index * size;
    assert(base + size == (index + 1) * size) by (nonlinear_arith)
        requires
            base == index * size,
    ;
    assert(0 <= base) by (nonlinear_arith)
        requires
            base == index * size,
            0 <= index,
    ;
    let run = data.subrange(base, base + size);
    let mirrored = swapped(data, size).subrange(base, base + size);
    assert forall|t: int| 0 <= t < size implies mirrored[t] == run.reverse()[t] by {
        lemma_swap_index(index, t, size, data.len());
    }
    assert(mirrored =~= run.reverse());
    assert(run.reverse().reverse() =~= run);
}

proof fn lemma_pow256_positive(n: nat)
    ensures
        pow256(n) > 0,
    decreases n,
{
    if n > 0 {
        lemma_pow256_positive((n - 1) as nat);
    }
}

proof fn lemma_encode_be(value: nat, n: nat)
    requires
        value < pow256(n),
    ensures
        be_value(encode(value, n, ByteOrder::Big)) == value,
    decreases n,
{
    let bytes = encode(value, n, ByteOrder::Big);
    if n > 0 {
        let upper = encode(value / 256, (n - 1) as nat, ByteOrder::Big);
        assert forall|i: int| 0 <= i < n - 1 implies bytes.drop_last()[i] == upper[i] by {
            let k = (n - 2 - i) as nat;
            lemma_pow256_positive(k);
            lemma_div_denominator(value as int, 256, pow256(k) as int);
            assert(pow256(k + 1) == 256 * pow256(k));
        }
        assert(bytes.drop_last() =~= upper);
        assert(bytes.last() == byte_of(value, 0));
        assert(pow256(0) == 1);
        let unit = pow256(0);
        assert(value / unit == value) by (nonlinear_arith)
            requires
                unit == 1,
        ;
        lemma_encode_be(value / 256, (n - 1) as nat);
    }
}

/// Writing a number with enough bytes and reading it back gives the number.
pub proof fn lemma_encode_decode(value: nat, n: nat, order: ByteOrder)
    requires
        value < pow256(n),
    ensures
        decode(encode(value, n, order), order) == value,
        encode(value, n, order).len() == n,
{
    lemma_encode_be(value, n);
    assert(encode(value, n, ByteOrder::Little).reverse() =~= encode(value, n, ByteOrder::Big));
}

/// The two bytes of `x` as this machine keeps them in memory.
///
/// Calls `u16::to_ne_bytes`. Which byte comes first depends on the machine, so
/// the contract only says that the two bytes of `x` come back in one of the
/// two orders.
#[verifier::external_body]
fn native_bytes(x: u16) -> (bytes: [u8; 2])
    ensures
        bytes@ == encode(x as nat, 2, ByteOrder::Little) || bytes@ == encode(
            x as nat,
            2,
            ByteOrder::Big,
        ),
{
    x.to_ne_bytes()
}

/// The byte order of the machine that runs this code.
pub fn native_byte_order() -> ByteOrder {
    order_spelling_one(native_bytes(1))
}

/// The byte order in which `bytes` spell the number 1: little when the first
/// byte is 1, big otherwise. Where the bytes are 1 in either order, they are 1
/// in the order returned.
pub fn order_spelling_one(bytes: [u8; 2]) -> (order: ByteOrder)
    ensures
        order == if bytes@[0] == 1 {
            ByteOrder::Little
        } else {
            ByteOrder::Big
        },
        bytes@ == encode(1, 2, ByteOrder::Little) || bytes@ == encode(1, 2, ByteOrder::Big)
            ==> bytes@ == encode(1, 2, order),
{
    proof {
        assert(pow256(0) == 1);
        assert(pow256(1) == 256) by {
            reveal_with_fuel(pow256, 2);
        }
        let unit = pow256(0);
        let base = pow256(1);
        assert(1nat / unit == 1) by (nonlinear_arith)
            requires
                unit == 1,
        ;
        assert(1nat / base == 0) by (nonlinear_arith)
            requires
                base == 256,
        ;
        assert(byte_of(1, 0) == 1);
        assert(byte_of(1, 1) == 0);
        assert(encode(1, 2, ByteOrder::Little)[0] == 1);
        assert(encode(1, 2, ByteOrder::Big)[0] == 0);
    }
    if bytes[0] == 1 {
        ByteOrder::Little
    } else {
        ByteOrder::Big
    }
}

} // verus!

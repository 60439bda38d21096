//! The reduction kernels: count, sum, minimum, maximum and select over the
//! elements that a view selects and a missing-data policy lets through.

use vstd::prelude::*;

use crate::array::lemma_offset_bound;
use crate::array::lemma_max_offset_reverse;
use crate::array::offset_at;
use crate::array::offset_of;
use crate::array::ArrayView;
use crate::array::Layout;
use crate::array::Axis;
use crate::byte_order::element_at;
use crate::byte_order::encode;
use crate::byte_order::read_element;
use crate::byte_order::write_element;
use crate::error::ActiveStorageError;
use crate::missing::admits;
use crate::missing::admitted;
use crate::missing::Missing;
use crate::models::Response;
use crate::types::element_size;
use crate::types::ByteOrder;
use crate::types::DType;
use crate::types::Order;

verus! {

/// The reductions.
#[derive(Debug, Clone, Copy, PartialEq, Eq, Structural)]
pub enum Operation {
    Count,
    Max,
    Min,
    Select,
    Sum,
}

/// The terms of a floating-point sum, for the caller to add up.
#[derive(Debug, Clone, PartialEq, Eq)]
pub struct FloatTerms {
    /// `Float32` or `Float64`.
    pub dtype: DType,
    /// Bit patterns of the elements to add, in the order in which to add them.
    pub terms: Vec<u64>,
}

/// What a kernel hands back.
#[derive(Debug, Clone, PartialEq, Eq)]
pub enum Outcome {
    /// The finished response.
    Done(Response),
    /// A floating-point sum that is still to be added up: the elements that
    /// take part, in memory order. `float_sum_response` makes the response
    /// from their sum.
    Terms(FloatTerms),
}

/// The elements that `layout` selects from `data`, as bit patterns, in the order
/// of the walk over `axes`.
pub open spec fn elements_along(
    axes: Seq<Axis>,
    layout: Layout,
    data: Seq<u8>,
    host: ByteOrder,
) -> Seq<u64> {
    Seq::new(
        layout.len as nat,
        |k: int| element_at(data, layout.dtype.size(), offset_at(axes, k), host) as u64,
    )
}

/// The elements that `layout` selects from `data`, in the order in which they
/// lie in memory. The reductions go through them in this order.
pub open spec fn elements(layout: Layout, data: Seq<u8>, host: ByteOrder) -> Seq<u64> {
    elements_along(layout.memory_walk(), layout, data, host)
}

/// The bytes of the selected sub-array, laid out with its last axis varying
/// fastest.
pub open spec fn selected_bytes(layout: Layout, data: Seq<u8>) -> Seq<u8> {
    let size = layout.dtype.size() as int;
    Seq::new(
        (layout.len * size) as nat,
        |b: int| data[offset_at(layout.axes, b / size) * size + b % size],
    )
}

/// Whether an element takes part in a count or a sum: the policy lets it
/// through.
pub open spec fn counted(missing: Option<Missing>, dtype: DType) -> spec_fn(u64) -> bool {
    |bits: u64| admits(missing, dtype, bits)
}

/// Whether an element takes part in a minimum or maximum: the policy lets it
/// through and it is not a NaN.
pub open spec fn ranked(missing: Option<Missing>, dtype: DType) -> spec_fn(u64) -> bool {
    |bits: u64| admits(missing, dtype, bits) && !dtype.is_nan(bits)
}

/// The elements of `all` for which `keep` holds, in their order.
pub open spec fn kept(all: Seq<u64>, keep: spec_fn(u64) -> bool) -> Seq<u64>
    decreases all.len(),
{
    if all.len() == 0 {
        Seq::empty()
    } else if keep(all.last()) {
        kept(all.drop_last(), keep).push(all.last())
    } else {
        kept(all.drop_last(), keep)
    }
}

/// The elements of `all` for which `keep` does not hold, in their order.
pub open spec fn dropped(all: Seq<u64>, keep: spec_fn(u64) -> bool) -> Seq<u64> {
    kept(all, |bits: u64| !keep(bits))
}

/// Sum of the values of integer elements.
pub open spec fn sum_of(terms: Seq<u64>, dtype: DType) -> int
    decreases terms.len(),
{
    if terms.len() == 0 {
        0
    } else {
        sum_of(terms.drop_last(), dtype) + dtype.value(terms.last())
    }
}

/// The bit pattern that a wrapping sum leaves: the sum modulo 2^32 or 2^64.
pub open spec fn wrapped(dtype: DType, sum: int) -> nat {
    (sum % dtype.modulus()) as nat
}

/// Whether `all[i]` is the first of the smallest (or, with `largest`, of the
/// largest) of the elements for which `keep` holds.
pub open spec fn is_first_extreme(
    all: Seq<u64>,
    keep: spec_fn(u64) -> bool,
    dtype: DType,
    largest: bool,
    i: int,
) -> bool {
    &&& 0 <= i < all.len()
    &&& keep(all[i])
    &&& forall|j: int|
        0 <= j < all.len() && keep(#[trigger] all[j]) ==> before_or_equal(
            dtype,
            largest,
            all[i],
            all[j],
        )
    &&& forall|j: int|
        0 <= j < i && keep(#[trigger] all[j]) ==> dtype.value(all[j]) != dtype.value(all[i])
}

/// Whether `a` is at least as extreme as `b`.
pub open spec fn before_or_equal(dtype: DType, largest: bool, a: u64, b: u64) -> bool {
    if largest {
        dtype.value(a) >= dtype.value(b)
    } else {
        dtype.value(a) <= dtype.value(b)
    }
}

/// Whether `r` is the count of the elements that take part: one `int64` in
/// the machine's byte order.
pub open spec fn is_count(
    r: Response,
    layout: Layout,
    missing: Option<Missing>,
    data: Seq<u8>,
    host: ByteOrder,
) -> bool {
    &&& r.dtype == DType::Int64
    &&& r.shape@.len() == 0
    &&& r.count == kept(elements(layout, data, host), counted(missing, layout.dtype)).len()
    &&& r.body@ == encode(r.count as nat, 8, host)
}

/// Whether `r` is the wrapping sum of the integer elements that take part:
/// one element of the view's type in the machine's byte order, with the
/// number of terms as its count.
pub open spec fn is_sum(
    r: Response,
    layout: Layout,
    missing: Option<Missing>,
    data: Seq<u8>,
    host: ByteOrder,
) -> bool {
    let terms = kept(elements(layout, data, host), counted(missing, layout.dtype));
    &&& r.dtype == layout.dtype
    &&& r.shape@.len() == 0
    &&& r.count == terms.len()
    &&& r.body@ == encode(
        wrapped(layout.dtype, sum_of(terms, layout.dtype)),
        layout.dtype.size(),
        host,
    )
}

/// Whether `t` holds the elements that take part in a sum, in memory order.
pub open spec fn is_terms(
    t: FloatTerms,
    layout: Layout,
    missing: Option<Missing>,
    data: Seq<u8>,
    host: ByteOrder,
) -> bool {
    &&& t.dtype == layout.dtype
    &&& t.terms@ == kept(elements(layout, data, host), counted(missing, layout.dtype))
}

/// Whether `r` is the smallest (with `largest`, the largest) of the elements
/// that take part and are not NaN: the first such element in memory order, in
/// the machine's byte order, with the number of those elements as its count.
pub open spec fn is_extreme(
    r: Response,
    layout: Layout,
    missing: Option<Missing>,
    data: Seq<u8>,
    host: ByteOrder,
    largest: bool,
) -> bool {
    let all = elements(layout, data, host);
    let keep = ranked(missing, layout.dtype);
    &&& r.dtype == layout.dtype
    &&& r.shape@.len() == 0
    &&& r.count == kept(all, keep).len()
    &&& exists|i: int|
        is_first_extreme(all, keep, layout.dtype, largest, i) && r.body@ == encode(
            #[trigger] all[i] as nat,
            layout.dtype.size(),
            host,
        )
}

/// Whether `r` is the selected sub-array: its bytes as they are in `data`,
/// laid out with the last axis varying fastest, with the shape of the
/// selection and the number of its elements as the count.
pub open spec fn is_selection(r: Response, layout: Layout, data: Seq<u8>) -> bool {
    &&& r.dtype == layout.dtype
    &&& r.shape@ == layout.shape
    &&& r.count == layout.len
    &&& r.body@ == selected_bytes(layout, data)
}

/// Every element is either kept or dropped.
pub proof fn lemma_kept_dropped(all: Seq<u64>, keep: spec_fn(u64) -> bool)
    ensures
        kept(all, keep).len() + dropped(all, keep).len() == all.len(),
        kept(all, keep).len() <= all.len(),
    decreases all.len(),
{
    if all.len() > 0 {
        lemma_kept_dropped(all.drop_last(), keep);
    }
}

proof fn lemma_kept_step(all: Seq<u64>, k: int, keep: spec_fn(u64) -> bool)
    requires
        0 <= k < all.len(),
    ensures
        kept(all.take(k + 1), keep) == if keep(all[k]) {
            kept(all.take(k), keep).push(all[k])
        } else {
            kept(all.take(k), keep)
        },
{
    assert(all.take(k + 1).drop_last() =~= all.take(k));
    assert(all.take(k + 1).last() == all[k]);
}

proof fn lemma_in_bounds(view: &ArrayView, axes: Seq<Axis>, k: int)
    requires
        view.wf(),
        0 <= k < view.len,
        axes == view.axes@ || axes == view.axes@.reverse(),
    ensures
        0 <= offset_at(axes, k) < view.total,
        (offset_at(axes, k) + 1) * view.dtype.size() <= view@.byte_len(),
{
    lemma_max_offset_reverse(view.axes@);
    assert(crate::array::all_positive(axes));
    lemma_offset_bound(axes, k);
    let off = offset_at(axes, k);
    let size = view.dtype.size() as int;
    let total = view.total as int;
    assert((off + 1) * size <= total * size) by (nonlinear_arith)
        requires
            0 <= off < total,
            size >= 0,
    ;
}

/// The number of elements of a view fits a signed 64-bit count.
proof fn lemma_len_fits(view: &ArrayView)
    requires
        view.wf(),
    ensures
        view.len <= 0x7fff_ffff_ffff_ffff,
        view.len * view.dtype.size() <= usize::MAX,
{
    let size = view.dtype.size() as int;
    let total = view.total as int;
    let len = view.len as int;
    assert(total * 4 <= total * size) by (nonlinear_arith)
        requires
            size >= 4,
            total >= 0,
    ;
    assert(len * size <= total * size) by (nonlinear_arith)
        requires
            0 <= len <= total,
            size >= 0,
    ;
}

/// Reads the `k`-th element of the walk through memory.
fn element(view: &ArrayView, data: &Vec<u8>, host: ByteOrder, k: usize) -> (bits: u64)
    requires
        view.wf(),
        data@.len() == view@.byte_len(),
        k < view.len,
    ensures
        bits == elements(view@, data@, host)[k as int],
        view.dtype.holds(bits),
{
    let first_fastest = match view.order {
        Order::C => false,
        Order::F => true,
    };
    proof {
        lemma_in_bounds(view, view@.memory_walk(), k as int);
        crate::byte_order::lemma_pow256_small(view.dtype.size());
    }
    let off = offset_of(&view.axes, k, first_fastest);
    read_element(data, off, element_size(view.dtype) as usize, host)
}

/// The number of elements that take part, as a response.
///
/// The result is one `int64` in the machine's byte order.
pub fn count(view: &ArrayView, missing: &Option<Missing>, data: &Vec<u8>, host: ByteOrder) -> (r:
    Response)
    requires
        view.wf(),
        data@.len() == view@.byte_len(),
    ensures
        is_count(r, view@, *missing, data@, host),
{
    let ghost all = elements(view@, data@, host);
    let ghost keep = counted(*missing, view.dtype);
    let mut n: usize = 0;
    let mut k: usize = 0;
    assert(all.take(0) =~= Seq::<u64>::empty());
    while k < view.len
        invariant
            k <= view.len,
            view.wf(),
            data@.len() == view@.byte_len(),
            all == elements(view@, data@, host),
            keep == counted(*missing, view.dtype),
            n == kept(all.take(k as int), keep).len(),
            n <= k,
        decreases view.len - k,
    {
        let bits = element(view, data, host, k);
        proof {
            lemma_kept_step(all, k as int, keep);
        }
        if admitted(missing, view.dtype, bits) {
            n += 1;
        }
        k += 1;
    }
    assert(all.take(view.len as int) =~= all);
    proof {
        lemma_len_fits(view);
    }
    let mut body: Vec<u8> = Vec::new();
    write_element(&mut body, n as u64, 8, host);
    assert(body@ =~= encode(n as nat, 8, host));
    Response { body, dtype: DType::Int64, shape: Vec::new(), count: n as i64 }
}

/// Adding an element to a sum and wrapping is adding its bit pattern to the
/// wrapped sum and wrapping.
proof fn lemma_wrapping_step(dtype: DType, sum: int, bits: u64)
    requires
        !dtype.is_float(),
        dtype.holds(bits),
    ensures
        wrapped(dtype, sum + dtype.value(bits)) == (wrapped(dtype, sum) + bits) % dtype.modulus(),
{
    let m = dtype.modulus();
    let v = dtype.value(bits);
    assert(v == bits || v == bits - m);
    if v != bits {
        vstd::arithmetic::div_mod::lemma_mod_sub_multiples_vanish(bits as int, m);
    }
    assert(v % m == bits as int % m);
    vstd::arithmetic::div_mod::lemma_add_mod_noop(sum, v, m);
    vstd::arithmetic::div_mod::lemma_add_mod_noop(sum, bits as int, m);
    vstd::arithmetic::div_mod::lemma_add_mod_noop(sum % m, bits as int, m);
    vstd::arithmetic::div_mod::lemma_mod_twice(sum, m);
}

/// Adds two bit patterns of `dtype` modulo 2^32 or 2^64.
fn wrapping_sum(dtype: DType, acc: u64, bits: u64) -> (next: u64)
    requires
        dtype.holds(acc),
        dtype.holds(bits),
    ensures
        next == (acc + bits) % dtype.modulus(),
        dtype.holds(next),
{
    if element_size(dtype) == 4 {
        (acc + bits) % 0x1_0000_0000
    } else {
        ((acc as u128 + bits as u128) % 0x1_0000_0000_0000_0000u128) as u64
    }
}

/// The wrapping sum of the integer elements that take part, as a response.
///
/// The result is one element of the view's type in the machine's byte order;
/// with nothing to add it is zero.
pub fn sum(view: &ArrayView, missing: &Option<Missing>, data: &Vec<u8>, host: ByteOrder) -> (r:
    Response)
    requires
        view.wf(),
        data@.len() == view@.byte_len(),
        !view.dtype.is_float(),
    ensures
        is_sum(r, view@, *missing, data@, host),
{
    let ghost all = elements(view@, data@, host);
    let ghost keep = counted(*missing, view.dtype);
    let dtype = view.dtype;
    let size = element_size(dtype);
    let mut n: usize = 0;
    let mut acc: u64 = 0;
    let mut k: usize = 0;
    assert(all.take(0) =~= Seq::<u64>::empty());
    while k < view.len
        invariant
            k <= view.len,
            view.wf(),
            dtype == view.dtype,
            !dtype.is_float(),
            size == dtype.size(),
            data@.len() == view@.byte_len(),
            all == elements(view@, data@, host),
            keep == counted(*missing, view.dtype),
            n == kept(all.take(k as int), keep).len(),
            n <= k,
            dtype.holds(acc),
            acc == wrapped(dtype, sum_of(kept(all.take(k as int), keep), dtype)),
        decreases view.len - k,
    {
        let bits = element(view, data, host, k);
        proof {
            lemma_kept_step(all, k as int, keep);
            let before = kept(all.take(k as int), keep);
            assert(before.push(bits).drop_last() =~= before);
        }
        if admitted(missing, dtype, bits) {
            n += 1;
            proof {
                lemma_wrapping_step(dtype, sum_of(kept(all.take(k as int), keep), dtype), bits);
            }
            acc = wrapping_sum(dtype, acc, bits);
        }
        k += 1;
    }
    assert(all.take(view.len as int) =~= all);
    proof {
        lemma_len_fits(view);
    }
    let mut body: Vec<u8> = Vec::new();
    write_element(&mut body, acc, size as usize, host);
    assert(body@ =~= encode(acc as nat, size as nat, host));
    Response { body, dtype, shape: Vec::new(), count: n as i64 }
}

/// The elements of a floating-point view that take part in a sum, for the
/// caller to add up in the order given.
pub fn float_terms(view: &ArrayView, missing: &Option<Missing>, data: &Vec<u8>, host: ByteOrder) -> (t:
    FloatTerms)
    requires
        view.wf(),
        data@.len() == view@.byte_len(),
    ensures
        is_terms(t, view@, *missing, data@, host),
        t.terms@.len() <= view.len,
{
    let ghost all = elements(view@, data@, host);
    let ghost keep = counted(*missing, view.dtype);
    let mut terms: Vec<u64> = Vec::new();
    let mut k: usize = 0;
    assert(all.take(0) =~= Seq::<u64>::empty());
    while k < view.len
        invariant
            k <= view.len,
            view.wf(),
            data@.len() == view@.byte_len(),
            all == elements(view@, data@, host),
            keep == counted(*missing, view.dtype),
            terms@ == kept(all.take(k as int), keep),
            terms@.len() <= k,
        decreases view.len - k,
    {
        let bits = element(view, data, host, k);
        proof {
            lemma_kept_step(all, k as int, keep);
        }
        if admitted(missing, view.dtype, bits) {
            terms.push(bits);
        }
        k += 1;
    }
    assert(all.take(view.len as int) =~= all);
    FloatTerms { dtype: view.dtype, terms }
}

/// The response to a floating-point sum, from the sum that the caller
/// computed over `count` terms.
///
/// Fails with `InternalError` when `sum_bits` is not a bit pattern of `dtype`
/// or `count` does not fit the response.
pub fn float_sum_response(dtype: DType, sum_bits: u64, count: usize, host: ByteOrder) -> (result:
    Result<Response, ActiveStorageError>)
    ensures
        result is Ok <==> dtype.holds(sum_bits) && count <= 0x7fff_ffff_ffff_ffff,
        result matches Ok(r) ==> {
            &&& r.dtype == dtype
            &&& r.shape@.len() == 0
            &&& r.count == count
            &&& r.body@ == encode(sum_bits as nat, dtype.size(), host)
        },
        result is Err ==> result->Err_0 == ActiveStorageError::InternalError,
{
    let size = element_size(dtype);
    if (size == 4 && sum_bits >= 0x1_0000_0000) || count as u64 > 0x7fff_ffff_ffff_ffff {
        return Err(ActiveStorageError::InternalError);
    }
    let mut body: Vec<u8> = Vec::new();
    write_element(&mut body, sum_bits, size as usize, host);
    assert(body@ =~= encode(sum_bits as nat, size as nat, host));
    Ok(Response { body, dtype, shape: Vec::new(), count: count as i64 })
}

/// The smallest or, with `largest`, the largest of the elements that take
/// part, as a response. NaN never takes part. Of several equal extremes the
/// first in memory is the result.
///
/// Fails with `EmptyReduction` when no element takes part.
pub fn extreme(
    view: &ArrayView,
    missing: &Option<Missing>,
    data: &Vec<u8>,
    host: ByteOrder,
    largest: bool,
) -> (result: Result<Response, ActiveStorageError>)
    requires
        view.wf(),
        data@.len() == view@.byte_len(),
    ensures
        result is Err <==> kept(elements(view@, data@, host), ranked(*missing, view.dtype)).len()
            == 0,
        result is Err ==> result->Err_0 == ActiveStorageError::EmptyReduction,
        result matches Ok(r) ==> is_extreme(r, view@, *missing, data@, host, largest),
{
    let ghost all = elements(view@, data@, host);
    let ghost keep = ranked(*missing, view.dtype);
    let dtype = view.dtype;
    let mut n: usize = 0;
    let mut best: u64 = 0;
    let mut best_value: i128 = 0;
    let ghost mut at: int = 0;
    let mut k: usize = 0;
    assert(all.take(0) =~= Seq::<u64>::empty());
    while k < view.len
        invariant
            k <= view.len,
            view.wf(),
            dtype == view.dtype,
            data@.len() == view@.byte_len(),
            all == elements(view@, data@, host),
            all.len() == view.len,
            keep == ranked(*missing, view.dtype),
            n == kept(all.take(k as int), keep).len(),
            n <= k,
            n == 0 ==> forall|j: int| 0 <= j < k ==> !keep(#[trigger] all[j]),
            n > 0 ==> is_first_extreme(all.take(k as int), keep, dtype, largest, at) && best
                == all[at] && best_value == dtype.value(best),
        decreases view.len - k,
    {
        let bits = element(view, data, host, k);
        proof {
            lemma_kept_step(all, k as int, keep);
        }
        let ghost seen = all.take(k as int);
        let ghost next = all.take(k + 1);
        assert(forall|j: int| 0 <= j < k ==> next[j] == seen[j]);
        assert(next[k as int] == bits);
        if admitted(missing, dtype, bits) && !dtype.nan(bits) {
            let v = dtype.value_of(bits);
            let better = if largest {
                v > best_value
            } else {
                v < best_value
            };
            if n == 0 || better {
                best = bits;
                best_value = v;
                proof {
                    at = k as int;
                }
            }
            n += 1;
            assert(is_first_extreme(next, keep, dtype, largest, at));
        } else {
            assert(n > 0 ==> is_first_extreme(next, keep, dtype, largest, at));
        }
        k += 1;
    }
    assert(all.take(view.len as int) =~= all);
    if n == 0 {
        return Err(ActiveStorageError::EmptyReduction);
    }
    proof {
        lemma_len_fits(view);
    }
    let mut body: Vec<u8> = Vec::new();
    write_element(&mut body, best, element_size(dtype) as usize, host);
    assert(body@ =~= encode(all[at] as nat, dtype.size(), host));
    Ok(Response { body, dtype, shape: Vec::new(), count: n as i64 })
}

/// The selected sub-array as a response: every selected element, missing or
/// not, copied into a new buffer with the last axis varying fastest.
pub fn select(view: &ArrayView, data: &Vec<u8>) -> (r: Response)
    requires
        view.wf(),
        data@.len() == view@.byte_len(),
    ensures
        is_selection(r, view@, data@),
{
    let ghost wanted = selected_bytes(view@, data@);
    let size = element_size(view.dtype) as usize;
    proof {
        lemma_len_fits(view);
    }
    let mut body: Vec<u8> = Vec::new();
    let mut k: usize = 0;
    assert(0 * size == 0) by (nonlinear_arith);
    while k < view.len
        invariant
            k <= view.len,
            view.wf(),
            size == view.dtype.size(),
            data@.len() == view@.byte_len(),
            wanted == selected_bytes(view@, data@),
            wanted.len() == view.len * size,
            view.len * size <= usize::MAX,
            body@.len() == k * size,
            forall|b: int| 0 <= b < k * size ==> body@[b] == wanted[b],
        decreases view.len - k,
    {
        proof {
            lemma_in_bounds(view, view.axes@, k as int);
            assert((k + 1) * size == k * size + size) by (nonlinear_arith);
            assert((k + 1) * size <= view.len * size) by (nonlinear_arith)
                requires
                    k + 1 <= view.len,
                    size >= 0,
            ;
        }
        let off = offset_of(&view.axes, k, false);
        assert((off + 1) * size == off * size + size) by (nonlinear_arith);
        assert(0 <= off * size) by (nonlinear_arith);
        let base = off * size;
        let mut b: usize = 0;
        while b < size
            invariant
                b <= size,
                k < view.len,
                size == view.dtype.size(),
                base == off * size,
                off == offset_at(view.axes@, k as int),
                base + size <= data@.len() <= usize::MAX,
                wanted == selected_bytes(view@, data@),
                wanted.len() == view.len * size,
                (k + 1) * size <= view.len * size,
                (k + 1) * size == k * size + size,
                body@.len() == k * size + b,
                forall|i: int| 0 <= i < k * size + b ==> body@[i] == wanted[i],
            decreases size - b,
        {
            proof {
                vstd::arithmetic::div_mod::lemma_fundamental_div_mod_converse(
                    k * size + b,
                    size as int,
                    k as int,
                    b as int,
                );
            }
            body.push(data[base + b]);
            b += 1;
        }
        k += 1;
    }
    assert(body@ =~= wanted);
    let shape = crate::array::copy_dims(&view.shape);
    Response { body, dtype: view.dtype, shape, count: view.len as i64 }
}

/// What `op` over the view gives, when the buffer has the size of the array.
pub open spec fn is_outcome(
    outcome: Result<Outcome, ActiveStorageError>,
    op: Operation,
    layout: Layout,
    missing: Option<Missing>,
    data: Seq<u8>,
    host: ByteOrder,
) -> bool {
    match op {
        Operation::Count => outcome matches Ok(Outcome::Done(r)) && is_count(
            r,
            layout,
            missing,
            data,
            host,
        ),
        Operation::Sum => if layout.dtype.is_float() {
            outcome matches Ok(Outcome::Terms(t)) && is_terms(t, layout, missing, data, host)
        } else {
            outcome matches Ok(Outcome::Done(r)) && is_sum(r, layout, missing, data, host)
        },
        Operation::Min | Operation::Max => {
            let none = kept(elements(layout, data, host), ranked(missing, layout.dtype)).len() == 0;
            match outcome {
                Ok(Outcome::Done(r)) => !none && is_extreme(
                    r,
                    layout,
                    missing,
                    data,
                    host,
                    op == Operation::Max,
                ),
                Ok(Outcome::Terms(_)) => false,
                Err(e) => none && e == ActiveStorageError::EmptyReduction,
            }
        },
        Operation::Select => outcome matches Ok(Outcome::Done(r)) && is_selection(r, layout, data),
    }
}

/// Runs `op` over the elements that `view` selects from `data`, a buffer of
/// elements in the byte order `host`.
///
/// Fails with `ShapeMismatch` when the buffer does not have the size of the
/// array, and with `EmptyReduction` when a minimum or maximum has no element
/// to choose from. A floating-point sum comes back as its terms.
pub fn execute(
    op: Operation,
    view: &ArrayView,
    missing: &Option<Missing>,
    data: &Vec<u8>,
    host: ByteOrder,
) -> (outcome: Result<Outcome, ActiveStorageError>)
    requires
        view.wf(),
    ensures
        data@.len() != view@.byte_len() ==> outcome == Err::<Outcome, ActiveStorageError>(
            ActiveStorageError::ShapeMismatch,
        ),
        data@.len() == view@.byte_len() ==> is_outcome(outcome, op, view@, *missing, data@, host),
{
    let size = element_size(view.dtype) as usize;
    if data.len() != view.total * size {
        return Err(ActiveStorageError::ShapeMismatch);
    }
    match op {
        Operation::Count => Ok(Outcome::Done(count(view, missing, data, host))),
        Operation::Sum => match view.dtype {
            DType::Float32 | DType::Float64 => Ok(
                Outcome::Terms(float_terms(view, missing, data, host)),
            ),
            _ => Ok(Outcome::Done(sum(view, missing, data, host))),
        },
        Operation::Min => match extreme(view, missing, data, host, false) {
            Ok(r) => Ok(Outcome::Done(r)),
            Err(e) => Err(e),
        },
        Operation::Max => match extreme(view, missing, data, host, true) {
            Ok(r) => Ok(Outcome::Done(r)),
            Err(e) => Err(e),
        },
        Operation::Select => Ok(Outcome::Done(select(view, data))),
    }
}

/// The elements that take part in a count and those that do not are together
/// all the elements that the view selects.
pub proof fn lemma_count_and_missing(
    layout: Layout,
    missing: Option<Missing>,
    data: Seq<u8>,
    host: ByteOrder,
)
    ensures
        kept(elements(layout, data, host), counted(missing, layout.dtype)).len() + dropped(
            elements(layout, data, host),
            counted(missing, layout.dtype),
        ).len() == layout.len,
        kept(elements(layout, data, host), counted(missing, layout.dtype)).len() <= layout.len,
{
    lemma_kept_dropped(elements(layout, data, host), counted(missing, layout.dtype));
}

} // verus!

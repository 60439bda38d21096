//! Shape and selection arithmetic, and the strided view of an array in a byte buffer.

use vstd::arithmetic::div_mod::lemma_div_plus_one;
use vstd::arithmetic::div_mod::lemma_fundamental_div_mod;
use vstd::arithmetic::div_mod::lemma_fundamental_div_mod_converse;
use vstd::prelude::*;

use crate::error::ActiveStorageError;
use crate::types::element_size;
use crate::types::DType;
use crate::types::Order;

verus! {

/// A strided range along one axis: the indices `start`, `start + stride`, ...
/// below `end`.
#[derive(Debug, Clone, Copy, PartialEq, Eq, Structural)]
pub struct Slice {
    pub start: usize,
    pub end: usize,
    pub stride: usize,
}

impl Slice {
    /// Whether the range lies inside an axis of `dim` elements and is not empty.
    pub open spec fn valid_for(self, dim: usize) -> bool {
        self.start < self.end <= dim && self.stride >= 1
    }

    /// Number of indices in the range: `(end - start) / stride`, rounded up.
    /// A range that is empty or has no stride holds none.
    pub open spec fn count(self) -> nat {
        if self.start < self.end && self.stride >= 1 {
            ((self.end - self.start + self.stride - 1) / self.stride as int) as nat
        } else {
            0
        }
    }

    pub fn new(start: usize, end: usize, stride: usize) -> (slice: Slice)
        ensures
            slice == (Slice { start, end, stride }),
    {
        Slice { start, end, stride }
    }

    /// Number of indices in the range.
    pub fn len(&self) -> (n: usize)
        ensures
            n == self.count(),
            self.start < self.end && self.stride >= 1 ==> n >= 1 && self.start + (n - 1)
                * self.stride < self.end,
    {
        if self.start >= self.end || self.stride == 0 {
            return 0;
        }
        let span = self.end - self.start;
        proof {
            let s = self.stride as int;
            lemma_div_plus_one(span - 1, s);
            lemma_fundamental_div_mod(span - 1, s);
            let q = (span - 1) / s;
            assert(0 <= q && q * s <= span - 1) by (nonlinear_arith)
                requires
                    span - 1 == s * q + (span - 1) % s,
                    0 <= (span - 1) % s < s,
                    span >= 1,
                    s >= 1,
            ;
        }
        (span - 1) / self.stride + 1
    }
}

/// Product of the dimensions; 1 for a scalar.
pub open spec fn product(dims: Seq<usize>) -> nat
    decreases dims.len(),
{
    if dims.len() == 0 {
        1
    } else {
        product(dims.drop_last()) * (dims.last() as nat)
    }
}

/// The product of a shape with a zero dimension is zero.
pub proof fn lemma_product_zero(dims: Seq<usize>, i: int)
    requires
        0 <= i < dims.len(),
        dims[i] == 0,
    ensures
        product(dims) == 0,
    decreases dims.len(),
{
    if i < dims.len() - 1 {
        lemma_product_zero(dims.drop_last(), i);
        assert(product(dims.drop_last()) * (dims.last() as nat) == 0) by (nonlinear_arith)
            requires
                product(dims.drop_last()) == 0,
        ;
    } else {
        assert(product(dims.drop_last()) * (dims.last() as nat) == 0) by (nonlinear_arith)
            requires
                dims.last() == 0,
        ;
    }
}

/// With positive dimensions, the product of a prefix is positive and does not
/// exceed the product of the whole shape.
pub proof fn lemma_product_prefix(dims: Seq<usize>, n: int)
    requires
        0 <= n <= dims.len(),
        forall|i: int| 0 <= i < dims.len() ==> dims[i] >= 1,
    ensures
        1 <= product(dims.take(n)) <= product(dims),
    decreases dims.len() - n,
{
    if n == dims.len() {
        assert(dims.take(n) =~= dims);
        lemma_product_positive(dims);
    } else {
        lemma_product_prefix(dims, n + 1);
        assert(dims.take(n + 1).drop_last() =~= dims.take(n));
        let p = product(dims.take(n));
        let d = dims[n] as nat;
        assert(dims.take(n + 1).last() == dims[n]);
        assert(product(dims.take(n + 1)) == p * d);
        lemma_product_positive(dims.take(n));
        assert(p <= p * d) by (nonlinear_arith)
            requires
                d >= 1,
                p >= 0,
        ;
    }
}

/// The product of positive dimensions is positive.
pub proof fn lemma_product_positive(dims: Seq<usize>)
    requires
        forall|i: int| 0 <= i < dims.len() ==> dims[i] >= 1,
    ensures
        product(dims) >= 1,
    decreases dims.len(),
{
    if dims.len() > 0 {
        lemma_product_positive(dims.drop_last());
        assert(product(dims.drop_last()) * (dims.last() as nat) >= 1) by (nonlinear_arith)
            requires
                product(dims.drop_last()) >= 1,
                dims.last() >= 1,
        ;
    }
}

/// A positive product has only positive dimensions.
pub proof fn lemma_positive_product(dims: Seq<usize>)
    requires
        product(dims) >= 1,
    ensures
        forall|i: int| 0 <= i < dims.len() ==> dims[i] >= 1,
{
    assert forall|i: int| 0 <= i < dims.len() implies dims[i] >= 1 by {
        if dims[i] == 0 {
            lemma_product_zero(dims, i);
        }
    }
}

/// The product of a shape is its first dimension times the product of the rest.
pub proof fn lemma_product_first(dims: Seq<usize>)
    requires
        dims.len() > 0,
    ensures
        product(dims) == (dims[0] as nat) * product(dims.skip(1)),
    decreases dims.len(),
{
    if dims.len() == 1 {
        assert(dims.drop_last() =~= Seq::<usize>::empty());
        assert(dims.skip(1) =~= Seq::<usize>::empty());
        assert(product(dims.drop_last()) == 1);
        assert(product(dims.skip(1)) == 1);
    } else {
        lemma_product_first(dims.drop_last());
        assert(dims.drop_last().skip(1) =~= dims.skip(1).drop_last());
        assert(dims.skip(1).last() == dims.last());
        let a = dims[0] as nat;
        let m = product(dims.skip(1).drop_last());
        let z = dims.last() as nat;
        assert((a * m) * z == a * (m * z)) by (nonlinear_arith);
    }
}

/// The product of the dimensions, or `None` when it does not fit the machine word.
pub fn shape_product(shape: &Vec<usize>) -> (result: Option<usize>)
    ensures
        result is Some <==> product(shape@) <= usize::MAX,
        result is Some ==> result->Some_0 == product(shape@),
{
    let n = shape.len();
    let mut z: usize = 0;
    while z < n
        invariant
            z <= n,
            n == shape@.len(),
            forall|i: int| 0 <= i < z ==> shape@[i] >= 1,
        decreases n - z,
    {
        if shape[z] == 0 {
            proof {
                lemma_product_zero(shape@, z as int);
            }
            return Some(0);
        }
        z += 1;
    }
    let mut acc: usize = 1;
    let mut i: usize = 0;
    assert(shape@.take(0) =~= Seq::<usize>::empty());
    while i < n
        invariant
            i <= n,
            n == shape@.len(),
            forall|k: int| 0 <= k < n ==> shape@[k] >= 1,
            acc == product(shape@.take(i as int)),
        decreases n - i,
    {
        proof {
            assert(shape@.take(i + 1).drop_last() =~= shape@.take(i as int));
            assert(shape@.take(i + 1).last() == shape@[i as int]);
            lemma_product_prefix(shape@, i + 1);
        }
        match acc.checked_mul(shape[i]) {
            Some(next) => {
                acc = next;
            },
            None => {
                return None;
            },
        }
        i += 1;
    }
    assert(shape@.take(n as int) =~= shape@);
    Some(acc)
}

/// Whether `len` bytes hold exactly an array of `shape` with elements of
/// `dtype`. Without a shape the bytes are a one-dimensional array, and must be
/// a whole number of elements.
pub open spec fn raw_size_fits(len: usize, dtype: DType, shape: Option<Seq<usize>>) -> bool {
    match shape {
        Some(dims) => dtype.size() * product(dims) == len,
        None => len as nat % dtype.size() == 0,
    }
}

pub open spec fn option_view(shape: Option<Vec<usize>>) -> Option<Seq<usize>> {
    match shape {
        Some(dims) => Some(dims@),
        None => None,
    }
}

/// Checks the byte count of the raw data against element size times the
/// product of the shape.
pub fn validate_raw_size(len: usize, dtype: DType, shape: &Option<Vec<usize>>) -> (result: Result<
    (),
    ActiveStorageError,
>)
    ensures
        result is Ok <==> raw_size_fits(len, dtype, option_view(*shape)),
        result is Err ==> result->Err_0 == ActiveStorageError::ShapeMismatch,
{
    let size = element_size(dtype) as usize;
    match shape {
        Some(dims) => {
            match shape_product(dims) {
                Some(count) => {
                    if len % size == 0 && len / size == count {
                        proof {
                            lemma_fundamental_div_mod(len as int, size as int);
                        }
                        Ok(())
                    } else {
                        proof {
                            if size * count == len {
                                lemma_fundamental_div_mod_converse(
                                    len as int,
                                    size as int,
                                    count as int,
                                    0,
                                );
                            }
                        }
                        Err(ActiveStorageError::ShapeMismatch)
                    }
                },
                None => {
                    assert(dtype.size() * product(dims@) > len) by (nonlinear_arith)
                        requires
                            product(dims@) > usize::MAX,
                            dtype.size() >= 1,
                            len <= usize::MAX,
                    ;
                    Err(ActiveStorageError::ShapeMismatch)
                },
            }
        },
        None => {
            if len % size == 0 {
                Ok(())
            } else {
                Err(ActiveStorageError::ShapeMismatch)
            }
        },
    }
}

/// Whether `selection` has one valid range for every axis of `shape`.
pub open spec fn selection_valid(shape: Seq<usize>, selection: Seq<Slice>) -> bool {
    &&& selection.len() == shape.len()
    &&& forall|i: int| 0 <= i < shape.len() ==> (#[trigger] selection[i]).valid_for(shape[i])
}

/// Checks that `selection` has one range per axis and that every range lies
/// inside its axis.
pub fn validate_selection(shape: &Vec<usize>, selection: &Vec<Slice>) -> (result: Result<
    (),
    ActiveStorageError,
>)
    ensures
        result is Ok <==> selection_valid(shape@, selection@),
        result is Err ==> result->Err_0 == ActiveStorageError::InvalidSelection,
{
    if selection.len() != shape.len() {
        return Err(ActiveStorageError::InvalidSelection);
    }
    let n = shape.len();
    let mut i: usize = 0;
    while i < n
        invariant
            i <= n,
            n == shape@.len(),
            n == selection@.len(),
            forall|k: int| 0 <= k < i ==> (#[trigger] selection@[k]).valid_for(shape@[k]),
        decreases n - i,
    {
        let s = &selection[i];
        if !(s.start < s.end && s.end <= shape[i] && s.stride >= 1) {
            assert(!selection@[i as int].valid_for(shape@[i as int]));
            return Err(ActiveStorageError::InvalidSelection);
        }
        i += 1;
    }
    Ok(())
}

/// One axis of a view: which indices are selected along it, and how far apart
/// neighbours along it lie in memory.
#[derive(Debug, Clone, Copy, PartialEq, Eq, Structural)]
pub struct Axis {
    /// Number of selected indices.
    pub count: usize,
    /// First selected index.
    pub start: usize,
    /// Distance between selected indices.
    pub step: usize,
    /// Distance in memory, in elements, between neighbours along this axis.
    pub stride: usize,
}

impl Axis {
    /// Distance in memory, in elements, from the start of the array to the
    /// `j`-th selected index of this axis.
    pub open spec fn offset(self, j: int) -> int {
        (self.start + j * self.step) * self.stride
    }

    /// The offset of the last selected index.
    pub open spec fn last_offset(self) -> int {
        self.offset(self.count - 1)
    }

    pub open spec fn positive(self) -> bool {
        self.count >= 1 && self.stride >= 1
    }
}

/// Place in memory, in elements, of the `k`-th element of a walk over `axes`
/// in which the last axis of the list varies fastest.
pub open spec fn offset_at(axes: Seq<Axis>, k: int) -> int
    decreases axes.len(),
{
    if axes.len() == 0 {
        0
    } else {
        let a = axes.last();
        offset_at(axes.drop_last(), k / a.count as int) + a.offset(k % a.count as int)
    }
}

/// The largest place in memory that a walk over `axes` reaches.
pub open spec fn max_offset(axes: Seq<Axis>) -> int
    decreases axes.len(),
{
    if axes.len() == 0 {
        0
    } else {
        max_offset(axes.drop_last()) + axes.last().last_offset()
    }
}

pub open spec fn all_positive(axes: Seq<Axis>) -> bool {
    forall|i: int| 0 <= i < axes.len() ==> (#[trigger] axes[i]).positive()
}

/// Distance in memory between neighbours along axis `i` of an array of `shape`.
pub open spec fn stride_of(shape: Seq<usize>, order: Order, i: int) -> nat {
    match order {
        Order::C => product(shape.skip(i + 1)),
        Order::F => product(shape.take(i)),
    }
}

/// Axis `i` of the view of `selection` in an array of `shape`.
pub open spec fn axis_of(
    shape: Seq<usize>,
    order: Order,
    selection: Option<Seq<Slice>>,
    i: int,
) -> Axis {
    let stride = stride_of(shape, order, i) as usize;
    match selection {
        Some(ranges) => Axis {
            count: ranges[i].count() as usize,
            start: ranges[i].start,
            step: ranges[i].stride,
            stride,
        },
        None => Axis { count: shape[i], start: 0, step: 1, stride },
    }
}

/// The axes of the view of `selection` in an array of `shape`, in axis order.
pub open spec fn axes_of(shape: Seq<usize>, order: Order, selection: Option<Seq<Slice>>) -> Seq<
    Axis,
> {
    Seq::new(shape.len(), |i: int| axis_of(shape, order, selection, i))
}

/// Shape of the selected sub-array: the number of indices that each range
/// selects, or the shape itself when everything is selected.
pub open spec fn selection_shape(shape: Seq<usize>, selection: Option<Seq<Slice>>) -> Seq<usize> {
    match selection {
        Some(ranges) => Seq::new(shape.len(), |i: int| ranges[i].count() as usize),
        None => shape,
    }
}

pub open spec fn ranges_view(selection: Option<Vec<Slice>>) -> Option<Seq<Slice>> {
    match selection {
        Some(ranges) => Some(ranges@),
        None => None,
    }
}

proof fn lemma_last_offset_bounds(a: Axis, j: int)
    requires
        a.positive(),
        0 <= j < a.count,
    ensures
        0 <= j * a.step <= a.start + j * a.step <= a.offset(j) <= a.last_offset(),
{
    assert(0 <= j * a.step <= (a.count - 1) * a.step) by (nonlinear_arith)
        requires
            0 <= j < a.count,
            a.step >= 0,
    ;
    assert(a.start + j * a.step <= (a.start + j * a.step) * a.stride <= (a.start + (a.count - 1)
        * a.step) * a.stride) by (nonlinear_arith)
        requires
            0 <= j * a.step <= (a.count - 1) * a.step,
            a.stride >= 1,
            a.start >= 0,
    ;
}

proof fn lemma_max_offset_nonnegative(axes: Seq<Axis>)
    requires
        all_positive(axes),
    ensures
        max_offset(axes) >= 0,
    decreases axes.len(),
{
    if axes.len() > 0 {
        lemma_max_offset_nonnegative(axes.drop_last());
        assert(axes.last().positive());
        lemma_last_offset_bounds(axes.last(), 0);
    }
}

/// A walk never leaves the range between 0 and the largest reachable place.
pub proof fn lemma_offset_bound(axes: Seq<Axis>, k: int)
    requires
        all_positive(axes),
        0 <= k,
    ensures
        0 <= offset_at(axes, k) <= max_offset(axes),
    decreases axes.len(),
{
    if axes.len() > 0 {
        let a = axes.last();
        assert(a.positive());
        let c = a.count as int;
        lemma_fundamental_div_mod(k, c);
        assert(0 <= k / c) by (nonlinear_arith)
            requires
                0 <= k,
                c >= 1,
                k == c * (k / c) + k % c,
                0 <= k % c < c,
        ;
        lemma_offset_bound(axes.drop_last(), k / c);
        lemma_last_offset_bounds(a, k % c);
    }
}

proof fn lemma_max_offset_first(axes: Seq<Axis>)
    requires
        axes.len() > 0,
    ensures
        max_offset(axes) == axes[0].last_offset() + max_offset(axes.skip(1)),
    decreases axes.len(),
{
    if axes.len() == 1 {
        assert(axes.drop_last() =~= Seq::<Axis>::empty());
        assert(axes.skip(1) =~= Seq::<Axis>::empty());
    } else {
        lemma_max_offset_first(axes.drop_last());
        assert(axes.drop_last().skip(1) =~= axes.skip(1).drop_last());
        assert(axes.skip(1).last() == axes.last());
    }
}

/// Walking the axes in the opposite order reaches the same largest place.
pub proof fn lemma_max_offset_reverse(axes: Seq<Axis>)
    ensures
        max_offset(axes.reverse()) == max_offset(axes),
    decreases axes.len(),
{
    if axes.len() > 0 {
        let r = axes.reverse();
        lemma_max_offset_first(r);
        assert(r.skip(1) =~= axes.drop_last().reverse());
        lemma_max_offset_reverse(axes.drop_last());
    } else {
        assert(axes.reverse() =~= axes);
    }
}

/// Computes `offset_at` for the walk in which the last axis varies fastest, or,
/// with `first_fastest`, the walk in which the first axis does.
pub(crate) fn offset_of(axes: &Vec<Axis>, k: usize, first_fastest: bool) -> (off: usize)
    requires
        all_positive(axes@),
        max_offset(axes@) <= usize::MAX,
    ensures
        off == offset_at(
            if first_fastest {
                axes@.reverse()
            } else {
                axes@
            },
            k as int,
        ),
        off <= max_offset(axes@),
{
    let ghost list = if first_fastest {
        axes@.reverse()
    } else {
        axes@
    };
    let n = axes.len();
    proof {
        lemma_max_offset_reverse(axes@);
        assert(list.take(n as int) =~= list);
        assert(all_positive(list));
    }
    let mut t: usize = 0;
    let mut rest: usize = k;
    let mut off: usize = 0;
    while t < n
        invariant
            t <= n,
            n == axes@.len(),
            list.len() == n,
            list == if first_fastest {
                axes@.reverse()
            } else {
                axes@
            },
            all_positive(list),
            max_offset(list) <= usize::MAX,
            offset_at(list, k as int) == off + offset_at(list.take(n - t), rest as int),
            off + max_offset(list.take(n - t)) <= max_offset(list),
        decreases n - t,
    {
        let a = if first_fastest {
            axes[t]
        } else {
            axes[n - 1 - t]
        };
        proof {
            let head = list.take(n - t);
            assert(head.last() == a);
            assert(a.positive());
            assert(head.drop_last() =~= list.take(n - t - 1));
            assert(all_positive(head.drop_last()));
            lemma_max_offset_nonnegative(head.drop_last());
            lemma_last_offset_bounds(a, (rest % a.count) as int);
        }
        let j = rest % a.count;
        off = off + (a.start + j * a.step) * a.stride;
        rest = rest / a.count;
        t += 1;
    }
    proof {
        assert(list.take(0) =~= Seq::<Axis>::empty());
    }
    off
}

/// What a view says, as plain values: the element type, the memory order, the
/// axes, the shape of the selection, the number of selected elements and the
/// number of elements of the whole array.
pub struct Layout {
    pub dtype: DType,
    pub order: Order,
    /// The axes in axis order; none when nothing is selected.
    pub axes: Seq<Axis>,
    pub shape: Seq<usize>,
    pub len: nat,
    pub total: nat,
}

impl Layout {
    /// The axes in the order of a walk through memory: for `C` the last axis
    /// varies fastest, for `F` the first.
    pub open spec fn memory_walk(self) -> Seq<Axis> {
        match self.order {
            Order::C => self.axes,
            Order::F => self.axes.reverse(),
        }
    }

    /// Number of bytes of the whole array.
    pub open spec fn byte_len(self) -> nat {
        self.total * self.dtype.size()
    }
}

/// The layout of `selection` in an array of `shape` with elements of `dtype`,
/// laid out in `order`.
pub open spec fn layout_of(
    dtype: DType,
    shape: Seq<usize>,
    order: Order,
    selection: Option<Seq<Slice>>,
) -> Layout {
    let selected = selection_shape(shape, selection);
    Layout {
        dtype,
        order,
        axes: if product(selected) > 0 {
            axes_of(shape, order, selection)
        } else {
            Seq::empty()
        },
        shape: selected,
        len: product(selected),
        total: product(shape),
    }
}

/// A copy of `dims`.
pub(crate) fn copy_dims(dims: &Vec<usize>) -> (copy: Vec<usize>)
    ensures
        copy@ == dims@,
{
    let n = dims.len();
    let mut copy: Vec<usize> = Vec::with_capacity(n);
    let mut i: usize = 0;
    while i < n
        invariant
            i <= n,
            n == dims@.len(),
            copy@ == dims@.take(i as int),
        decreases n - i,
    {
        copy.push(dims[i]);
        assert(dims@.take(i + 1) =~= dims@.take(i as int).push(dims@[i as int]));
        i += 1;
    }
    assert(dims@.take(n as int) =~= dims@);
    copy
}

/// A strided view of an array that lies in a byte buffer: the element type,
/// the selected indices of every axis and where they lie in memory.
#[derive(Debug, Clone, PartialEq, Eq)]
pub struct ArrayView {
    pub dtype: DType,
    pub order: Order,
    /// The axes in axis order. Empty when nothing is selected.
    pub axes: Vec<Axis>,
    /// Shape of the selected sub-array.
    pub shape: Vec<usize>,
    /// Number of selected elements.
    pub len: usize,
    /// Number of elements in the whole array.
    pub total: usize,
}

impl View for ArrayView {
    type V = Layout;

    open spec fn view(&self) -> Layout {
        Layout {
            dtype: self.dtype,
            order: self.order,
            axes: if self.len > 0 {
                self.axes@
            } else {
                Seq::empty()
            },
            shape: self.shape@,
            len: self.len as nat,
            total: self.total as nat,
        }
    }
}

impl ArrayView {
    /// Every selected element lies inside an array of `total` elements, whose
    /// bytes can be counted in a machine word.
    pub open spec fn wf(&self) -> bool {
        &&& self.len == product(self.shape@)
        &&& self.len <= self.total
        &&& self.total * self.dtype.size() <= usize::MAX
        &&& self.len > 0 ==> {
            &&& self.axes@.len() == self.shape@.len()
            &&& forall|i: int|
                0 <= i < self.axes@.len() ==> (#[trigger] self.axes@[i]).count == self.shape@[i]
            &&& all_positive(self.axes@)
            &&& max_offset(self.axes@) < self.total
        }
    }


    /// Builds the view of `selection` in an array of `shape` that fills a
    /// buffer of `len` bytes.
    ///
    /// Fails with `ShapeMismatch` when element size times the product of the
    /// shape is not `len`, and otherwise with `InvalidSelection` when the
    /// selection does not have one valid range per axis.
    pub fn new(
        dtype: DType,
        shape: &Vec<usize>,
        order: Order,
        selection: &Option<Vec<Slice>>,
        len: usize,
    ) -> (result: Result<ArrayView, ActiveStorageError>)
        ensures
            match result {
                Ok(view) => {
                    &&& raw_size_fits(len, dtype, Some(shape@))
                    &&& selection matches Some(ranges) ==> selection_valid(shape@, ranges@)
                    &&& view.wf()
                    &&& view@ == layout_of(dtype, shape@, order, ranges_view(*selection))
                },
                Err(e) => if !raw_size_fits(len, dtype, Some(shape@)) {
                    e == ActiveStorageError::ShapeMismatch
                } else {
                    &&& e == ActiveStorageError::InvalidSelection
                    &&& selection matches Some(ranges) && !selection_valid(shape@, ranges@)
                },
            },
    {
        let size = element_size(dtype) as usize;
        let total = match shape_product(shape) {
            Some(total) => total,
            None => {
                assert(dtype.size() * product(shape@) > len) by (nonlinear_arith)
                    requires
                        product(shape@) > usize::MAX,
                        dtype.size() >= 1,
                        len <= usize::MAX,
                ;
                return Err(ActiveStorageError::ShapeMismatch);
            },
        };
        if len % size != 0 || len / size != total {
            proof {
                if size * total == len {
                    lemma_fundamental_div_mod_converse(len as int, size as int, total as int, 0);
                }
            }
            return Err(ActiveStorageError::ShapeMismatch);
        }
        proof {
            lemma_fundamental_div_mod(len as int, size as int);
            assert(total * size == size * total) by (nonlinear_arith);
        }
        match selection {
            Some(ranges) => {
                match validate_selection(shape, ranges) {
                    Ok(_) => {},
                    Err(_) => {
                        return Err(ActiveStorageError::InvalidSelection);
                    },
                }
            },
            None => {},
        }
        let n = shape.len();
        if total == 0 {
            let dims = copy_dims(shape);
            proof {
                if let Some(ranges) = selection {
                    // a valid selection needs positive dimensions
                    assert forall|i: int| 0 <= i < shape@.len() implies shape@[i] >= 1 by {
                        assert(ranges@[i].valid_for(shape@[i]));
                    }
                    lemma_product_positive(shape@);
                }
            }
            return Ok(ArrayView { dtype, order, axes: Vec::new(), shape: dims, len: 0, total });
        }
        proof {
            lemma_positive_product(shape@);
            assert(shape@.skip(0) =~= shape@);
            assert(shape@.take(0) =~= Seq::<usize>::empty());
        }
        let ghost sel = ranges_view(*selection);
        let mut axes: Vec<Axis> = Vec::new();
        let mut dims: Vec<usize> = Vec::new();
        let mut selected: usize = 1;
        let mut cur: usize = match order {
            Order::C => total,
            Order::F => 1,
        };
        let mut i: usize = 0;
        while i < n
            invariant
                i <= n,
                n == shape@.len(),
                total == product(shape@),
                total >= 1,
                sel == ranges_view(*selection),
                selection matches Some(ranges) ==> selection_valid(shape@, ranges@),
                forall|k: int| 0 <= k < n ==> shape@[k] >= 1,
                axes@.len() == i,
                dims@.len() == i,
                forall|k: int| 0 <= k < i ==> axes@[k] == axis_of(shape@, order, sel, k),
                forall|k: int| 0 <= k < i ==> dims@[k] == selection_shape(shape@, sel)[k],
                forall|k: int| 0 <= k < i ==> (#[trigger] axes@[k]).count == dims@[k],
                all_positive(axes@),
                selected == product(dims@),
                1 <= selected <= product(shape@.take(i as int)),
                order == Order::C ==> cur == product(shape@.skip(i as int)) && max_offset(axes@)
                    + cur <= total,
                order == Order::F ==> cur == product(shape@.take(i as int)) && max_offset(axes@)
                    < cur,
            decreases n - i,
        {
            let d = shape[i];
            let (count, start, step) = match selection {
                Some(ranges) => {
                    let r = &ranges[i];
                    assert(ranges@[i as int].valid_for(shape@[i as int]));
                    (r.len(), r.start, r.stride)
                },
                None => (d, 0, 1),
            };
            proof {
                assert(start + (count - 1) * step <= d - 1 && count <= d) by (nonlinear_arith)
                    requires
                        start + (count - 1) * step < d,
                        count >= 1,
                        step >= 1,
                        start >= 0,
                ;
                lemma_product_first(shape@.skip(i as int));
                assert(shape@.skip(i as int).skip(1) =~= shape@.skip(i + 1));
                assert(shape@.take(i + 1).drop_last() =~= shape@.take(i as int));
                assert(shape@.take(i + 1).last() == d);
                lemma_product_prefix(shape@, i + 1);
                lemma_product_prefix(shape@, i as int);
                lemma_product_positive(shape@.skip(i + 1));
            }
            let ghost rest = product(shape@.skip(i + 1));
            let ghost before = product(shape@.take(i as int));
            let stride = match order {
                Order::C => {
                    proof {
                        assert(d * rest == rest * d) by (nonlinear_arith);
                        lemma_fundamental_div_mod_converse(
                            cur as int,
                            d as int,
                            rest as int,
                            0,
                        );
                    }
                    cur / d
                },
                Order::F => cur,
            };
            assert(stride == stride_of(shape@, order, i as int));
            assert(stride >= 1);
            let axis = Axis { count, start, step, stride };
            proof {
                let last = start + (count - 1) * step;
                assert(axis.last_offset() == last * stride);
                assert(last * stride <= (d - 1) * stride) by (nonlinear_arith)
                    requires
                        0 <= last <= d - 1,
                        stride >= 0,
                ;
                assert((d - 1) * stride == d * stride - stride) by (nonlinear_arith);
                assert(selected * count <= before * d) by (nonlinear_arith)
                    requires
                        1 <= selected <= before,
                        1 <= count <= d,
                ;
                assert(selected * count >= 1) by (nonlinear_arith)
                    requires
                        1 <= selected,
                        1 <= count,
                ;
                assert(axes@.push(axis).drop_last() =~= axes@);
                assert(dims@.push(count).drop_last() =~= dims@);
            }
            axes.push(axis);
            dims.push(count);
            selected = selected * count;
            cur = match order {
                Order::C => stride,
                Order::F => cur * d,
            };
            i += 1;
        }
        proof {
            assert(shape@.take(n as int) =~= shape@);
            assert(shape@.skip(n as int) =~= Seq::<usize>::empty());
            assert(axes@ =~= axes_of(shape@, order, sel));
            assert(dims@ =~= selection_shape(shape@, sel));
        }
        Ok(ArrayView { dtype, order, axes, shape: dims, len: selected, total })
    }
}

} // verus!

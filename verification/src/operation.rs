//! The synchronous part of a request: from the bytes of the object to the
//! outcome of the reduction.

use vstd::prelude::*;

use crate::array::layout_of;
use crate::array::option_view;
use crate::array::ranges_view;
use crate::array::raw_size_fits;
use crate::array::selection_valid;
use crate::array::ArrayView;
use crate::byte_order::lemma_swapped_element;
use crate::byte_order::native_byte_order;
use crate::byte_order::swap_bytes;
use crate::byte_order::swapped;
use crate::error::ActiveStorageError;
use crate::filter_pipeline::filter_pipeline;
use crate::filter_pipeline::pipeline_output;
use crate::models::RequestData;
use crate::operations::elements;
use crate::operations::execute;
use crate::operations::is_outcome;
use crate::operations::Operation;
use crate::operations::Outcome;
use crate::types::element_size;
use crate::types::ByteOrder;
use crate::types::DType;
use crate::types::Order;

verus! {

/// The shape that a request means for raw data of `len` bytes: its own, or
/// one axis over all elements.
pub open spec fn effective_shape(shape: Option<Seq<usize>>, len: nat, dtype: DType) -> Seq<usize> {
    match shape {
        Some(dims) => dims,
        None => seq![(len / dtype.size()) as usize],
    }
}

/// The raw data as the kernels read it: with the bytes of every element
/// reversed when the request names a byte order that is not the machine's.
pub open spec fn normalised(
    raw: Seq<u8>,
    byte_order: Option<ByteOrder>,
    host: ByteOrder,
    dtype: DType,
) -> Seq<u8> {
    match byte_order {
        Some(order) => if order != host {
            swapped(raw, dtype.size())
        } else {
            raw
        },
        None => raw,
    }
}

/// What the reduction of a request gives for the raw data `raw` of its array,
/// on a machine of byte order `host`.
///
/// The raw data must have the size of the array (`ShapeMismatch`), the
/// selection must fit the shape (`InvalidSelection`) and the missing-data
/// values the element type (`InvalidMissing`), in this order; then the result
/// is what the reduction gives over the selected elements of the normalised
/// data.
pub open spec fn raw_outcome(
    result: Result<Outcome, ActiveStorageError>,
    op: Operation,
    request_data: RequestData,
    raw: Seq<u8>,
    host: ByteOrder,
) -> bool {
    let dtype = request_data.dtype;
    let shape = effective_shape(option_view(request_data.shape), raw.len(), dtype);
    let selection = ranges_view(request_data.selection);
    if !raw_size_fits(raw.len() as usize, dtype, option_view(request_data.shape)) {
        result == Err::<Outcome, ActiveStorageError>(ActiveStorageError::ShapeMismatch)
    } else if selection matches Some(ranges) && !selection_valid(shape, ranges) {
        result == Err::<Outcome, ActiveStorageError>(ActiveStorageError::InvalidSelection)
    } else if request_data.missing matches Some(policy) && !policy.fits(dtype) {
        result == Err::<Outcome, ActiveStorageError>(ActiveStorageError::InvalidMissing)
    } else {
        is_outcome(
            result,
            op,
            layout_of(dtype, shape, request_data.effective_order(), selection),
            request_data.missing,
            normalised(raw, request_data.byte_order, host, dtype),
            host,
        )
    }
}

/// What `operation` gives on a machine of byte order `host`: a failure of the
/// filter pipeline, or what the reduction gives for the raw data that the
/// pipeline hands on.
pub open spec fn operation_outcome(
    result: Result<Outcome, ActiveStorageError>,
    op: Operation,
    request_data: RequestData,
    data: Seq<u8>,
    host: ByteOrder,
) -> bool {
    match pipeline_output(
        request_data.compression,
        request_data.effective_filters(),
        request_data.dtype,
        data,
    ) {
        Err(e) => result == Err::<Outcome, ActiveStorageError>(e),
        Ok(raw) => raw_outcome(result, op, request_data, raw, host),
    }
}

/// Whenever a request comes to a result, the bytes that left the filter
/// pipeline were exactly the array: element size times the product of the
/// shape.
pub proof fn lemma_reduced_data_is_the_array(
    result: Result<Outcome, ActiveStorageError>,
    op: Operation,
    request_data: RequestData,
    data: Seq<u8>,
    host: ByteOrder,
)
    requires
        operation_outcome(result, op, request_data, data, host),
        result is Ok,
    ensures
        pipeline_output(
            request_data.compression,
            request_data.effective_filters(),
            request_data.dtype,
            data,
        ) matches Ok(raw) && raw_size_fits(
            raw.len() as usize,
            request_data.dtype,
            option_view(request_data.shape),
        ),
        request_data.shape matches Some(shape) ==> pipeline_output(
            request_data.compression,
            request_data.effective_filters(),
            request_data.dtype,
            data,
        )->Ok_0.len() as usize == request_data.dtype.size() * crate::array::product(shape@),
{
}

/// After the normaliser has run, the kernel reads in the machine's byte order
/// the elements that the buffer held in the other byte order.
pub proof fn lemma_normalised_elements(view: &ArrayView, raw: Seq<u8>, host: ByteOrder)
    requires
        view.wf(),
        raw.len() == view@.byte_len(),
    ensures
        elements(view@, swapped(raw, view.dtype.size()), host) == elements(
            view@,
            raw,
            host.flipped(),
        ),
{
    let size = view.dtype.size();
    let walk = view@.memory_walk();
    let after = elements(view@, swapped(raw, size), host);
    let before = elements(view@, raw, host.flipped());
    assert forall|k: int| 0 <= k < view.len implies after[k] == before[k] by {
        crate::array::lemma_max_offset_reverse(view.axes@);
        assert(crate::array::all_positive(walk));
        crate::array::lemma_offset_bound(walk, k);
        let off = crate::array::offset_at(walk, k);
        assert((off + 1) * size <= view.total * size) by (nonlinear_arith)
            requires
                0 <= off < view.total,
                size >= 0,
        ;
        lemma_swapped_element(raw, size, off, host);
    }
    assert(after =~= before);
}

/// Runs `op` for a request on the bytes `data` of its object, on a machine of
/// byte order `host`: filter pipeline, then the reduction of what it hands on.
pub fn operation_on(op: Operation, request_data: &RequestData, data: Vec<u8>, host: ByteOrder) -> (result:
    Result<Outcome, ActiveStorageError>)
    ensures
        operation_outcome(result, op, *request_data, data@, host),
{
    match filter_pipeline(request_data, data) {
        Ok(raw) => reduce_raw(op, request_data, raw, host),
        Err(e) => Err(e),
    }
}

/// Runs `op` for a request on the raw data of its array, as the filter
/// pipeline hands it on, on a machine of byte order `host`: size and
/// selection checks, byte-order normalisation, reduction.
pub fn reduce_raw(op: Operation, request_data: &RequestData, raw: Vec<u8>, host: ByteOrder) -> (result:
    Result<Outcome, ActiveStorageError>)
    ensures
        raw_outcome(result, op, *request_data, raw@, host),
{
    let dtype = request_data.dtype;
    let size = element_size(dtype) as usize;
    let mut raw = raw;
    let len = raw.len();
    let order = match request_data.order {
        Some(order) => order,
        None => Order::C,
    };
    let made = match &request_data.shape {
        Some(dims) => ArrayView::new(dtype, dims, order, &request_data.selection, len),
        None => {
            if len % size != 0 {
                return Err(ActiveStorageError::ShapeMismatch);
            }
            let mut dims: Vec<usize> = Vec::new();
            dims.push(len / size);
            proof {
                assert(dims@ =~= seq![(len / size) as usize]);
                assert(crate::array::product(dims@) == len / size) by {
                    assert(dims@.drop_last() =~= Seq::<usize>::empty());
                    let p = crate::array::product(dims@.drop_last());
                    let d = dims@.last() as nat;
                    assert(p == 1);
                    assert(p * d == d) by (nonlinear_arith)
                        requires
                            p == 1,
                    ;
                }
                vstd::arithmetic::div_mod::lemma_fundamental_div_mod(len as int, size as int);
            }
            ArrayView::new(dtype, &dims, order, &request_data.selection, len)
        },
    };
    let view = match made {
        Ok(view) => view,
        Err(e) => {
            return Err(e);
        },
    };
    match &request_data.missing {
        Some(policy) => match policy.validate(dtype) {
            Ok(_) => {},
            Err(e) => {
                return Err(e);
            },
        },
        None => {},
    }
    match request_data.byte_order {
        Some(stored) => {
            if stored != host {
                swap_bytes(&mut raw, size);
            }
        },
        None => {},
    }
    proof {
        assert(view.total * dtype.size() == dtype.size() * view.total) by (nonlinear_arith);
    }
    execute(op, &view, &request_data.missing, &raw, host)
}

/// Runs `op` for a request on the bytes `data` of its object, on this machine.
pub fn operation(op: Operation, request_data: &RequestData, data: Vec<u8>) -> (result: Result<
    Outcome,
    ActiveStorageError,
>)
    ensures
        operation_outcome(result, op, *request_data, data@, ByteOrder::Little)
            || operation_outcome(result, op, *request_data, data@, ByteOrder::Big),
{
    let host = native_byte_order();
    operation_on(op, request_data, data, host)
}

/// The reduction that a path segment names.
pub open spec fn operation_named(name: Seq<char>) -> Option<Operation> {
    if name == "count"@ {
        Some(Operation::Count)
    } else if name == "max"@ {
        Some(Operation::Max)
    } else if name == "min"@ {
        Some(Operation::Min)
    } else if name == "select"@ {
        Some(Operation::Select)
    } else if name == "sum"@ {
        Some(Operation::Sum)
    } else {
        None
    }
}

/// The reduction that the last segment of a request path names.
///
/// Fails with `UnsupportedOperation`, which carries the name, when there is
/// no such reduction.
pub fn parse_operation(name: &str) -> (result: Result<Operation, ActiveStorageError>)
    ensures
        match operation_named(name@) {
            Some(op) => result == Ok::<Operation, ActiveStorageError>(op),
            None => result matches Err(ActiveStorageError::UnsupportedOperation { operation })
                && operation@ == name@,
        },
{
    let given = String::from_str(name);
    if given == String::from_str("count") {
        Ok(Operation::Count)
    } else if given == String::from_str("max") {
        Ok(Operation::Max)
    } else if given == String::from_str("min") {
        Ok(Operation::Min)
    } else if given == String::from_str("select") {
        Ok(Operation::Select)
    } else if given == String::from_str("sum") {
        Ok(Operation::Sum)
    } else {
        Err(ActiveStorageError::UnsupportedOperation { operation: given })
    }
}

} // verus!

//! From the bytes of an object to the raw bytes of its array: decompress
//! first, then undo the filters, the last one applied first.

use vstd::prelude::*;

use crate::compression::decoded;
use crate::compression::decompress;
use crate::error::ActiveStorageError;
use crate::filters::shuffle_fits;
use crate::filters::unshuffle;
use crate::filters::unshuffled;
use crate::models::Compression;
use crate::models::Filter;
use crate::models::RequestData;
use crate::types::element_size;
use crate::types::DType;

verus! {

/// What undoing one filter gives.
pub open spec fn filter_undone(data: Seq<u8>, filter: Filter, dtype: DType) -> Result<
    Seq<u8>,
    ActiveStorageError,
> {
    match filter {
        Filter::Shuffle { element_size } => if element_size == dtype.size() && shuffle_fits(
            data.len(),
            element_size as nat,
        ) {
            Ok(unshuffled(data, element_size as nat))
        } else {
            Err(ActiveStorageError::ShuffleSizeMismatch)
        },
    }
}

/// What undoing all of `filters` gives, the last of the list first. The first
/// filter that does not fit ends the chain with its error.
pub open spec fn filters_undone(data: Seq<u8>, filters: Seq<Filter>, dtype: DType) -> Result<
    Seq<u8>,
    ActiveStorageError,
>
    decreases filters.len(),
{
    if filters.len() == 0 {
        Ok(data)
    } else {
        match filter_undone(data, filters.last(), dtype) {
            Ok(bytes) => filters_undone(bytes, filters.drop_last(), dtype),
            Err(e) => Err(e),
        }
    }
}

/// What the whole pipeline gives for the bytes `data` of an object.
pub open spec fn pipeline_output(
    compression: Option<Compression>,
    filters: Seq<Filter>,
    dtype: DType,
    data: Seq<u8>,
) -> Result<Seq<u8>, ActiveStorageError> {
    match compression {
        Some(kind) => match decoded(kind, data) {
            Some(bytes) => filters_undone(bytes, filters, dtype),
            None => Err(ActiveStorageError::DecompressionFailed),
        },
        None => filters_undone(data, filters, dtype),
    }
}

/// Whether an exec result and a spec result say the same.
pub open spec fn same_bytes(
    result: Result<Vec<u8>, ActiveStorageError>,
    expected: Result<Seq<u8>, ActiveStorageError>,
) -> bool {
    match result {
        Ok(bytes) => expected == Ok::<Seq<u8>, ActiveStorageError>(bytes@),
        Err(e) => expected == Err::<Seq<u8>, ActiveStorageError>(e),
    }
}

/// Undoes one filter.
pub fn undo_filter(data: Vec<u8>, filter: &Filter, dtype: DType) -> (result: Result<
    Vec<u8>,
    ActiveStorageError,
>)
    ensures
        same_bytes(result, filter_undone(data@, *filter, dtype)),
{
    match filter {
        Filter::Shuffle { element_size: width } => {
            if *width != element_size(dtype) as usize {
                return Err(ActiveStorageError::ShuffleSizeMismatch);
            }
            unshuffle(&data, *width)
        },
    }
}

/// Undoes `filters`, the last of the list first. With no filters the buffer
/// comes back as it is.
pub fn undo_filters(data: Vec<u8>, filters: &Vec<Filter>, dtype: DType) -> (result: Result<
    Vec<u8>,
    ActiveStorageError,
>)
    ensures
        same_bytes(result, filters_undone(data@, filters@, dtype)),
{
    let ghost input = data@;
    let mut bytes = data;
    let mut left = filters.len();
    assert(filters@.take(left as int) =~= filters@);
    while left > 0
        invariant
            left <= filters@.len(),
            input == data@,
            filters_undone(input, filters@, dtype) == filters_undone(
                bytes@,
                filters@.take(left as int),
                dtype,
            ),
        decreases left,
    {
        let ghost head = filters@.take(left as int);
        let ghost prior = bytes@;
        assert(head.drop_last() =~= filters@.take(left - 1));
        assert(head.last() == filters@[left - 1]);
        assert(filters_undone(prior, head, dtype) == match filter_undone(
            prior,
            head.last(),
            dtype,
        ) {
            Ok(next) => filters_undone(next, head.drop_last(), dtype),
            Err(e) => Err(e),
        });
        left -= 1;
        match undo_filter(bytes, &filters[left], dtype) {
            Ok(next) => {
                bytes = next;
            },
            Err(e) => {
                return Err(e);
            },
        }
    }
    Ok(bytes)
}

/// Runs the pipeline on the bytes of an object: decompresses them if the
/// request names a compression, then undoes the request's filters. Without
/// compression and filters the buffer comes back as it is.
pub fn filter_pipeline(request_data: &RequestData, data: Vec<u8>) -> (result: Result<
    Vec<u8>,
    ActiveStorageError,
>)
    ensures
        same_bytes(
            result,
            pipeline_output(
                request_data.compression,
                request_data.effective_filters(),
                request_data.dtype,
                data@,
            ),
        ),
        request_data.compression is None && request_data.filters is None ==> result is Ok
            && result->Ok_0@ == data@,
{
    let bytes = match request_data.compression {
        Some(kind) => match decompress(kind, &data) {
            Ok(bytes) => bytes,
            Err(e) => {
                return Err(e);
            },
        },
        None => data,
    };
    match &request_data.filters {
        Some(filters) => undo_filters(bytes, filters, request_data.dtype),
        None => Ok(bytes),
    }
}

} // verus!

//! What a request says and what a response carries.

use vstd::prelude::*;

use crate::array::option_view;
use crate::array::raw_size_fits;
use crate::array::selection_valid;
use crate::array::validate_raw_size;
use crate::array::validate_selection;
use crate::array::Slice;
use crate::error::ActiveStorageError;
use crate::types::element_size;
use crate::missing::Missing;
use crate::s3_client::range_expressible;
use crate::types::ByteOrder;
use crate::types::DType;
use crate::types::Order;

verus! {

/// Algorithm that the payload was compressed with.
#[derive(Debug, Clone, Copy, PartialEq, Eq, Structural)]
pub enum Compression {
    Gzip,
    Zlib,
}

/// A transform that was applied to the payload before it was compressed.
#[derive(Debug, Clone, Copy, PartialEq, Eq, Structural)]
pub enum Filter {
    /// Byte shuffle over elements of `element_size` bytes.
    Shuffle { element_size: usize },
}

/// One request: where the object is, how its bytes are laid out, and which
/// part of the array to reduce.
#[derive(Debug, Clone, PartialEq, Eq)]
pub struct RequestData {
    /// URL of the object store.
    pub source: String,
    pub bucket: String,
    pub object: String,
    pub dtype: DType,
    /// Byte order of the stored elements; the machine's own when absent.
    pub byte_order: Option<ByteOrder>,
    /// First byte to read; 0 when absent.
    pub offset: Option<usize>,
    /// Number of bytes to read; the rest of the object when absent.
    pub size: Option<usize>,
    /// Shape of the array; one axis over all elements when absent.
    pub shape: Option<Vec<usize>>,
    /// Memory order of the array; `C` when absent.
    pub order: Option<Order>,
    /// One range per axis; everything when absent.
    pub selection: Option<Vec<Slice>>,
    pub compression: Option<Compression>,
    /// Filters in the order in which they were applied when the object was written.
    pub filters: Option<Vec<Filter>>,
    pub missing: Option<Missing>,
}

/// The outcome of a reduction.
#[derive(Debug, Clone, PartialEq, Eq)]
pub struct Response {
    /// The result as raw bytes in the machine's byte order.
    pub body: Vec<u8>,
    /// Element type of the result.
    pub dtype: DType,
    /// Shape of the result; empty for a scalar.
    pub shape: Vec<usize>,
    /// Number of elements that took part.
    pub count: i64,
}

impl RequestData {
    /// The memory order that the request means.
    pub open spec fn effective_order(&self) -> Order {
        match self.order {
            Some(order) => order,
            None => Order::C,
        }
    }

    /// The filters that the request means, oldest first.
    pub open spec fn effective_filters(&self) -> Seq<Filter> {
        match self.filters {
            Some(filters) => filters@,
            None => Seq::empty(),
        }
    }
}

/// Whether every dimension is at least 1.
pub open spec fn all_dims_positive(shape: Seq<usize>) -> bool {
    forall|i: int| 0 <= i < shape.len() ==> #[trigger] shape[i] >= 1
}

/// Whether every range is non-empty and has a positive stride.
pub open spec fn all_ranges_proper(selection: Seq<Slice>) -> bool {
    forall|i: int|
        0 <= i < selection.len() ==> (#[trigger] selection[i]).start < selection[i].end
            && selection[i].stride >= 1
}

/// Whether a filter fits elements of `dtype`.
pub open spec fn filter_fits(filter: Filter, dtype: DType) -> bool {
    match filter {
        Filter::Shuffle { element_size } => element_size == dtype.size(),
    }
}

/// Whether every filter fits elements of `dtype`.
pub open spec fn all_filters_fit(filters: Seq<Filter>, dtype: DType) -> bool {
    forall|i: int|
        0 <= i < filters.len() ==> filter_fits(#[trigger] filters[i], dtype)
}

impl RequestData {
    /// Whether the selection can be a selection of the array: with a shape,
    /// one valid range per axis; without one, a single proper range, whose end
    /// can only be checked against the data.
    pub open spec fn selection_fits(&self) -> bool {
        match (self.shape, self.selection) {
            (_, None) => true,
            (Some(shape), Some(selection)) => selection_valid(shape@, selection@),
            (None, Some(selection)) => selection@.len() == 1 && all_ranges_proper(selection@),
        }
    }

    /// Whether the number of bytes to read can be the array: only a request
    /// that names a size and no compression says how many raw bytes there are.
    pub open spec fn size_fits(&self) -> bool {
        match (self.size, self.compression) {
            (Some(size), None) => raw_size_fits(size, self.dtype, option_view(self.shape)),
            _ => true,
        }
    }

    /// The first rule of the data model that the request breaks, if any: a
    /// dimension of zero (`InvalidRequest`), a size of zero or a range whose
    /// last byte has no place in a machine word (`InvalidRequest`), a size
    /// that is not that of the array (`ShapeMismatch`), a selection that does not fit
    /// (`InvalidSelection`), a filter for another element size
    /// (`ShuffleSizeMismatch`), missing-data values outside the element type
    /// (`InvalidMissing`).
    pub open spec fn broken_rule(&self) -> Option<ActiveStorageError> {
        if self.shape matches Some(shape) && !all_dims_positive(shape@) {
            Some(ActiveStorageError::InvalidRequest)
        } else if !range_expressible(self.offset, self.size) {
            Some(ActiveStorageError::InvalidRequest)
        } else if !self.size_fits() {
            Some(ActiveStorageError::ShapeMismatch)
        } else if !self.selection_fits() {
            Some(ActiveStorageError::InvalidSelection)
        } else if !all_filters_fit(self.effective_filters(), self.dtype) {
            Some(ActiveStorageError::ShuffleSizeMismatch)
        } else if self.missing matches Some(policy) && !policy.fits(self.dtype) {
            Some(ActiveStorageError::InvalidMissing)
        } else {
            None
        }
    }

    /// Checks the request against the data model, before anything is fetched.
    pub fn validate(&self) -> (result: Result<(), ActiveStorageError>)
        ensures
            match result {
                Ok(_) => self.broken_rule() is None,
                Err(e) => self.broken_rule() == Some(e),
            },
    {
        match &self.shape {
            Some(shape) => {
                let mut i: usize = 0;
                while i < shape.len()
                    invariant
                        i <= shape@.len(),
                        self.shape == Some(*shape),
                        forall|k: int| 0 <= k < i ==> #[trigger] shape@[k] >= 1,
                    decreases shape@.len() - i,
                {
                    if shape[i] == 0 {
                        assert(!(shape@[i as int] >= 1));
                        return Err(ActiveStorageError::InvalidRequest);
                    }
                    i += 1;
                }
            },
            None => {},
        }
        match self.size {
            Some(size) => {
                let first = match self.offset {
                    Some(offset) => offset,
                    None => 0,
                };
                if size == 0 || first > usize::MAX - (size - 1) {
                    return Err(ActiveStorageError::InvalidRequest);
                }
            },
            None => {},
        }
        match (self.size, self.compression) {
            (Some(size), None) => match validate_raw_size(size, self.dtype, &self.shape) {
                Ok(_) => {},
                Err(e) => {
                    return Err(e);
                },
            },
            _ => {},
        }
        match (&self.shape, &self.selection) {
            (_, None) => {},
            (Some(shape), Some(selection)) => match validate_selection(shape, selection) {
                Ok(_) => {},
                Err(e) => {
                    return Err(e);
                },
            },
            (None, Some(selection)) => {
                if selection.len() != 1 {
                    return Err(ActiveStorageError::InvalidSelection);
                }
                let range = &selection[0];
                if !(range.start < range.end && range.stride >= 1) {
                    return Err(ActiveStorageError::InvalidSelection);
                }
            },
        }
        match &self.filters {
            Some(filters) => {
                let width = element_size(self.dtype) as usize;
                let mut i: usize = 0;
                while i < filters.len()
                    invariant
                        i <= filters@.len(),
                        width == self.dtype.size(),
                        self.filters == Some(*filters),
                        self.broken_rule() is None || self.broken_rule() == Some(
                            ActiveStorageError::ShuffleSizeMismatch,
                        ) || self.broken_rule() == Some(ActiveStorageError::InvalidMissing),
                        forall|k: int|
                            0 <= k < i ==> filter_fits(#[trigger] filters@[k], self.dtype),
                    decreases filters@.len() - i,
                {
                    match filters[i] {
                        Filter::Shuffle { element_size: given } => {
                            if given != width {
                                assert(!filter_fits(filters@[i as int], self.dtype));
                                return Err(ActiveStorageError::ShuffleSizeMismatch);
                            }
                        },
                    }
                    i += 1;
                }
            },
            None => {},
        }
        match &self.missing {
            Some(policy) => policy.validate(self.dtype),
            None => Ok(()),
        }
    }
}

/// A request that breaks no rule names bytes that can be written as a range,
/// so that asking for its `Range` header does not fail.
pub proof fn lemma_valid_request_has_a_range(request: RequestData)
    requires
        request.broken_rule() is None,
    ensures
        range_expressible(request.offset, request.size),
{
}

} // verus!

//! The missing-data policy: which element values take part in a reduction.

use vstd::prelude::*;

use crate::error::ActiveStorageError;
use crate::types::DType;

verus! {

/// How missing data is marked in an array. The values are bit patterns of
/// elements of the array's type.
#[derive(Debug, Clone, PartialEq, Eq)]
pub enum Missing {
    /// One value that stands for "missing".
    MissingValue(u64),
    /// Several values that stand for "missing".
    MissingValues(Vec<u64>),
    /// Values below this one are missing.
    ValidMin(u64),
    /// Values above this one are missing.
    ValidMax(u64),
    /// Values outside this range, ends included, are missing.
    ValidRange(u64, u64),
}

/// Whether two elements are numbers and differ. A NaN on either side makes
/// the comparison false.
pub open spec fn differs(dtype: DType, a: u64, b: u64) -> bool {
    !dtype.is_nan(a) && !dtype.is_nan(b) && dtype.value(a) != dtype.value(b)
}

/// Whether two elements are numbers and the first is not above the second. A
/// NaN on either side makes the comparison false.
pub open spec fn at_most(dtype: DType, a: u64, b: u64) -> bool {
    !dtype.is_nan(a) && !dtype.is_nan(b) && dtype.value(a) <= dtype.value(b)
}

impl Missing {
    /// Whether every value of the policy is a bit pattern of `dtype`.
    pub open spec fn fits(&self, dtype: DType) -> bool {
        match self {
            Missing::MissingValue(v) => dtype.holds(*v),
            Missing::MissingValues(vs) => forall|i: int|
                0 <= i < vs@.len() ==> dtype.holds(#[trigger] vs@[i]),
            Missing::ValidMin(v) => dtype.holds(*v),
            Missing::ValidMax(v) => dtype.holds(*v),
            Missing::ValidRange(low, high) => dtype.holds(*low) && dtype.holds(*high),
        }
    }

    /// Whether the policy lets the element `bits` take part. No policy lets a
    /// NaN take part.
    pub open spec fn admits(&self, dtype: DType, bits: u64) -> bool {
        match self {
            Missing::MissingValue(v) => differs(dtype, bits, *v),
            Missing::MissingValues(vs) => !dtype.is_nan(bits) && forall|i: int|
                0 <= i < vs@.len() ==> differs(dtype, bits, #[trigger] vs@[i]),
            Missing::ValidMin(v) => at_most(dtype, *v, bits),
            Missing::ValidMax(v) => at_most(dtype, bits, *v),
            Missing::ValidRange(low, high) => at_most(dtype, *low, bits) && at_most(
                dtype,
                bits,
                *high,
            ),
        }
    }

    /// Checks that every value of the policy is a bit pattern of `dtype`.
    pub fn validate(&self, dtype: DType) -> (result: Result<(), ActiveStorageError>)
        ensures
            result is Ok <==> self.fits(dtype),
            result is Err ==> result->Err_0 == ActiveStorageError::InvalidMissing,
    {
        let ok = match self {
            Missing::MissingValue(v) => in_type(dtype, *v),
            Missing::MissingValues(vs) => {
                let mut i: usize = 0;
                let mut all = true;
                while i < vs.len()
                    invariant
                        i <= vs@.len(),
                        all <==> forall|k: int| 0 <= k < i ==> dtype.holds(#[trigger] vs@[k]),
                    decreases vs@.len() - i,
                {
                    if !in_type(dtype, vs[i]) {
                        all = false;
                    }
                    i += 1;
                }
                all
            },
            Missing::ValidMin(v) => in_type(dtype, *v),
            Missing::ValidMax(v) => in_type(dtype, *v),
            Missing::ValidRange(low, high) => in_type(dtype, *low) && in_type(dtype, *high),
        };
        if ok {
            Ok(())
        } else {
            Err(ActiveStorageError::InvalidMissing)
        }
    }

    /// Decides whether the element `bits` takes part in a reduction.
    pub fn admitted(&self, dtype: DType, bits: u64) -> (yes: bool)
        ensures
            yes == self.admits(dtype, bits),
    {
        match self {
            Missing::MissingValue(v) => unequal(dtype, bits, *v),
            Missing::MissingValues(vs) => {
                if dtype.nan(bits) {
                    return false;
                }
                let mut i: usize = 0;
                while i < vs.len()
                    invariant
                        i <= vs@.len(),
                        !dtype.is_nan(bits),
                        self matches Missing::MissingValues(all) && all == vs,
                        forall|k: int| 0 <= k < i ==> differs(dtype, bits, #[trigger] vs@[k]),
                    decreases vs@.len() - i,
                {
                    if !unequal(dtype, bits, vs[i]) {
                        assert(!differs(dtype, bits, vs@[i as int]));
                        return false;
                    }
                    i += 1;
                }
                true
            },
            Missing::ValidMin(v) => not_above(dtype, *v, bits),
            Missing::ValidMax(v) => not_above(dtype, bits, *v),
            Missing::ValidRange(low, high) => not_above(dtype, *low, bits) && not_above(
                dtype,
                bits,
                *high,
            ),
        }
    }
}

/// Whether an optional policy lets the element `bits` take part: without a
/// policy every element does.
pub open spec fn admits(missing: Option<Missing>, dtype: DType, bits: u64) -> bool {
    match missing {
        Some(policy) => policy.admits(dtype, bits),
        None => true,
    }
}

/// Decides whether the element `bits` takes part under an optional policy.
pub fn admitted(missing: &Option<Missing>, dtype: DType, bits: u64) -> (yes: bool)
    ensures
        yes == admits(*missing, dtype, bits),
{
    match missing {
        Some(policy) => policy.admitted(dtype, bits),
        None => true,
    }
}

/// Picks the policy out of the policies that a request names: none is no
/// policy, one is that policy, and more than one is refused with
/// `InvalidMissing`.
pub fn single_policy(mut policies: Vec<Missing>) -> (result: Result<
    Option<Missing>,
    ActiveStorageError,
>)
    ensures
        policies@.len() == 0 ==> result == Ok::<Option<Missing>, ActiveStorageError>(None),
        policies@.len() == 1 ==> result == Ok::<Option<Missing>, ActiveStorageError>(
            Some(policies@[0]),
        ),
        policies@.len() > 1 ==> result == Err::<Option<Missing>, ActiveStorageError>(
            ActiveStorageError::InvalidMissing,
        ),
{
    if policies.len() > 1 {
        return Err(ActiveStorageError::InvalidMissing);
    }
    Ok(policies.pop())
}

fn in_type(dtype: DType, bits: u64) -> (yes: bool)
    ensures
        yes == dtype.holds(bits),
{
    match dtype {
        DType::Int32 | DType::Uint32 | DType::Float32 => bits < 0x1_0000_0000,
        _ => true,
    }
}

fn unequal(dtype: DType, a: u64, b: u64) -> (yes: bool)
    ensures
        yes == differs(dtype, a, b),
{
    !dtype.nan(a) && !dtype.nan(b) && dtype.value_of(a) != dtype.value_of(b)
}

fn not_above(dtype: DType, a: u64, b: u64) -> (yes: bool)
    ensures
        yes == at_most(dtype, a, b),
{
    !dtype.nan(a) && !dtype.nan(b) && dtype.value_of(a) <= dtype.value_of(b)
}

/// No policy lets a NaN take part.
pub proof fn lemma_policy_refuses_nan(policy: Missing, dtype: DType, bits: u64)
    requires
        dtype.is_nan(bits),
    ensures
        !policy.admits(dtype, bits),
{
}

} // verus!

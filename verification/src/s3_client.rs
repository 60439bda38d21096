//! What the object store is asked for: the byte range of a request, and the
//! credentials that go with it.

use vstd::prelude::*;

use crate::error::ActiveStorageError;
use crate::headers::decimal;
use crate::headers::digit;

verus! {

/// Credentials for the object store.
#[derive(Debug, Clone, PartialEq, Eq)]
pub enum S3Credentials {
    /// An access key and its secret.
    AccessKey { access_key: String, secret_key: String },
    /// No credentials: the store is asked without signing.
    Anonymous,
}

impl S3Credentials {
    /// Credentials from the user name and password of a request.
    pub fn access_key(access_key: &str, secret_key: &str) -> (credentials: S3Credentials)
        ensures
            credentials matches S3Credentials::AccessKey { access_key: a, secret_key: s }
                && a@ == access_key@ && s@ == secret_key@,
    {
        S3Credentials::AccessKey {
            access_key: String::from_str(access_key),
            secret_key: String::from_str(secret_key),
        }
    }
}

/// Whether the bytes that a request names can be written as a range: a size,
/// where there is one, is at least 1, and the last byte of the range has a
/// place that fits a machine word.
pub open spec fn range_expressible(offset: Option<usize>, size: Option<usize>) -> bool {
    match size {
        Some(size) => size >= 1 && first_byte(offset) + size - 1 <= usize::MAX,
        None => true,
    }
}

/// The first byte that a request reads: its offset, or 0 without one.
pub open spec fn first_byte(offset: Option<usize>) -> int {
    match offset {
        Some(offset) => offset as int,
        None => 0,
    }
}

/// The value of the `Range` header for `size` bytes from `offset` on, or from
/// `offset` to the end of the object when there is no size. The last byte of
/// a range is written inclusively. There is a header whenever an offset or a
/// size is given; without both the whole object is meant.
pub open spec fn range_header(offset: Option<usize>, size: Option<usize>) -> Option<Seq<char>> {
    match (offset, size) {
        (_, Some(size)) => Some(
            "bytes="@ + decimal(first_byte(offset) as nat) + "-"@ + decimal(
                (first_byte(offset) + size - 1) as nat,
            ),
        ),
        (Some(offset), None) => Some("bytes="@ + decimal(offset as nat) + "-"@),
        (None, None) => None,
    }
}

fn digit_text(d: usize) -> (text: &'static str)
    requires
        d < 10,
    ensures
        text@ == seq![digit(d as int)],
{
    proof {
        reveal_strlit("0");
        reveal_strlit("1");
        reveal_strlit("2");
        reveal_strlit("3");
        reveal_strlit("4");
        reveal_strlit("5");
        reveal_strlit("6");
        reveal_strlit("7");
        reveal_strlit("8");
        reveal_strlit("9");
    }
    let text = if d == 0 {
        "0"
    } else if d == 1 {
        "1"
    } else if d == 2 {
        "2"
    } else if d == 3 {
        "3"
    } else if d == 4 {
        "4"
    } else if d == 5 {
        "5"
    } else if d == 6 {
        "6"
    } else if d == 7 {
        "7"
    } else if d == 8 {
        "8"
    } else {
        "9"
    };
    assert(text@ =~= seq![digit(d as int)]);
    text
}

/// Appends `n` in decimal to `out`.
pub fn push_decimal(out: &mut String, n: usize)
    ensures
        final(out)@ == old(out)@ + decimal(n as nat),
    decreases n,
{
    let ghost before = out@;
    if n >= 10 {
        push_decimal(out, n / 10);
    }
    out.append(digit_text(n % 10));
    assert(out@ =~= before + decimal(n as nat));
}

/// The value of the `Range` header for a request, if it needs one.
///
/// Fails with `InvalidRequest` when the request names a size of 0, or a range
/// whose last byte has no place in a machine word.
pub fn get_range(offset: Option<usize>, size: Option<usize>) -> (result: Result<
    Option<String>,
    ActiveStorageError,
>)
    ensures
        result is Ok <==> range_expressible(offset, size),
        result is Err ==> result->Err_0 == ActiveStorageError::InvalidRequest,
        result matches Ok(range) ==> {
            &&& range is Some <==> offset is Some || size is Some
            &&& match range {
                Some(text) => range_header(offset, size) == Some(text@),
                None => range_header(offset, size) is None,
            }
        },
{
    match (offset, size) {
        (_, Some(size)) => {
            let first = match offset {
                Some(offset) => offset,
                None => 0,
            };
            if size == 0 {
                return Err(ActiveStorageError::InvalidRequest);
            }
            match first.checked_add(size - 1) {
                Some(last) => {
                    let mut text = String::from_str("bytes=");
                    push_decimal(&mut text, first);
                    text.append("-");
                    push_decimal(&mut text, last);
                    Ok(Some(text))
                },
                None => Err(ActiveStorageError::InvalidRequest),
            }
        },
        (Some(offset), None) => {
            let mut text = String::from_str("bytes=");
            push_decimal(&mut text, offset);
            text.append("-");
            Ok(Some(text))
        },
        (None, None) => Ok(None),
    }
}

} // verus!

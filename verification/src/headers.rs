//! The metadata headers of a response.

use vstd::prelude::*;

use crate::models::Response;
use crate::types::ByteOrder;
use crate::types::DType;

verus! {

/// The decimal digit `d` as a character.
pub open spec fn digit(d: int) -> char {
    if d == 0 {
        '0'
    } else if d == 1 {
        '1'
    } else if d == 2 {
        '2'
    } else if d == 3 {
        '3'
    } else if d == 4 {
        '4'
    } else if d == 5 {
        '5'
    } else if d == 6 {
        '6'
    } else if d == 7 {
        '7'
    } else if d == 8 {
        '8'
    } else {
        '9'
    }
}

/// `n` in decimal, without leading zeros.
pub open spec fn decimal(n: nat) -> Seq<char>
    decreases n,
{
    if n < 10 {
        seq![digit(n as int)]
    } else {
        decimal(n / 10).push(digit((n % 10) as int))
    }
}

/// `v` as a JSON number: its decimal digits, after a minus sign when negative.
pub open spec fn json_integer(v: int) -> Seq<char> {
    if v < 0 {
        seq!['-'] + decimal((-v) as nat)
    } else {
        decimal(v as nat)
    }
}

/// The numbers of `dims` in decimal with a comma between neighbours.
pub open spec fn comma_separated(dims: Seq<usize>) -> Seq<char>
    decreases dims.len(),
{
    if dims.len() == 0 {
        Seq::empty()
    } else if dims.len() == 1 {
        decimal(dims[0] as nat)
    } else {
        comma_separated(dims.drop_last()) + seq![','] + decimal(dims.last() as nat)
    }
}

/// `dims` as a JSON array of numbers, without spaces.
pub open spec fn json_array(dims: Seq<usize>) -> Seq<char> {
    seq!['['] + comma_separated(dims) + seq![']']
}

/// The media type of raw bytes.
///
/// Formats the constant `mime::APPLICATION_OCTET_STREAM`, whose text the
/// crate defines as `application/octet-stream`.
#[verifier::external_body]
fn octet_stream() -> (text: String)
    ensures
        text@ == "application/octet-stream"@,
{
    mime::APPLICATION_OCTET_STREAM.to_string()
}

/// A shape as JSON.
///
/// Calls `serde_json::to_string` on a slice of machine words. The compact
/// formatter writes a sequence as `[`, the items with `,` between them, and
/// `]`, and an unsigned integer in decimal; writing into a string cannot fail.
#[verifier::external_body]
fn shape_json(shape: &Vec<usize>) -> (text: String)
    ensures
        text@ == json_array(shape@),
{
    serde_json::to_string(shape).unwrap_or_default()
}

/// A count as JSON.
///
/// Calls `serde_json::to_string` on a signed 64-bit integer, which the compact
/// formatter writes in decimal with a leading `-` when negative; writing into
/// a string cannot fail.
#[verifier::external_body]
fn count_json(count: i64) -> (text: String)
    ensures
        text@ == json_integer(count as int),
{
    serde_json::to_string(&count).unwrap_or_default()
}

/// The lower-case name of an element type.
pub open spec fn dtype_name(dtype: DType) -> Seq<char> {
    match dtype {
        DType::Int32 => "int32"@,
        DType::Int64 => "int64"@,
        DType::Uint32 => "uint32"@,
        DType::Uint64 => "uint64"@,
        DType::Float32 => "float32"@,
        DType::Float64 => "float64"@,
    }
}

/// The name of a byte order.
pub open spec fn byte_order_name(order: ByteOrder) -> Seq<char> {
    match order {
        ByteOrder::Big => "big"@,
        ByteOrder::Little => "little"@,
    }
}

impl DType {
    /// The lower-case name of the type.
    pub fn name(&self) -> (text: String)
        ensures
            text@ == dtype_name(*self),
    {
        match self {
            DType::Int32 => String::from_str("int32"),
            DType::Int64 => String::from_str("int64"),
            DType::Uint32 => String::from_str("uint32"),
            DType::Uint64 => String::from_str("uint64"),
            DType::Float32 => String::from_str("float32"),
            DType::Float64 => String::from_str("float64"),
        }
    }
}

impl ByteOrder {
    /// `big` or `little`.
    pub fn name(&self) -> (text: String)
        ensures
            text@ == byte_order_name(*self),
    {
        match self {
            ByteOrder::Big => String::from_str("big"),
            ByteOrder::Little => String::from_str("little"),
        }
    }
}

/// One header: its name and its value.
#[derive(Debug, Clone, PartialEq, Eq)]
pub struct Header {
    pub name: String,
    pub value: String,
}

/// The headers of a response, as pairs of name and value: the content type,
/// the element type, the shape as a JSON array, the count as a JSON number
/// and the byte order of the body.
pub open spec fn headers_of(response: Response, host: ByteOrder) -> Seq<(Seq<char>, Seq<char>)> {
    seq![
        ("content-type"@, "application/octet-stream"@),
        ("x-activestorage-dtype"@, dtype_name(response.dtype)),
        ("x-activestorage-shape"@, json_array(response.shape@)),
        ("x-activestorage-count"@, json_integer(response.count as int)),
        ("x-activestorage-byte-order"@, byte_order_name(host)),
    ]
}

/// The headers as pairs of views.
pub open spec fn header_views(headers: Seq<Header>) -> Seq<(Seq<char>, Seq<char>)> {
    Seq::new(headers.len(), |i: int| (headers[i].name@, headers[i].value@))
}

/// The headers that go with `response`, whose body is in the byte order `host`.
pub fn response_headers(response: &Response, host: ByteOrder) -> (headers: Vec<Header>)
    ensures
        header_views(headers@) == headers_of(*response, host),
{
    let mut headers: Vec<Header> = Vec::new();
    headers.push(Header { name: String::from_str("content-type"), value: octet_stream() });
    headers.push(
        Header { name: String::from_str("x-activestorage-dtype"), value: response.dtype.name() },
    );
    headers.push(
        Header {
            name: String::from_str("x-activestorage-shape"),
            value: shape_json(&response.shape),
        },
    );
    headers.push(
        Header {
            name: String::from_str("x-activestorage-count"),
            value: count_json(response.count),
        },
    );
    headers.push(
        Header { name: String::from_str("x-activestorage-byte-order"), value: host.name() },
    );
    assert(header_views(headers@) =~= headers_of(*response, host));
    headers
}

} // verus!

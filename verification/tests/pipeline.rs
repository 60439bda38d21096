use std::io::Write;

use reductionist::array::Slice;
use reductionist::byte_order::native_byte_order;
use reductionist::byte_order::order_spelling_one;
use reductionist::byte_order::swap_bytes;
use reductionist::compression::decompress;
use reductionist::error::ActiveStorageError;
use reductionist::filter_pipeline::filter_pipeline;
use reductionist::filter_pipeline::undo_filters;
use reductionist::filters::shuffle;
use reductionist::filters::unshuffle;
use reductionist::missing::Missing;
use reductionist::models::Compression;
use reductionist::models::Filter;
use reductionist::models::RequestData;
use reductionist::operation::operation;
use reductionist::operation::operation_on;
use reductionist::operation::parse_operation;
use reductionist::operation::reduce_raw;
use reductionist::operations::Operation;
use reductionist::operations::Outcome;
use reductionist::types::ByteOrder;
use reductionist::types::DType;
use reductionist::types::Order;

fn request(dtype: DType) -> RequestData {
    RequestData {
        source: "http://example.com".to_string(),
        bucket: "bar".to_string(),
        object: "baz".to_string(),
        dtype,
        byte_order: None,
        offset: None,
        size: None,
        shape: None,
        order: None,
        selection: None,
        compression: None,
        filters: None,
        missing: None,
    }
}

fn gzip(data: &[u8]) -> Vec<u8> {
    let mut encoder = flate2::write::GzEncoder::new(Vec::new(), flate2::Compression::default());
    encoder.write_all(data).unwrap();
    encoder.finish().unwrap()
}

fn zlib(data: &[u8]) -> Vec<u8> {
    let mut encoder = flate2::write::ZlibEncoder::new(Vec::new(), flate2::Compression::default());
    encoder.write_all(data).unwrap();
    encoder.finish().unwrap()
}

fn int32s(values: &[i32]) -> Vec<u8> {
    let mut bytes = Vec::new();
    for v in values {
        bytes.extend_from_slice(&v.to_le_bytes());
    }
    bytes
}

fn body(outcome: Outcome) -> (Vec<u8>, Vec<usize>, i64, DType) {
    match outcome {
        Outcome::Done(r) => (r.body, r.shape, r.count, r.dtype),
        Outcome::Terms(_) => panic!("expected a finished response"),
    }
}

#[test]
fn shuffle_gathers_bytes_of_equal_weight() {
    let data: Vec<u8> = vec![0, 1, 2, 3, 4, 5, 6, 7];
    assert_eq!(shuffle(&data, 4), Ok(vec![0, 4, 1, 5, 2, 6, 3, 7]));
    assert_eq!(unshuffle(&vec![0, 4, 1, 5, 2, 6, 3, 7], 4), Ok(data.clone()));
    assert_eq!(shuffle(&data, 2), Ok(vec![0, 2, 4, 6, 1, 3, 5, 7]));
    assert_eq!(unshuffle(&data, 2), Ok(vec![0, 4, 1, 5, 2, 6, 3, 7]));
}

#[test]
fn shuffle_round_trips() {
    let data: Vec<u8> = (0..96u8).collect();
    for size in [1usize, 2, 3, 4, 8, 96] {
        let there = shuffle(&data, size).unwrap();
        assert_eq!(unshuffle(&there, size), Ok(data.clone()));
        let back = unshuffle(&data, size).unwrap();
        assert_eq!(shuffle(&back, size), Ok(data.clone()));
    }
    assert_eq!(shuffle(&Vec::new(), 4), Ok(Vec::new()));
}

#[test]
fn shuffle_refuses_ragged_buffers() {
    let data: Vec<u8> = vec![1, 2, 3, 4, 5];
    assert_eq!(shuffle(&data, 4), Err(ActiveStorageError::ShuffleSizeMismatch));
    assert_eq!(unshuffle(&data, 4), Err(ActiveStorageError::ShuffleSizeMismatch));
    assert_eq!(unshuffle(&data, 0), Err(ActiveStorageError::ShuffleSizeMismatch));
}

#[test]
fn swap_reverses_each_element() {
    let mut data: Vec<u8> = vec![1, 2, 3, 4, 5, 6, 7, 8];
    swap_bytes(&mut data, 4);
    assert_eq!(data, vec![4, 3, 2, 1, 8, 7, 6, 5]);
    swap_bytes(&mut data, 4);
    assert_eq!(data, vec![1, 2, 3, 4, 5, 6, 7, 8]);
    swap_bytes(&mut data, 8);
    assert_eq!(data, vec![8, 7, 6, 5, 4, 3, 2, 1]);
    let mut tail: Vec<u8> = vec![1, 2, 3, 4, 5, 6];
    swap_bytes(&mut tail, 4);
    assert_eq!(tail, vec![4, 3, 2, 1, 5, 6]);
    let mut untouched: Vec<u8> = vec![1, 2, 3];
    swap_bytes(&mut untouched, 0);
    assert_eq!(untouched, vec![1, 2, 3]);
}

#[test]
fn native_byte_order_is_that_of_the_machine() {
    let little = 1u32.to_ne_bytes() == 1u32.to_le_bytes();
    let expected = if little { ByteOrder::Little } else { ByteOrder::Big };
    assert_eq!(native_byte_order(), expected);
}

#[test]
fn bytes_of_one_tell_the_order() {
    assert_eq!(order_spelling_one([1, 0]), ByteOrder::Little);
    assert_eq!(order_spelling_one([0, 1]), ByteOrder::Big);
    assert_eq!(order_spelling_one(1u16.to_le_bytes()), ByteOrder::Little);
    assert_eq!(order_spelling_one(1u16.to_be_bytes()), ByteOrder::Big);
}

#[test]
fn decompress_gzip_and_zlib() {
    let data: Vec<u8> = (0..200u8).collect();
    assert_eq!(decompress(Compression::Gzip, &gzip(&data)), Ok(data.clone()));
    assert_eq!(decompress(Compression::Zlib, &zlib(&data)), Ok(data.clone()));
    assert_eq!(
        decompress(Compression::Gzip, &zlib(&data)),
        Err(ActiveStorageError::DecompressionFailed)
    );
    assert_eq!(
        decompress(Compression::Zlib, &data),
        Err(ActiveStorageError::DecompressionFailed)
    );
}

#[test]
fn pipeline_without_stages_keeps_the_buffer() {
    let data: Vec<u8> = vec![1, 2, 3, 4];
    let place = data.as_ptr() as usize;
    let out = filter_pipeline(&request(DType::Int32), data).unwrap();
    assert_eq!(out, vec![1, 2, 3, 4]);
    assert_eq!(out.as_ptr() as usize, place);
}

#[test]
fn pipeline_decompresses_then_unshuffles() {
    let raw = int32s(&[1, 2, 3, 4]);
    let stored = gzip(&shuffle(&raw, 4).unwrap());
    let mut r = request(DType::Int32);
    r.compression = Some(Compression::Gzip);
    r.filters = Some(vec![Filter::Shuffle { element_size: 4 }]);
    assert_eq!(filter_pipeline(&r, stored), Ok(raw));
}

#[test]
fn filters_are_undone_last_first() {
    let raw: Vec<u8> = (0..16u8).collect();
    let once = shuffle(&raw, 4).unwrap();
    let twice = shuffle(&once, 4).unwrap();
    let filters = vec![Filter::Shuffle { element_size: 4 }, Filter::Shuffle { element_size: 4 }];
    assert_eq!(undo_filters(twice, &filters, DType::Int32), Ok(raw.clone()));
    let wrong = vec![Filter::Shuffle { element_size: 8 }];
    assert_eq!(
        undo_filters(raw, &wrong, DType::Int32),
        Err(ActiveStorageError::ShuffleSizeMismatch)
    );
}

#[test]
fn sum_of_gzipped_ints() {
    let mut r = request(DType::Int32);
    r.byte_order = Some(ByteOrder::Little);
    r.compression = Some(Compression::Gzip);
    let stored = gzip(&int32s(&[10, 20, 30, 40]));
    let (bytes, shape, count, dtype) =
        body(operation_on(Operation::Sum, &r, stored, ByteOrder::Little).unwrap());
    assert_eq!(bytes, vec![0x64, 0, 0, 0]);
    assert_eq!(shape, Vec::<usize>::new());
    assert_eq!(count, 4);
    assert_eq!(dtype, DType::Int32);
}

#[test]
fn operation_on_this_machine() {
    let mut r = request(DType::Int32);
    r.shape = Some(vec![4]);
    let data: Vec<u8> = [1i32, 2, 3, 4].iter().flat_map(|v| v.to_ne_bytes()).collect();
    let (bytes, _, count, _) = body(operation(Operation::Sum, &r, data).unwrap());
    assert_eq!(bytes, 10i32.to_ne_bytes().to_vec());
    assert_eq!(count, 4);
}

#[test]
fn operation_normalises_byte_order() {
    let mut r = request(DType::Int32);
    r.byte_order = Some(ByteOrder::Big);
    r.shape = Some(vec![2]);
    let data: Vec<u8> = vec![0, 0, 0, 5, 0, 0, 1, 0];
    let (bytes, _, _, _) =
        body(operation_on(Operation::Sum, &r, data.clone(), ByteOrder::Little).unwrap());
    assert_eq!(bytes, 261i32.to_le_bytes().to_vec());
    let (bytes, _, _, _) =
        body(operation_on(Operation::Max, &r, data, ByteOrder::Big).unwrap());
    assert_eq!(bytes, vec![0, 0, 1, 0]);
}

#[test]
fn operation_checks_in_order() {
    let mut r = request(DType::Int32);
    r.compression = Some(Compression::Zlib);
    assert_eq!(
        operation_on(Operation::Sum, &r, vec![1, 2, 3], ByteOrder::Little),
        Err(ActiveStorageError::DecompressionFailed)
    );
    let mut r = request(DType::Int32);
    r.shape = Some(vec![3]);
    r.selection = Some(vec![Slice::new(0, 9, 1)]);
    r.missing = Some(Missing::MissingValue(1 << 40));
    assert_eq!(
        operation_on(Operation::Sum, &r, int32s(&[1, 2]), ByteOrder::Little),
        Err(ActiveStorageError::ShapeMismatch)
    );
    assert_eq!(
        operation_on(Operation::Sum, &r, int32s(&[1, 2, 3]), ByteOrder::Little),
        Err(ActiveStorageError::InvalidSelection)
    );
    r.selection = None;
    assert_eq!(
        operation_on(Operation::Sum, &r, int32s(&[1, 2, 3]), ByteOrder::Little),
        Err(ActiveStorageError::InvalidMissing)
    );
    let r = request(DType::Int64);
    assert_eq!(
        operation_on(Operation::Sum, &r, int32s(&[1, 2, 3]), ByteOrder::Little),
        Err(ActiveStorageError::ShapeMismatch)
    );
}

#[test]
fn operation_without_shape_is_one_axis() {
    let mut r = request(DType::Int32);
    r.selection = Some(vec![Slice::new(1, 4, 2)]);
    r.order = Some(Order::F);
    let (bytes, shape, count, _) =
        body(operation_on(Operation::Select, &r, int32s(&[5, 6, 7, 8]), ByteOrder::Little).unwrap());
    assert_eq!(bytes, int32s(&[6, 8]));
    assert_eq!(shape, vec![2]);
    assert_eq!(count, 2);
}

#[test]
fn reduction_of_raw_data() {
    let mut r = request(DType::Int32);
    // Compression and filters are the pipeline's business: raw data is taken as it is.
    r.compression = Some(Compression::Gzip);
    r.shape = Some(vec![2, 2]);
    let (bytes, shape, count, _) =
        body(reduce_raw(Operation::Max, &r, int32s(&[4, 9, -1, 3]), ByteOrder::Little).unwrap());
    assert_eq!(bytes, int32s(&[9]));
    assert_eq!(shape, Vec::<usize>::new());
    assert_eq!(count, 4);
    assert_eq!(
        reduce_raw(Operation::Max, &r, int32s(&[4, 9, -1]), ByteOrder::Little),
        Err(ActiveStorageError::ShapeMismatch)
    );
}

#[test]
fn routes_name_the_reductions() {
    assert_eq!(parse_operation("count"), Ok(Operation::Count));
    assert_eq!(parse_operation("max"), Ok(Operation::Max));
    assert_eq!(parse_operation("min"), Ok(Operation::Min));
    assert_eq!(parse_operation("select"), Ok(Operation::Select));
    assert_eq!(parse_operation("sum"), Ok(Operation::Sum));
    assert_eq!(
        parse_operation("mean"),
        Err(ActiveStorageError::UnsupportedOperation { operation: "mean".to_string() })
    );
    assert_eq!(
        parse_operation("Sum"),
        Err(ActiveStorageError::UnsupportedOperation { operation: "Sum".to_string() })
    );
}

use reductionist::array::Slice;
use reductionist::error::ActiveStorageError;
use reductionist::headers::response_headers;
use reductionist::missing::admitted;
use reductionist::missing::single_policy;
use reductionist::missing::Missing;
use reductionist::models::Compression;
use reductionist::models::Filter;
use reductionist::models::RequestData;
use reductionist::models::Response;
use reductionist::s3_client::get_range;
use reductionist::s3_client::push_decimal;
use reductionist::s3_client::S3Credentials;
use reductionist::types::ByteOrder;
use reductionist::types::DType;

fn request(dtype: DType) -> RequestData {
    RequestData {
        source: "http://example.com".to_string(),
        bucket: "bar".to_string(),
        object: "baz".to_string(),
        dtype,
        byte_order: None,
        offset: None,
        size: None,
        shape: None,
        order: None,
        selection: None,
        compression: None,
        filters: None,
        missing: None,
    }
}

fn f32_bits(v: f32) -> u64 {
    v.to_bits() as u64
}

fn f64_bits(v: f64) -> u64 {
    v.to_bits()
}

#[test]
fn status_codes() {
    let cases = [
        (ActiveStorageError::InvalidRequest, 400),
        (ActiveStorageError::UnsupportedOperation { operation: "mean".to_string() }, 400),
        (ActiveStorageError::ShapeMismatch, 400),
        (ActiveStorageError::InvalidSelection, 400),
        (ActiveStorageError::InvalidMissing, 400),
        (ActiveStorageError::ShuffleSizeMismatch, 400),
        (ActiveStorageError::S3Unauthorized, 401),
        (ActiveStorageError::S3NotFound, 404),
        (ActiveStorageError::MemoryLimitExceeded, 507),
        (ActiveStorageError::DecompressionFailed, 400),
        (ActiveStorageError::FilterFailed, 400),
        (ActiveStorageError::EmptyReduction, 400),
        (ActiveStorageError::S3Transport, 502),
        (ActiveStorageError::InternalError, 500),
    ];
    for (error, code) in cases {
        assert_eq!(error.status_code(), code);
    }
}

#[test]
fn integer_values_and_elements() {
    assert_eq!(DType::Int32.integer_element(-1), Ok(0xffff_ffff));
    assert_eq!(DType::Int32.value_of(0xffff_ffff), -1);
    assert_eq!(DType::Uint32.value_of(0xffff_ffff), 0xffff_ffff);
    assert_eq!(DType::Int64.integer_element(-2), Ok(u64::MAX - 1));
    assert_eq!(DType::Int64.value_of(u64::MAX), -1);
    assert_eq!(DType::Uint64.integer_element(u64::MAX as i128), Ok(u64::MAX));
    assert_eq!(DType::Int32.integer_element(i32::MIN as i128), Ok(0x8000_0000));
    assert_eq!(DType::Int32.integer_element(1 << 31), Err(ActiveStorageError::InvalidMissing));
    assert_eq!(DType::Uint32.integer_element(-1), Err(ActiveStorageError::InvalidMissing));
    assert_eq!(DType::Uint64.integer_element(1 << 64), Err(ActiveStorageError::InvalidMissing));
    assert_eq!(DType::Float32.integer_element(1), Err(ActiveStorageError::InvalidMissing));
}

#[test]
fn float_values_order_as_the_numbers_do() {
    let numbers = [f32::NEG_INFINITY, -3.5, -1.0e-40, -0.0, 0.0, 1.0e-40, 2.0, f32::MAX, f32::INFINITY];
    for a in numbers {
        for b in numbers {
            let ka = DType::Float32.value_of(f32_bits(a));
            let kb = DType::Float32.value_of(f32_bits(b));
            assert_eq!(ka < kb, a < b);
            assert_eq!(ka == kb, a == b);
        }
        assert!(!DType::Float32.nan(f32_bits(a)));
    }
    assert!(DType::Float32.nan(f32_bits(f32::NAN)));
    assert!(DType::Float32.nan(f32_bits(-f32::NAN)));
    let wide = [f64::NEG_INFINITY, -2.5, -0.0, 0.0, 5.0e-324, 1.0, f64::INFINITY];
    for a in wide {
        for b in wide {
            let ka = DType::Float64.value_of(f64_bits(a));
            let kb = DType::Float64.value_of(f64_bits(b));
            assert_eq!(ka < kb, a < b);
        }
        assert!(!DType::Float64.nan(f64_bits(a)));
    }
    assert!(DType::Float64.nan(f64_bits(f64::NAN)));
    assert!(!DType::Int64.nan(f64_bits(f64::NAN)));
}

#[test]
fn policies_admit() {
    let d = DType::Int32;
    let minus_one = d.integer_element(-1).unwrap();
    assert!(admitted(&None, d, 7));
    assert!(!admitted(&Some(Missing::MissingValue(7)), d, 7));
    assert!(admitted(&Some(Missing::MissingValue(7)), d, 8));
    assert!(!admitted(&Some(Missing::MissingValues(vec![1, 7, 9])), d, 9));
    assert!(admitted(&Some(Missing::MissingValues(vec![1, 7, 9])), d, 8));
    assert!(admitted(&Some(Missing::MissingValues(vec![])), d, 8));
    assert!(admitted(&Some(Missing::ValidMin(0)), d, 0));
    assert!(!admitted(&Some(Missing::ValidMin(0)), d, minus_one));
    assert!(admitted(&Some(Missing::ValidMax(0)), d, minus_one));
    assert!(!admitted(&Some(Missing::ValidMax(0)), d, 1));
    assert!(admitted(&Some(Missing::ValidRange(minus_one, 3)), d, 3));
    assert!(admitted(&Some(Missing::ValidRange(minus_one, 3)), d, minus_one));
    assert!(!admitted(&Some(Missing::ValidRange(minus_one, 3)), d, 4));
}

#[test]
fn policies_never_admit_nan() {
    let d = DType::Float32;
    let nan = f32_bits(f32::NAN);
    let one = f32_bits(1.0);
    assert!(admitted(&None, d, nan));
    assert!(!admitted(&Some(Missing::MissingValue(one)), d, nan));
    assert!(!admitted(&Some(Missing::MissingValues(vec![one])), d, nan));
    assert!(!admitted(&Some(Missing::ValidMin(one)), d, nan));
    assert!(!admitted(&Some(Missing::ValidMax(one)), d, nan));
    assert!(!admitted(&Some(Missing::ValidRange(one, one)), d, nan));
    assert!(!admitted(&Some(Missing::MissingValues(vec![])), d, nan));
    assert!(admitted(&Some(Missing::MissingValues(vec![])), d, one));
    assert!(!admitted(&Some(Missing::MissingValue(f32_bits(0.0))), d, f32_bits(-0.0)));
    assert!(admitted(&Some(Missing::ValidMin(f32_bits(-1.5))), d, f32_bits(-1.25)));
}

#[test]
fn one_policy_at_most() {
    assert_eq!(single_policy(vec![]), Ok(None));
    assert_eq!(single_policy(vec![Missing::ValidMin(1)]), Ok(Some(Missing::ValidMin(1))));
    assert_eq!(
        single_policy(vec![Missing::ValidMin(1), Missing::ValidMax(9)]),
        Err(ActiveStorageError::InvalidMissing)
    );
}

#[test]
fn policy_values_must_fit_the_type() {
    assert_eq!(Missing::MissingValue(1 << 32).validate(DType::Int32), Err(ActiveStorageError::InvalidMissing));
    assert_eq!(Missing::MissingValue(1 << 32).validate(DType::Int64), Ok(()));
    assert_eq!(
        Missing::MissingValues(vec![1, 1 << 33]).validate(DType::Uint32),
        Err(ActiveStorageError::InvalidMissing)
    );
    assert_eq!(Missing::ValidRange(0, u64::MAX).validate(DType::Float32), Err(ActiveStorageError::InvalidMissing));
    assert_eq!(Missing::ValidRange(0, 9).validate(DType::Float32), Ok(()));
}

#[test]
fn requests_are_validated() {
    let mut r = request(DType::Int32);
    assert_eq!(r.validate(), Ok(()));
    r.shape = Some(vec![2, 5]);
    r.size = Some(40);
    r.selection = Some(vec![Slice::new(0, 2, 1), Slice::new(1, 5, 2)]);
    r.filters = Some(vec![Filter::Shuffle { element_size: 4 }]);
    r.missing = Some(Missing::MissingValue(42));
    assert_eq!(r.validate(), Ok(()));

    let mut zero = r.clone();
    zero.shape = Some(vec![2, 0]);
    assert_eq!(zero.validate(), Err(ActiveStorageError::InvalidRequest));

    let mut size = r.clone();
    size.size = Some(44);
    assert_eq!(size.validate(), Err(ActiveStorageError::ShapeMismatch));
    size.compression = Some(Compression::Gzip);
    assert_eq!(size.validate(), Ok(()));

    let mut selection = r.clone();
    selection.selection = Some(vec![Slice::new(0, 2, 1)]);
    assert_eq!(selection.validate(), Err(ActiveStorageError::InvalidSelection));
    selection.shape = None;
    selection.size = None;
    assert_eq!(selection.validate(), Ok(()));
    selection.selection = Some(vec![Slice::new(3, 2, 1)]);
    assert_eq!(selection.validate(), Err(ActiveStorageError::InvalidSelection));

    let mut filters = r.clone();
    filters.filters = Some(vec![Filter::Shuffle { element_size: 8 }]);
    assert_eq!(filters.validate(), Err(ActiveStorageError::ShuffleSizeMismatch));

    let mut missing = r.clone();
    missing.missing = Some(Missing::ValidMin(1 << 35));
    assert_eq!(missing.validate(), Err(ActiveStorageError::InvalidMissing));
}

#[test]
fn headers_of_a_response() {
    let response = Response { body: vec![1, 2], dtype: DType::Uint32, shape: vec![2, 1, 30], count: 60 };
    let headers = response_headers(&response, ByteOrder::Little);
    let pairs: Vec<(String, String)> =
        headers.into_iter().map(|h| (h.name, h.value)).collect();
    assert_eq!(
        pairs,
        vec![
            ("content-type".to_string(), "application/octet-stream".to_string()),
            ("x-activestorage-dtype".to_string(), "uint32".to_string()),
            ("x-activestorage-shape".to_string(), "[2,1,30]".to_string()),
            ("x-activestorage-count".to_string(), "60".to_string()),
            ("x-activestorage-byte-order".to_string(), "little".to_string()),
        ]
    );
    let scalar = Response { body: vec![], dtype: DType::Float64, shape: vec![], count: -7 };
    let headers = response_headers(&scalar, ByteOrder::Big);
    assert_eq!(headers[1].value, "float64");
    assert_eq!(headers[2].value, "[]");
    assert_eq!(headers[3].value, "-7");
    assert_eq!(headers[4].value, "big");
    let one = Response { body: vec![], dtype: DType::Int64, shape: vec![0], count: i64::MIN };
    let headers = response_headers(&one, ByteOrder::Big);
    assert_eq!(headers[2].value, "[0]");
    assert_eq!(headers[3].value, "-9223372036854775808");
}

#[test]
fn names() {
    assert_eq!(DType::Int32.name(), "int32");
    assert_eq!(DType::Int64.name(), "int64");
    assert_eq!(DType::Uint32.name(), "uint32");
    assert_eq!(DType::Uint64.name(), "uint64");
    assert_eq!(DType::Float32.name(), "float32");
    assert_eq!(DType::Float64.name(), "float64");
    assert_eq!(ByteOrder::Big.name(), "big");
    assert_eq!(ByteOrder::Little.name(), "little");
}

#[test]
fn ranges() {
    assert_eq!(get_range(None, None), Ok(None));
    assert_eq!(get_range(Some(1), None), Ok(Some("bytes=1-".to_string())));
    assert_eq!(get_range(None, Some(2)), Ok(Some("bytes=0-1".to_string())));
    assert_eq!(get_range(Some(1), Some(2)), Ok(Some("bytes=1-2".to_string())));
    assert_eq!(get_range(Some(100), Some(1200)), Ok(Some("bytes=100-1299".to_string())));
    assert_eq!(get_range(Some(0), Some(1)), Ok(Some("bytes=0-0".to_string())));
    assert_eq!(
        get_range(Some(usize::MAX), Some(1)),
        Ok(Some(format!("bytes={}-{}", usize::MAX, usize::MAX)))
    );
}

#[test]
fn ranges_that_cannot_be_written() {
    assert_eq!(get_range(Some(5), Some(0)), Err(ActiveStorageError::InvalidRequest));
    assert_eq!(get_range(None, Some(0)), Err(ActiveStorageError::InvalidRequest));
    assert_eq!(get_range(Some(usize::MAX), Some(2)), Err(ActiveStorageError::InvalidRequest));
}

#[test]
fn requests_for_nothing_are_refused() {
    let mut r = request(DType::Int32);
    r.offset = Some(5);
    r.size = Some(0);
    assert_eq!(r.validate(), Err(ActiveStorageError::InvalidRequest));
    r.compression = Some(Compression::Gzip);
    assert_eq!(r.validate(), Err(ActiveStorageError::InvalidRequest));
    let mut far = request(DType::Int32);
    far.offset = Some(usize::MAX);
    far.size = Some(8);
    assert_eq!(far.validate(), Err(ActiveStorageError::InvalidRequest));
    far.offset = Some(usize::MAX - 7);
    assert_eq!(far.validate(), Ok(()));
    assert_eq!(
        get_range(far.offset, far.size),
        Ok(Some(format!("bytes={}-{}", usize::MAX - 7, usize::MAX)))
    );
}

#[test]
fn decimals() {
    for n in [0usize, 7, 10, 99, 100, 1234567890, usize::MAX] {
        let mut text = "n=".to_string();
        push_decimal(&mut text, n);
        assert_eq!(text, format!("n={}", n));
    }
}

#[test]
fn credentials() {
    assert_eq!(
        S3Credentials::access_key("user", "secret"),
        S3Credentials::AccessKey {
            access_key: "user".to_string(),
            secret_key: "secret".to_string()
        }
    );
}

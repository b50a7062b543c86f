use can_extract::helper::{advance_token, advance_token_by, extract_offset, extract_offset_by};
use can_extract::{
    decode, CanDecode, DecodeError, DecodeErrorKind, DecoderHook, Endianness, Error, FieldDescriptor,
    FieldValue, HookFailure, ScalarKind, ScalarValue, Schema, SchemaError,
};

/// Decoders of the test schemas: position 0 scales a big-endian `u16` by
/// one thousandth, position 1 rejects everything.
struct TestHooks;

impl DecoderHook for TestHooks {
    type Output = f64;

    fn decode_bytes(&self, hook: usize, bytes: &[u8]) -> Result<f64, HookFailure> {
        match hook {
            0 => {
                let raw: [u8; 2] = bytes
                    .try_into()
                    .map_err(|_| HookFailure::WrongLength { expected: 2, actual: bytes.len() })?;
                Ok(u16::from_be_bytes(raw) as f64 / 1000.0)
            }
            _ => Err(HookFailure::Rejected { code: 7 }),
        }
    }
}

fn hook_names() -> Vec<String> {
    vec!["scale_milli".to_string(), "refuse".to_string()]
}

fn unsigned(v: u64) -> FieldValue<f64> {
    FieldValue::Scalar(ScalarValue::Unsigned(v))
}

fn two_u32_schema() -> Schema {
    let ds = vec![
        FieldDescriptor::new("a".to_string(), 0, ScalarKind::U32),
        FieldDescriptor::new("b".to_string(), 4, ScalarKind::U32),
    ];
    Schema::validate(&ds, &hook_names()).expect("valid schema")
}

struct Ding {
    a: u32,
    b: u32,
}

impl CanDecode for Ding {
    fn from_socketcan(frame: [u8; 8]) -> Result<Self, Error> {
        let values = decode(&two_u32_schema(), &frame, &TestHooks).map_err(|_| Error::CannotDecodeOk)?;
        let read = |v: &FieldValue<f64>| match v {
            FieldValue::Scalar(ScalarValue::Unsigned(n)) => Ok(*n as u32),
            _ => Err(Error::InvalidBytesConversion),
        };
        Ok(Ding { a: read(&values[0])?, b: read(&values[1])? })
    }
}

#[allow(dead_code)]
struct Dong {
    a: u32,
    b: u32,
}

impl CanDecode for Dong {
    fn from_socketcan(frame: [u8; 8]) -> Result<Self, Error> {
        let mut offset: usize = 0;
        let a = u32::from_ne_bytes(
            advance_token::<u32>(&mut offset, &frame)?
                .try_into()
                .map_err(|_| Error::InvalidBytesConversion)?,
        );
        let b = u32::from_ne_bytes(
            advance_token::<u32>(&mut offset, &frame)?
                .try_into()
                .map_err(|_| Error::InvalidBytesConversion)?,
        );
        Ok(Dong { a, b })
    }
}

#[test]
fn run_things() {
    let data: [u8; 8] = [0, 0, 0, 0, 1, 0, 0, 0];
    let ding: Ding = CanDecode::from_socketcan(data).expect("Did not decode correctly");
    assert!(ding.a == 0);
    assert!(ding.b == 1);

    let _dong: Dong = CanDecode::from_socketcan(data).expect("Did not get error yay");
}

#[test]
fn two_little_endian_words() {
    let frame = [0u8, 0, 0, 0, 1, 0, 0, 0];
    let values = decode(&two_u32_schema(), &frame, &TestHooks).unwrap();
    assert_eq!(values, vec![unsigned(0), unsigned(1)]);
}

#[test]
fn mixed_endianness_and_scaled_field() {
    let ds = vec![
        FieldDescriptor::new("a".to_string(), 0, ScalarKind::U16),
        FieldDescriptor::new("b".to_string(), 2, ScalarKind::U16).big_endian(),
        FieldDescriptor::new("c".to_string(), 6, ScalarKind::F32)
            .with_width(2)
            .with_decoder("scale_milli".to_string()),
    ];
    let schema = Schema::validate(&ds, &hook_names()).unwrap();
    let frame = [5u8, 0, 0, 5, 0, 0, 0, 1];
    let values = decode(&schema, &frame, &TestHooks).unwrap();
    assert_eq!(values[0], unsigned(5));
    assert_eq!(values[1], unsigned(5));
    match values[2] {
        FieldValue::Hooked(c) => assert!((c - 0.001).abs() < 1e-12),
        _ => panic!("expected a decoded value"),
    }
}

#[test]
fn window_past_the_end_is_a_slicing_error() {
    let ds = vec![
        FieldDescriptor::new("a".to_string(), 0, ScalarKind::U8),
        FieldDescriptor::new("late".to_string(), 6, ScalarKind::U32),
    ];
    let schema = Schema::validate(&ds, &hook_names()).unwrap();
    let frame = [0u8; 8];
    let err = decode(&schema, &frame, &TestHooks).unwrap_err();
    assert_eq!(err, DecodeError { kind: DecodeErrorKind::Slicing, field: 1, offset: 6 });
}

#[test]
fn decoder_given_wrong_width_is_a_hook_error() {
    let ds = vec![FieldDescriptor::new("c".to_string(), 2, ScalarKind::U16)
        .with_width(3)
        .with_decoder("scale_milli".to_string())];
    let schema = Schema::validate(&ds, &hook_names()).unwrap();
    let frame = [0u8; 8];
    let err = decode(&schema, &frame, &TestHooks).unwrap_err();
    assert_eq!(
        err,
        DecodeError {
            kind: DecodeErrorKind::Hook(HookFailure::WrongLength { expected: 2, actual: 3 }),
            field: 0,
            offset: 2,
        }
    );
}

#[test]
fn rejecting_decoder_is_attributed() {
    let ds = vec![
        FieldDescriptor::new("a".to_string(), 0, ScalarKind::U8),
        FieldDescriptor::new("r".to_string(), 1, ScalarKind::U8).with_decoder("refuse".to_string()),
    ];
    let schema = Schema::validate(&ds, &hook_names()).unwrap();
    let err = decode(&schema, &[1u8, 2, 3], &TestHooks).unwrap_err();
    assert_eq!(
        err,
        DecodeError { kind: DecodeErrorKind::Hook(HookFailure::Rejected { code: 7 }), field: 1, offset: 1 }
    );
}

#[test]
fn width_mismatch_is_a_schema_error() {
    let ds = vec![
        FieldDescriptor::new("ok".to_string(), 0, ScalarKind::U8),
        FieldDescriptor::new("a".to_string(), 0, ScalarKind::U32).with_width(3),
    ];
    let r = Schema::validate(&ds, &hook_names());
    assert_eq!(r.err(), Some(SchemaError::WidthMismatch { field: 1, width: 3, expected: 4 }));
}

#[test]
fn duplicate_name_is_a_schema_error() {
    let ds = vec![
        FieldDescriptor::new("a".to_string(), 0, ScalarKind::U8),
        FieldDescriptor::new("b".to_string(), 1, ScalarKind::U8),
        FieldDescriptor::new("a".to_string(), 2, ScalarKind::U8),
    ];
    let r = Schema::validate(&ds, &hook_names());
    assert_eq!(r.err(), Some(SchemaError::DuplicateName { field: 2 }));
}

#[test]
fn unknown_decoder_is_a_schema_error() {
    let ds = vec![FieldDescriptor::new("a".to_string(), 0, ScalarKind::U16).with_decoder("nope".to_string())];
    let r = Schema::validate(&ds, &hook_names());
    assert_eq!(r.err(), Some(SchemaError::UnknownDecoder { field: 0 }));
}

#[test]
fn overlapping_and_sparse_fields_validate() {
    let ds = vec![
        FieldDescriptor::new("whole".to_string(), 0, ScalarKind::U32),
        FieldDescriptor::new("low".to_string(), 0, ScalarKind::U16),
        FieldDescriptor::new("last".to_string(), 7, ScalarKind::U8),
    ];
    let schema = Schema::validate(&ds, &hook_names()).unwrap();
    let frame = [0x01u8, 0x02, 0x03, 0x04, 0xAA, 0xBB, 0xCC, 0x09];
    let values = decode(&schema, &frame, &TestHooks).unwrap();
    assert_eq!(values, vec![unsigned(0x0403_0201), unsigned(0x0201), unsigned(9)]);
}

#[test]
fn repeated_decodes_agree() {
    let schema = two_u32_schema();
    let frame = [9u8, 8, 7, 6, 5, 4, 3, 2];
    let first = decode(&schema, &frame, &TestHooks);
    for _ in 0..5 {
        assert_eq!(decode(&schema, &frame, &TestHooks), first);
    }
    assert_eq!(first.unwrap(), vec![unsigned(0x0607_0809), unsigned(0x0203_0405)]);
}

#[test]
fn signed_and_float_bits() {
    let ds = vec![
        FieldDescriptor::new("s8".to_string(), 0, ScalarKind::I8),
        FieldDescriptor::new("s16".to_string(), 1, ScalarKind::I16).big_endian(),
        FieldDescriptor::new("f".to_string(), 4, ScalarKind::F32),
    ];
    let schema = Schema::validate(&ds, &hook_names()).unwrap();
    let one = 1.0f32.to_le_bytes();
    let frame = [0xFFu8, 0xFF, 0x7E, 0, one[0], one[1], one[2], one[3]];
    let values = decode(&schema, &frame, &TestHooks).unwrap();
    assert_eq!(values[0], FieldValue::Scalar(ScalarValue::Signed(-1)));
    assert_eq!(values[1], FieldValue::Scalar(ScalarValue::Signed(-130)));
    assert_eq!(values[2], FieldValue::Scalar(ScalarValue::FloatBits(1.0f32.to_bits() as u64)));
}

#[test]
fn full_width_signed_extremes() {
    let ds = vec![FieldDescriptor::new("m".to_string(), 0, ScalarKind::I64).big_endian()];
    let schema = Schema::validate(&ds, &hook_names()).unwrap();
    let frame = i64::MIN.to_be_bytes();
    let values = decode(&schema, &frame, &TestHooks).unwrap();
    assert_eq!(values, vec![FieldValue::Scalar(ScalarValue::Signed(i64::MIN))]);
    let frame = u64::MAX.to_le_bytes();
    let ds = vec![FieldDescriptor::new("u".to_string(), 0, ScalarKind::U64)];
    let schema = Schema::validate(&ds, &hook_names()).unwrap();
    assert_eq!(decode(&schema, &frame, &TestHooks).unwrap(), vec![unsigned(u64::MAX)]);
}

#[test]
fn schema_lookup_by_name() {
    let schema = two_u32_schema();
    assert_eq!(schema.len(), 2);
    assert_eq!(schema.position(&"b".to_string()), Some(1));
    assert_eq!(schema.position(&"z".to_string()), None);
    assert_eq!(schema.name(0), "a");
    assert_eq!(schema.field(1).offset, 4);
    assert_eq!(schema.field(1).endianness, Endianness::Little);
}

#[test]
fn empty_frame_fails_first_field() {
    let schema = two_u32_schema();
    let err = decode(&schema, &[], &TestHooks).unwrap_err();
    assert_eq!(err, DecodeError { kind: DecodeErrorKind::Slicing, field: 0, offset: 0 });
}

#[test]
fn cursor_advances_only_on_success() {
    let frame = [1u8, 2, 3, 4, 5];
    let mut cursor: usize = 0;
    assert_eq!(advance_token_by(&mut cursor, &frame, 3).unwrap(), &[1u8, 2, 3][..]);
    assert_eq!(cursor, 3);
    assert_eq!(advance_token::<u32>(&mut cursor, &frame).err(), Some(Error::InvalidSlicingLength));
    assert_eq!(cursor, 3);
    assert_eq!(advance_token::<u16>(&mut cursor, &frame).unwrap(), &[4u8, 5][..]);
    assert_eq!(cursor, 5);
}

#[test]
fn offset_extraction_checks_bounds() {
    let frame = [0u8, 1, 2, 3, 4, 5, 6, 7];
    assert_eq!(extract_offset_by(6, &frame, 2).unwrap(), &[6u8, 7][..]);
    assert_eq!(extract_offset_by(6, &frame, 4).err(), Some(Error::InvalidSlicingLength));
    assert_eq!(extract_offset_by(usize::MAX, &frame, 2).err(), Some(Error::InvalidSlicingLength));
    assert_eq!(extract_offset::<u32>(4, &frame).unwrap(), &[4u8, 5, 6, 7][..]);
    assert_eq!(extract_offset::<u64>(1, &frame).err(), Some(Error::InvalidSlicingLength));
}

#[test]
fn error_messages() {
    assert_eq!(Error::InvalidSlicingLength.message(), "Invalid slice length");
    assert_eq!(Error::CannotDecodeOk.message(), "General error, dunno what");
    assert_eq!(Error::InvalidBytesConversion.message(), "Invalid bytes conversion");
}

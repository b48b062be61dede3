use nfl::schema::{Field, FieldType, Schema};
use nfl::Error;

#[test]
fn schema_serialize_parse_roundtrip() {
    let schema = Schema::new(vec![
        Field::new("id", FieldType::Int64, false),
        Field::new("name", FieldType::Utf8, true),
        Field::new("embedding", FieldType::Vector, false),
    ]);

    let frame = schema.serialize();
    let parsed = Schema::parse(&frame).expect("parse schema");

    assert_eq!(parsed, schema);
}

#[test]
fn parse_invalid_version() {
    let bytes = [0u8, 0u8];
    assert!(matches!(Schema::parse(&bytes), Err(Error::UnsupportedVersion(_))));
}

#[test]
fn schema_encoding_bytes() {
    let schema = Schema::new(vec![
        Field::new("id", FieldType::Int32, true),
        Field::new("é", FieldType::Tensor, false),
    ]);
    let frame = schema.serialize();
    assert_eq!(
        frame,
        vec![1, 2, 2, 0, 1, 1, b'i', b'd', 2, 0, 8, 0, 0xc3, 0xa9]
    );
    let parsed = Schema::parse(&frame).expect("parse schema");
    assert_eq!(parsed.fields[1].name, "é");
    assert_eq!(parsed, schema);
}

#[test]
fn schema_parse_errors() {
    assert!(matches!(Schema::parse(&[1]), Err(Error::InsufficientData)));
    assert!(matches!(Schema::parse(&[3, 0]), Err(Error::UnsupportedVersion(3))));
    assert!(matches!(Schema::parse(&[1, 1, 0, 0, 1]), Err(Error::InsufficientData)));
    assert!(matches!(
        Schema::parse(&[1, 1, 0, 0, 9, 0]),
        Err(Error::Corrupted("unknown field type"))
    ));
    assert!(matches!(Schema::parse(&[1, 1, 3, 0, 1, 0, b'a', b'b']), Err(Error::InsufficientData)));
    assert!(matches!(
        Schema::parse(&[1, 1, 2, 0, 1, 0, 0xff, 0xfe]),
        Err(Error::Corrupted("invalid UTF-8 in field name"))
    ));
    let empty = Schema::parse(&[1, 0, 99]).expect("empty schema");
    assert!(empty.fields.is_empty());
    let nonzero_nullable = Schema::parse(&[1, 1, 1, 0, 2, 7, b'x']).expect("schema");
    assert!(nonzero_nullable.fields[0].nullable);
    assert_eq!(nonzero_nullable.fields[0].field_type, FieldType::Int64);
}

#[test]
fn field_type_bytes_and_names() {
    let all = [
        (FieldType::Int32, 1u8, "Int32"),
        (FieldType::Int64, 2, "Int64"),
        (FieldType::Float32, 3, "Float32"),
        (FieldType::Float64, 4, "Float64"),
        (FieldType::Utf8, 5, "Utf8"),
        (FieldType::Binary, 6, "Binary"),
        (FieldType::Vector, 7, "Vector"),
        (FieldType::Tensor, 8, "Tensor"),
    ];
    for (field_type, byte, name) in all {
        assert_eq!(field_type.to_u8(), byte);
        assert_eq!(FieldType::from_u8(byte).expect("known byte"), field_type);
        assert_eq!(field_type.to_string(), name);
    }
    assert!(matches!(FieldType::from_u8(0), Err(Error::Corrupted("unknown field type"))));
    assert!(matches!(FieldType::from_u8(9), Err(Error::Corrupted("unknown field type"))));
}

#[test]
fn schema_count_is_cut_to_eight_bits() {
    let fields: Vec<Field> = (0..256).map(|_| Field::new("", FieldType::Int32, false)).collect();
    let frame = Schema::new(fields).serialize();
    assert_eq!(frame[1], 0);
    assert!(Schema::parse(&frame).expect("parse").fields.is_empty());
}

use nfl::arrow::{ArrowDataType, ArrowField, ArrowSchema, ArrowSchemaArrowExt, SchemaArrowExt};
use nfl::schema::{Field, FieldType, Schema};
use nfl::Error;

#[test]
fn schema_to_arrow_roundtrip() {
    let schema = Schema::new(vec![
        Field::new("id", FieldType::Int64, false),
        Field::new("name", FieldType::Utf8, true),
        Field::new("blob", FieldType::Binary, false),
    ]);

    let arrow_schema = schema.to_arrow_schema();
    assert_eq!(arrow_schema.fields.len(), 3);
    assert_eq!(arrow_schema.fields[0].data_type, ArrowDataType::Int64);
    assert_eq!(arrow_schema.fields[1].data_type, ArrowDataType::Utf8);
    assert_eq!(arrow_schema.fields[2].data_type, ArrowDataType::LargeBinary);

    let parsed = arrow_schema.to_nfl_schema().expect("convert back");
    assert_eq!(parsed, schema);
}

#[test]
fn unsupported_arrow_type_rejected() {
    let arrow_schema = ArrowSchema::new(vec![ArrowField::new("flag", ArrowDataType::Boolean, false)]);
    assert!(arrow_schema.to_nfl_schema().is_err());
}

#[test]
fn arrow_mapping_of_every_type() {
    let schema = Schema::new(vec![
        Field::new("a", FieldType::Int32, true),
        Field::new("b", FieldType::Float32, false),
        Field::new("c", FieldType::Float64, true),
        Field::new("d", FieldType::Vector, false),
        Field::new("e", FieldType::Tensor, true),
    ]);
    let arrow_schema = schema.to_arrow_schema();
    let types: Vec<ArrowDataType> = arrow_schema.fields.iter().map(|f| f.data_type).collect();
    assert_eq!(
        types,
        vec![
            ArrowDataType::Int32,
            ArrowDataType::Float32,
            ArrowDataType::Float64,
            ArrowDataType::LargeBinary,
            ArrowDataType::LargeBinary,
        ]
    );
    assert_eq!(arrow_schema.fields[4].name, "e");
    assert!(arrow_schema.fields[4].nullable);
    let back = arrow_schema.to_nfl_schema().expect("convert back");
    assert_eq!(back.fields[3].field_type, FieldType::Binary);
    assert_eq!(back.fields[4].field_type, FieldType::Binary);
    assert_eq!(back.fields[2], Field::new("c", FieldType::Float64, true));

    let plain_binary = ArrowSchema::new(vec![ArrowField::new("x", ArrowDataType::Binary, true)]);
    assert_eq!(
        plain_binary.to_nfl_schema().expect("binary").fields,
        vec![Field::new("x", FieldType::Binary, true)]
    );
    let mixed = ArrowSchema::new(vec![
        ArrowField::new("ok", ArrowDataType::Int32, true),
        ArrowField::new("bad", ArrowDataType::LargeUtf8, true),
    ]);
    assert!(matches!(
        mixed.to_nfl_schema(),
        Err(Error::Corrupted("unsupported Arrow data type"))
    ));
}

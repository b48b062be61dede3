//! The mapping between NFL schemas and Arrow schemas.
//!
//! Arrow schemas are described here by values of the library's own types,
//! holding what the mapping reads: each field's name, data type and
//! nullability.
use crate::error::Error;
use crate::schema::{Field, FieldType, FieldView, Schema};
use vstd::prelude::*;

verus! {

/// Arrow data types, as far as the schema mapping tells them apart; every
/// other Arrow type is `Other`.
#[derive(Clone, Copy, Debug, PartialEq, Eq, Structural)]
pub enum ArrowDataType {
    Null,
    Boolean,
    Int8,
    Int16,
    Int32,
    Int64,
    UInt8,
    UInt16,
    UInt32,
    UInt64,
    Float16,
    Float32,
    Float64,
    Binary,
    LargeBinary,
    Utf8,
    LargeUtf8,
    Other,
}

/// A named field of an Arrow schema.
#[derive(Clone, Debug, PartialEq, Eq)]
pub struct ArrowField {
    pub name: String,
    pub data_type: ArrowDataType,
    pub nullable: bool,
}

/// An Arrow field as values.
pub struct ArrowFieldView {
    pub name: Seq<char>,
    pub data_type: ArrowDataType,
    pub nullable: bool,
}

impl View for ArrowField {
    type V = ArrowFieldView;

    open spec fn view(&self) -> ArrowFieldView {
        ArrowFieldView { name: self.name@, data_type: self.data_type, nullable: self.nullable }
    }
}

impl ArrowField {
    /// Create an Arrow field.
    pub fn new(name: &str, data_type: ArrowDataType, nullable: bool) -> (f: Self)
        ensures
            f@ == (ArrowFieldView { name: name@, data_type, nullable }),
    {
        ArrowField { name: name.to_owned(), data_type, nullable }
    }
}

/// An Arrow schema: its fields.
#[derive(Clone, Debug, PartialEq, Eq)]
pub struct ArrowSchema {
    pub fields: Vec<ArrowField>,
}

/// The views of a sequence of Arrow fields.
pub open spec fn spec_arrow_field_views(fs: Seq<ArrowField>) -> Seq<ArrowFieldView> {
    fs.map_values(|f: ArrowField| f@)
}

impl View for ArrowSchema {
    type V = Seq<ArrowFieldView>;

    open spec fn view(&self) -> Seq<ArrowFieldView> {
        spec_arrow_field_views(self.fields@)
    }
}

impl ArrowSchema {
    /// Create an Arrow schema from fields.
    pub fn new(fields: Vec<ArrowField>) -> (s: Self)
        ensures
            s.fields@ == fields@,
    {
        ArrowSchema { fields }
    }
}

/// The Arrow data type that stores a field type; binary-like types share
/// `LargeBinary`.
pub open spec fn spec_arrow_type_of(t: FieldType) -> ArrowDataType {
    match t {
        FieldType::Int32 => ArrowDataType::Int32,
        FieldType::Int64 => ArrowDataType::Int64,
        FieldType::Float32 => ArrowDataType::Float32,
        FieldType::Float64 => ArrowDataType::Float64,
        FieldType::Utf8 => ArrowDataType::Utf8,
        FieldType::Binary => ArrowDataType::LargeBinary,
        FieldType::Vector => ArrowDataType::LargeBinary,
        FieldType::Tensor => ArrowDataType::LargeBinary,
    }
}

/// The field type that an Arrow data type is read as, if it is supported.
pub open spec fn spec_field_type_of(a: ArrowDataType) -> Option<FieldType> {
    match a {
        ArrowDataType::Int32 => Some(FieldType::Int32),
        ArrowDataType::Int64 => Some(FieldType::Int64),
        ArrowDataType::Float32 => Some(FieldType::Float32),
        ArrowDataType::Float64 => Some(FieldType::Float64),
        ArrowDataType::Utf8 => Some(FieldType::Utf8),
        ArrowDataType::LargeBinary => Some(FieldType::Binary),
        ArrowDataType::Binary => Some(FieldType::Binary),
        _ => None,
    }
}

/// The Arrow fields of an NFL schema.
pub open spec fn spec_to_arrow_fields(fs: Seq<FieldView>) -> Seq<ArrowFieldView> {
    fs.map_values(
        |f: FieldView|
            ArrowFieldView {
                name: f.name,
                data_type: spec_arrow_type_of(f.field_type),
                nullable: f.nullable,
            },
    )
}

/// The NFL fields of an Arrow schema, or the error when one of its data types
/// is not supported.
pub open spec fn spec_to_nfl_fields(fs: Seq<ArrowFieldView>) -> Result<Seq<FieldView>, Error> {
    if forall|i: int| 0 <= i < fs.len() ==> spec_field_type_of(#[trigger] fs[i].data_type) is Some {
        Ok(
            fs.map_values(
                |f: ArrowFieldView|
                    FieldView {
                        name: f.name,
                        field_type: spec_field_type_of(f.data_type)->Some_0,
                        nullable: f.nullable,
                    },
            ),
        )
    } else {
        Err(Error::Corrupted("unsupported Arrow data type"))
    }
}

/// Extension methods for converting NFL schema metadata into Arrow schemas.
pub trait SchemaArrowExt {
    /// Convert the NFL schema into an Arrow schema representation.
    fn to_arrow_schema(&self) -> ArrowSchema;
}

impl SchemaArrowExt for Schema {
    fn to_arrow_schema(&self) -> (r: ArrowSchema)
        ensures
            r@ == spec_to_arrow_fields(self@),
    {
        let mut fields: Vec<ArrowField> = Vec::new();
        let mut i: usize = 0;
        while i < self.fields.len()
            invariant
                i <= self.fields@.len(),
                spec_arrow_field_views(fields@) == spec_to_arrow_fields(self@).take(i as int),
            decreases self.fields@.len() - i,
        {
            let field = &self.fields[i];
            let data_type = match field.field_type {
                FieldType::Int32 => ArrowDataType::Int32,
                FieldType::Int64 => ArrowDataType::Int64,
                FieldType::Float32 => ArrowDataType::Float32,
                FieldType::Float64 => ArrowDataType::Float64,
                FieldType::Utf8 => ArrowDataType::Utf8,
                FieldType::Binary => ArrowDataType::LargeBinary,
                FieldType::Vector => ArrowDataType::LargeBinary,
                FieldType::Tensor => ArrowDataType::LargeBinary,
            };
            let ghost before = fields@;
            let arrow_field = ArrowField::new(field.name.as_str(), data_type, field.nullable);
            fields.push(arrow_field);
            proof {
                assert(data_type == spec_arrow_type_of(field.field_type));
                assert(self@[i as int] == field@);
                assert(spec_arrow_field_views(fields@) =~= spec_arrow_field_views(before).push(
                    arrow_field@,
                ));
            }
            i += 1;
            assert(spec_arrow_field_views(fields@) =~= spec_to_arrow_fields(self@).take(i as int));
        }
        assert(spec_to_arrow_fields(self@).take(i as int) =~= spec_to_arrow_fields(self@));
        ArrowSchema::new(fields)
    }
}

/// Extension methods for converting Arrow schemas to NFL schema metadata.
pub trait ArrowSchemaArrowExt {
    /// Convert an Arrow schema into an NFL schema.
    fn to_nfl_schema(&self) -> Result<Schema, Error>;
}

impl ArrowSchemaArrowExt for ArrowSchema {
    fn to_nfl_schema(&self) -> (r: Result<Schema, Error>)
        ensures
            match r {
                Ok(s) => spec_to_nfl_fields(self@) == Ok::<Seq<FieldView>, Error>(s@),
                Err(e) => spec_to_nfl_fields(self@) == Err::<Seq<FieldView>, Error>(e),
            },
    {
        let mut fields: Vec<Field> = Vec::new();
        let mut i: usize = 0;
        while i < self.fields.len()
            invariant
                i <= self.fields@.len(),
                fields@.len() == i,
                forall|k: int|
                    0 <= k < i ==> spec_field_type_of(#[trigger] self@[k].data_type) is Some,
                forall|k: int|
                    0 <= k < i ==> (#[trigger] fields@[k])@ == (FieldView {
                        name: self@[k].name,
                        field_type: spec_field_type_of(self@[k].data_type)->Some_0,
                        nullable: self@[k].nullable,
                    }),
            decreases self.fields@.len() - i,
        {
            let arrow_field = &self.fields[i];
            let field_type = match arrow_field.data_type {
                ArrowDataType::Int32 => FieldType::Int32,
                ArrowDataType::Int64 => FieldType::Int64,
                ArrowDataType::Float32 => FieldType::Float32,
                ArrowDataType::Float64 => FieldType::Float64,
                ArrowDataType::Utf8 => FieldType::Utf8,
                ArrowDataType::LargeBinary => FieldType::Binary,
                ArrowDataType::Binary => FieldType::Binary,
                _ => {
                    assert(spec_field_type_of(self@[i as int].data_type) is None);
                    return Err(Error::Corrupted("unsupported Arrow data type"));
                },
            };
            fields.push(Field::new(arrow_field.name.as_str(), field_type, arrow_field.nullable));
            i += 1;
        }
        let schema = Schema::new(fields);
        assert(schema@ =~= spec_to_nfl_fields(self@)->Ok_0);
        Ok(schema)
    }
}

/// Round trip through Arrow: converting a schema to Arrow and back always
/// succeeds, keeps names and nullability, and keeps every field type except
/// `Vector` and `Tensor`, which come back as `Binary`; so a schema without
/// those types comes back unchanged.
pub proof fn law_arrow_roundtrip(fs: Seq<FieldView>)
    ensures
        spec_to_nfl_fields(spec_to_arrow_fields(fs)) matches Ok(back) && back.len() == fs.len()
            && forall|i: int|
            0 <= i < fs.len() ==> {
                &&& (#[trigger] back[i]).name == fs[i].name
                &&& back[i].nullable == fs[i].nullable
                &&& back[i].field_type == if fs[i].field_type == FieldType::Vector
                    || fs[i].field_type == FieldType::Tensor {
                    FieldType::Binary
                } else {
                    fs[i].field_type
                }
            },
        (forall|i: int|
            0 <= i < fs.len() ==> (#[trigger] fs[i]).field_type != FieldType::Vector
                && fs[i].field_type != FieldType::Tensor) ==> spec_to_nfl_fields(
            spec_to_arrow_fields(fs),
        ) == Ok::<Seq<FieldView>, Error>(fs),
{
    let a = spec_to_arrow_fields(fs);
    assert forall|i: int| 0 <= i < a.len() implies spec_field_type_of(
        #[trigger] a[i].data_type,
    ) is Some by {}
    if forall|i: int|
        0 <= i < fs.len() ==> (#[trigger] fs[i]).field_type != FieldType::Vector
            && fs[i].field_type != FieldType::Tensor {
        assert(spec_to_nfl_fields(a)->Ok_0 =~= fs);
    }
}

/// Which Arrow schemas convert, and to what: the conversion succeeds exactly
/// when every field's data type is one of Int32, Int64, Float32, Float64,
/// Utf8, Binary or LargeBinary, and otherwise fails with
/// `Corrupted("unsupported Arrow data type")`. On success every field keeps
/// its name and nullability, the four numeric types and Utf8 keep their own
/// type, and both binary types become `Binary`.
pub proof fn law_to_nfl_supported_types(fs: Seq<ArrowFieldView>)
    ensures
        spec_to_nfl_fields(fs) is Ok <==> forall|i: int|
            0 <= i < fs.len() ==> {
                let a = (#[trigger] fs[i]).data_type;
                ||| a == ArrowDataType::Int32
                ||| a == ArrowDataType::Int64
                ||| a == ArrowDataType::Float32
                ||| a == ArrowDataType::Float64
                ||| a == ArrowDataType::Utf8
                ||| a == ArrowDataType::Binary
                ||| a == ArrowDataType::LargeBinary
            },
        spec_to_nfl_fields(fs) is Err ==> spec_to_nfl_fields(fs) == Err::<Seq<FieldView>, Error>(
            Error::Corrupted("unsupported Arrow data type"),
        ),
        spec_to_nfl_fields(fs) matches Ok(out) ==> out.len() == fs.len() && forall|i: int|
            0 <= i < fs.len() ==> {
                let a = fs[i].data_type;
                let f = #[trigger] out[i];
                &&& f.name == fs[i].name
                &&& f.nullable == fs[i].nullable
                &&& a == ArrowDataType::Int32 ==> f.field_type == FieldType::Int32
                &&& a == ArrowDataType::Int64 ==> f.field_type == FieldType::Int64
                &&& a == ArrowDataType::Float32 ==> f.field_type == FieldType::Float32
                &&& a == ArrowDataType::Float64 ==> f.field_type == FieldType::Float64
                &&& a == ArrowDataType::Utf8 ==> f.field_type == FieldType::Utf8
                &&& a == ArrowDataType::Binary ==> f.field_type == FieldType::Binary
                &&& a == ArrowDataType::LargeBinary ==> f.field_type == FieldType::Binary
            },
{
    if !(spec_to_nfl_fields(fs) is Ok) {
        let i = choose|i: int| 0 <= i < fs.len() && !(spec_field_type_of(#[trigger] fs[i].data_type) is Some);
        assert(0 <= i < fs.len() && !(spec_field_type_of(fs[i].data_type) is Some));
    }
}

/// What converting a schema to Arrow gives: one Arrow field per field, in
/// order, with the same name and nullability; Int32, Int64, Float32, Float64
/// and Utf8 keep their own Arrow type, and Binary, Vector and Tensor are all
/// stored as LargeBinary.
pub proof fn law_to_arrow_types(fs: Seq<FieldView>)
    ensures
        spec_to_arrow_fields(fs).len() == fs.len(),
        forall|i: int|
            0 <= i < fs.len() ==> {
                let t = fs[i].field_type;
                let a = #[trigger] spec_to_arrow_fields(fs)[i];
                &&& a.name == fs[i].name
                &&& a.nullable == fs[i].nullable
                &&& t == FieldType::Int32 ==> a.data_type == ArrowDataType::Int32
                &&& t == FieldType::Int64 ==> a.data_type == ArrowDataType::Int64
                &&& t == FieldType::Float32 ==> a.data_type == ArrowDataType::Float32
                &&& t == FieldType::Float64 ==> a.data_type == ArrowDataType::Float64
                &&& t == FieldType::Utf8 ==> a.data_type == ArrowDataType::Utf8
                &&& t == FieldType::Binary ==> a.data_type == ArrowDataType::LargeBinary
                &&& t == FieldType::Vector ==> a.data_type == ArrowDataType::LargeBinary
                &&& t == FieldType::Tensor ==> a.data_type == ArrowDataType::LargeBinary
            },
{
}

} // verus!

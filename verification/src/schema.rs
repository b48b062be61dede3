//! Schema metadata: named, typed fields and their compact binary encoding.
use crate::error::{spec_prefixed, Error};
use vstd::bytes::*;
use vstd::prelude::*;
use vstd::slice::{slice_subrange, slice_to_vec};
use vstd::utf8::{decode_utf8, encode_utf8, valid_utf8};

verus! {

broadcast use vstd::utf8::group_utf8_lib;

/// Supported field types for NFL schema metadata.
#[derive(Clone, Copy, Debug, PartialEq, Eq, Structural)]
pub enum FieldType {
    Int32,
    Int64,
    Float32,
    Float64,
    Utf8,
    Binary,
    Vector,
    Tensor,
}

/// The byte that stands for a field type in the schema encoding.
pub open spec fn spec_field_type_tag(t: FieldType) -> u8 {
    match t {
        FieldType::Int32 => 1,
        FieldType::Int64 => 2,
        FieldType::Float32 => 3,
        FieldType::Float64 => 4,
        FieldType::Utf8 => 5,
        FieldType::Binary => 6,
        FieldType::Vector => 7,
        FieldType::Tensor => 8,
    }
}

/// The field type that a byte stands for, if any.
pub open spec fn spec_field_type_from_tag(v: u8) -> Option<FieldType> {
    if v == 1 {
        Some(FieldType::Int32)
    } else if v == 2 {
        Some(FieldType::Int64)
    } else if v == 3 {
        Some(FieldType::Float32)
    } else if v == 4 {
        Some(FieldType::Float64)
    } else if v == 5 {
        Some(FieldType::Utf8)
    } else if v == 6 {
        Some(FieldType::Binary)
    } else if v == 7 {
        Some(FieldType::Vector)
    } else if v == 8 {
        Some(FieldType::Tensor)
    } else {
        None
    }
}

/// The display name of a field type.
pub open spec fn spec_field_type_name(t: FieldType) -> Seq<char> {
    match t {
        FieldType::Int32 => "Int32"@,
        FieldType::Int64 => "Int64"@,
        FieldType::Float32 => "Float32"@,
        FieldType::Float64 => "Float64"@,
        FieldType::Utf8 => "Utf8"@,
        FieldType::Binary => "Binary"@,
        FieldType::Vector => "Vector"@,
        FieldType::Tensor => "Tensor"@,
    }
}

impl FieldType {
    /// Read a field type from its byte.
    pub fn from_u8(value: u8) -> (r: Result<Self, Error>)
        ensures
            match spec_field_type_from_tag(value) {
                Some(t) => r == Ok::<FieldType, Error>(t),
                None => r == Err::<FieldType, Error>(Error::Corrupted("unknown field type")),
            },
    {
        match value {
            1 => Ok(FieldType::Int32),
            2 => Ok(FieldType::Int64),
            3 => Ok(FieldType::Float32),
            4 => Ok(FieldType::Float64),
            5 => Ok(FieldType::Utf8),
            6 => Ok(FieldType::Binary),
            7 => Ok(FieldType::Vector),
            8 => Ok(FieldType::Tensor),
            _ => Err(Error::Corrupted("unknown field type")),
        }
    }

    /// The byte that stands for this field type.
    pub fn to_u8(self) -> (r: u8)
        ensures
            r == spec_field_type_tag(self),
    {
        match self {
            FieldType::Int32 => 1,
            FieldType::Int64 => 2,
            FieldType::Float32 => 3,
            FieldType::Float64 => 4,
            FieldType::Utf8 => 5,
            FieldType::Binary => 6,
            FieldType::Vector => 7,
            FieldType::Tensor => 8,
        }
    }

    /// The display name of this field type.
    pub fn to_string(&self) -> (s: String)
        ensures
            s@ == spec_field_type_name(*self),
    {
        match self {
            FieldType::Int32 => String::from_str("Int32"),
            FieldType::Int64 => String::from_str("Int64"),
            FieldType::Float32 => String::from_str("Float32"),
            FieldType::Float64 => String::from_str("Float64"),
            FieldType::Utf8 => String::from_str("Utf8"),
            FieldType::Binary => String::from_str("Binary"),
            FieldType::Vector => String::from_str("Vector"),
            FieldType::Tensor => String::from_str("Tensor"),
        }
    }
}

/// Every field type survives the trip through its byte, and exactly the
/// bytes 1 to 8 stand for a field type.
pub proof fn law_field_type_tag_roundtrip(t: FieldType, v: u8)
    ensures
        spec_field_type_from_tag(spec_field_type_tag(t)) == Some(t),
        spec_field_type_from_tag(v) is Some <==> 1 <= v <= 8,
        spec_field_type_from_tag(v) matches Some(u) ==> spec_field_type_tag(u) == v,
{
}

/// The on-disk bytes of the field types: Int32 1, Int64 2, Float32 3,
/// Float64 4, Utf8 5, Binary 6, Vector 7, Tensor 8; reading a byte gives the
/// type with that byte, and no other byte is a field type.
pub proof fn law_field_type_bytes(t: FieldType, v: u8)
    ensures
        (t == FieldType::Int32) == (spec_field_type_tag(t) == 1),
        (t == FieldType::Int64) == (spec_field_type_tag(t) == 2),
        (t == FieldType::Float32) == (spec_field_type_tag(t) == 3),
        (t == FieldType::Float64) == (spec_field_type_tag(t) == 4),
        (t == FieldType::Utf8) == (spec_field_type_tag(t) == 5),
        (t == FieldType::Binary) == (spec_field_type_tag(t) == 6),
        (t == FieldType::Vector) == (spec_field_type_tag(t) == 7),
        (t == FieldType::Tensor) == (spec_field_type_tag(t) == 8),
        spec_field_type_from_tag(v) == Some(t) <==> spec_field_type_tag(t) == v,
        spec_field_type_from_tag(v) is None <==> (v == 0 || v > 8),
{
}

/// A named field in the NFL schema.
#[derive(Clone, Debug, PartialEq, Eq)]
pub struct Field {
    pub name: String,
    pub field_type: FieldType,
    pub nullable: bool,
}

/// A field as values.
pub struct FieldView {
    pub name: Seq<char>,
    pub field_type: FieldType,
    pub nullable: bool,
}

impl View for Field {
    type V = FieldView;

    open spec fn view(&self) -> FieldView {
        FieldView { name: self.name@, field_type: self.field_type, nullable: self.nullable }
    }
}

impl Field {
    /// Create a field.
    pub fn new(name: &str, field_type: FieldType, nullable: bool) -> (f: Self)
        ensures
            f@ == (FieldView { name: name@, field_type, nullable }),
    {
        Field { name: name.to_owned(), field_type, nullable }
    }
}

/// A schema describing named fields and their storage types.
#[derive(Clone, Debug, PartialEq, Eq)]
pub struct Schema {
    pub fields: Vec<Field>,
}

/// The views of a sequence of fields.
pub open spec fn spec_field_views(fs: Seq<Field>) -> Seq<FieldView> {
    fs.map_values(|f: Field| f@)
}

impl View for Schema {
    type V = Seq<FieldView>;

    open spec fn view(&self) -> Seq<FieldView> {
        spec_field_views(self.fields@)
    }
}

/// The encoding of one field: the name's UTF-8 length as a little-endian
/// 16-bit value (cut to 16 bits), the type byte, the nullable byte, then the
/// name's UTF-8 bytes.
pub open spec fn spec_field_bytes(f: FieldView) -> Seq<u8> {
    let name = encode_utf8(f.name);
    spec_u16_to_le_bytes((name.len() % 65536) as u16) + seq![
        spec_field_type_tag(f.field_type),
        if f.nullable {
            1u8
        } else {
            0u8
        },
    ] + name
}

/// The encodings of fields one after another.
pub open spec fn spec_fields_bytes(fs: Seq<FieldView>) -> Seq<u8>
    decreases fs.len(),
{
    if fs.len() == 0 {
        Seq::empty()
    } else {
        spec_field_bytes(fs[0]) + spec_fields_bytes(fs.drop_first())
    }
}

/// The encoding of a schema: the format version 1, the field count (cut to
/// 8 bits), then the fields.
pub open spec fn spec_schema_bytes(fs: Seq<FieldView>) -> Seq<u8> {
    seq![1u8, (fs.len() % 256) as u8] + spec_fields_bytes(fs)
}

/// What parsing `n` fields from `b` gives, failing at the first field that is
/// cut short, has an unknown type or a name that is not UTF-8.
pub open spec fn spec_parse_fields(b: Seq<u8>, n: nat) -> Result<Seq<FieldView>, Error>
    decreases n,
{
    if n == 0 {
        Ok(Seq::empty())
    } else if b.len() < 4 {
        Err(Error::InsufficientData)
    } else {
        let name_len = spec_u16_from_le_bytes(b.subrange(0, 2));
        match spec_field_type_from_tag(b[2]) {
            None => Err(Error::Corrupted("unknown field type")),
            Some(t) => {
                if b.len() - 4 < name_len {
                    Err(Error::InsufficientData)
                } else {
                    let name = b.subrange(4, 4 + name_len);
                    if !valid_utf8(name) {
                        Err(Error::Corrupted("invalid UTF-8 in field name"))
                    } else {
                        spec_prefixed(
                            seq![FieldView { name: decode_utf8(name), field_type: t, nullable: b[3] != 0 }],
                            spec_parse_fields(b.skip(4 + name_len), (n - 1) as nat),
                        )
                    }
                }
            },
        }
    }
}

/// What parsing a schema from `b` gives.
pub open spec fn spec_parse_schema(b: Seq<u8>) -> Result<Seq<FieldView>, Error> {
    if b.len() < 2 {
        Err(Error::InsufficientData)
    } else if b[0] != 1 {
        Err(Error::UnsupportedVersion(b[0] as u32))
    } else {
        spec_parse_fields(b.skip(2), b[1] as nat)
    }
}

/// Calls `String::from_utf8`. Claims, as its documentation says: it succeeds
/// exactly when the bytes are valid UTF-8, and then the string holds the
/// characters that the bytes encode.
#[verifier::external_body]
fn string_from_utf8(bytes: Vec<u8>) -> (r: Option<String>)
    ensures
        match r {
            Some(s) => valid_utf8(bytes@) && s@ == decode_utf8(bytes@),
            None => !valid_utf8(bytes@),
        },
{
    String::from_utf8(bytes).ok()
}

/// Append `bytes` to `out`.
fn append_bytes(out: &mut Vec<u8>, bytes: &[u8])
    ensures
        final(out)@ == old(out)@ + bytes@,
{
    let mut i: usize = 0;
    while i < bytes.len()
        invariant
            i <= bytes@.len(),
            out@ == old(out)@ + bytes@.subrange(0, i as int),
        decreases bytes@.len() - i,
    {
        out.push(bytes[i]);
        i += 1;
        assert(out@ =~= old(out)@ + bytes@.subrange(0, i as int));
    }
    assert(bytes@.subrange(0, i as int) =~= bytes@);
}

/// The encodings of fields, with one more field appended.
pub proof fn lemma_fields_bytes_push(fs: Seq<FieldView>, f: FieldView)
    ensures
        spec_fields_bytes(fs.push(f)) == spec_fields_bytes(fs) + spec_field_bytes(f),
    decreases fs.len(),
{
    if fs.len() == 0 {
        assert(fs.push(f).drop_first() =~= Seq::<FieldView>::empty());
        assert(fs.push(f)[0] == f);
        assert(spec_fields_bytes(fs.push(f).drop_first()) == Seq::<u8>::empty());
        assert(spec_fields_bytes(fs) == Seq::<u8>::empty());
        assert(spec_fields_bytes(fs.push(f)) =~= spec_field_bytes(f));
    } else {
        lemma_fields_bytes_push(fs.drop_first(), f);
        assert(fs.push(f).drop_first() =~= fs.drop_first().push(f));
        assert(spec_fields_bytes(fs.push(f)) =~= spec_fields_bytes(fs) + spec_field_bytes(f));
    }
}

/// Every field's name fits the 16-bit length of the encoding.
pub open spec fn spec_names_fit(fs: Seq<FieldView>) -> bool {
    forall|i: int| 0 <= i < fs.len() ==> encode_utf8(#[trigger] fs[i].name).len() < 65536
}

/// Fields whose names fit, encoded and parsed back, are unchanged.
pub proof fn lemma_fields_roundtrip(fs: Seq<FieldView>, rest: Seq<u8>)
    requires
        spec_names_fit(fs),
    ensures
        spec_parse_fields(spec_fields_bytes(fs) + rest, fs.len()) == Ok::<Seq<FieldView>, Error>(fs),
    decreases fs.len(),
{
    lemma_auto_spec_u16_to_from_le_bytes();
    if fs.len() == 0 {
        assert(fs =~= Seq::<FieldView>::empty());
    } else {
        let f = fs[0];
        let tail = fs.drop_first();
        assert(spec_names_fit(tail)) by {
            assert forall|i: int| 0 <= i < tail.len() implies encode_utf8(
                #[trigger] tail[i].name,
            ).len() < 65536 by {
                assert(tail[i] == fs[i + 1]);
            }
        }
        lemma_fields_roundtrip(tail, rest);
        let name = encode_utf8(f.name);
        let len = name.len() as int;
        assert(encode_utf8(fs[0].name).len() < 65536);
        let b = spec_fields_bytes(fs) + rest;
        let header = spec_u16_to_le_bytes((len % 65536) as u16);
        assert(b =~= header + seq![
            spec_field_type_tag(f.field_type),
            if f.nullable {
                1u8
            } else {
                0u8
            },
        ] + name + (spec_fields_bytes(tail) + rest));
        assert(b.subrange(0, 2) =~= header);
        assert(spec_u16_from_le_bytes(b.subrange(0, 2)) == len);
        assert(b[2] == spec_field_type_tag(f.field_type));
        assert(b.subrange(4, 4 + len) =~= name);
        assert(b.skip(4 + len) =~= spec_fields_bytes(tail) + rest);
        assert(seq![f] + tail =~= fs);
    }
}

/// Round trip: a schema with at most 255 fields whose names each encode to
/// fewer than 65536 bytes, serialized and parsed back (whatever bytes follow),
/// gives the same fields. (Beyond those limits the encoding cuts the counts
/// to 8 and 16 bits.)
pub proof fn law_schema_serialize_then_parse(fs: Seq<FieldView>, rest: Seq<u8>)
    requires
        fs.len() <= 255,
        spec_names_fit(fs),
    ensures
        spec_parse_schema(spec_schema_bytes(fs) + rest) == Ok::<Seq<FieldView>, Error>(fs),
{
    let b = spec_schema_bytes(fs) + rest;
    assert(b.skip(2) =~= spec_fields_bytes(fs) + rest);
    lemma_fields_roundtrip(fs, rest);
}

/// Parsed fields: exactly `n` of them, each name short enough to encode.
pub proof fn lemma_parsed_fields_fit(b: Seq<u8>, n: nat)
    ensures
        spec_parse_fields(b, n) matches Ok(fs) ==> fs.len() == n && spec_names_fit(fs),
    decreases n,
{
    lemma_auto_spec_u16_to_from_le_bytes();
    if n > 0 && b.len() >= 4 {
        let name_len = spec_u16_from_le_bytes(b.subrange(0, 2));
        if b.len() - 4 >= name_len {
            lemma_parsed_fields_fit(b.skip(4 + name_len), (n - 1) as nat);
            if let Ok(fs) = spec_parse_fields(b, n) {
                let name = b.subrange(4, 4 + name_len);
                let rest = spec_parse_fields(b.skip(4 + name_len), (n - 1) as nat)->Ok_0;
                assert(fs == seq![fs[0]] + rest);
                assert(encode_utf8(fs[0].name) == name);
                assert forall|i: int| 0 <= i < fs.len() implies encode_utf8(
                    #[trigger] fs[i].name,
                ).len() < 65536 by {
                    if i > 0 {
                        assert(fs[i] == rest[i - 1]);
                    }
                }
            }
        }
    }
}

/// Re-encoding is stable: the fields parsed from any bytes, serialized and
/// parsed again, come back unchanged.
pub proof fn law_schema_parse_serialize_parse(b: Seq<u8>)
    ensures
        spec_parse_schema(b) matches Ok(fs) ==> spec_parse_schema(spec_schema_bytes(fs)) == Ok::<
            Seq<FieldView>,
            Error,
        >(fs),
{
    if b.len() >= 2 && b[0] == 1 {
        lemma_parsed_fields_fit(b.skip(2), b[1] as nat);
        if let Ok(fs) = spec_parse_schema(b) {
            law_schema_serialize_then_parse(fs, Seq::empty());
            assert(spec_schema_bytes(fs) + Seq::<u8>::empty() =~= spec_schema_bytes(fs));
        }
    }
}

impl Schema {
    /// Create a new schema from fields.
    pub fn new(fields: Vec<Field>) -> (s: Self)
        ensures
            s.fields@ == fields@,
    {
        Schema { fields }
    }

    /// Serialize the schema into a compact binary representation.
    pub fn serialize(&self) -> (out: Vec<u8>)
        ensures
            out@ == spec_schema_bytes(self@),
    {
        let mut out: Vec<u8> = Vec::new();
        out.push(1);
        out.push((self.fields.len() % 256) as u8);
        let ghost fs = self@;
        let mut i: usize = 0;
        while i < self.fields.len()
            invariant
                i <= self.fields@.len(),
                fs == self@,
                out@ == seq![1u8, (fs.len() % 256) as u8] + spec_fields_bytes(fs.take(i as int)),
            decreases self.fields@.len() - i,
        {
            let field = &self.fields[i];
            let name = field.name.as_str().as_bytes();
            let length = u16_to_le_bytes((name.len() % 65536) as u16);
            let ghost before = out@;
            append_bytes(&mut out, length.as_slice());
            out.push(field.field_type.to_u8());
            out.push(if field.nullable { 1 } else { 0 });
            append_bytes(&mut out, name);
            proof {
                lemma_fields_bytes_push(fs.take(i as int), fs[i as int]);
                assert(fs.take(i as int).push(fs[i as int]) =~= fs.take(i + 1));
                assert(out@ =~= before + spec_field_bytes(fs[i as int]));
            }
            i += 1;
        }
        proof {
            assert(fs.take(i as int) =~= fs);
        }
        out
    }

    /// Parse a schema from bytes.
    pub fn parse(bytes: &[u8]) -> (r: Result<Self, Error>)
        ensures
            match r {
                Ok(s) => spec_parse_schema(bytes@) == Ok::<Seq<FieldView>, Error>(s@),
                Err(e) => spec_parse_schema(bytes@) == Err::<Seq<FieldView>, Error>(e),
            },
    {
        if bytes.len() < 2 {
            return Err(Error::InsufficientData);
        }
        let version = bytes[0];
        if version != 1 {
            return Err(Error::UnsupportedVersion(version as u32));
        }
        let field_count = bytes[1] as usize;
        let mut cursor: usize = 2;
        let mut fields: Vec<Field> = Vec::new();
        let mut k: usize = 0;
        proof {
            if let Ok(s) = spec_parse_schema(bytes@) {
                assert(spec_field_views(fields@) + s =~= s);
            }
        }
        while k < field_count
            invariant
                k <= field_count,
                field_count == bytes@[1],
                bytes@.len() >= 2,
                bytes@[0] == 1,
                2 <= cursor <= bytes@.len(),
                spec_parse_schema(bytes@) == spec_prefixed(
                    spec_field_views(fields@),
                    spec_parse_fields(bytes@.skip(cursor as int), (field_count - k) as nat),
                ),
            decreases field_count - k,
        {
            let ghost rest = bytes@.skip(cursor as int);
            if bytes.len() - cursor < 4 {
                return Err(Error::InsufficientData);
            }
            let name_len = u16_from_le_bytes(slice_subrange(bytes, cursor, cursor + 2)) as usize;
            proof {
                assert(rest.subrange(0, 2) =~= bytes@.subrange(cursor as int, cursor + 2));
            }
            cursor += 2;
            let field_type = match FieldType::from_u8(bytes[cursor]) {
                Ok(t) => t,
                Err(e) => return Err(e),
            };
            cursor += 1;
            let nullable = bytes[cursor] != 0;
            cursor += 1;
            if bytes.len() - cursor < name_len {
                return Err(Error::InsufficientData);
            }
            let name_bytes = slice_to_vec(slice_subrange(bytes, cursor, cursor + name_len));
            proof {
                assert(rest.subrange(4, 4 + name_len) =~= name_bytes@);
            }
            let name = match string_from_utf8(name_bytes) {
                Some(s) => s,
                None => return Err(Error::Corrupted("invalid UTF-8 in field name")),
            };
            cursor += name_len;
            let ghost before = spec_field_views(fields@);
            let field = Field { name, field_type, nullable };
            fields.push(field);
            k += 1;
            proof {
                assert(rest.skip(4 + name_len) =~= bytes@.skip(cursor as int));
                assert(spec_field_views(fields@) =~= before.push(field@));
                match spec_parse_fields(bytes@.skip(cursor as int), (field_count - k) as nat) {
                    Ok(s) => {
                        assert(before + (seq![field@] + s) =~= spec_field_views(fields@) + s);
                    },
                    Err(_) => {},
                }
            }
        }
        proof {
            assert(spec_field_views(fields@) + Seq::<FieldView>::empty() =~= spec_field_views(
                fields@,
            ));
        }
        Ok(Schema { fields })
    }
}

} // verus!

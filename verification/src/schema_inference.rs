//! The schema of a collection, from a document of it.

use vstd::prelude::*;

use crate::types::{
    Field, FieldDefinition, FieldDefinitionView, FieldType, FieldView, Schema, SchemaIdentifier,
    SchemaView, SourceDefinition,
};

verus! {

/// A BSON value, as far as it is read. A double is held by its bits.
#[derive(Debug, PartialEq, Eq)]
pub enum Bson {
    Double(u64),
    String(String),
    Array,
    Document,
    Boolean(bool),
    Null,
    RegularExpression,
    JavaScriptCode(String),
    JavaScriptCodeWithScope,
    Int32(i32),
    Int64(i64),
    Timestamp,
    Binary(Vec<u8>),
    ObjectId([u8; 12]),
    DateTime,
    Symbol,
    Decimal128,
    Undefined,
    MaxKey,
    MinKey,
    DbPointer,
}

/// A BSON document: its keys and values, in order.
#[derive(Debug, PartialEq, Eq)]
pub struct Document {
    pub entries: Vec<(String, Bson)>,
}

/// The value has a field type. Arrays and dates have none.
pub open spec fn has_dtype(value: Bson) -> bool {
    !(value is Array || value is DateTime)
}

/// The field type of a value.
pub open spec fn dtype_of(value: Bson) -> FieldType {
    match value {
        Bson::Int32(_) | Bson::Int64(_) => FieldType::Int,
        Bson::Double(_) => FieldType::Float,
        Bson::Decimal128 => FieldType::Decimal,
        Bson::Boolean(_) => FieldType::Boolean,
        Bson::Document => FieldType::Json,
        Bson::Binary(_) => FieldType::Binary,
        Bson::Timestamp => FieldType::Timestamp,
        _ => FieldType::String,
    }
}

/// The value can be put into a field.
pub open spec fn has_field(value: Bson) -> bool {
    match value {
        Bson::Double(_)
        | Bson::String(_)
        | Bson::Boolean(_)
        | Bson::Null
        | Bson::JavaScriptCode(_)
        | Bson::Int32(_)
        | Bson::Int64(_)
        | Bson::Binary(_)
        | Bson::ObjectId(_) => true,
        _ => false,
    }
}

/// The field that a value is put into.
pub open spec fn field_of(value: Bson) -> FieldView {
    match value {
        Bson::Double(bits) => FieldView::Float(bits),
        Bson::String(text) => FieldView::String(text@),
        Bson::Boolean(value) => FieldView::Boolean(value),
        Bson::JavaScriptCode(code) => FieldView::String(code@),
        Bson::Int32(value) => FieldView::Int(value as i64),
        Bson::Int64(value) => FieldView::Int(value),
        Bson::Binary(bytes) => FieldView::Binary(bytes@),
        Bson::ObjectId(bytes) => FieldView::String(lower_hex(bytes@)),
        _ => FieldView::Null,
    }
}

/// A hexadecimal digit, in lower case.
pub open spec fn hex_digit(digit: int) -> char {
    if digit < 10 {
        ('0' as int + digit) as char
    } else {
        ('a' as int + digit - 10) as char
    }
}

/// Each byte as two hexadecimal digits, the higher one first.
pub open spec fn lower_hex(bytes: Seq<u8>) -> Seq<char> {
    Seq::new(
        2 * bytes.len(),
        |i: int|
            if i % 2 == 0 {
                hex_digit(bytes[i / 2] as int / 16)
            } else {
                hex_digit(bytes[i / 2] as int % 16)
            },
    )
}

/// Calls `to_hex` of `bson::oid::ObjectId`, which writes each byte of the id as two hexadecimal
/// digits in lower case.
#[verifier::external_body]
fn object_id_to_hex(bytes: [u8; 12]) -> (hex: String)
    ensures
        hex@ == lower_hex(bytes@),
{
    bson::oid::ObjectId::from_bytes(bytes).to_hex()
}

impl Bson {
    /// Whether the value has a field type.
    pub fn supports_dtype(&self) -> (supported: bool)
        ensures
            supported == has_dtype(*self),
    {
        match self {
            Bson::Array | Bson::DateTime => false,
            _ => true,
        }
    }

    /// Whether the value can be put into a field.
    pub fn supports_field(&self) -> (supported: bool)
        ensures
            supported == has_field(*self),
    {
        match self {
            Bson::Double(_)
            | Bson::String(_)
            | Bson::Boolean(_)
            | Bson::Null
            | Bson::JavaScriptCode(_)
            | Bson::Int32(_)
            | Bson::Int64(_)
            | Bson::Binary(_)
            | Bson::ObjectId(_) => true,
            _ => false,
        }
    }
}

/// The first value of a document that has no field type is at `index`.
pub open spec fn lacks_dtype_first_at(doc: Document, index: usize) -> bool {
    &&& index < doc.entries@.len()
    &&& !has_dtype(doc.entries@[index as int].1)
    &&& forall|i: int| 0 <= i < index ==> has_dtype((#[trigger] doc.entries@[i]).1)
}

/// The first value of a document that cannot be put into a field is at `index`.
pub open spec fn lacks_field_first_at(doc: Document, index: usize) -> bool {
    &&& index < doc.entries@.len()
    &&& !has_field(doc.entries@[index as int].1)
    &&& forall|i: int| 0 <= i < index ==> has_field((#[trigger] doc.entries@[i]).1)
}

impl Document {
    /// Every value has a field type.
    pub open spec fn has_dtypes(&self) -> bool {
        forall|i: int| 0 <= i < self.entries@.len() ==> has_dtype((#[trigger] self.entries@[i]).1)
    }

    /// Every value can be put into a field.
    pub open spec fn has_fields(&self) -> bool {
        forall|i: int| 0 <= i < self.entries@.len() ==> has_field((#[trigger] self.entries@[i]).1)
    }

    /// The first value that has no field type, if there is one.
    pub fn first_without_dtype(&self) -> (found: Option<usize>)
        ensures
            match found {
                Some(index) => lacks_dtype_first_at(*self, index),
                None => self.has_dtypes(),
            },
    {
        let mut i: usize = 0;
        while i < self.entries.len()
            invariant
                i <= self.entries@.len(),
                forall|j: int| 0 <= j < i ==> has_dtype((#[trigger] self.entries@[j]).1),
            decreases self.entries.len() - i,
        {
            if !self.entries[i].1.supports_dtype() {
                return Some(i);
            }
            i += 1;
        }
        None
    }

    /// The first value that cannot be put into a field, if there is one.
    pub fn first_without_field(&self) -> (found: Option<usize>)
        ensures
            match found {
                Some(index) => lacks_field_first_at(*self, index),
                None => self.has_fields(),
            },
    {
        let mut i: usize = 0;
        while i < self.entries.len()
            invariant
                i <= self.entries@.len(),
                forall|j: int| 0 <= j < i ==> has_field((#[trigger] self.entries@[j]).1),
            decreases self.entries.len() - i,
        {
            if !self.entries[i].1.supports_field() {
                return Some(i);
            }
            i += 1;
        }
        None
    }
}

/// The field type of a value. A value of a type that has no counterpart becomes a string.
pub fn value_to_dtype(val: &Bson) -> (dtype: FieldType)
    requires
        has_dtype(*val),
    ensures
        dtype == dtype_of(*val),
{
    match val {
        Bson::Int32(_) | Bson::Int64(_) => FieldType::Int,
        Bson::Double(_) => FieldType::Float,
        Bson::Decimal128 => FieldType::Decimal,
        Bson::Boolean(_) => FieldType::Boolean,
        Bson::Document => FieldType::Json,
        Bson::String(_) => FieldType::String,
        Bson::Binary(_) => FieldType::Binary,
        Bson::ObjectId(_) => FieldType::String,
        Bson::Timestamp => FieldType::Timestamp,
        _ => FieldType::String,
    }
}

/// The field that a value is put into.
fn value_to_field(value: &Bson) -> (field: Field)
    requires
        has_field(*value),
    ensures
        field@ == field_of(*value),
{
    match value {
        Bson::Double(bits) => Field::Float(*bits),
        Bson::String(text) => Field::String(text.clone()),
        Bson::Boolean(value) => Field::Boolean(*value),
        Bson::JavaScriptCode(code) => Field::String(code.clone()),
        Bson::Int32(value) => Field::Int(*value as i64),
        Bson::Int64(value) => Field::Int(*value),
        Bson::Binary(bytes) => {
            let copy = bytes.clone();
            assert(copy@ =~= bytes@);
            Field::Binary(copy)
        },
        Bson::ObjectId(bytes) => Field::String(object_id_to_hex(*bytes)),
        _ => Field::Null,
    }
}

/// The fields of a document.
pub open spec fn fields_of(doc: Document) -> Seq<FieldView> {
    doc.entries@.map_values(|entry: (String, Bson)| field_of(entry.1))
}

/// Puts the values of a document into fields, in their order.
pub fn doc_to_flds(doc: &Document) -> (fields: Vec<Field>)
    requires
        doc.has_fields(),
    ensures
        fields@.map_values(|field: Field| field@) == fields_of(*doc),
        fields@.len() == doc.entries@.len(),
        forall|i: int|
            0 <= i < fields@.len() ==> (#[trigger] fields@[i])@ == field_of(doc.entries@[i].1),
{
    let mut fields: Vec<Field> = Vec::new();
    let mut i: usize = 0;
    while i < doc.entries.len()
        invariant
            doc.has_fields(),
            i <= doc.entries@.len(),
            fields@.len() == i,
            forall|j: int| 0 <= j < i ==> (#[trigger] fields@[j])@ == field_of(doc.entries@[j].1),
        decreases doc.entries.len() - i,
    {
        fields.push(value_to_field(&doc.entries[i].1));
        i += 1;
    }
    assert(fields@.map_values(|field: Field| field@) =~= fields_of(*doc));
    fields
}

/// The schema of the documents like `doc`: a nullable field for each key, of the type of its
/// value, and no primary key.
pub open spec fn inferred_schema(doc: Document) -> SchemaView {
    SchemaView {
        identifier: Some(SchemaIdentifier { id: 0, version: 1 }),
        fields: doc.entries@.map_values(
            |entry: (String, Bson)|
                FieldDefinitionView {
                    name: entry.0@,
                    typ: dtype_of(entry.1),
                    nullable: true,
                    source: SourceDefinition::Dynamic,
                },
        ),
        primary_index: Seq::empty(),
    }
}

/// The schema of the documents like `doc`.
pub fn infer_schema(doc: &Document) -> (schema: Schema)
    requires
        doc.has_dtypes(),
    ensures
        schema@ == inferred_schema(*doc),
        schema.identifier == Some(SchemaIdentifier { id: 0, version: 1 }),
        schema.primary_index@.len() == 0,
        schema.fields@.len() == doc.entries@.len(),
        forall|i: int|
            0 <= i < schema.fields@.len() ==> {
                let field = #[trigger] schema.fields@[i];
                &&& field.name@ == doc.entries@[i].0@
                &&& field.typ == dtype_of(doc.entries@[i].1)
                &&& field.nullable
            },
{
    let mut fields: Vec<FieldDefinition> = Vec::new();
    let mut i: usize = 0;
    while i < doc.entries.len()
        invariant
            doc.has_dtypes(),
            i <= doc.entries@.len(),
            fields@.len() == i,
            forall|j: int|
                0 <= j < i ==> (#[trigger] fields@[j])@ == inferred_schema(*doc).fields[j],
        decreases doc.entries.len() - i,
    {
        let (key, value) = &doc.entries[i];
        fields.push(
            FieldDefinition {
                name: key.clone(),
                typ: value_to_dtype(value),
                nullable: true,
                source: SourceDefinition::Dynamic,
            },
        );
        i += 1;
    }
    let schema = Schema {
        identifier: Some(SchemaIdentifier { id: 0, version: 1 }),
        fields,
        primary_index: Vec::new(),
    };
    assert(schema@.fields =~= inferred_schema(*doc).fields);
    assert(schema@.primary_index =~= inferred_schema(*doc).primary_index);
    proof {
        law_inferred_fields(*doc, schema);
    }
    schema
}

/// The type of what a field holds; a null has none.
pub open spec fn type_of_field(field: FieldView) -> Option<FieldType> {
    match field {
        FieldView::Int(_) => Some(FieldType::Int),
        FieldView::Float(_) => Some(FieldType::Float),
        FieldView::Boolean(_) => Some(FieldType::Boolean),
        FieldView::String(_) => Some(FieldType::String),
        FieldView::Binary(_) => Some(FieldType::Binary),
        FieldView::Null => None,
    }
}

/// The fields of a document fit the schema that is inferred from it: there is one field for each
/// of the schema, and what it holds is null or of the type that the schema gives it.
pub proof fn law_fields_fit_inferred_schema(doc: Document)
    requires
        doc.has_dtypes(),
        doc.has_fields(),
    ensures
        fields_of(doc).len() == inferred_schema(doc).fields.len(),
        forall|i: int|
            0 <= i < fields_of(doc).len() ==> {
                let typ = type_of_field(#[trigger] fields_of(doc)[i]);
                typ is None || typ == Some(inferred_schema(doc).fields[i].typ)
            },
{
    assert forall|i: int| 0 <= i < fields_of(doc).len() implies {
        let typ = type_of_field(#[trigger] fields_of(doc)[i]);
        typ is None || typ == Some(inferred_schema(doc).fields[i].typ)
    } by {
        assert(has_field(doc.entries@[i].1));
    }
}

/// Different object ids are put into different fields.
pub proof fn law_object_ids_stay_apart(a: [u8; 12], b: [u8; 12])
    requires
        field_of(Bson::ObjectId(a)) == field_of(Bson::ObjectId(b)),
    ensures
        a@ == b@,
{
    assert(lower_hex(a@) == lower_hex(b@));
    assert forall|i: int| 0 <= i < 12 implies a@[i] == b@[i] by {
        assert(lower_hex(a@)[2 * i] == lower_hex(b@)[2 * i]);
        assert(lower_hex(a@)[2 * i + 1] == lower_hex(b@)[2 * i + 1]);
        lemma_hex_digits_differ(a@[i] as int / 16, b@[i] as int / 16);
        lemma_hex_digits_differ(a@[i] as int % 16, b@[i] as int % 16);
    }
    assert(a@ =~= b@);
}

proof fn lemma_hex_digits_differ(a: int, b: int)
    requires
        0 <= a < 16,
        0 <= b < 16,
        hex_digit(a) == hex_digit(b),
    ensures
        a == b,
{
}

/// Which values have a field type, and which one, kind by kind: numbers, texts, booleans, binaries
/// and timestamps keep theirs, a nested document is JSON, an object id is a string, and so is
/// whatever has no counterpart. Arrays and dates have none.
pub proof fn law_field_types(value: Bson)
    ensures
        has_dtype(value) <==> value !is Array && value !is DateTime,
        value is Int32 || value is Int64 <==> has_dtype(value) && dtype_of(value) is Int,
        value is Double <==> has_dtype(value) && dtype_of(value) is Float,
        value is Decimal128 <==> has_dtype(value) && dtype_of(value) is Decimal,
        value is Boolean <==> has_dtype(value) && dtype_of(value) is Boolean,
        value is Document <==> has_dtype(value) && dtype_of(value) is Json,
        value is Binary <==> has_dtype(value) && dtype_of(value) is Binary,
        value is Timestamp <==> has_dtype(value) && dtype_of(value) is Timestamp,
        value is String || value is ObjectId || value is Null || value is RegularExpression
            || value is JavaScriptCode || value is JavaScriptCodeWithScope || value is Symbol
            || value is Undefined || value is MaxKey || value is MinKey || value is DbPointer <==>
            has_dtype(value) && dtype_of(value) is String,
{
}

/// Which values can be put into a field, and what a field that holds one holds: the number, the
/// text, the bytes or the null itself, and the hexadecimal digits of an object id.
pub proof fn law_fields_hold_their_values(value: Bson, field: Field)
    requires
        has_field(value) ==> field@ == field_of(value),
    ensures
        match value {
            Bson::Int32(number) => has_field(value) && field is Int && field->Int_0 == number,
            Bson::Int64(number) => has_field(value) && field == Field::Int(number),
            Bson::Double(bits) => has_field(value) && field == Field::Float(bits),
            Bson::Boolean(truth) => has_field(value) && field == Field::Boolean(truth),
            Bson::String(text) => has_field(value) && field is String && field->String_0@ == text@,
            Bson::JavaScriptCode(code) => has_field(value) && field is String && field->String_0@
                == code@,
            Bson::Binary(bytes) => has_field(value) && field is Binary && field->Binary_0@
                == bytes@,
            Bson::Null => has_field(value) && field is Null,
            Bson::ObjectId(_) => has_field(value) && field is String && field->String_0@.len()
                == 24,
            _ => !has_field(value),
        },
{
}

/// The bytes of an object id can be read off the field that holds it, two hexadecimal digits for
/// each.
pub proof fn law_object_ids_can_be_read_off(id: [u8; 12], text: Seq<char>)
    requires
        field_of(Bson::ObjectId(id)) == FieldView::String(text),
    ensures
        text.len() == 24,
        forall|i: int|
            0 <= i < 12 ==> #[trigger] id@[i] == 16 * digit_value(text[2 * i]) + digit_value(
                text[2 * i + 1],
            ),
{
    assert(text == lower_hex(id@));
    assert forall|i: int| 0 <= i < 12 implies #[trigger] id@[i] == 16 * digit_value(text[2 * i])
        + digit_value(text[2 * i + 1]) by {
        assert((2 * i) / 2 == i && (2 * i) % 2 == 0);
        assert((2 * i + 1) / 2 == i && (2 * i + 1) % 2 == 1);
        assert(digit_value(hex_digit(id@[i] as int / 16)) == id@[i] as int / 16);
        assert(digit_value(hex_digit(id@[i] as int % 16)) == id@[i] as int % 16);
    }
}

/// The value of a hexadecimal digit in lower case.
pub open spec fn digit_value(digit: char) -> int {
    if '0' <= digit <= '9' {
        digit as int - 48
    } else if 'a' <= digit <= 'f' {
        digit as int - 87
    } else {
        -1
    }
}

/// An inferred schema has one field for each entry of the document, in their order: of the entry's
/// key and of the type that its value has, whether the value can be put into a field or not. Every
/// field is nullable, and there is no primary key.
pub proof fn law_inferred_fields(doc: Document, schema: Schema)
    requires
        schema@ == inferred_schema(doc),
    ensures
        schema.identifier == Some(SchemaIdentifier { id: 0, version: 1 }),
        schema.primary_index@.len() == 0,
        schema.fields@.len() == doc.entries@.len(),
        forall|i: int|
            0 <= i < doc.entries@.len() ==> {
                let field = #[trigger] schema.fields@[i];
                let value = doc.entries@[i].1;
                &&& field.name@ == doc.entries@[i].0@
                &&& field.nullable
                &&& field.source is Dynamic
                &&& has_dtype(value) ==> field.typ == dtype_of(value)
                &&& value is Int32 || value is Int64 ==> field.typ is Int
                &&& value is Double ==> field.typ is Float
                &&& value is Decimal128 ==> field.typ is Decimal
                &&& value is Boolean ==> field.typ is Boolean
                &&& value is Document ==> field.typ is Json
                &&& value is Binary ==> field.typ is Binary
                &&& value is Timestamp ==> field.typ is Timestamp
                &&& value is String || value is ObjectId || value is Null ==> field.typ is String
            },
{
    assert(schema@.primary_index.len() == 0);
    assert(schema@.fields.len() == inferred_schema(doc).fields.len());
    assert forall|i: int| 0 <= i < doc.entries@.len() implies (#[trigger] schema.fields@[i])@
        == inferred_schema(doc).fields[i] by {
        assert(schema@.fields[i] == inferred_schema(doc).fields[i]);
    }
}

/// One more entry of a document gives one more field, at the end, and leaves the others as they
/// are, both in the inferred schema and in the fields of the document.
pub proof fn law_entries_are_taken_in_order(doc: Document, longer: Document, entry: (String, Bson))
    requires
        longer.entries@ == doc.entries@.push(entry),
    ensures
        fields_of(longer) == fields_of(doc).push(field_of(entry.1)),
        inferred_schema(longer).fields.drop_last() == inferred_schema(doc).fields,
        inferred_schema(longer).fields.len() == doc.entries@.len() + 1,
        inferred_schema(longer).fields.last().name == entry.0@,
        inferred_schema(longer).fields.last().typ == dtype_of(entry.1),
{
    assert(fields_of(longer) =~= fields_of(doc).push(field_of(entry.1)));
    assert(inferred_schema(longer).fields.drop_last() =~= inferred_schema(doc).fields);
}

/// The first value without a type, or without a field, is one, and those before it are none.
pub proof fn law_first_unsupported_values(doc: Document, index: usize)
    ensures
        lacks_dtype_first_at(doc, index) <==> {
            &&& index < doc.entries@.len()
            &&& doc.entries@[index as int].1 is Array || doc.entries@[index as int].1 is DateTime
            &&& forall|i: int|
                0 <= i < index ==> (#[trigger] doc.entries@[i]).1 !is Array && doc.entries@[i].1
                    !is DateTime
        },
        lacks_field_first_at(doc, index) <==> {
            &&& index < doc.entries@.len()
            &&& !has_field(doc.entries@[index as int].1)
            &&& forall|i: int| 0 <= i < index ==> has_field((#[trigger] doc.entries@[i]).1)
        },
        doc.has_dtypes() <==> forall|i: int|
            0 <= i < doc.entries@.len() ==> (#[trigger] doc.entries@[i]).1 !is Array
                && doc.entries@[i].1 !is DateTime,
        doc.has_fields() <==> forall|i: int|
            0 <= i < doc.entries@.len() ==> has_field((#[trigger] doc.entries@[i]).1),
{
}

/// A field holds a value: the same number, truth, text or bytes, or a null for a null. An object id
/// is held as the hexadecimal digits of its bytes, two for each.
pub open spec fn holds_value(field: Field, value: Bson) -> bool {
    match (value, field) {
        (Bson::Int32(number), Field::Int(held)) => held == number,
        (Bson::Int64(number), Field::Int(held)) => held == number,
        (Bson::Double(bits), Field::Float(held)) => held == bits,
        (Bson::Boolean(truth), Field::Boolean(held)) => held == truth,
        (Bson::String(text), Field::String(held)) => held@ == text@,
        (Bson::JavaScriptCode(code), Field::String(held)) => held@ == code@,
        (Bson::Binary(bytes), Field::Binary(held)) => held@ == bytes@,
        (Bson::Null, Field::Null) => true,
        (Bson::ObjectId(id), Field::String(held)) => is_hex_of(held@, id@),
        _ => false,
    }
}

/// The digits are those of the bytes, two for each.
pub open spec fn is_hex_of(digits: Seq<char>, bytes: Seq<u8>) -> bool {
    &&& digits.len() == 2 * bytes.len()
    &&& forall|i: int|
        0 <= i < bytes.len() ==> #[trigger] bytes[i] == 16 * digit_value(digits[2 * i])
            + digit_value(digits[2 * i + 1])
}

/// Where a value can be put into a field, the field that it is put into holds it.
pub proof fn law_values_are_held(value: Bson, field: Field)
    requires
        has_field(value),
        field@ == field_of(value),
    ensures
        holds_value(field, value),
{
    law_fields_hold_their_values(value, field);
    if let Bson::ObjectId(id) = value {
        law_object_ids_can_be_read_off(id, field->String_0@);
    }
}

} // verus!

//! The records and schemas that flow through a pipeline.

use vstd::prelude::*;

verus! {

/// The type of a field.
#[derive(Clone, Copy, Debug, PartialEq, Eq, Structural)]
pub enum FieldType {
    Int,
    Float,
    Decimal,
    Boolean,
    String,
    Binary,
    Json,
    Timestamp,
}

/// Where a field of a schema comes from.
#[derive(Clone, Copy, Debug, PartialEq, Eq, Structural)]
pub enum SourceDefinition {
    Dynamic,
}

/// Identifies a schema and its version.
#[derive(Clone, Copy, Debug, PartialEq, Eq, Structural)]
pub struct SchemaIdentifier {
    pub id: u32,
    pub version: u16,
}

/// A field of a schema.
#[derive(Debug, PartialEq, Eq)]
pub struct FieldDefinition {
    pub name: String,
    pub typ: FieldType,
    pub nullable: bool,
    pub source: SourceDefinition,
}

/// A field of a schema, with its name as a sequence of characters.
pub struct FieldDefinitionView {
    pub name: Seq<char>,
    pub typ: FieldType,
    pub nullable: bool,
    pub source: SourceDefinition,
}

impl View for FieldDefinition {
    type V = FieldDefinitionView;

    open spec fn view(&self) -> FieldDefinitionView {
        FieldDefinitionView {
            name: self.name@,
            typ: self.typ,
            nullable: self.nullable,
            source: self.source,
        }
    }
}

impl Clone for FieldDefinition {
    fn clone(&self) -> (copy: Self)
        ensures
            copy@ == self@,
    {
        FieldDefinition {
            name: self.name.clone(),
            typ: self.typ,
            nullable: self.nullable,
            source: self.source,
        }
    }
}

/// The fields of a record, and which of them make up its primary key.
#[derive(Debug, PartialEq, Eq)]
pub struct Schema {
    pub identifier: Option<SchemaIdentifier>,
    pub fields: Vec<FieldDefinition>,
    pub primary_index: Vec<usize>,
}

/// What a schema says, apart from how it is stored.
#[verifier::ext_equal]
pub struct SchemaView {
    pub identifier: Option<SchemaIdentifier>,
    pub fields: Seq<FieldDefinitionView>,
    pub primary_index: Seq<usize>,
}

impl View for Schema {
    type V = SchemaView;

    open spec fn view(&self) -> SchemaView {
        SchemaView {
            identifier: self.identifier,
            fields: self.fields@.map_values(|field: FieldDefinition| field@),
            primary_index: self.primary_index@,
        }
    }
}

impl Clone for Schema {
    fn clone(&self) -> (copy: Self)
        ensures
            copy@ == self@,
    {
        let copy = Schema {
            identifier: self.identifier,
            fields: self.fields.clone(),
            primary_index: self.primary_index.clone(),
        };
        assert(copy@.fields =~= self@.fields);
        assert(copy@.primary_index =~= self@.primary_index);
        copy
    }
}

/// The value of a field. A float is held by its bits.
#[derive(Debug, PartialEq, Eq)]
pub enum Field {
    Int(i64),
    Float(u64),
    Boolean(bool),
    String(String),
    Binary(Vec<u8>),
    Null,
}

/// What a field holds, apart from how it is stored.
pub enum FieldView {
    Int(i64),
    Float(u64),
    Boolean(bool),
    String(Seq<char>),
    Binary(Seq<u8>),
    Null,
}

impl View for Field {
    type V = FieldView;

    open spec fn view(&self) -> FieldView {
        match self {
            Field::Int(value) => FieldView::Int(*value),
            Field::Float(bits) => FieldView::Float(*bits),
            Field::Boolean(value) => FieldView::Boolean(*value),
            Field::String(text) => FieldView::String(text@),
            Field::Binary(bytes) => FieldView::Binary(bytes@),
            Field::Null => FieldView::Null,
        }
    }
}

/// When a record expires: so many milliseconds after a moment, which is given in milliseconds
/// since the Unix epoch.
#[derive(Clone, Copy, Debug, PartialEq, Eq, Structural)]
pub struct Lifetime {
    pub reference: i64,
    pub duration: u64,
}

/// A row of values.
#[derive(Debug, PartialEq, Eq)]
pub struct Record {
    pub schema_id: Option<SchemaIdentifier>,
    pub values: Vec<Field>,
    pub lifetime: Option<Lifetime>,
}

/// What a record holds, apart from how it is stored.
#[verifier::ext_equal]
pub struct RecordView {
    pub schema_id: Option<SchemaIdentifier>,
    pub values: Seq<FieldView>,
    pub lifetime: Option<Lifetime>,
}

impl View for Record {
    type V = RecordView;

    open spec fn view(&self) -> RecordView {
        RecordView {
            schema_id: self.schema_id,
            values: self.values@.map_values(|field: Field| field@),
            lifetime: self.lifetime,
        }
    }
}

/// A change to a table.
#[derive(Debug, PartialEq, Eq)]
pub enum Operation {
    Insert { new: Record },
    Update { old: Record, new: Record },
    Delete { old: Record },
}

/// What a change holds, apart from how it is stored.
pub enum OperationView {
    Insert { new: RecordView },
    Update { old: RecordView, new: RecordView },
    Delete { old: RecordView },
}

impl View for Operation {
    type V = OperationView;

    open spec fn view(&self) -> OperationView {
        match self {
            Operation::Insert { new } => OperationView::Insert { new: new@ },
            Operation::Update { old, new } => OperationView::Update { old: old@, new: new@ },
            Operation::Delete { old } => OperationView::Delete { old: old@ },
        }
    }
}

/// Two schemas that say the same have the same identifier, the same fields, each with the same
/// name, type, nullability and source, and the same primary key.
pub proof fn law_schemas_that_say_the_same(a: Schema, b: Schema)
    requires
        a@ == b@,
    ensures
        a.identifier == b.identifier,
        a.primary_index@ == b.primary_index@,
        a.fields@.len() == b.fields@.len(),
        forall|i: int|
            0 <= i < a.fields@.len() ==> {
                &&& (#[trigger] a.fields@[i]).name@ == b.fields@[i].name@
                &&& a.fields@[i].typ == b.fields@[i].typ
                &&& a.fields@[i].nullable == b.fields@[i].nullable
                &&& a.fields@[i].source == b.fields@[i].source
            },
{
    let of_a = a.fields@.map_values(|field: FieldDefinition| field@);
    let of_b = b.fields@.map_values(|field: FieldDefinition| field@);
    assert(a@.fields == of_a && b@.fields == of_b);
    assert(of_a.len() == a.fields@.len() && of_b.len() == b.fields@.len());
    assert forall|i: int| 0 <= i < a.fields@.len() implies (#[trigger] a.fields@[i])@
        == b.fields@[i]@ by {
        assert(of_a[i] == a.fields@[i]@ && of_b[i] == b.fields@[i]@);
    }
}

/// Two fields that hold the same hold it in the same way: numbers are equal, texts have the same
/// characters and binaries the same bytes.
pub proof fn law_fields_that_hold_the_same(a: Field, b: Field)
    ensures
        a@ == b@ <==> match (a, b) {
            (Field::Int(x), Field::Int(y)) => x == y,
            (Field::Float(x), Field::Float(y)) => x == y,
            (Field::Boolean(x), Field::Boolean(y)) => x == y,
            (Field::String(x), Field::String(y)) => x@ == y@,
            (Field::Binary(x), Field::Binary(y)) => x@ == y@,
            (Field::Null, Field::Null) => true,
            _ => false,
        },
{
}

} // verus!

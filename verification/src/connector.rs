//! The MongoDB connector: from its configuration to the messages that it ingests.

use vstd::prelude::*;

use crate::schema_inference::{
    doc_to_flds, dtype_of, field_of, fields_of, has_dtype, has_field, infer_schema,
    inferred_schema, lacks_field_first_at, law_inferred_fields, Document,
};
use crate::types::{Field, Operation, OperationView, Record, RecordView, Schema, SchemaView};

verus! {

/// Where a MongoDB database is.
#[derive(Clone, Debug, PartialEq, Eq)]
pub struct Config {
    pub host: String,
    pub port: u32,
    pub database: String,
}

/// The configuration of a connector.
#[derive(Clone, Debug, PartialEq, Eq)]
pub struct MongoConfig {
    pub name: String,
    pub config: Config,
}

/// The options that a client is made with.
#[derive(Debug, PartialEq, Eq)]
pub struct ClientSettings {
    pub app_name: String,
    pub host: String,
    pub port: u16,
    pub default_database: String,
}

/// The options of the client of a connector. Of the port, the low sixteen bits count.
pub fn client_settings(config: MongoConfig) -> (settings: ClientSettings)
    ensures
        settings.app_name == config.name,
        settings.host == config.config.host,
        settings.port as int == config.config.port as int % 0x1_0000,
        settings.default_database == config.config.database,
{
    let port: u32 = config.config.port;
    assert(port as u16 == port % 0x1_0000) by (bit_vector);
    ClientSettings {
        app_name: config.name,
        host: config.config.host,
        port: #[verifier::truncate] (port as u16),
        default_database: config.config.database,
    }
}

/// Names a table.
#[derive(Debug, PartialEq, Eq)]
pub struct TableIdentifier {
    pub schema: Option<String>,
    pub name: String,
}

/// The tables of a database: its collections, which belong to no schema.
pub fn table_identifiers(names: Vec<String>) -> (tables: Vec<TableIdentifier>)
    ensures
        tables@ == names@.map_values(|name: String| TableIdentifier { schema: None, name }),
{
    let mut tables: Vec<TableIdentifier> = Vec::new();
    let mut i: usize = 0;
    while i < names.len()
        invariant
            i <= names@.len(),
            tables@.len() == i,
            forall|j: int|
                0 <= j < i ==> #[trigger] tables@[j] == (TableIdentifier {
                    schema: None,
                    name: names@[j],
                }),
        decreases names.len() - i,
    {
        tables.push(TableIdentifier { schema: None, name: names[i].clone() });
        i += 1;
    }
    assert(tables@ =~= names@.map_values(|name: String| TableIdentifier { schema: None, name }));
    tables
}

/// Which changes of a table its source reports.
#[derive(Clone, Copy, Debug, PartialEq, Eq, Structural)]
pub enum CdcType {
    FullChanges,
    OnlyPK,
    Nothing,
}

/// The schema of a table, and which changes of it are reported.
#[derive(Debug, PartialEq, Eq)]
pub struct SourceSchema {
    pub schema: Schema,
    pub cdc_type: CdcType,
}

/// The schema of a table from a document of it, if the table has one.
pub open spec fn sampled_schema() -> spec_fn(Option<Document>) -> Option<SchemaView> {
    |sample: Option<Document>|
        match sample {
            Some(doc) => Some(inferred_schema(doc)),
            None => None,
        }
}

/// The schemas of tables, each from the first document sampled from it. A table without documents
/// has none.
pub fn get_schemas(samples: &Vec<Option<Document>>) -> (schemas: Vec<SourceSchema>)
    requires
        forall|i: int|
            0 <= i < samples@.len() ==> ((#[trigger] samples@[i]) matches Some(doc)
                ==> doc.has_dtypes()),
    ensures
        schemas@.map_values(|source: SourceSchema| source.schema@) == samples@.filter_map(
            sampled_schema(),
        ),
        forall|i: int|
            0 <= i < schemas@.len() ==> (#[trigger] schemas@[i]).cdc_type == CdcType::Nothing,
{
    let ghost view = |source: SourceSchema| source.schema@;
    let mut schemas: Vec<SourceSchema> = Vec::new();
    let mut i: usize = 0;
    proof {
        reveal(Seq::filter_map);
        assert(samples@.take(0) =~= Seq::empty());
        assert(schemas@.map_values(view) =~= samples@.take(0).filter_map(sampled_schema()));
    }
    while i < samples.len()
        invariant
            forall|j: int|
                0 <= j < samples@.len() ==> ((#[trigger] samples@[j]) matches Some(doc)
                    ==> doc.has_dtypes()),
            i <= samples@.len(),
            view == (|source: SourceSchema| source.schema@),
            schemas@.map_values(view) == samples@.take(i as int).filter_map(sampled_schema()),
            forall|j: int|
                0 <= j < schemas@.len() ==> (#[trigger] schemas@[j]).cdc_type == CdcType::Nothing,
        decreases samples.len() - i,
    {
        let ghost before = schemas@;
        proof {
            samples@.lemma_filter_map_take_succ(sampled_schema(), i as int);
        }
        if let Some(doc) = &samples[i] {
            schemas.push(SourceSchema { schema: infer_schema(doc), cdc_type: CdcType::Nothing });
            assert(schemas@.map_values(view) =~= before.map_values(view).push(
                inferred_schema(*doc),
            ));
        }
        i += 1;
    }
    assert(samples@.take(samples@.len() as int) =~= samples@);
    schemas
}

/// What happened to a document.
#[derive(Clone, Copy, Debug, PartialEq, Eq, Structural)]
pub enum OperationType {
    Insert,
    Update,
    Replace,
    Delete,
    Other,
}

/// An event of a change stream: what happened, and the document after and before it.
#[derive(Debug, PartialEq, Eq)]
pub struct ChangeEvent {
    pub operation_type: OperationType,
    pub full_document: Option<Document>,
    pub full_document_before_change: Option<Document>,
}

/// The document is there, and every value of it can be put into a field.
pub open spec fn has_record(doc: Option<Document>) -> bool {
    doc is Some && doc->Some_0.has_fields()
}

/// Why an event cannot be turned into an operation.
#[derive(Clone, Copy, Debug, PartialEq, Eq, Structural)]
pub enum UnsupportedChange {
    /// The event does not bring the document.
    NoDocument,
    /// The value at this place of the document cannot be put into a field.
    Value(usize),
    /// Changes of this type are not known.
    OperationType,
    /// The event does not bring the document before the change.
    NoDocumentBeforeChange,
    /// The value at this place of the document before the change cannot be put into a field.
    ValueBeforeChange(usize),
}

impl ChangeEvent {
    /// The event can be turned into an operation: it is an insert, an update or a delete, and
    /// brings the documents that this takes.
    pub open spec fn is_supported(&self) -> bool {
        &&& has_record(self.full_document)
        &&& match self.operation_type {
            OperationType::Insert | OperationType::Delete => true,
            OperationType::Update => has_record(self.full_document_before_change),
            OperationType::Replace | OperationType::Other => false,
        }
    }
}

impl ChangeEvent {
    /// Checks that the event can be turned into an operation. The document is looked at first,
    /// then the type of the change, then the document before the change.
    pub fn check_supported(&self) -> (result: Result<(), UnsupportedChange>)
        ensures
            result is Ok <==> self.is_supported(),
            result matches Err(reason) ==> match reason {
                UnsupportedChange::NoDocument => self.full_document is None,
                UnsupportedChange::Value(index) => self.full_document is Some
                    && lacks_field_first_at(self.full_document->Some_0, index),
                UnsupportedChange::OperationType => has_record(self.full_document) && (
                self.operation_type is Replace || self.operation_type is Other),
                UnsupportedChange::NoDocumentBeforeChange => has_record(self.full_document)
                    && self.operation_type is Update && self.full_document_before_change is None,
                UnsupportedChange::ValueBeforeChange(index) => has_record(self.full_document)
                    && self.operation_type is Update && self.full_document_before_change is Some
                    && lacks_field_first_at(self.full_document_before_change->Some_0, index),
            },
    {
        match &self.full_document {
            None => {
                return Err(UnsupportedChange::NoDocument);
            },
            Some(doc) => {
                if let Some(index) = doc.first_without_field() {
                    return Err(UnsupportedChange::Value(index));
                }
            },
        }
        match self.operation_type {
            OperationType::Insert | OperationType::Delete => Ok(()),
            OperationType::Update => match &self.full_document_before_change {
                None => Err(UnsupportedChange::NoDocumentBeforeChange),
                Some(doc) => match doc.first_without_field() {
                    Some(index) => Err(UnsupportedChange::ValueBeforeChange(index)),
                    None => Ok(()),
                },
            },
            OperationType::Replace | OperationType::Other => Err(UnsupportedChange::OperationType),
        }
    }
}

/// The record of a document. It has no schema and no lifetime.
pub open spec fn record_of(doc: Document) -> RecordView {
    RecordView { schema_id: None, values: fields_of(doc), lifetime: None }
}

/// The operation that an event stands for. The document of a delete is the one that it brings.
pub open spec fn operation_of(event: ChangeEvent) -> OperationView {
    let record = record_of(event.full_document->Some_0);
    match event.operation_type {
        OperationType::Insert => OperationView::Insert { new: record },
        OperationType::Update => OperationView::Update {
            old: record_of(event.full_document_before_change->Some_0),
            new: record,
        },
        _ => OperationView::Delete { old: record },
    }
}

/// The record of a document.
fn doc_to_record(doc: &Document) -> (record: Record)
    requires
        doc.has_fields(),
    ensures
        record@ == record_of(*doc),
{
    let record = Record { schema_id: None, values: doc_to_flds(doc), lifetime: None };
    assert(record@.values =~= fields_of(*doc));
    record
}

/// The operation that an event stands for.
pub fn event_to_operation(event: &ChangeEvent) -> (operation: Operation)
    requires
        event.is_supported(),
    ensures
        operation@ == operation_of(*event),
{
    let record = doc_to_record(event.full_document.as_ref().unwrap());
    match event.operation_type {
        OperationType::Insert => Operation::Insert { new: record },
        OperationType::Update => {
            let old = doc_to_record(event.full_document_before_change.as_ref().unwrap());
            Operation::Update { old, new: record }
        },
        _ => Operation::Delete { old: record },
    }
}

/// Identifies an operation: its transaction and its place in it.
#[derive(Clone, Copy, Debug, PartialEq, Eq, Structural)]
pub struct OpIdentifier {
    pub txid: u64,
    pub seq_in_tx: u64,
}

/// A message to be ingested.
#[derive(Debug, PartialEq, Eq)]
pub struct IngestionMessage {
    pub identifier: OpIdentifier,
    pub operation: Operation,
}

impl IngestionMessage {
    /// The message of an operation.
    pub fn new_op(txid: u64, seq_in_tx: u64, operation: Operation) -> (message: Self)
        ensures
            message == (IngestionMessage {
                identifier: OpIdentifier { txid, seq_in_tx },
                operation,
            }),
    {
        IngestionMessage { identifier: OpIdentifier { txid, seq_in_tx }, operation }
    }
}

/// The message of an event. All messages are of one transaction and at one place in it.
pub fn event_to_message(event: &ChangeEvent) -> (message: IngestionMessage)
    requires
        event.is_supported(),
    ensures
        message.identifier == (OpIdentifier { txid: 0, seq_in_tx: 0 }),
        message.operation@ == operation_of(*event),
{
    IngestionMessage::new_op(0, 0, event_to_operation(event))
}

/// A record holds the values of its document, one by one and in their order, so that they line up
/// with the fields of the schema that is inferred from the document: each is null or of the type of
/// its field.
pub proof fn law_records_line_up_with_the_schema(doc: Document, record: Record, schema: Schema)
    requires
        doc.has_fields(),
        doc.has_dtypes(),
        record@ == record_of(doc),
        schema@ == inferred_schema(doc),
    ensures
        record.schema_id is None,
        record.lifetime is None,
        record.values@.len() == doc.entries@.len(),
        record.values@.len() == schema.fields@.len(),
        forall|i: int|
            0 <= i < doc.entries@.len() ==> {
                let value = doc.entries@[i].1;
                let typ = schema.fields@[i].typ;
                &&& (#[trigger] record.values@[i])@ == field_of(value)
                &&& schema.fields@[i].name@ == doc.entries@[i].0@
                &&& match record.values@[i] {
                    Field::Int(_) => typ is Int,
                    Field::Float(_) => typ is Float,
                    Field::Boolean(_) => typ is Boolean,
                    Field::String(_) => typ is String,
                    Field::Binary(_) => typ is Binary,
                    Field::Null => value is Null,
                }
            },
{
    lemma_record_values(doc, record);
    law_inferred_fields(doc, schema);
    assert forall|i: int| 0 <= i < doc.entries@.len() implies {
        let value = doc.entries@[i].1;
        let typ = schema.fields@[i].typ;
        &&& (#[trigger] record.values@[i])@ == field_of(value)
        &&& schema.fields@[i].name@ == doc.entries@[i].0@
        &&& match record.values@[i] {
            Field::Int(_) => typ is Int,
            Field::Float(_) => typ is Float,
            Field::Boolean(_) => typ is Boolean,
            Field::String(_) => typ is String,
            Field::Binary(_) => typ is Binary,
            Field::Null => value is Null,
        }
    } by {
        let value = doc.entries@[i].1;
        assert(has_field(value));
        assert(schema.fields@[i].typ == dtype_of(value)) by {
            assert(has_dtype(value));
        }
    }
}

/// The values of the record of a document are those of its entries, in their order.
proof fn lemma_record_values(doc: Document, record: Record)
    requires
        record@ == record_of(doc),
    ensures
        record.schema_id is None,
        record.lifetime is None,
        record.values@.len() == doc.entries@.len(),
        forall|i: int|
            0 <= i < doc.entries@.len() ==> (#[trigger] record.values@[i])@ == field_of(
                doc.entries@[i].1,
            ),
{
    assert(record@.values.len() == fields_of(doc).len());
    assert forall|i: int| 0 <= i < doc.entries@.len() implies (#[trigger] record.values@[i])@
        == field_of(doc.entries@[i].1) by {
        assert(record@.values[i] == fields_of(doc)[i]);
    }
}

/// An insert or a delete stands for an operation of the same sort, and an update for an update. The
/// record that an operation brings or takes away holds the values of the document that the event
/// brings, each at the place of its entry; the old record of an update holds those of the document
/// before the change.
pub proof fn law_operations_hold_the_documents(event: ChangeEvent, operation: Operation)
    requires
        event.is_supported(),
        operation@ == operation_of(event),
    ensures
        event.full_document is Some,
        event.operation_type is Insert <==> operation is Insert,
        event.operation_type is Update <==> operation is Update,
        event.operation_type is Delete <==> operation is Delete,
        operation matches Operation::Insert { new } ==> {
            let doc = event.full_document->Some_0;
            &&& new.schema_id is None
            &&& new.lifetime is None
            &&& new.values@.len() == doc.entries@.len()
            &&& forall|i: int|
                0 <= i < doc.entries@.len() ==> (#[trigger] new.values@[i])@ == field_of(
                    doc.entries@[i].1,
                )
        },
        operation matches Operation::Delete { old } ==> {
            let doc = event.full_document->Some_0;
            &&& old.schema_id is None
            &&& old.lifetime is None
            &&& old.values@.len() == doc.entries@.len()
            &&& forall|i: int|
                0 <= i < doc.entries@.len() ==> (#[trigger] old.values@[i])@ == field_of(
                    doc.entries@[i].1,
                )
        },
        operation matches Operation::Update { new, .. } ==> {
            let doc = event.full_document->Some_0;
            &&& new.schema_id is None
            &&& new.lifetime is None
            &&& new.values@.len() == doc.entries@.len()
            &&& forall|i: int|
                0 <= i < doc.entries@.len() ==> (#[trigger] new.values@[i])@ == field_of(
                    doc.entries@[i].1,
                )
        },
        operation matches Operation::Update { old, .. } ==> {
            let doc = event.full_document_before_change->Some_0;
            &&& event.full_document_before_change is Some
            &&& old.schema_id is None
            &&& old.lifetime is None
            &&& old.values@.len() == doc.entries@.len()
            &&& forall|i: int|
                0 <= i < doc.entries@.len() ==> (#[trigger] old.values@[i])@ == field_of(
                    doc.entries@[i].1,
                )
        },
{
    let doc = event.full_document->Some_0;
    match operation {
        Operation::Insert { new } => {
            lemma_record_values(doc, new);
        },
        Operation::Update { old, new } => {
            lemma_record_values(doc, new);
            lemma_record_values(event.full_document_before_change->Some_0, old);
        },
        Operation::Delete { old } => {
            lemma_record_values(doc, old);
        },
    }
}

/// Which events can be turned into an operation: inserts, updates and deletes that bring the
/// document, and for an update also the one before the change, all of whose values can be put into
/// fields.
pub proof fn law_supported_events(event: ChangeEvent)
    ensures
        event.is_supported() <==> {
            &&& event.full_document matches Some(doc) && forall|i: int|
                0 <= i < doc.entries@.len() ==> has_field((#[trigger] doc.entries@[i]).1)
            &&& event.operation_type is Insert || event.operation_type is Update
                || event.operation_type is Delete
            &&& event.operation_type is Update ==> (event.full_document_before_change matches Some(
                doc,
            ) && forall|i: int|
                0 <= i < doc.entries@.len() ==> has_field((#[trigger] doc.entries@[i]).1))
        },
{
}

/// Each table with a document gives one schema more, at the end, which is inferred from that
/// document; a table without documents gives none; no table gives none.
pub proof fn law_schemas_come_in_the_order_of_the_tables(
    samples: Seq<Option<Document>>,
    doc: Document,
)
    ensures
        Seq::<Option<Document>>::empty().filter_map(sampled_schema()).len() == 0,
        samples.push(None).filter_map(sampled_schema()) == samples.filter_map(sampled_schema()),
        samples.push(Some(doc)).filter_map(sampled_schema()) == samples.filter_map(
            sampled_schema(),
        ).push(inferred_schema(doc)),
{
    reveal(Seq::filter_map);
    let with = samples.push(Some(doc));
    let without = samples.push(None);
    assert(with.drop_last() =~= samples);
    assert(without.drop_last() =~= samples);
}

} // verus!

//! What callers get: the results of the functions of the library, in terms of what was handed to
//! them.

use std::collections::HashMap;
use vstd::hash_map::StringHashMap;
use vstd::hash_set::StringHashSet;
use vstd::prelude::*;

use crate::connectivity::{is_connectivity_error, validate_connectivity};
use crate::connector::{
    client_settings, event_to_message, event_to_operation, get_schemas,
    law_operations_hold_the_documents, law_supported_events, operation_of, sampled_schema,
    table_identifiers, ChangeEvent, ClientSettings, IngestionMessage, MongoConfig, SourceSchema,
    TableIdentifier, UnsupportedChange,
};
use crate::dag::{Dag, EdgeType as DagEdgeType};
use crate::dag_schemas::{
    are_input_schemas, are_sink_schemas, is_sink, is_sink_entry, source_ids, DagHaveSchemas,
    DagSchemas, EdgeType, NodeSchemas,
};
use crate::errors::{ConnectivityError, ExecutionError};
use crate::graph::{CycleError, Graph};
use crate::index_run::{IndexAction, IndexEvent, IndexPhase, IndexRun, Operation as LogOperation};
use crate::meaning::{
    edges_ending_at, law_connectivity_errors, law_first_ports, law_gathered_inputs,
    law_input_schemas, law_output_schemas, law_reaching_goes_along_arcs,
    law_reported_duplicate_inputs,
    law_reported_missing_inputs, law_sinks_report_their_default_input,
    law_what_a_populated_pipeline_carries, law_what_connected_means, law_what_fed_means,
    law_why_a_population_stops,
};
use crate::node::{
    NodeKind, NodeType, OutputPortDef, OutputPortType, PortHandle, DEFAULT_PORT_HANDLE,
};
use crate::populate::{
    create_edge, find_output_port_def, is_first_port, populate_schemas, population_stops,
    port_is_fed, port_is_fed_twice, validate_input_schemas, Population,
};
use crate::reach::{precedes, reaches};
use crate::schema_inference::{
    doc_to_flds, field_of, has_field, holds_value, infer_schema, inferred_schema, law_field_types,
    law_first_unsupported_values, law_inferred_fields, law_values_are_held, value_to_dtype, Bson,
    Document,
};
use crate::secondary_environment::{
    comparator_fields, get_cache_options, law_opening_for_reading, law_opening_for_writing,
    law_parts_and_labels, law_same_definitions, open_readable, open_writable, CacheError,
    CacheOptions, IndexDefinition, WritableIndex,
};
use crate::types::{
    law_schemas_that_say_the_same, Field, FieldType, Operation, Record, Schema, SchemaIdentifier,
};

verus! {

// ---- The MongoDB connector ----

/// A client is made with the name, the host and the database of the configuration, and with the low
/// sixteen bits of its port.
pub proof fn law_client_settings(config: MongoConfig, settings: ClientSettings)
    requires
        call_ensures(client_settings, (config,), settings),
    ensures
        settings.app_name@ == config.name@,
        settings.host@ == config.config.host@,
        settings.default_database@ == config.config.database@,
        settings.port as int == config.config.port as int % 0x1_0000,
{
}

/// There is one table for each collection, in their order, of the name of the collection and of no
/// schema.
pub proof fn law_table_identifiers(names: Vec<String>, tables: Vec<TableIdentifier>)
    requires
        call_ensures(table_identifiers, (names,), tables),
    ensures
        tables@.len() == names@.len(),
        forall|i: int|
            0 <= i < names@.len() ==> (#[trigger] tables@[i]).name@ == names@[i]@
                && tables@[i].schema is None,
{
}

/// The type of a value is that of its kind.
pub proof fn law_value_to_dtype(value: &Bson, dtype: FieldType)
    requires
        call_ensures(value_to_dtype, (value,), dtype),
        *value !is Array,
        *value !is DateTime,
    ensures
        dtype is Int <==> *value is Int32 || *value is Int64,
        dtype is Float <==> *value is Double,
        dtype is Decimal <==> *value is Decimal128,
        dtype is Boolean <==> *value is Boolean,
        dtype is Json <==> *value is Document,
        dtype is Binary <==> *value is Binary,
        dtype is Timestamp <==> *value is Timestamp,
        *value is String || *value is ObjectId || *value is Null || *value is Symbol ==> dtype
            is String,
{
    law_field_types(*value);
}

/// The type that a schema gives a field is the one that the value of the field gets by itself.
pub proof fn law_types_of_schemas_are_types_of_values(
    doc: &Document,
    schema: Schema,
    i: int,
    value: &Bson,
    dtype: FieldType,
)
    requires
        call_ensures(infer_schema, (doc,), schema),
        call_ensures(value_to_dtype, (value,), dtype),
        0 <= i < doc.entries@.len(),
        *value == doc.entries@[i].1,
        *value !is Array,
        *value !is DateTime,
    ensures
        schema.fields@[i].typ == dtype,
{
    law_field_types(*value);
    law_inferred_fields(*doc, schema);
}

/// The schema of a document has one nullable field for each entry, in their order, of the key of the
/// entry and of the type of the kind of its value, and no primary key.
pub proof fn law_infer_schema(doc: &Document, schema: Schema)
    requires
        call_ensures(infer_schema, (doc,), schema),
    ensures
        schema.identifier == Some(SchemaIdentifier { id: 0, version: 1 }),
        schema.primary_index@.len() == 0,
        schema.fields@.len() == doc.entries@.len(),
        forall|i: int|
            0 <= i < doc.entries@.len() ==> {
                let field = #[trigger] schema.fields@[i];
                let value = doc.entries@[i].1;
                &&& field.name@ == doc.entries@[i].0@
                &&& field.nullable
                &&& value is Int32 || value is Int64 ==> field.typ is Int
                &&& value is Double ==> field.typ is Float
                &&& value is Decimal128 ==> field.typ is Decimal
                &&& value is Boolean ==> field.typ is Boolean
                &&& value is Document ==> field.typ is Json
                &&& value is Binary ==> field.typ is Binary
                &&& value is Timestamp ==> field.typ is Timestamp
                &&& value is String || value is ObjectId || value is Null || value is Symbol || value
                    is JavaScriptCode ==> field.typ is String
            },
{
    law_inferred_fields(*doc, schema);
    assert forall|i: int|
        0 <= i < doc.entries@.len() && doc.entries@[i].1 !is Array && doc.entries@[i].1
            !is DateTime implies (#[trigger] schema.fields@[i]).typ is String
        || doc.entries@[i].1 !is JavaScriptCode && doc.entries@[i].1 !is Symbol by {
        law_field_types(doc.entries@[i].1);
    }
}

/// The fields of a document hold its values, one each, in their order.
pub proof fn law_doc_to_flds(doc: &Document, fields: Vec<Field>)
    requires
        call_ensures(doc_to_flds, (doc,), fields),
        doc.has_fields(),
    ensures
        fields@.len() == doc.entries@.len(),
        forall|i: int|
            0 <= i < fields@.len() ==> holds_value(#[trigger] fields@[i], doc.entries@[i].1),
{
    assert forall|i: int| 0 <= i < fields@.len() implies holds_value(
        #[trigger] fields@[i],
        doc.entries@[i].1,
    ) by {
        assert(has_field(doc.entries@[i].1));
        law_values_are_held(doc.entries@[i].1, fields@[i]);
    }
}

/// A value has a type unless it is an array or a date.
pub proof fn law_supports_dtype(value: &Bson, supported: bool)
    requires
        call_ensures(Bson::supports_dtype, (value,), supported),
    ensures
        supported <==> *value !is Array && *value !is DateTime,
{
}

/// Whether a value can be put into a field.
pub proof fn law_supports_field(value: &Bson, supported: bool)
    requires
        call_ensures(Bson::supports_field, (value,), supported),
    ensures
        supported <==> *value is Double || *value is String || *value is Boolean || *value is Null
            || *value is JavaScriptCode || *value is Int32 || *value is Int64 || *value is Binary
            || *value is ObjectId,
{
}

/// The first value without a type is an array or a date, and none before it is.
pub proof fn law_first_without_dtype(doc: &Document, found: Option<usize>)
    requires
        call_ensures(Document::first_without_dtype, (doc,), found),
    ensures
        found is None <==> forall|i: int|
            0 <= i < doc.entries@.len() ==> (#[trigger] doc.entries@[i]).1 !is Array
                && doc.entries@[i].1 !is DateTime,
        found matches Some(index) ==> {
            &&& index < doc.entries@.len()
            &&& doc.entries@[index as int].1 is Array || doc.entries@[index as int].1 is DateTime
            &&& forall|i: int|
                0 <= i < index ==> (#[trigger] doc.entries@[i]).1 !is Array && doc.entries@[i].1
                    !is DateTime
        },
{
    law_first_unsupported_values(*doc, if let Some(index) = found { index } else { 0 });
}

/// The first value that cannot be put into a field is such a one, and none before it is.
pub proof fn law_first_without_field(doc: &Document, found: Option<usize>)
    requires
        call_ensures(Document::first_without_field, (doc,), found),
    ensures
        found is None <==> forall|i: int|
            0 <= i < doc.entries@.len() ==> has_field((#[trigger] doc.entries@[i]).1),
        found matches Some(index) ==> {
            &&& index < doc.entries@.len()
            &&& !has_field(doc.entries@[index as int].1)
            &&& forall|i: int| 0 <= i < index ==> has_field((#[trigger] doc.entries@[i]).1)
        },
{
    law_first_unsupported_values(*doc, if let Some(index) = found { index } else { 0 });
}

/// The record holds the values of the document, one each, in their order, and nothing more is known
/// of it.
pub open spec fn holds_document(record: Record, doc: Document) -> bool {
    &&& record.schema_id is None
    &&& record.lifetime is None
    &&& record.values@.len() == doc.entries@.len()
    &&& forall|i: int|
        0 <= i < doc.entries@.len() ==> holds_value(#[trigger] record.values@[i], doc.entries@[i].1)
}

/// The operation of an insert brings the document of the event, that of a delete takes it away, and
/// that of an update puts it in the place of the document before the change.
pub proof fn law_event_to_operation(event: &ChangeEvent, operation: Operation)
    requires
        call_ensures(event_to_operation, (event,), operation),
        event.is_supported(),
    ensures
        event.operation_type is Insert <==> operation is Insert,
        event.operation_type is Update <==> operation is Update,
        event.operation_type is Delete <==> operation is Delete,
        match operation {
            Operation::Insert { new } => holds_document(new, event.full_document->Some_0),
            Operation::Update { old, new } => {
                &&& holds_document(new, event.full_document->Some_0)
                &&& holds_document(old, event.full_document_before_change->Some_0)
            },
            Operation::Delete { old } => holds_document(old, event.full_document->Some_0),
        },
{
    lemma_operation_holds_documents(*event, operation);
}

proof fn lemma_operation_holds_documents(event: ChangeEvent, operation: Operation)
    requires
        event.is_supported(),
        operation@ == operation_of(event),
    ensures
        event.operation_type is Insert <==> operation is Insert,
        event.operation_type is Update <==> operation is Update,
        event.operation_type is Delete <==> operation is Delete,
        match operation {
            Operation::Insert { new } => holds_document(new, event.full_document->Some_0),
            Operation::Update { old, new } => {
                &&& holds_document(new, event.full_document->Some_0)
                &&& holds_document(old, event.full_document_before_change->Some_0)
            },
            Operation::Delete { old } => holds_document(old, event.full_document->Some_0),
        },
{
    law_operations_hold_the_documents(event, operation);
    law_supported_events(event);
    let doc = event.full_document->Some_0;
    match operation {
        Operation::Insert { new } => {
            lemma_values_are_held(new, doc);
        },
        Operation::Update { old, new } => {
            lemma_values_are_held(new, doc);
            lemma_values_are_held(old, event.full_document_before_change->Some_0);
        },
        Operation::Delete { old } => {
            lemma_values_are_held(old, doc);
        },
    }
}

proof fn lemma_values_are_held(record: Record, doc: Document)
    requires
        record.schema_id is None,
        record.lifetime is None,
        record.values@.len() == doc.entries@.len(),
        forall|i: int|
            0 <= i < doc.entries@.len() ==> has_field((#[trigger] doc.entries@[i]).1),
        forall|i: int|
            0 <= i < doc.entries@.len() ==> (#[trigger] record.values@[i])@
                == field_of(doc.entries@[i].1),
    ensures
        holds_document(record, doc),
{
    assert forall|i: int| 0 <= i < doc.entries@.len() implies holds_value(
        #[trigger] record.values@[i],
        doc.entries@[i].1,
    ) by {
        assert(has_field(doc.entries@[i].1));
        law_values_are_held(doc.entries@[i].1, record.values@[i]);
    }
}

/// The message of an event is of the first transaction and holds the operation of the event.
pub proof fn law_event_to_message(event: &ChangeEvent, message: IngestionMessage)
    requires
        call_ensures(event_to_message, (event,), message),
        event.is_supported(),
    ensures
        message.identifier.txid == 0,
        message.identifier.seq_in_tx == 0,
        event.operation_type is Insert <==> message.operation is Insert,
        event.operation_type is Update <==> message.operation is Update,
        event.operation_type is Delete <==> message.operation is Delete,
        match message.operation {
            Operation::Insert { new } => holds_document(new, event.full_document->Some_0),
            Operation::Update { old, new } => {
                &&& holds_document(new, event.full_document->Some_0)
                &&& holds_document(old, event.full_document_before_change->Some_0)
            },
            Operation::Delete { old } => holds_document(old, event.full_document->Some_0),
        },
{
    lemma_operation_holds_documents(*event, message.operation);
}

/// An event passes exactly if it is an insert, an update or a delete that brings its documents, all
/// of whose values can be put into fields. Else the first thing that is wrong is reported: the
/// document, then the type of the change, then the document before the change.
pub proof fn law_check_supported(event: &ChangeEvent, result: Result<(), UnsupportedChange>)
    requires
        call_ensures(ChangeEvent::check_supported, (event,), result),
    ensures
        result is Ok <==> {
            &&& event.full_document matches Some(doc) && forall|i: int|
                0 <= i < doc.entries@.len() ==> has_field((#[trigger] doc.entries@[i]).1)
            &&& event.operation_type is Insert || event.operation_type is Update
                || event.operation_type is Delete
            &&& event.operation_type is Update ==> (event.full_document_before_change matches Some(
                doc,
            ) && forall|i: int|
                0 <= i < doc.entries@.len() ==> has_field((#[trigger] doc.entries@[i]).1))
        },
        event.full_document is None <==> result == Err::<(), _>(UnsupportedChange::NoDocument),
        result matches Err(UnsupportedChange::Value(index)) ==> {
            let doc = event.full_document->Some_0;
            &&& index < doc.entries@.len()
            &&& !has_field(doc.entries@[index as int].1)
            &&& forall|i: int| 0 <= i < index ==> has_field((#[trigger] doc.entries@[i]).1)
        },
        result matches Err(reason) && reason !is NoDocument && reason !is Value ==> {
            let doc = event.full_document->Some_0;
            forall|i: int|
                0 <= i < doc.entries@.len() ==> has_field((#[trigger] doc.entries@[i]).1)
        },
        result matches Err(UnsupportedChange::OperationType) ==> event.operation_type is Replace
            || event.operation_type is Other,
        result matches Err(UnsupportedChange::NoDocumentBeforeChange) ==> event.operation_type
            is Update && event.full_document_before_change is None,
        result matches Err(UnsupportedChange::ValueBeforeChange(index)) ==> {
            let doc = event.full_document_before_change->Some_0;
            &&& event.operation_type is Update
            &&& index < doc.entries@.len()
            &&& !has_field(doc.entries@[index as int].1)
            &&& forall|i: int| 0 <= i < index ==> has_field((#[trigger] doc.entries@[i]).1)
        },
{
    law_supported_events(*event);
}

/// The sampled documents, without the places of the tables that have none.
pub open spec fn documents(samples: Seq<Option<Document>>) -> Seq<Document>
    decreases samples.len(),
{
    if samples.len() == 0 {
        Seq::empty()
    } else {
        match samples.last() {
            Some(doc) => documents(samples.drop_last()).push(doc),
            None => documents(samples.drop_last()),
        }
    }
}

proof fn lemma_schemas_of_documents(samples: Seq<Option<Document>>)
    ensures
        samples.filter_map(sampled_schema()).len() == documents(samples).len(),
        forall|k: int|
            0 <= k < documents(samples).len() ==> #[trigger] samples.filter_map(
                sampled_schema(),
            )[k] == inferred_schema(documents(samples)[k]),
    decreases samples.len(),
{
    reveal(Seq::filter_map);
    if samples.len() > 0 {
        lemma_schemas_of_documents(samples.drop_last());
    }
}

/// There is one schema for each table that has a document, in the order of the tables, with a field
/// for each entry of the document, of its key and of the type of its value. No changes are
/// reported of any table.
pub proof fn law_get_schemas(samples: &Vec<Option<Document>>, schemas: Vec<SourceSchema>)
    requires
        call_ensures(get_schemas, (samples,), schemas),
    ensures
        schemas@.len() == documents(samples@).len(),
        forall|k: int|
            0 <= k < schemas@.len() ==> {
                let doc = documents(samples@)[k];
                let source = #[trigger] schemas@[k];
                &&& source.cdc_type is Nothing
                &&& source.schema.primary_index@.len() == 0
                &&& source.schema.fields@.len() == doc.entries@.len()
                &&& source.schema@ == inferred_schema(doc)
            },
        forall|k: int, i: int|
            0 <= k < schemas@.len() && 0 <= i < documents(samples@)[k].entries@.len() ==> {
                let value = documents(samples@)[k].entries@[i].1;
                let field = #[trigger] schemas@[k].schema.fields@[i];
                &&& field.name@ == documents(samples@)[k].entries@[i].0@
                &&& value is Document ==> field.typ is Json
                &&& value is Int32 || value is Int64 ==> field.typ is Int
                &&& value is Double ==> field.typ is Float
                &&& value is String ==> field.typ is String
            },
{
    lemma_schemas_of_documents(samples@);
    let views = schemas@.map_values(|source: SourceSchema| source.schema@);
    assert(views.len() == schemas@.len());
    assert forall|k: int| 0 <= k < schemas@.len() implies (#[trigger] schemas@[k]).schema@
        == inferred_schema(documents(samples@)[k]) by {
        assert(views[k] == schemas@[k].schema@);
        assert(samples@.filter_map(sampled_schema())[k] == inferred_schema(documents(samples@)[k]));
    }
    assert forall|k: int| 0 <= k < schemas@.len() implies {
        let doc = documents(samples@)[k];
        let source = #[trigger] schemas@[k];
        &&& source.schema.primary_index@.len() == 0
        &&& source.schema.fields@.len() == doc.entries@.len()
    } by {
        law_inferred_fields(documents(samples@)[k], schemas@[k].schema);
    }
    assert forall|k: int, i: int|
        0 <= k < schemas@.len() && 0 <= i < documents(samples@)[k].entries@.len() implies {
        let value = documents(samples@)[k].entries@[i].1;
        let field = #[trigger] schemas@[k].schema.fields@[i];
        &&& field.name@ == documents(samples@)[k].entries@[i].0@
        &&& value is Document ==> field.typ is Json
        &&& value is Int32 || value is Int64 ==> field.typ is Int
        &&& value is Double ==> field.typ is Float
        &&& value is String ==> field.typ is String
    } by {
        law_inferred_fields(documents(samples@)[k], schemas@[k].schema);
    }
}

// ---- Secondary indexes ----

/// Two definitions are found to be the same exactly if they are of one sort and on the same fields.
pub proof fn law_same_as(a: &IndexDefinition, b: &IndexDefinition, same: bool)
    requires
        call_ensures(IndexDefinition::same_as, (a, b), same),
    ensures
        same <==> match (*a, *b) {
            (IndexDefinition::SortedInverted(x), IndexDefinition::SortedInverted(y)) => x@ == y@,
            (IndexDefinition::FullText(x), IndexDefinition::FullText(y)) => x == y,
            _ => false,
        },
{
    law_same_definitions(*a, *b);
}

/// An index is opened for writing under the definition that was asked for, if none is stored or
/// that one is; it is new exactly if none is stored. Else the error says what was asked for and what
/// is stored.
pub proof fn law_open_writable(
    name: String,
    given: &IndexDefinition,
    stored: Option<IndexDefinition>,
    result: Result<WritableIndex, CacheError>,
)
    requires
        call_ensures(open_writable, (name, given, stored), result),
    ensures
        result is Ok <==> stored is None || stored->Some_0@ == given@,
        result matches Ok(index) ==> index.index_definition@ == given@ && (index.is_new <==> stored
            is None),
        result matches Err(error) ==> {
            &&& error matches CacheError::IndexDefinitionMismatch {
                name: error_name,
                given: error_given,
                stored: error_stored,
            }
            &&& error_name@ == name@
            &&& error_given@ == given@
            &&& error_stored@ == stored->Some_0@
        },
{
    law_opening_for_writing(name, *given, stored, result);
}

/// An index is opened for reading under the definition that is stored, if one is. Else the error
/// names the index.
pub proof fn law_open_readable(
    name: String,
    stored: Option<IndexDefinition>,
    result: Result<IndexDefinition, CacheError>,
)
    requires
        call_ensures(open_readable, (name, stored), result),
    ensures
        result is Ok <==> stored is Some,
        result matches Ok(definition) ==> definition@ == stored->Some_0@,
        result matches Err(error) ==> error matches CacheError::IndexDefinitionNotFound(error_name)
            && error_name@ == name@,
{
    law_opening_for_reading(name, stored, result);
}

/// A sorted inverted index, and no other, has a comparator: on its fields, in their order.
pub proof fn law_comparator_fields(definition: &IndexDefinition, fields: Option<&Vec<usize>>)
    requires
        call_ensures(comparator_fields, (definition,), fields),
    ensures
        fields is Some <==> *definition is SortedInverted,
        *definition matches IndexDefinition::SortedInverted(sorted) ==> fields->Some_0@ == sorted@,
{
}

/// The options of a secondary index are those of the cache, but for the path. That is the path of
/// the cache with one more part, the printed labels followed by `_index`, and its one label is the
/// name of the index. The index of a cache without a path has none.
pub proof fn law_get_cache_options(
    name: String,
    main_labels: &str,
    options: &CacheOptions,
    result: CacheOptions,
)
    requires
        call_ensures(get_cache_options, (name, main_labels, options), result),
    ensures
        result.max_readers == options.max_readers,
        result.max_db_size == options.max_db_size,
        result.max_size == options.max_size,
        result.intersection_chunk_size == options.intersection_chunk_size,
        result.path is Some <==> options.path is Some,
        options.path matches Some(main) ==> {
            let path = result.path->Some_0;
            let count = main.base_path@.len() as int;
            &&& path.base_path@.len() == count + 1
            &&& forall|i: int|
                0 <= i < count ==> (#[trigger] path.base_path@[i])@ == main.base_path@[i]@
            &&& path.base_path@[count]@ == main_labels@ + "_index"@
            &&& path.labels.pairs@.len() == 1
            &&& path.labels.pairs@[0].0@ == "secondary_index"@
            &&& path.labels.pairs@[0].1@ == name@
        },
{
    if let Some(main) = options.path {
        let path = result.path->Some_0;
        let count = main.base_path@.len() as int;
        law_parts_and_labels(main);
        law_parts_and_labels(path);
        let directory = main_labels@ + "_index"@;
        assert(path.parts() == main.parts().push(directory));
        assert(path.parts().len() == count + 1);
        assert(path.parts()[count] == directory);
        assert(path.base_path@[count]@ == path.parts()[count]);
        assert forall|i: int| 0 <= i < count implies (#[trigger] path.base_path@[i])@
            == main.base_path@[i]@ by {
            assert(path.parts()[i] == main.parts()[i]);
        }
        assert(path.labels@.len() == 1);
        assert(path.labels@[0] == ("secondary_index"@, name@));
    }
}

/// A run starts by waiting for the id of the next operation, with the given end of the log.
pub proof fn law_new_run(end: u64, run: IndexRun)
    requires
        call_ensures(IndexRun::new, (end,), run),
    ensures
        run.wf(),
        run.end() == end,
        run.spec_phase() is LoadingNextOperationId,
{
}

/// What a step leads to. The end of the log stays the same.
///
/// - An id at or beyond the end of the log finishes the run, which says that the index is up to
///   date. For any other, the operation of that id is read.
/// - An operation that cannot be read finishes the run, which does not say so.
/// - The record of an insert is added under the id of the insert. Of a delete, the operation that it
///   names is read, and its record is removed under its id, not that of the delete.
/// - After a change, the id after that of the operation that the run was at is stored, be it an
///   insert or a delete; and after that, the next id is loaded.
pub proof fn law_step<R>(run: &mut IndexRun, event: IndexEvent<R>, action: IndexAction<R>)
    requires
        call_ensures(IndexRun::step::<R>, (run, event), action),
        old(run).wf(),
        old(run).accepts(event),
    ensures
        final(run).wf(),
        final(run).end() == old(run).end(),
        event matches IndexEvent::NextOperationIdLoaded { operation_id } ==> if operation_id
            >= old(run).end() {
            &&& action == (IndexAction::Finish::<R> { up_to_date: true })
            &&& final(run).spec_phase() is Finished
        } else {
            &&& action == (IndexAction::GetOperation::<R> { operation_id })
            &&& final(run).spec_phase() == (IndexPhase::ReadingOperation { operation_id })
        },
        event == (IndexEvent::OperationRead::<R> { operation: None }) ==> {
            &&& action == (IndexAction::Finish::<R> { up_to_date: false })
            &&& final(run).spec_phase() is Finished
        },
        event matches IndexEvent::OperationRead {
            operation: Some(LogOperation::Insert { record }),
        } ==> match old(run).spec_phase() {
            IndexPhase::ReadingOperation { operation_id } => {
                &&& action == (IndexAction::BuildIndex { record, operation_id })
                &&& final(run).spec_phase() == (IndexPhase::ChangingIndex { operation_id })
            },
            IndexPhase::ReadingDeleted { operation_id, deleted_operation_id } => {
                &&& action == (IndexAction::DeleteIndex {
                    record,
                    operation_id: deleted_operation_id,
                })
                &&& final(run).spec_phase() == (IndexPhase::ChangingIndex { operation_id })
            },
            _ => false,
        },
        event matches IndexEvent::OperationRead {
            operation: Some(LogOperation::Delete { operation_id: deleted_operation_id }),
        } ==> (old(run).spec_phase() matches IndexPhase::ReadingOperation { operation_id } && {
            &&& action == (IndexAction::GetOperation::<R> { operation_id: deleted_operation_id })
            &&& final(run).spec_phase() == (IndexPhase::ReadingDeleted {
                operation_id,
                deleted_operation_id,
            })
        }),
        event is IndexChanged ==> (old(run).spec_phase() matches IndexPhase::ChangingIndex {
            operation_id,
        } && {
            &&& action matches IndexAction::StoreNextOperationId { next_operation_id }
            &&& next_operation_id == operation_id + 1
            &&& final(run).spec_phase() is StoringNextOperationId
        }),
        event is NextOperationIdStored ==> {
            &&& action is LoadNextOperationId
            &&& final(run).spec_phase() is LoadingNextOperationId
        },
{
}

// ---- Pipelines ----

/// A pipeline passes exactly if every source and every processor is the start of an arc, every
/// processor and every sink lists an input port, and at each port of it as many edges end as it
/// lists the port.
pub proof fn law_validate_connectivity<T>(dag: &Dag<T>, result: Result<(), ConnectivityError>)
    requires
        call_ensures(validate_connectivity::<T>, (dag,), result),
    ensures
        result is Ok <==> {
            let graph = dag.spec_graph();
            &&& forall|n: int|
                0 <= n < graph.nodes().len() && (#[trigger] graph.nodes()[n]).kind !is Sink
                    ==> exists|i: int|
                    0 <= i < graph.arcs().len() && (#[trigger] graph.arcs()[i]).0 == n
            &&& forall|n: int|
                0 <= n < graph.nodes().len() && (#[trigger] graph.nodes()[n]).kind !is Source
                    ==> graph.nodes()[n].kind.input_ports().len() > 0
            &&& forall|n: int, port: PortHandle|
                0 <= n < graph.nodes().len() && graph.nodes()[n].kind !is Source
                    ==> graph.nodes()[n].kind.input_ports().to_multiset().count(port)
                    == #[trigger] edges_ending_at(graph, n, port).len()
        },
{
    law_what_connected_means(dag.spec_graph());
}

/// A pipeline that does not pass has a node for which what the error says is true.
pub proof fn law_refused_connectivity<T>(dag: &Dag<T>, error: ConnectivityError) -> (node: int)
    requires
        call_ensures(validate_connectivity::<T>, (dag,), Err(error)),
    ensures
        0 <= node < dag.spec_graph().nodes().len(),
        match error {
            ConnectivityError::NoOutgoingEdge { node: handle } => {
                &&& handle == dag.spec_graph().nodes()[node].handle
                &&& dag.spec_graph().nodes()[node].kind !is Sink
                &&& forall|i: int|
                    0 <= i < dag.spec_graph().arcs().len() ==> (
                    #[trigger] dag.spec_graph().arcs()[i]).0 != node
            },
            ConnectivityError::NoInputPort { node: handle } => {
                &&& handle == dag.spec_graph().nodes()[node].handle
                &&& dag.spec_graph().nodes()[node].kind !is Source
                &&& dag.spec_graph().nodes()[node].kind.input_ports().len() == 0
            },
            ConnectivityError::InputPortsMismatch {
                node: handle,
                input_ports,
                connected_input_ports,
            } => {
                &&& handle == dag.spec_graph().nodes()[node].handle
                &&& dag.spec_graph().nodes()[node].kind !is Source
                &&& input_ports@.to_multiset()
                    == dag.spec_graph().nodes()[node].kind.input_ports().to_multiset()
                &&& forall|port: PortHandle|
                    connected_input_ports@.to_multiset().count(port) == #[trigger] edges_ending_at(
                        dag.spec_graph(),
                        node,
                        port,
                    ).len()
                &&& input_ports@ != connected_input_ports@
            },
        },
{
    let node = choose|node: int| #[trigger] is_connectivity_error(dag.spec_graph(), node, error);
    law_connectivity_errors(dag.spec_graph(), node, error);
    node
}

/// Connecting two ports adds one edge, between these ports of these nodes, and changes nothing else.
/// It succeeds exactly if both nodes list their ports and the start is not reached from the end.
pub proof fn law_connect_with_index<T>(
    dag: &mut Dag<T>,
    from: usize,
    output_port: PortHandle,
    to: usize,
    input_port: PortHandle,
    result: Result<usize, ExecutionError>,
)
    requires
        call_ensures(
            Dag::<T>::connect_with_index,
            (dag, from, output_port, to, input_port),
            result,
        ),
    ensures
        final(dag).spec_graph().nodes() == old(dag).spec_graph().nodes(),
        result is Ok <==> {
            let graph = old(dag).spec_graph();
            &&& exists|k: int|
                0 <= k < graph.nodes()[from as int].kind.output_ports().len() && (
                #[trigger] graph.nodes()[from as int].kind.output_ports()[k]).handle == output_port
            &&& graph.nodes()[to as int].kind.input_ports().contains(input_port)
            &&& !reaches(graph.arcs(), to, from)
        },
        result matches Ok(index) ==> {
            &&& index == old(dag).spec_graph().edges().len()
            &&& final(dag).spec_graph().edges() == old(dag).spec_graph().edges().push(
                DagEdgeType { from: output_port, to: input_port },
            )
            &&& final(dag).spec_graph().arcs() == old(dag).spec_graph().arcs().push((from, to))
        },
        result is Err ==> {
            &&& final(dag).spec_graph().edges() == old(dag).spec_graph().edges()
            &&& final(dag).spec_graph().arcs() == old(dag).spec_graph().arcs()
        },
{
}

/// The port that is found has the name that was asked for, is one of the ports, and is the first
/// such one.
pub proof fn law_find_output_port_def(
    ports: &Vec<OutputPortDef>,
    handle: PortHandle,
    port: &OutputPortDef,
) -> (k: int)
    requires
        call_ensures(find_output_port_def, (ports, handle), port),
    ensures
        port.handle == handle,
        0 <= k < ports@.len(),
        *port == ports@[k],
        forall|j: int| 0 <= j < k ==> (#[trigger] ports@[j]).handle != handle,
{
    let k = choose|k: int| #[trigger] is_first_port(ports@, handle, k) && *port == ports@[k];
    law_first_ports(ports@, handle, k);
    k
}

/// The edge that is put at its place has the name and type of the output port, the input port of
/// the pipeline's edge, and the schema and the context that were given. The other places stay as
/// they are.
pub proof fn law_create_edge<T>(
    edges: &mut Vec<Option<(EdgeType, T)>>,
    index: usize,
    edge: &DagEdgeType,
    port: &OutputPortDef,
    schema: Schema,
    ctx: T,
)
    requires
        call_ensures(create_edge::<T>, (edges, index, edge, port, schema, ctx), ()),
        index < old(edges)@.len(),
    ensures
        final(edges)@.len() == old(edges)@.len(),
        forall|i: int|
            0 <= i < old(edges)@.len() && i != index ==> #[trigger] final(edges)@[i]
                == old(edges)@[i],
        ({
            let made = final(edges)@[index as int];
            &&& made is Some
            &&& made->Some_0.0.output_port == port.handle
            &&& made->Some_0.0.output_port_type == port.typ
            &&& made->Some_0.0.input_port == edge.to
            &&& made->Some_0.0.schema == schema
            &&& made->Some_0.1 == ctx
        }),
{
}

/// The inputs of a node, where they are valid, hold under the port of each edge that ends at it the
/// schema of the edge and a clone of its context, and nothing else; no two edges end at one port, and
/// an edge ends at each port that is listed.
pub proof fn law_validate_input_schemas<T: Clone>(
    dag: &Graph<NodeType<T>, DagEdgeType>,
    edges: &Vec<Option<(EdgeType, T)>>,
    node: usize,
    ports: Vec<PortHandle>,
    inputs: HashMap<PortHandle, (Schema, T)>,
)
    requires
        call_ensures(validate_input_schemas::<T>, (dag, edges, node, ports), Ok(inputs)),
    ensures
        forall|i: int|
            0 <= i < dag.arcs().len() && (#[trigger] dag.arcs()[i]).1 == node ==> {
                let port = dag.edges()[i].to;
                &&& inputs@.contains_key(port)
                &&& inputs@[port].0@ == edges@[i]->Some_0.0.schema@
                &&& cloned(edges@[i]->Some_0.1, inputs@[port].1)
            },
        forall|port: PortHandle| #[trigger]
            inputs@.contains_key(port) ==> exists|i: int|
                0 <= i < dag.arcs().len() && (#[trigger] dag.arcs()[i]).1 == node
                    && dag.edges()[i].to == port,
        forall|i: int, j: int|
            0 <= i < j < dag.arcs().len() && (#[trigger] dag.arcs()[i]).1 == node && (
            #[trigger] dag.arcs()[j]).1 == node ==> dag.edges()[i].to != dag.edges()[j].to,
        forall|port: PortHandle| #[trigger]
            ports@.contains(port) ==> inputs@.contains_key(port),
{
    law_gathered_inputs(*dag, edges@, node as int, inputs@);
    assert forall|i: int, j: int|
        0 <= i < j < dag.arcs().len() && (#[trigger] dag.arcs()[i]).1 == node && (
        #[trigger] dag.arcs()[j]).1 == node implies dag.edges()[i].to != dag.edges()[j].to by {
        law_what_fed_means(*dag, node as int, dag.edges()[i].to);
        assert(!port_is_fed_twice(*dag, node as int, dag.edges()[i].to));
    }
    assert forall|port: PortHandle| #[trigger]
        ports@.contains(port) implies inputs@.contains_key(port) by {
        assert(port_is_fed(*dag, node as int, port));
        law_what_fed_means(*dag, node as int, port);
    }
}

/// The inputs of a node are refused for a port at which two edges end, or, where there is none, for
/// a listed port at which no edge ends.
pub proof fn law_refused_input_schemas<T: Clone>(
    dag: &Graph<NodeType<T>, DagEdgeType>,
    edges: &Vec<Option<(EdgeType, T)>>,
    node: usize,
    ports: Vec<PortHandle>,
    error: ExecutionError,
)
    requires
        call_ensures(validate_input_schemas::<T>, (dag, edges, node, ports), Err(error)),
    ensures
        match error {
            ExecutionError::DuplicateInput { node: handle, port } => {
                &&& handle == dag.nodes()[node as int].handle
                &&& exists|i: int|
                    0 <= i < dag.arcs().len() && (#[trigger] dag.arcs()[i]).1 == node
                        && dag.edges()[i].to == port && exists|j: int|
                        i < j < dag.arcs().len() && (#[trigger] dag.arcs()[j]).1 == node
                            && dag.edges()[j].to == port
            },
            ExecutionError::MissingInput { node: handle, port } => {
                &&& handle == dag.nodes()[node as int].handle
                &&& ports@.contains(port)
                &&& forall|i: int|
                    0 <= i < dag.arcs().len() && (#[trigger] dag.arcs()[i]).1 == node
                        ==> dag.edges()[i].to != port
                &&& forall|i: int, j: int|
                    0 <= i < j < dag.arcs().len() && (#[trigger] dag.arcs()[i]).1 == node && (
                    #[trigger] dag.arcs()[j]).1 == node ==> dag.edges()[i].to != dag.edges()[j].to
            },
            _ => false,
        },
{
    match error {
        ExecutionError::DuplicateInput { port, .. } => {
            law_reported_duplicate_inputs(*dag, node as int, port);
        },
        ExecutionError::MissingInput { port, .. } => {
            let k = law_reported_missing_inputs(*dag, node as int, ports@, port);
            assert(ports@[k] == port);
            assert forall|i: int, j: int|
                0 <= i < j < dag.arcs().len() && (#[trigger] dag.arcs()[i]).1 == node && (
                #[trigger] dag.arcs()[j]).1 == node implies dag.edges()[i].to
                != dag.edges()[j].to by {
                law_what_fed_means(*dag, node as int, dag.edges()[i].to);
                assert(!port_is_fed_twice(*dag, node as int, dag.edges()[i].to));
            }
        },
        _ => {},
    }
}

/// What the schemas of a pipeline are. Its nodes and arcs are those of the pipeline, and every edge
/// joins the same ports. An edge out of a source carries a schema that the source may give for the
/// very port at which the edge starts. An edge out of a processor carries one that the processor may
/// give for that port and the inputs of the node, which hold the schemas of the edges that end at
/// it, each under its port. A sink has been prepared with such inputs.
pub proof fn law_new_dag_schemas<T: Clone>(dag: Dag<T>, schemas: DagSchemas<T>) -> (carried: (
    Seq<T>,
    Seq<Map<PortHandle, (Schema, T)>>,
))
    requires
        dag.wf(),
        call_ensures(DagSchemas::<T>::new, (dag,), Ok(schemas)),
    ensures
        schemas.spec_graph().wf(),
        schemas.spec_graph().nodes() == dag.spec_graph().nodes(),
        schemas.spec_graph().arcs() == dag.spec_graph().arcs(),
        schemas.spec_graph().edges().len() == dag.spec_graph().edges().len(),
        forall|i: int|
            0 <= i < dag.spec_graph().edges().len() ==> {
                let edge = #[trigger] schemas.spec_graph().edges()[i];
                let start = dag.spec_graph().arcs()[i].0 as int;
                let port = dag.spec_graph().edges()[i].from;
                &&& edge.output_port == port
                &&& edge.input_port == dag.spec_graph().edges()[i].to
                &&& match dag.spec_graph().nodes()[start].kind {
                    NodeKind::Source(source) => source.may_output(
                        port,
                        Ok((edge.schema, carried.0[i])),
                    ),
                    NodeKind::Processor(processor) => processor.may_output(
                        port,
                        carried.1[start],
                        Ok((edge.schema, carried.0[i])),
                    ),
                    NodeKind::Sink(_) => false,
                }
            },
        forall|i: int| {
            let n = (#[trigger] dag.spec_graph().arcs()[i]).1 as int;
            let port = dag.spec_graph().edges()[i].to;
            0 <= i < dag.spec_graph().edges().len() && dag.spec_graph().nodes()[n].kind !is Source
                ==> {
                &&& carried.1[n].contains_key(port)
                &&& carried.1[n][port].0@ == schemas.spec_graph().edges()[i].schema@
                &&& cloned(carried.0[i], carried.1[n][port].1)
            }
        },
        forall|n: int|
            0 <= n < dag.spec_graph().nodes().len() ==> ((
            #[trigger] dag.spec_graph().nodes()[n]).kind matches NodeKind::Sink(sink)
                ==> sink.may_prepare(carried.1[n], None)),
{
    law_what_a_populated_pipeline_carries(dag.spec_graph(), schemas.spec_graph())
}

/// The schemas of a connected pipeline are refused for two reasons only: a factory fails, or two
/// edges end at a port that a node lists twice.
pub proof fn law_refused_dag_schemas<T: Clone>(dag: Dag<T>, error: ExecutionError) -> (stop: (
    Population<T>,
    int,
))
    requires
        dag.wf(),
        call_ensures(DagSchemas::<T>::new, (dag,), Err(error)),
    ensures
        error is Factory || error is DuplicateInput,
        0 <= stop.1 < dag.spec_graph().nodes().len(),
        error matches ExecutionError::DuplicateInput { node: handle, port } ==> {
            &&& handle == dag.spec_graph().nodes()[stop.1].handle
            &&& exists|i: int, j: int|
                0 <= i < j < dag.spec_graph().arcs().len() && (
                #[trigger] dag.spec_graph().arcs()[i]).1 == stop.1 && (
                #[trigger] dag.spec_graph().arcs()[j]).1 == stop.1
                    && dag.spec_graph().edges()[i].to == port && dag.spec_graph().edges()[j].to
                    == port
        },
        error matches ExecutionError::Factory(failure) ==> match dag.spec_graph().nodes()[
            stop.1
        ].kind {
            NodeKind::Source(source) => exists|i: int|
                0 <= i < dag.spec_graph().arcs().len() && (
                #[trigger] dag.spec_graph().arcs()[i]).0 == stop.1 && source.may_output(
                    dag.spec_graph().edges()[i].from,
                    Err(failure),
                ),
            NodeKind::Processor(processor) => exists|i: int|
                0 <= i < dag.spec_graph().arcs().len() && (
                #[trigger] dag.spec_graph().arcs()[i]).0 == stop.1 && processor.may_output(
                    dag.spec_graph().edges()[i].from,
                    stop.0.inputs[stop.1],
                    Err(failure),
                ),
            NodeKind::Sink(sink) => sink.may_prepare(stop.0.inputs[stop.1], Some(failure)),
        },
{
    let (population, node) = choose|population: Population<T>, node: int| #[trigger]
        population_stops(dag.spec_graph(), population, node, error);
    law_why_a_population_stops(dag.spec_graph(), population, node, error);
    (population, node)
}

/// Populating the edges of a pipeline keeps its nodes and arcs, and gives every edge out of a source
/// a schema that the source may give for the port at which the edge starts.
pub proof fn law_populate_schemas<T: Clone>(
    dag: Graph<NodeType<T>, DagEdgeType>,
    populated: Graph<NodeType<T>, EdgeType>,
) -> (contexts: Seq<T>)
    requires
        dag.wf(),
        call_ensures(populate_schemas::<T>, (dag,), Ok(populated)),
    ensures
        populated.nodes() == dag.nodes(),
        populated.arcs() == dag.arcs(),
        forall|i: int|
            0 <= i < dag.edges().len() ==> {
                let edge = #[trigger] populated.edges()[i];
                &&& edge.output_port == dag.edges()[i].from
                &&& edge.input_port == dag.edges()[i].to
                &&& dag.nodes()[dag.arcs()[i].0 as int].kind matches NodeKind::Source(source)
                    ==> source.may_output(dag.edges()[i].from, Ok((edge.schema, contexts[i])))
            },
{
    law_what_a_populated_pipeline_carries(dag, populated).0
}

/// Under each port of a node at which an edge ends, the schema of the earliest such edge is
/// reported, with its identifier, fields and primary key; and under no other port.
pub proof fn law_get_node_input_schemas<T>(
    dag: &DagSchemas<T>,
    node: usize,
    schemas: HashMap<PortHandle, Schema>,
)
    requires
        call_ensures(DagSchemas::<T>::get_node_input_schemas, (dag, node), schemas),
    ensures
        forall|i: int|
            0 <= i < dag.spec_graph().arcs().len() && (#[trigger] dag.spec_graph().arcs()[i]).1
                == node ==> schemas@.contains_key(dag.spec_graph().edges()[i].input_port),
        forall|port: PortHandle| #[trigger]
            schemas@.contains_key(port) ==> exists|i: int| {
                let edge = dag.spec_graph().edges()[i];
                &&& 0 <= i < dag.spec_graph().arcs().len()
                &&& (#[trigger] dag.spec_graph().arcs()[i]).1 == node
                &&& edge.input_port == port
                &&& schemas@[port]@ == edge.schema@
                &&& schemas@[port].identifier == edge.schema.identifier
                &&& schemas@[port].primary_index@ == edge.schema.primary_index@
                &&& schemas@[port].fields@.len() == edge.schema.fields@.len()
                &&& forall|j: int|
                    0 <= j < i && (#[trigger] dag.spec_graph().arcs()[j]).1 == node
                        ==> dag.spec_graph().edges()[j].input_port != port
            },
{
    law_input_schemas(dag.spec_graph(), node as int, schemas@);
}

/// Under each port of a node at which an edge starts, the schema of the earliest such edge is
/// reported, with its identifier, fields and primary key; and under no other port.
pub proof fn law_get_node_output_schemas<T>(
    dag: &DagSchemas<T>,
    node: usize,
    schemas: HashMap<PortHandle, Schema>,
)
    requires
        call_ensures(DagSchemas::<T>::get_node_output_schemas, (dag, node), schemas),
    ensures
        forall|i: int|
            0 <= i < dag.spec_graph().arcs().len() && (#[trigger] dag.spec_graph().arcs()[i]).0
                == node ==> schemas@.contains_key(dag.spec_graph().edges()[i].output_port),
        forall|port: PortHandle| #[trigger]
            schemas@.contains_key(port) ==> exists|i: int| {
                let edge = dag.spec_graph().edges()[i];
                &&& 0 <= i < dag.spec_graph().arcs().len()
                &&& (#[trigger] dag.spec_graph().arcs()[i]).0 == node
                &&& edge.output_port == port
                &&& schemas@[port]@ == edge.schema@
                &&& schemas@[port].identifier == edge.schema.identifier
                &&& schemas@[port].primary_index@ == edge.schema.primary_index@
                &&& schemas@[port].fields@.len() == edge.schema.fields@.len()
                &&& forall|j: int|
                    0 <= j < i && (#[trigger] dag.spec_graph().arcs()[j]).0 == node
                        ==> dag.spec_graph().edges()[j].output_port != port
            },
{
    law_output_schemas(dag.spec_graph(), node as int, schemas@);
}

/// What is reported of the sinks: there is an entry for the id of every sink, and for no other id.
/// The schema of a sink is the one that is reported as its input on the default port, with the same
/// identifier, fields and primary key. Its sources are the sources that precede it.
pub proof fn law_get_sink_schemas<T>(
    dag: &DagSchemas<T>,
    schemas: StringHashMap<(Schema, StringHashSet)>,
    node: usize,
    inputs: HashMap<PortHandle, Schema>,
)
    requires
        call_ensures(DagSchemas::<T>::get_sink_schemas, (dag,), schemas),
        call_ensures(DagSchemas::<T>::get_node_input_schemas, (dag, node), inputs),
        node < dag.spec_graph().nodes().len(),
        dag.spec_graph().nodes()[node as int].kind is Sink,
    ensures
        forall|id: Seq<char>| #[trigger]
            schemas@.contains_key(id) ==> exists|n: int|
                0 <= n < dag.spec_graph().nodes().len() && (
                #[trigger] dag.spec_graph().nodes()[n]).kind is Sink
                    && dag.spec_graph().nodes()[n].handle.id@ == id,
        schemas@.contains_key(dag.spec_graph().nodes()[node as int].handle.id@),
        inputs@.contains_key(DEFAULT_PORT_HANDLE),
        ({
            let (schema, sources) = schemas@[dag.spec_graph().nodes()[node as int].handle.id@];
            let input = inputs@[DEFAULT_PORT_HANDLE];
            &&& schema@ == input@
            &&& schema.identifier == input.identifier
            &&& schema.primary_index@ == input.primary_index@
            &&& schema.fields@.len() == input.fields@.len()
            &&& forall|k: int|
                0 <= k < input.fields@.len() ==> (#[trigger] schema.fields@[k]).name@
                    == input.fields@[k].name@ && schema.fields@[k].typ == input.fields@[k].typ
                    && schema.fields@[k].nullable == input.fields@[k].nullable
            &&& forall|id: Seq<char>| #[trigger]
                sources@.contains(id) <==> exists|m: usize| #[trigger]
                    precedes(dag.spec_graph().arcs(), m, node)
                        && dag.spec_graph().nodes()[m as int].kind is Source
                        && dag.spec_graph().nodes()[m as int].handle.id@ == id
        }),
{
    let graph = dag.spec_graph();
    assert(is_sink(graph, node as int));
    let id = graph.nodes()[node as int].handle.id@;
    assert(are_sink_schemas(graph, schemas@));
    assert(is_sink_entry(graph, node as int, schemas@[id]));
    assert(are_input_schemas(graph, node as int, inputs@));
    law_sinks_report_their_default_input(graph, node as int, schemas@[id], inputs@);
    assert forall|id: Seq<char>| #[trigger] schemas@.contains_key(id) implies exists|n: int|
        0 <= n < graph.nodes().len() && (#[trigger] graph.nodes()[n]).kind is Sink
            && graph.nodes()[n].handle.id@ == id by {
        let n = choose|n: int| #[trigger] is_sink(graph, n) && graph.nodes()[n].handle.id@ == id;
        assert(graph.nodes()[n].kind is Sink);
    }
    assert(schemas@[id].1@ == source_ids(graph, node));
}

// ---- Graphs and small parts ----

/// A node gets the next index and the weight that was given; nothing else changes.
pub proof fn law_graph_add_node<N, E>(graph: &mut Graph<N, E>, weight: N, index: usize)
    requires
        call_ensures(Graph::<N, E>::add_node, (graph, weight), index),
    ensures
        index == old(graph).nodes().len(),
        final(graph).nodes().len() == index + 1,
        final(graph).nodes()[index as int] == weight,
        forall|i: int| 0 <= i < index ==> #[trigger] final(graph).nodes()[i] == old(graph).nodes()[i],
        final(graph).edges() == old(graph).edges(),
        final(graph).arcs() == old(graph).arcs(),
{
}

/// An edge gets the next index, the two nodes and the weight that were given, unless it would close
/// a cycle: then nothing changes and the weight comes back.
pub proof fn law_graph_add_edge<N, E>(
    graph: &mut Graph<N, E>,
    a: usize,
    b: usize,
    weight: E,
    result: Result<usize, CycleError<E>>,
)
    requires
        call_ensures(Graph::<N, E>::add_edge, (graph, a, b, weight), result),
    ensures
        final(graph).nodes() == old(graph).nodes(),
        result is Err <==> a == b || precedes(old(graph).arcs(), b, a),
        result matches Ok(index) ==> {
            &&& index == old(graph).edges().len()
            &&& final(graph).edges() == old(graph).edges().push(weight)
            &&& final(graph).arcs() == old(graph).arcs().push((a, b))
        },
        result matches Err(error) ==> {
            &&& error.0 == weight
            &&& final(graph).edges() == old(graph).edges()
            &&& final(graph).arcs() == old(graph).arcs()
        },
{
    law_reaching_goes_along_arcs(old(graph).arcs(), b, a);
    if precedes(old(graph).arcs(), b, a) {
        let m = choose|m: usize| #[trigger]
            old(graph).arcs().contains((b, m)) && reaches(old(graph).arcs(), m, a);
        assert(reaches(old(graph).arcs(), b, a));
    }
}

/// Other weights leave the nodes and arcs of a graph as they are.
pub proof fn law_graph_with_edges<N, E, F>(
    graph: Graph<N, E>,
    edges: Vec<F>,
    result: Graph<N, F>,
)
    requires
        call_ensures(Graph::<N, E>::with_edges::<F>, (graph, edges), result),
    ensures
        result.nodes() == graph.nodes(),
        result.arcs() == graph.arcs(),
        result.edges() == edges@,
{
}

/// The edges that start at a node are all that do, the latest one first.
pub proof fn law_graph_edges_from<N, E>(graph: &Graph<N, E>, node: usize, edges: Vec<usize>)
    requires
        call_ensures(Graph::<N, E>::edges_from, (graph, node), edges),
    ensures
        forall|i: usize| #[trigger]
            edges@.contains(i) <==> i < graph.arcs().len() && graph.arcs()[i as int].0 == node,
        forall|j: int, k: int| 0 <= j < k < edges@.len() ==> edges@[j] > edges@[k],
{
}

/// The edges that end at a node are all that do, each with its start, the latest one first.
pub proof fn law_graph_edges_into<N, E>(
    graph: &Graph<N, E>,
    node: usize,
    edges: Vec<(usize, usize)>,
)
    requires
        call_ensures(Graph::<N, E>::edges_into, (graph, node), edges),
    ensures
        forall|i: usize, start: usize| #[trigger]
            edges@.contains((i, start)) <==> i < graph.arcs().len() && graph.arcs()[i as int] == (
                start,
                node,
            ),
        forall|j: int, k: int|
            0 <= j < k < edges@.len() ==> (#[trigger] edges@[j]).0 > (#[trigger] edges@[k]).0,
{
}

/// The topological order lists every node once, the start of every arc before its end.
pub proof fn law_graph_topological_order<N, E>(graph: &Graph<N, E>, order: Vec<usize>)
    requires
        call_ensures(Graph::<N, E>::topological_order, (graph,), order),
    ensures
        order@.no_duplicates(),
        forall|n: usize| #[trigger] order@.contains(n) <==> n < graph.nodes().len(),
        forall|i: int, j: int|
            0 <= i < order@.len() && 0 <= j < order@.len() && #[trigger] graph.arcs().contains(
                (order@[i], order@[j]),
            ) ==> i < j,
{
}

/// A node or an edge is found at its index.
pub proof fn law_graph_weights<N, E>(
    graph: &Graph<N, E>,
    node_index: usize,
    node: &N,
    edge_index: usize,
    edge: &E,
    node_count: usize,
    edge_count: usize,
)
    requires
        call_ensures(Graph::<N, E>::node, (graph, node_index), node),
        call_ensures(Graph::<N, E>::edge, (graph, edge_index), edge),
        call_ensures(Graph::<N, E>::node_count, (graph,), node_count),
        call_ensures(Graph::<N, E>::edge_count, (graph,), edge_count),
    ensures
        *node == graph.nodes()[node_index as int],
        *edge == graph.edges()[edge_index as int],
        node_count == graph.nodes().len(),
        edge_count == graph.edges().len(),
{
}

/// An edge with a schema, and a copy of it, have the ports, the type and the schema that were given.
pub proof fn law_edges_keep_what_they_are_given(
    output_port: PortHandle,
    typ: OutputPortType,
    input_port: PortHandle,
    schema: Schema,
    edge: EdgeType,
    copy: EdgeType,
)
    requires
        call_ensures(EdgeType::new, (output_port, typ, input_port, schema), edge),
        call_ensures(EdgeType::clone, (&edge,), copy),
    ensures
        edge.output_port == output_port,
        edge.output_port_type == typ,
        edge.input_port == input_port,
        edge.schema == schema,
        copy.output_port == output_port,
        copy.output_port_type == typ,
        copy.input_port == input_port,
        copy.schema@ == schema@,
        copy.schema.identifier == schema.identifier,
        copy.schema.primary_index@ == schema.primary_index@,
        copy.schema.fields@.len() == schema.fields@.len(),
{
    law_schemas_that_say_the_same(copy.schema, schema);
}

/// A copy of a schema says what the schema says.
pub proof fn law_copies_of_schemas(schema: Schema, copy: Schema)
    requires
        call_ensures(Schema::clone, (&schema,), copy),
    ensures
        copy.identifier == schema.identifier,
        copy.primary_index@ == schema.primary_index@,
        copy.fields@.len() == schema.fields@.len(),
        forall|i: int|
            0 <= i < schema.fields@.len() ==> {
                &&& (#[trigger] copy.fields@[i]).name@ == schema.fields@[i].name@
                &&& copy.fields@[i].typ == schema.fields@[i].typ
                &&& copy.fields@[i].nullable == schema.fields@[i].nullable
                &&& copy.fields@[i].source == schema.fields@[i].source
            },
{
    law_schemas_that_say_the_same(copy, schema);
}

/// The schemas of a node are kept apart: what was given as input stays input.
pub proof fn law_node_schemas<T>(
    inputs: HashMap<PortHandle, (Schema, T)>,
    outputs: HashMap<PortHandle, (Schema, T)>,
    empty: NodeSchemas<T>,
    schemas: NodeSchemas<T>,
)
    requires
        call_ensures(NodeSchemas::<T>::new, (), empty),
        call_ensures(NodeSchemas::<T>::from, (inputs, outputs), schemas),
    ensures
        forall|port: PortHandle| !#[trigger] empty.input_schemas@.contains_key(port),
        forall|port: PortHandle| !#[trigger] empty.output_schemas@.contains_key(port),
        schemas.input_schemas@ == inputs@,
        schemas.output_schemas@ == outputs@,
{
}

/// A message holds its operation under the transaction and the place in it that were given.
pub proof fn law_new_op(txid: u64, seq_in_tx: u64, operation: Operation, message: IngestionMessage)
    requires
        call_ensures(IngestionMessage::new_op, (txid, seq_in_tx, operation), message),
    ensures
        message.identifier.txid == txid,
        message.identifier.seq_in_tx == seq_in_tx,
        message.operation == operation,
{
}

} // verus!

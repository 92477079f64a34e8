use dozer::connector::{
    client_settings, event_to_message, event_to_operation, get_schemas, table_identifiers, CdcType,
    ChangeEvent, ClientSettings, Config, IngestionMessage, MongoConfig, OpIdentifier,
    OperationType, TableIdentifier, UnsupportedChange,
};
use dozer::schema_inference::{doc_to_flds, infer_schema, value_to_dtype, Bson, Document};
use dozer::types::{
    Field, FieldDefinition, FieldType, Operation, Record, Schema, SchemaIdentifier,
    SourceDefinition,
};

const ID: [u8; 12] = [0x64, 0x5d, 0x05, 0xf8, 0x00, 0xff, 0x0a, 0xa0, 0x9b, 0x10, 0x01, 0xec];
const HEX: &str = "645d05f800ff0aa09b1001ec";

fn doc(entries: Vec<(&str, Bson)>) -> Document {
    Document {
        entries: entries.into_iter().map(|(key, value)| (key.to_string(), value)).collect(),
    }
}

fn record(values: Vec<Field>) -> Record {
    Record { schema_id: None, values, lifetime: None }
}

#[test]
fn settings_come_from_the_configuration() {
    let config = MongoConfig {
        name: "trips".to_string(),
        config: Config { host: "localhost".to_string(), port: 27017, database: "taxi".to_string() },
    };
    assert_eq!(
        client_settings(config.clone()),
        ClientSettings {
            app_name: "trips".to_string(),
            host: "localhost".to_string(),
            port: 27017,
            default_database: "taxi".to_string(),
        }
    );
}

#[test]
fn port_keeps_its_low_bits() {
    let config = |port: u32| MongoConfig {
        name: String::new(),
        config: Config { host: String::new(), port, database: String::new() },
    };
    assert_eq!(client_settings(config(65536 + 17)).port, 17);
    assert_eq!(client_settings(config(u32::MAX)).port, u16::MAX);
}

#[test]
fn collections_are_tables_without_a_schema() {
    assert_eq!(
        table_identifiers(vec!["a".to_string(), "b".to_string()]),
        vec![
            TableIdentifier { schema: None, name: "a".to_string() },
            TableIdentifier { schema: None, name: "b".to_string() },
        ]
    );
}

#[test]
fn values_have_field_types() {
    let text = || "x".to_string();
    let cases = [
        (Bson::Int32(1), FieldType::Int),
        (Bson::Int64(1), FieldType::Int),
        (Bson::Double(0), FieldType::Float),
        (Bson::Decimal128, FieldType::Decimal),
        (Bson::Boolean(true), FieldType::Boolean),
        (Bson::Document, FieldType::Json),
        (Bson::String(text()), FieldType::String),
        (Bson::Binary(vec![1]), FieldType::Binary),
        (Bson::ObjectId(ID), FieldType::String),
        (Bson::Timestamp, FieldType::Timestamp),
        (Bson::Null, FieldType::String),
        (Bson::RegularExpression, FieldType::String),
        (Bson::JavaScriptCode(text()), FieldType::String),
        (Bson::JavaScriptCodeWithScope, FieldType::String),
        (Bson::Symbol, FieldType::String),
        (Bson::Undefined, FieldType::String),
        (Bson::MaxKey, FieldType::String),
        (Bson::MinKey, FieldType::String),
        (Bson::DbPointer, FieldType::String),
    ];
    for (value, expected) in cases {
        assert!(value.supports_dtype());
        assert_eq!(value_to_dtype(&value), expected);
    }
    assert!(!Bson::Array.supports_dtype());
    assert!(!Bson::DateTime.supports_dtype());
}

#[test]
fn values_are_put_into_fields() {
    let document = doc(vec![
        ("double", Bson::Double(1.5f64.to_bits())),
        ("string", Bson::String("s".to_string())),
        ("boolean", Bson::Boolean(true)),
        ("null", Bson::Null),
        ("code", Bson::JavaScriptCode("f()".to_string())),
        ("int", Bson::Int32(-7)),
        ("long", Bson::Int64(i64::MIN)),
        ("binary", Bson::Binary(vec![0, 255])),
        ("_id", Bson::ObjectId(ID)),
    ]);
    assert_eq!(document.first_without_field(), None);
    assert_eq!(
        doc_to_flds(&document),
        vec![
            Field::Float(1.5f64.to_bits()),
            Field::String("s".to_string()),
            Field::Boolean(true),
            Field::Null,
            Field::String("f()".to_string()),
            Field::Int(-7),
            Field::Int(i64::MIN),
            Field::Binary(vec![0, 255]),
            Field::String(HEX.to_string()),
        ]
    );
}

#[test]
fn object_ids_are_written_as_bson_writes_them() {
    let fields = doc_to_flds(&doc(vec![("_id", Bson::ObjectId(ID))]));
    let hex = bson::oid::ObjectId::from_bytes(ID).to_hex();
    assert_eq!(hex, HEX);
    assert_eq!(fields, vec![Field::String(hex)]);
    let mut other = ID;
    other[11] ^= 1;
    assert_ne!(doc_to_flds(&doc(vec![("_id", Bson::ObjectId(other))])), fields);
}

#[test]
fn some_values_have_no_field() {
    for value in [
        Bson::Array,
        Bson::Document,
        Bson::Timestamp,
        Bson::DateTime,
        Bson::RegularExpression,
        Bson::JavaScriptCodeWithScope,
        Bson::Symbol,
        Bson::Decimal128,
        Bson::Undefined,
        Bson::MaxKey,
        Bson::MinKey,
        Bson::DbPointer,
    ] {
        assert!(!value.supports_field());
        let document = doc(vec![("a", Bson::Null), ("b", value), ("c", Bson::Array)]);
        assert_eq!(document.first_without_field(), Some(1));
    }
}

#[test]
fn schema_has_a_nullable_field_for_each_key() {
    let document = doc(vec![("_id", Bson::ObjectId(ID)), ("n", Bson::Int32(1))]);
    let field = |name: &str, typ: FieldType| FieldDefinition {
        name: name.to_string(),
        typ,
        nullable: true,
        source: SourceDefinition::Dynamic,
    };
    assert_eq!(
        infer_schema(&document),
        Schema {
            identifier: Some(SchemaIdentifier { id: 0, version: 1 }),
            fields: vec![field("_id", FieldType::String), field("n", FieldType::Int)],
            primary_index: vec![],
        }
    );
    assert_eq!(doc_to_flds(&document).len(), infer_schema(&document).fields.len());
}

#[test]
fn values_without_a_type_are_found() {
    let document = doc(vec![("a", Bson::Null), ("b", Bson::DateTime), ("c", Bson::Array)]);
    assert_eq!(document.first_without_dtype(), Some(1));
    assert_eq!(doc(vec![("a", Bson::Null)]).first_without_dtype(), None);
}

#[test]
fn tables_without_documents_have_no_schema() {
    let samples = vec![
        Some(doc(vec![("a", Bson::Int64(1))])),
        None,
        Some(doc(vec![("b", Bson::Document)])),
    ];
    let schemas = get_schemas(&samples);
    assert_eq!(schemas.len(), 2);
    assert_eq!(schemas[0].schema, infer_schema(samples[0].as_ref().unwrap()));
    assert_eq!(schemas[1].schema, infer_schema(samples[2].as_ref().unwrap()));
    assert!(schemas.iter().all(|source| source.cdc_type == CdcType::Nothing));
}

fn event(
    operation_type: OperationType,
    full_document: Option<Document>,
    full_document_before_change: Option<Document>,
) -> ChangeEvent {
    ChangeEvent { operation_type, full_document, full_document_before_change }
}

fn one() -> Option<Document> {
    Some(doc(vec![("a", Bson::Int32(1))]))
}

fn two() -> Option<Document> {
    Some(doc(vec![("a", Bson::Int32(2))]))
}

#[test]
fn inserts_updates_and_deletes_become_operations() {
    let insert = event(OperationType::Insert, one(), None);
    assert_eq!(insert.check_supported(), Ok(()));
    assert_eq!(
        event_to_operation(&insert),
        Operation::Insert { new: record(vec![Field::Int(1)]) }
    );
    let update = event(OperationType::Update, two(), one());
    assert_eq!(update.check_supported(), Ok(()));
    assert_eq!(
        event_to_operation(&update),
        Operation::Update {
            old: record(vec![Field::Int(1)]),
            new: record(vec![Field::Int(2)]),
        }
    );
    let delete = event(OperationType::Delete, two(), None);
    assert_eq!(delete.check_supported(), Ok(()));
    assert_eq!(
        event_to_operation(&delete),
        Operation::Delete { old: record(vec![Field::Int(2)]) }
    );
}

#[test]
fn messages_are_of_one_transaction() {
    let message = event_to_message(&event(OperationType::Insert, one(), None));
    assert_eq!(message.identifier, OpIdentifier { txid: 0, seq_in_tx: 0 });
    let operation = Operation::Insert { new: record(vec![Field::Int(1)]) };
    assert_eq!(message, IngestionMessage::new_op(0, 0, operation));
}

#[test]
fn unsupported_changes_are_told_apart() {
    let bad = || Some(doc(vec![("a", Bson::Null), ("b", Bson::Array)]));
    let cases = [
        (event(OperationType::Insert, None, one()), UnsupportedChange::NoDocument),
        (event(OperationType::Other, bad(), None), UnsupportedChange::Value(1)),
        (event(OperationType::Replace, one(), two()), UnsupportedChange::OperationType),
        (event(OperationType::Other, one(), two()), UnsupportedChange::OperationType),
        (event(OperationType::Update, one(), None), UnsupportedChange::NoDocumentBeforeChange),
        (event(OperationType::Update, one(), bad()), UnsupportedChange::ValueBeforeChange(1)),
    ];
    for (event, reason) in cases {
        assert_eq!(event.check_supported(), Err(reason));
    }
}

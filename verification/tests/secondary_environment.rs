use dozer::secondary_environment::{
    comparator_fields, get_cache_options, open_readable, open_writable, CacheError, CacheOptions,
    CachePath, IndexDefinition, Labels, WritableIndex, DATABASE_DB_NAME, INDEX_DEFINITION_DB_NAME,
    NEXT_OPERATION_ID_DB_NAME,
};

fn sorted() -> IndexDefinition {
    IndexDefinition::SortedInverted(vec![2, 0])
}

fn options(path: Option<CachePath>) -> CacheOptions {
    CacheOptions {
        max_readers: 1000,
        max_db_size: 3,
        max_size: 1 << 30,
        intersection_chunk_size: 100,
        path,
    }
}

#[test]
fn databases_have_their_names() {
    assert_eq!(INDEX_DEFINITION_DB_NAME, "index_definition");
    assert_eq!(DATABASE_DB_NAME, "database");
    assert_eq!(NEXT_OPERATION_ID_DB_NAME, "next_operation_id");
}

#[test]
fn new_index_gets_the_given_definition() {
    assert_eq!(
        open_writable("i".to_string(), &sorted(), None),
        Ok(WritableIndex { index_definition: sorted(), is_new: true })
    );
}

#[test]
fn index_reopens_under_its_definition() {
    let opened = open_writable("i".to_string(), &sorted(), None).unwrap();
    let stored = opened.index_definition.clone();
    assert_eq!(
        open_writable("i".to_string(), &sorted(), Some(stored)),
        Ok(WritableIndex { index_definition: sorted(), is_new: false })
    );
}

#[test]
fn index_does_not_reopen_under_another_definition() {
    for given in [
        IndexDefinition::SortedInverted(vec![0, 2]),
        IndexDefinition::SortedInverted(vec![2]),
        IndexDefinition::FullText(2),
    ] {
        assert!(!given.same_as(&sorted()));
        assert_eq!(
            open_writable("i".to_string(), &given, Some(sorted())),
            Err(CacheError::IndexDefinitionMismatch {
                name: "i".to_string(),
                given: given.clone(),
                stored: sorted(),
            })
        );
    }
}

#[test]
fn definition_outlives_failed_openings_and_is_found_by_readers() {
    let mut stored = None;
    let openings = [
        (sorted(), true),
        (IndexDefinition::FullText(2), false),
        (sorted(), true),
        (IndexDefinition::SortedInverted(vec![]), false),
    ];
    for (given, succeeds) in openings {
        let result = open_writable("i".to_string(), &given, stored.clone());
        assert_eq!(result.is_ok(), succeeds);
        if let Ok(WritableIndex { index_definition, is_new: true }) = result {
            stored = Some(index_definition);
        }
        assert_eq!(open_readable("i".to_string(), stored.clone()), Ok(sorted()));
    }
}

#[test]
fn full_text_definitions_are_told_apart_by_their_field() {
    assert!(IndexDefinition::FullText(1).same_as(&IndexDefinition::FullText(1)));
    assert!(!IndexDefinition::FullText(1).same_as(&IndexDefinition::FullText(2)));
}

#[test]
fn reader_takes_the_stored_definition() {
    assert_eq!(open_readable("i".to_string(), Some(sorted())), Ok(sorted()));
    assert_eq!(
        open_readable("i".to_string(), None),
        Err(CacheError::IndexDefinitionNotFound("i".to_string()))
    );
}

#[test]
fn only_sorted_inverted_indexes_have_a_comparator() {
    assert_eq!(comparator_fields(&sorted()), Some(&vec![2, 0]));
    assert_eq!(comparator_fields(&IndexDefinition::FullText(1)), None);
}

#[test]
fn index_lies_beside_the_cache() {
    let main = options(Some(CachePath {
        base_path: vec!["home".to_string(), "cache".to_string()],
        labels: Labels { pairs: vec![("endpoint".to_string(), "trips".to_string())] },
    }));
    assert_eq!(
        get_cache_options("0".to_string(), "endpoint_trips", &main),
        options(Some(CachePath {
            base_path: vec![
                "home".to_string(),
                "cache".to_string(),
                "endpoint_trips_index".to_string(),
            ],
            labels: Labels { pairs: vec![("secondary_index".to_string(), "0".to_string())] },
        }))
    );
}

#[test]
fn index_of_a_temporary_cache_is_temporary() {
    assert_eq!(get_cache_options("0".to_string(), "", &options(None)), options(None));
}

//! The environment that holds a secondary index of the cache.

use vstd::prelude::*;
use vstd::string::StringExecFns;

verus! {

/// The database that holds the definition of the index.
pub const INDEX_DEFINITION_DB_NAME: &'static str = "index_definition";

/// The database that holds the index.
pub const DATABASE_DB_NAME: &'static str = "database";

/// The database that holds the id of the next operation that the index has not seen.
pub const NEXT_OPERATION_ID_DB_NAME: &'static str = "next_operation_id";

/// What an index is over.
#[derive(Debug, PartialEq, Eq)]
pub enum IndexDefinition {
    /// A sorted inverted index on some fields.
    SortedInverted(Vec<usize>),
    /// A full text index on one field.
    FullText(usize),
}

/// What an index is over, apart from how that is stored.
pub enum IndexDefinitionView {
    SortedInverted(Seq<usize>),
    FullText(usize),
}

impl View for IndexDefinition {
    type V = IndexDefinitionView;

    open spec fn view(&self) -> IndexDefinitionView {
        match self {
            IndexDefinition::SortedInverted(fields) => IndexDefinitionView::SortedInverted(fields@),
            IndexDefinition::FullText(field) => IndexDefinitionView::FullText(*field),
        }
    }
}

impl Clone for IndexDefinition {
    fn clone(&self) -> (copy: Self)
        ensures
            copy@ == self@,
    {
        match self {
            IndexDefinition::SortedInverted(fields) => {
                let copy = fields.clone();
                assert(copy@ =~= fields@);
                IndexDefinition::SortedInverted(copy)
            },
            IndexDefinition::FullText(field) => IndexDefinition::FullText(*field),
        }
    }
}

impl IndexDefinition {
    /// Whether two indexes are over the same.
    pub fn same_as(&self, other: &IndexDefinition) -> (same: bool)
        ensures
            same == (self@ == other@),
    {
        match (self, other) {
            (IndexDefinition::SortedInverted(a), IndexDefinition::SortedInverted(b)) => {
                let same = *a == *b;
                assert(same == (a@ =~= b@));
                same
            },
            (IndexDefinition::FullText(a), IndexDefinition::FullText(b)) => *a == *b,
            _ => false,
        }
    }
}

/// Why a secondary index could not be opened.
#[derive(Debug, PartialEq, Eq)]
pub enum CacheError {
    /// The index is defined otherwise than was asked for.
    IndexDefinitionMismatch { name: String, given: IndexDefinition, stored: IndexDefinition },
    /// There is no definition of the index.
    IndexDefinitionNotFound(String),
}

/// The definition under which an index is opened for writing.
#[derive(Debug, PartialEq, Eq)]
pub struct WritableIndex {
    pub index_definition: IndexDefinition,
    /// The definition is new and has to be stored.
    pub is_new: bool,
}

/// What is stored as the definition of an index, apart from how.
pub open spec fn stored_view(stored: Option<IndexDefinition>) -> Option<IndexDefinitionView> {
    match stored {
        Some(definition) => Some(definition@),
        None => None,
    }
}

/// What comes of opening an index for writing: the stored definition, if it is the one that was
/// asked for; the one that was asked for, which is then new, if none is stored; else a mismatch.
pub open spec fn opens_for_writing(
    name: String,
    given: IndexDefinition,
    stored: Option<IndexDefinition>,
    result: Result<WritableIndex, CacheError>,
) -> bool {
    match stored {
        None => result matches Ok(index) && index.index_definition@ == given@ && index.is_new,
        Some(definition) => if definition@ == given@ {
            result == Ok::<WritableIndex, CacheError>(
                WritableIndex { index_definition: definition, is_new: false },
            )
        } else {
            result matches Err(
                CacheError::IndexDefinitionMismatch {
                    name: error_name,
                    given: error_given,
                    stored: error_stored,
                },
            ) && error_name == name && error_given@ == given@ && error_stored == definition
        },
    }
}

/// What comes of opening an index for reading: the stored definition, if there is one.
pub open spec fn opens_for_reading(
    name: String,
    stored: Option<IndexDefinition>,
    result: Result<IndexDefinition, CacheError>,
) -> bool {
    result == match stored {
        Some(definition) => Ok::<IndexDefinition, CacheError>(definition),
        None => Err(CacheError::IndexDefinitionNotFound(name)),
    }
}

/// Decides under which definition an index is opened for writing: the stored one, if it is the
/// one that was asked for; the one that was asked for, which is then new, if none is stored.
pub fn open_writable(
    name: String,
    given: &IndexDefinition,
    stored: Option<IndexDefinition>,
) -> (result: Result<WritableIndex, CacheError>)
    ensures
        opens_for_writing(name, *given, stored, result),
{
    match stored {
        Some(stored) => {
            if !given.same_as(&stored) {
                return Err(
                    CacheError::IndexDefinitionMismatch { name, given: given.clone(), stored },
                );
            }
            Ok(WritableIndex { index_definition: stored, is_new: false })
        },
        None => Ok(WritableIndex { index_definition: given.clone(), is_new: true }),
    }
}

/// Decides under which definition an index is opened for reading: the stored one.
pub fn open_readable(name: String, stored: Option<IndexDefinition>) -> (result: Result<
    IndexDefinition,
    CacheError,
>)
    ensures
        opens_for_reading(name, stored, result),
{
    match stored {
        Some(definition) => Ok(definition),
        None => Err(CacheError::IndexDefinitionNotFound(name)),
    }
}

/// The fields that the keys of the database are compared by. Only a sorted inverted index has a
/// comparator of its own.
pub fn comparator_fields(index_definition: &IndexDefinition) -> (fields: Option<&Vec<usize>>)
    ensures
        match index_definition {
            IndexDefinition::SortedInverted(sorted) => fields == Some(sorted),
            IndexDefinition::FullText(_) => fields is None,
        },
{
    match index_definition {
        IndexDefinition::SortedInverted(fields) => Some(fields),
        IndexDefinition::FullText(_) => None,
    }
}

/// Names and values that tell caches apart.
#[derive(Debug, PartialEq, Eq)]
pub struct Labels {
    pub pairs: Vec<(String, String)>,
}

impl View for Labels {
    type V = Seq<(Seq<char>, Seq<char>)>;

    open spec fn view(&self) -> Seq<(Seq<char>, Seq<char>)> {
        self.pairs@.map_values(|pair: (String, String)| (pair.0@, pair.1@))
    }
}

/// Where a cache lies: the parts of the path of its directory, and its labels.
#[derive(Debug, PartialEq, Eq)]
pub struct CachePath {
    pub base_path: Vec<String>,
    pub labels: Labels,
}

impl CachePath {
    /// The parts of the path of the directory.
    pub open spec fn parts(&self) -> Seq<Seq<char>> {
        self.base_path@.map_values(|part: String| part@)
    }
}

/// How a cache is stored.
#[derive(Debug, PartialEq, Eq)]
pub struct CacheOptions {
    pub max_readers: u32,
    pub max_db_size: u32,
    pub max_size: usize,
    pub intersection_chunk_size: usize,
    /// Where the cache lies. A cache without a path is temporary.
    pub path: Option<CachePath>,
}

/// The options of the secondary index `name` of a cache. It lies in a directory beside the cache,
/// which is named after the cache's labels, printed as `main_labels`.
pub fn get_cache_options(name: String, main_labels: &str, options: &CacheOptions) -> (result:
    CacheOptions)
    ensures
        result.max_readers == options.max_readers,
        result.max_db_size == options.max_db_size,
        result.max_size == options.max_size,
        result.intersection_chunk_size == options.intersection_chunk_size,
        match options.path {
            None => result.path is None,
            Some(main) => {
                &&& result.path is Some
                &&& result.path->Some_0.parts() == main.parts().push(main_labels@ + "_index"@)
                &&& result.path->Some_0.labels@ == seq![("secondary_index"@, name@)]
            },
        },
{
    let path = match &options.path {
        None => None,
        Some(main) => {
            let mut directory = main_labels.to_owned();
            directory.append("_index");
            let mut base_path = main.base_path.clone();
            let ghost before = base_path@;
            base_path.push(directory);
            let mut pairs: Vec<(String, String)> = Vec::new();
            pairs.push(("secondary_index".to_owned(), name));
            let path = CachePath { base_path, labels: Labels { pairs } };
            assert(path.parts() =~= main.parts().push(main_labels@ + "_index"@)) by {
                assert(before.len() == main.base_path@.len());
                assert(forall|i: int|
                    0 <= i < before.len() ==> #[trigger] before[i]@ == main.base_path@[i]@);
            }
            assert(path.labels@ =~= seq![("secondary_index"@, name@)]);
            Some(path)
        },
    };
    CacheOptions {
        max_readers: options.max_readers,
        max_db_size: options.max_db_size,
        max_size: options.max_size,
        intersection_chunk_size: options.intersection_chunk_size,
        path,
    }
}

/// An index is opened for writing: under which name and definition, what was stored, and what came
/// of it.
pub struct Opening {
    pub name: String,
    pub given: IndexDefinition,
    pub stored: Option<IndexDefinition>,
    pub result: Result<WritableIndex, CacheError>,
}

impl Opening {
    /// What is stored after the index has been opened: a new definition is.
    pub open spec fn stored_after(self) -> Option<IndexDefinitionView> {
        match self.result {
            Ok(index) => if index.is_new {
                Some(index.index_definition@)
            } else {
                stored_view(self.stored)
            },
            Err(_) => stored_view(self.stored),
        }
    }

    /// This is what opening an index for writing does.
    pub open spec fn is_valid(self) -> bool {
        opens_for_writing(self.name, self.given, self.stored, self.result)
    }
}

/// An index is opened for writing time and again. Each time, what the last time left is stored.
pub open spec fn are_openings(openings: Seq<Opening>) -> bool {
    &&& forall|i: int| 0 <= i < openings.len() ==> (#[trigger] openings[i]).is_valid()
    &&& forall|i: int, j: int|
        #![trigger openings[i], openings[j]]
        0 <= i && j == i + 1 && j < openings.len() ==> stored_view(openings[j].stored)
            == openings[i].stored_after()
}

/// Once an index has been opened for writing, its definition is never replaced, however often it is
/// opened again: it can be opened under the same definition and under no other.
pub proof fn law_reopen(openings: Seq<Opening>, i: int, j: int)
    requires
        are_openings(openings),
        0 <= i < j < openings.len(),
        openings[i].result is Ok,
    ensures
        stored_view(openings[j].stored) == Some(openings[i].given@),
        openings[j].result is Ok <==> openings[j].given@ == openings[i].given@,
        openings[j].stored_after() == Some(openings[i].given@),
    decreases j,
{
    assert(openings[i].is_valid() && openings[j].is_valid());
    if j > i + 1 {
        law_reopen(openings, i, j - 1);
    }
    assert(stored_view(openings[j].stored) == openings[j - 1].stored_after());
}

/// Once an index has been opened for writing, it can be opened for reading, whatever openings for
/// writing came between, and the reader gets the definition of the writer.
pub proof fn law_reader_gets_the_definition_of_the_writer(
    openings: Seq<Opening>,
    i: int,
    name: String,
    stored: Option<IndexDefinition>,
    result: Result<IndexDefinition, CacheError>,
)
    requires
        are_openings(openings),
        0 <= i < openings.len(),
        openings[i].result is Ok,
        stored_view(stored) == openings.last().stored_after(),
        opens_for_reading(name, stored, result),
    ensures
        result matches Ok(definition) && definition@ == openings[i].given@,
{
    assert(openings[i].is_valid());
    if i < openings.len() - 1 {
        law_reopen(openings, i, openings.len() - 1);
    }
}

/// Two definitions are the same if both are sorted inverted indexes on the same fields, in the same
/// order, or both are full text indexes on the same field.
pub proof fn law_same_definitions(a: IndexDefinition, b: IndexDefinition)
    ensures
        a@ == b@ <==> match (a, b) {
            (IndexDefinition::SortedInverted(x), IndexDefinition::SortedInverted(y)) => x@ == y@,
            (IndexDefinition::FullText(x), IndexDefinition::FullText(y)) => x == y,
            _ => false,
        },
{
}

/// An index is opened for writing if none is stored, and is then new, or if the stored definition is
/// the one that was asked for, and is then not new. Either way it is opened under the definition
/// that was asked for. Else the error names the index, what was asked for and what is stored.
pub proof fn law_opening_for_writing(
    name: String,
    given: IndexDefinition,
    stored: Option<IndexDefinition>,
    result: Result<WritableIndex, CacheError>,
)
    requires
        opens_for_writing(name, given, stored, result),
    ensures
        result is Ok <==> stored is None || stored->Some_0@ == given@,
        result matches Ok(index) ==> index.index_definition@ == given@ && (index.is_new <==> stored
            is None),
        result matches Err(error) ==> {
            &&& error matches CacheError::IndexDefinitionMismatch {
                name: error_name,
                given: error_given,
                stored: error_stored,
            }
            &&& error_name@ == name@
            &&& error_given@ == given@
            &&& stored is Some
            &&& error_stored@ == stored->Some_0@
            &&& error_given@ != error_stored@
        },
{
}

/// An index is opened for reading exactly if a definition is stored, and then under that one. Else
/// the error names the index.
pub proof fn law_opening_for_reading(
    name: String,
    stored: Option<IndexDefinition>,
    result: Result<IndexDefinition, CacheError>,
)
    requires
        opens_for_reading(name, stored, result),
    ensures
        result is Ok <==> stored is Some,
        result matches Ok(definition) ==> definition@ == stored->Some_0@,
        result matches Err(error) ==> error matches CacheError::IndexDefinitionNotFound(error_name)
            && error_name@ == name@,
{
}

/// The parts of a path and the labels are those that are stored, one by one.
pub proof fn law_parts_and_labels(path: CachePath)
    ensures
        path.parts().len() == path.base_path@.len(),
        forall|i: int|
            0 <= i < path.base_path@.len() ==> #[trigger] path.parts()[i] == path.base_path@[i]@,
        path.labels@.len() == path.labels.pairs@.len(),
        forall|i: int|
            0 <= i < path.labels.pairs@.len() ==> #[trigger] path.labels@[i] == (
                path.labels.pairs@[i].0@,
                path.labels.pairs@[i].1@,
            ),
{
}

} // verus!

//! The embedding store: one partition of labelled vectors per category.
use crate::codec::{
    bincode_decoded, bincode_of, decode_pair, encode_pair, labels_view, vectors_view,
};
use crate::ranking::{is_top_ranking, ranks_before, score_key, top_indices};
use vstd::prelude::*;
use vstd::string::StringExecFns;

verus! {

/// Number of components of every vector held by the store.
pub const DIM: usize = 1536;

/// Directory, relative to the storage root, that holds the persisted partitions.
pub const STORAGE_DIR: &'static str = "database";

/// The semantic category that partitions the store.
#[derive(Debug, Clone, Copy, PartialEq, Eq, Hash, Structural)]
pub enum Category {
    Element,
    Ability,
}

/// File name of the persisted partition of a category.
pub open spec fn file_name_of(category: Category) -> Seq<char> {
    match category {
        Category::Element => "elements.bin"@,
        Category::Ability => "abilities.bin"@,
    }
}

/// Path of the file that holds the persisted partition of `category`.
pub open spec fn storage_path_of(category: Category) -> Seq<char> {
    STORAGE_DIR@ + "/"@ + file_name_of(category)
}

/// The path at which the partition of `category` is persisted.
pub fn get_storage_path(category: &Category) -> (r: String)
    ensures
        r@ == storage_path_of(*category),
{
    let filename = match category {
        Category::Element => "elements.bin",
        Category::Ability => "abilities.bin",
    };
    let mut path = String::from_str(STORAGE_DIR);
    path.append("/");
    path.append(filename);
    path
}

/// A record as the contracts see it: its label and its vector's components.
pub type RecordView = (Seq<char>, Seq<u32>);

/// What can go wrong in the store, in search and in matching.
#[derive(Debug, Clone, Copy, PartialEq, Eq, Structural)]
pub enum EmbeddingError {
    /// A vector does not have `DIM` components.
    DimensionMismatch,
    /// A persisted partition could not be read or written.
    PersistenceError,
    /// The embedding provider did not deliver a vector.
    ProviderError,
    /// A search returned nothing.
    NoMatch,
    /// The best match names no entry of the catalog.
    UnknownLabel,
}

/// Records made of a label list and a vector list of the same length.
pub open spec fn records_of(labels: Seq<Seq<char>>, vectors: Seq<Seq<u32>>) -> Seq<RecordView> {
    Seq::new(labels.len(), |i: int| (labels[i], vectors[i]))
}

/// Every vector of the partition has `DIM` components.
pub open spec fn is_valid_partition(p: Seq<RecordView>) -> bool {
    forall|i: int| 0 <= i < p.len() ==> (#[trigger] p[i]).1.len() == DIM
}

/// The bytes under which a partition is persisted.
pub open spec fn encoded(p: Seq<RecordView>) -> Seq<u8> {
    bincode_of(p.map_values(|r: RecordView| r.0), p.map_values(|r: RecordView| r.1))
}

/// The partition that `bytes` holds, if they hold a well-formed one.
pub open spec fn decoded_partition(bytes: Seq<u8>) -> Option<Seq<RecordView>> {
    match bincode_decoded(bytes) {
        Some(pair) => {
            let p = records_of(pair.0, pair.1);
            if pair.0.len() == pair.1.len() && is_valid_partition(p) {
                Some(p)
            } else {
                None
            }
        },
        None => None,
    }
}

/// The labelled vectors of one category, in insertion order.
pub struct EmbeddingStorage {
    queries: Vec<String>,
    vectors: Vec<Vec<u32>>,
}

impl View for EmbeddingStorage {
    type V = Seq<RecordView>;

    closed spec fn view(&self) -> Seq<RecordView> {
        records_of(labels_view(self.queries@), vectors_view(self.vectors@))
    }
}

impl EmbeddingStorage {
    /// One vector per label, each of `DIM` components.
    pub closed spec fn wf(&self) -> bool {
        &&& self.queries.len() == self.vectors.len()
        &&& forall|i: int| 0 <= i < self.vectors.len() ==> (#[trigger] self.vectors@[i]).len() == DIM
    }

    /// An empty partition.
    pub fn new() -> (r: EmbeddingStorage)
        ensures
            r.wf(),
            r@ == Seq::<RecordView>::empty(),
    {
        let r = EmbeddingStorage { queries: Vec::new(), vectors: Vec::new() };
        assert(r@ =~= Seq::<RecordView>::empty());
        r
    }

    /// Adds a record at the end; a vector of another length than `DIM` is
    /// refused and leaves the partition as it was.
    pub fn append(&mut self, query: String, vector: Vec<u32>) -> (r: Result<(), EmbeddingError>)
        requires
            old(self).wf(),
        ensures
            final(self).wf(),
            vector@.len() == DIM ==> r is Ok && final(self)@ == old(self)@.push((query@, vector@)),
            vector@.len() != DIM ==> r == Err::<(), EmbeddingError>(
                EmbeddingError::DimensionMismatch,
            ) && final(self)@ == old(self)@,
    {
        if vector.len() != DIM {
            return Err(EmbeddingError::DimensionMismatch);
        }
        let ghost before = self@;
        self.queries.push(query);
        self.vectors.push(vector);
        assert(self@ =~= before.push((query@, vector@)));
        Ok(())
    }

    /// Number of records.
    pub fn len(&self) -> (r: usize)
        requires
            self.wf(),
        ensures
            r == self@.len(),
    {
        self.queries.len()
    }

    /// Label of record `i`.
    pub fn label(&self, i: usize) -> (r: &String)
        requires
            self.wf(),
            i < self@.len(),
        ensures
            r@ == self@[i as int].0,
    {
        &self.queries[i]
    }

    /// Vector of record `i`.
    pub fn vector(&self, i: usize) -> (r: &Vec<u32>)
        requires
            self.wf(),
            i < self@.len(),
        ensures
            r@ == self@[i as int].1,
    {
        &self.vectors[i]
    }

    /// The bytes to persist for this partition.
    pub fn to_bytes(&self) -> (r: Result<Vec<u8>, EmbeddingError>)
        requires
            self.wf(),
        ensures
            r is Ok,
            r->Ok_0@ == encoded(self@),
    {
        let ghost p = self@;
        assert(p.map_values(|r: RecordView| r.0) =~= labels_view(self.queries@));
        assert(p.map_values(|r: RecordView| r.1) =~= vectors_view(self.vectors@));
        match encode_pair(&self.queries, &self.vectors) {
            Ok(bytes) => Ok(bytes),
            Err(_) => Err(EmbeddingError::PersistenceError),
        }
    }

    /// Reads a persisted partition: fails on bytes that do not decode, and on
    /// a decoded partition whose lists differ in length or whose vectors do
    /// not all have `DIM` components.
    pub fn from_bytes(bytes: &Vec<u8>) -> (r: Result<EmbeddingStorage, EmbeddingError>)
        ensures
            match decoded_partition(bytes@) {
                Some(p) => r is Ok && r->Ok_0.wf() && r->Ok_0@ == p,
                None => r == Err::<EmbeddingStorage, EmbeddingError>(
                    EmbeddingError::PersistenceError,
                ),
            },
            forall|p: Seq<RecordView>|
                is_valid_partition(p) && bytes@ == #[trigger] encoded(p) ==> r is Ok
                    && r->Ok_0@ == p,
    {
        let ghost labels_of = |p: Seq<RecordView>| p.map_values(|r: RecordView| r.0);
        let ghost vectors_of = |p: Seq<RecordView>| p.map_values(|r: RecordView| r.1);
        assert forall|p: Seq<RecordView>| #[trigger]
            records_of(labels_of(p), vectors_of(p)) == p by {
            assert(records_of(labels_of(p), vectors_of(p)) =~= p);
        }
        match decode_pair(bytes) {
            Ok(pair) => {
                let (queries, vectors) = pair;
                if queries.len() != vectors.len() {
                    return Err(EmbeddingError::PersistenceError);
                }
                let mut i: usize = 0;
                while i < vectors.len()
                    invariant
                        i <= vectors.len(),
                        queries.len() == vectors.len(),
                        bincode_decoded(bytes@) == Some(
                            (labels_view(queries@), vectors_view(vectors@)),
                        ),
                        forall|l: Seq<Seq<char>>, v: Seq<Seq<u32>>|
                            bytes@ == #[trigger] bincode_of(l, v) ==> labels_view(queries@) == l
                                && vectors_view(vectors@) == v,
                        forall|j: int| 0 <= j < i ==> (#[trigger] vectors@[j]).len() == DIM,
                    decreases vectors.len() - i,
                {
                    if vectors[i].len() != DIM {
                        proof {
                            let p = records_of(labels_view(queries@), vectors_view(vectors@));
                            assert(p[i as int].1.len() != DIM);
                            assert forall|q: Seq<RecordView>|
                                is_valid_partition(q) && bytes@ == #[trigger] encoded(
                                    q,
                                ) implies false by {
                                let ql = q.map_values(|r: RecordView| r.0);
                                let qv = q.map_values(|r: RecordView| r.1);
                                assert(bytes@ == bincode_of(ql, qv));
                                assert(vectors_view(vectors@) == qv);
                                assert(vectors@[i as int]@ == qv[i as int]);
                            }
                        }
                        return Err(EmbeddingError::PersistenceError);
                    }
                    i += 1;
                }
                let r = EmbeddingStorage { queries, vectors };
                Ok(r)
            },
            Err(_) => Err(EmbeddingError::PersistenceError),
        }
    }
}

/// The resident partitions, at most one per category. A category is absent
/// until it is loaded, and absent again after it is unloaded. Handlers that
/// share the store keep it behind one lock and hold it for each operation.
pub struct EmbeddingStore {
    element: Option<EmbeddingStorage>,
    ability: Option<EmbeddingStorage>,
}

impl EmbeddingStore {
    pub closed spec fn slot(&self, category: Category) -> Option<EmbeddingStorage> {
        match category {
            Category::Element => self.element,
            Category::Ability => self.ability,
        }
    }

    /// Every resident partition is well formed.
    pub closed spec fn wf(&self) -> bool {
        &&& self.element is Some ==> self.element->Some_0.wf()
        &&& self.ability is Some ==> self.ability->Some_0.wf()
    }

    /// A store with no resident partition.
    pub fn new() -> (r: EmbeddingStore)
        ensures
            r.wf(),
            r@ == Map::<Category, Seq<RecordView>>::empty(),
    {
        let r = EmbeddingStore { element: None, ability: None };
        assert(r@ =~= Map::<Category, Seq<RecordView>>::empty());
        r
    }

    /// Whether the partition of `category` is resident.
    pub fn is_loaded(&self, category: &Category) -> (r: bool)
        ensures
            r == self@.contains_key(*category),
    {
        match category {
            Category::Element => self.element.is_some(),
            Category::Ability => self.ability.is_some(),
        }
    }

    /// The resident partition of `category`, for reading.
    pub fn partition(&self, category: &Category) -> (r: Option<&EmbeddingStorage>)
        requires
            self.wf(),
        ensures
            r is Some <==> self@.contains_key(*category),
            r is Some ==> r->Some_0.wf() && r->Some_0@ == self@[*category] && is_valid_partition(
                r->Some_0@,
            ),
    {
        match category {
            Category::Element => self.element.as_ref(),
            Category::Ability => self.ability.as_ref(),
        }
    }

    /// Puts `storage` in the slot of `category`, replacing what was there.
    fn install(&mut self, category: Category, storage: EmbeddingStorage)
        requires
            old(self).wf(),
            storage.wf(),
        ensures
            final(self).wf(),
            final(self)@ == old(self)@.insert(category, storage@),
    {
        let ghost before = self@;
        let ghost p = storage@;
        match category {
            Category::Element => self.element = Some(storage),
            Category::Ability => self.ability = Some(storage),
        }
        assert(self@ =~= before.insert(category, p));
    }
}

impl View for EmbeddingStore {
    type V = Map<Category, Seq<RecordView>>;

    closed spec fn view(&self) -> Map<Category, Seq<RecordView>> {
        Map::new(|c: Category| self.slot(c) is Some, |c: Category| self.slot(c)->Some_0@)
    }
}

/// The store after loading `category` with `file` as the content of its
/// persisted partition (`None`: no file), or `None` where loading fails.
pub open spec fn load_outcome(
    store: Map<Category, Seq<RecordView>>,
    category: Category,
    file: Option<Seq<u8>>,
) -> Option<Map<Category, Seq<RecordView>>> {
    if store.contains_key(category) {
        Some(store)
    } else {
        match file {
            None => Some(store.insert(category, Seq::empty())),
            Some(bytes) => match decoded_partition(bytes) {
                Some(p) => Some(store.insert(category, p)),
                None => None,
            },
        }
    }
}

pub open spec fn file_view(file: Option<Vec<u8>>) -> Option<Seq<u8>> {
    match file {
        Some(bytes) => Some(bytes@),
        None => None,
    }
}

/// Makes the partition of `category` resident. A resident partition is kept
/// as it is, whatever `file` holds. Otherwise `file` is what was read from
/// its persisted location: `None` where no file exists, which installs an
/// empty partition; bytes that do not hold a well-formed partition fail
/// with `PersistenceError` and leave the store unchanged.
pub fn load(store: &mut EmbeddingStore, category: Category, file: Option<Vec<u8>>) -> (r: Result<
    (),
    EmbeddingError,
>)
    requires
        old(store).wf(),
    ensures
        final(store).wf(),
        match load_outcome(old(store)@, category, file_view(file)) {
            Some(m) => r is Ok && final(store)@ == m,
            None => {
                &&& r == Err::<(), EmbeddingError>(EmbeddingError::PersistenceError)
                &&& final(store)@ == old(store)@
            },
        },
        forall|p: Seq<RecordView>|
            !old(store)@.contains_key(category) && is_valid_partition(p) && file_view(file)
                == Some(#[trigger] encoded(p)) ==> {
                &&& r is Ok
                &&& final(store)@ == old(store)@.insert(category, p)
            },
{
    if store.is_loaded(&category) {
        return Ok(());
    }
    match file {
        None => {
            store.install(category, EmbeddingStorage::new());
            Ok(())
        },
        Some(bytes) => {
            let storage = EmbeddingStorage::from_bytes(&bytes)?;
            store.install(category, storage);
            Ok(())
        },
    }
}

/// The bytes to persist for `category`: `None` where its partition is not
/// resident, in which case there is nothing to save.
pub fn save(store: &EmbeddingStore, category: &Category) -> (r: Result<
    Option<Vec<u8>>,
    EmbeddingError,
>)
    requires
        store.wf(),
    ensures
        !store@.contains_key(*category) ==> r == Ok::<Option<Vec<u8>>, EmbeddingError>(None),
        store@.contains_key(*category) ==> {
            &&& r is Ok
            &&& r->Ok_0 is Some
            &&& r->Ok_0->Some_0@ == encoded(store@[*category])
            &&& is_valid_partition(store@[*category])
        },
{
    match store.partition(category) {
        Some(storage) => {
            let bytes = storage.to_bytes()?;
            Ok(Some(bytes))
        },
        None => Ok(None),
    }
}

/// Drops the resident partition of `category`, saved or not.
pub fn unload(store: &mut EmbeddingStore, category: &Category)
    requires
        old(store).wf(),
    ensures
        final(store).wf(),
        final(store)@ == old(store)@.remove(*category),
{
    let ghost before = store@;
    match category {
        Category::Element => store.element = None,
        Category::Ability => store.ability = None,
    }
    assert(store@ =~= before.remove(*category));
}

/// The store after appending (label, vector) to the resident partition of
/// `category`.
pub open spec fn appended(
    store: Map<Category, Seq<RecordView>>,
    category: Category,
    label: Seq<char>,
    vector: Seq<u32>,
) -> Map<Category, Seq<RecordView>> {
    store.insert(category, store[category].push((label, vector)))
}

/// After an append, reading the partition of `category` shows the appended
/// record last, as it was given, after the records that were there before;
/// the other categories are untouched.
pub proof fn lemma_append_then_read(
    store: Map<Category, Seq<RecordView>>,
    category: Category,
    label: Seq<char>,
    vector: Seq<u32>,
)
    requires
        store.contains_key(category),
    ensures
        appended(store, category, label, vector).contains_key(category),
        appended(store, category, label, vector)[category].last() == (label, vector),
        appended(store, category, label, vector)[category].drop_last() == store[category],
        forall|other: Category|
            other != category ==> appended(store, category, label, vector).contains_key(other)
                == store.contains_key(other) && (store.contains_key(other) ==> appended(
                store,
                category,
                label,
                vector,
            )[other] == store[other]),
{
    assert(store[category].push((label, vector)).drop_last() =~= store[category]);
}

/// Appends (query, vector) to the resident partition of `category`; callers
/// load the category first, so that its persisted records are kept. A
/// vector of another length than `DIM` fails with `DimensionMismatch` and
/// changes nothing.
pub fn append_embedding(
    store: &mut EmbeddingStore,
    vector: Vec<u32>,
    query: &str,
    category: Category,
) -> (r: Result<(), EmbeddingError>)
    requires
        old(store).wf(),
        old(store)@.contains_key(category),
    ensures
        final(store).wf(),
        vector@.len() == DIM ==> r is Ok && final(store)@ == appended(
            old(store)@,
            category,
            query@,
            vector@,
        ),
        vector@.len() != DIM ==> r == Err::<(), EmbeddingError>(EmbeddingError::DimensionMismatch)
            && final(store)@ == old(store)@,
{
    if vector.len() != DIM {
        return Err(EmbeddingError::DimensionMismatch);
    }
    let slot = match category {
        Category::Element => store.element.take(),
        Category::Ability => store.ability.take(),
    };
    let mut storage = match slot {
        Some(s) => s,
        None => EmbeddingStorage::new(),
    };
    let label = query.to_owned();
    let _ = storage.append(label, vector);
    store.install(category, storage);
    Ok(())
}

/// Every partition that a well-formed store holds has vectors of `DIM`
/// components only.
pub proof fn lemma_resident_partitions_valid(store: &EmbeddingStore, category: Category)
    requires
        store.wf(),
        store@.contains_key(category),
    ensures
        is_valid_partition(store@[category]),
{
    let p = store.slot(category)->Some_0;
    assert forall|i: int| 0 <= i < p@.len() implies (#[trigger] p@[i]).1.len() == DIM by {
        assert(p@[i].1 == p.vectors@[i]@);
    }
}

/// Loads both categories, elements first, from the contents of their
/// persisted files; stops at the first failure.
pub fn initialize_storage(
    store: &mut EmbeddingStore,
    element_file: Option<Vec<u8>>,
    ability_file: Option<Vec<u8>>,
) -> (r: Result<(), EmbeddingError>)
    requires
        old(store).wf(),
    ensures
        final(store).wf(),
        match load_outcome(old(store)@, Category::Element, file_view(element_file)) {
            Some(m) => match load_outcome(m, Category::Ability, file_view(ability_file)) {
                Some(m2) => r is Ok && final(store)@ == m2,
                None => r == Err::<(), EmbeddingError>(EmbeddingError::PersistenceError)
                    && final(store)@ == m,
            },
            None => {
                &&& r == Err::<(), EmbeddingError>(EmbeddingError::PersistenceError)
                &&& final(store)@ == old(store)@
            },
        },
{
    load(store, Category::Element, element_file)?;
    load(store, Category::Ability, ability_file)?;
    Ok(())
}

/// Loading a category a second time changes nothing, whatever the second
/// read of its file returns.
pub proof fn lemma_load_idempotent(
    store: Map<Category, Seq<RecordView>>,
    category: Category,
    first: Option<Seq<u8>>,
    second: Option<Seq<u8>>,
)
    requires
        load_outcome(store, category, first) is Some,
    ensures
        load_outcome(load_outcome(store, category, first)->Some_0, category, second) == load_outcome(
            store,
            category,
            first,
        ),
{
}

/// The result of a search: the records at `picked`, each with its score.
pub open spec fn search_result(
    p: Seq<RecordView>,
    scores: Seq<u32>,
    picked: Seq<usize>,
    r: Seq<(String, u32)>,
) -> bool {
    &&& r.len() == picked.len()
    &&& forall|i: int|
        0 <= i < r.len() ==> (#[trigger] r[i]).0@ == p[picked[i] as int].0 && r[i].1
            == scores[picked[i] as int]
}

/// The `top_n` best-scoring records of `storage`, best first, with their
/// scores; `scores[i]` is the bit pattern of record `i`'s score. Equal
/// scores keep partition order and non-finite scores come last. Fewer
/// records than `top_n` are all returned; an empty partition or a `top_n` of
/// zero gives an empty result.
pub fn search(storage: &EmbeddingStorage, scores: &Vec<u32>, top_n: usize) -> (r: Vec<(String, u32)>)
    requires
        storage.wf(),
        scores.len() == storage@.len(),
    ensures
        r.len() == if top_n < scores.len() {
            top_n as int
        } else {
            scores.len() as int
        },
        forall|i: int, j: int|
            0 <= i < j < r.len() ==> score_key((#[trigger] r[i]).1) >= score_key(
                (#[trigger] r[j]).1,
            ),
        exists|picked: Seq<usize>|
            is_top_ranking(scores@, picked, top_n as nat) && search_result(
                storage@,
                scores@,
                picked,
                r@,
            ),
{
    let picked = top_indices(scores, top_n);
    let mut r: Vec<(String, u32)> = Vec::new();
    let mut i: usize = 0;
    while i < picked.len()
        invariant
            storage.wf(),
            scores.len() == storage@.len(),
            is_top_ranking(scores@, picked@, top_n as nat),
            i <= picked.len(),
            search_result(storage@, scores@, picked@.subrange(0, i as int), r@),
        decreases picked.len() - i,
    {
        let k = picked[i];
        let label = storage.label(k).clone();
        r.push((label, scores[k]));
        i += 1;
        assert(search_result(storage@, scores@, picked@.subrange(0, i as int), r@));
    }
    assert(picked@.subrange(0, i as int) =~= picked@);
    assert forall|a: int, b: int| 0 <= a < b < r.len() implies score_key(
        (#[trigger] r[a]).1,
    ) >= score_key((#[trigger] r[b]).1) by {
        assert(ranks_before(scores@, picked@[a] as int, picked@[b] as int));
    }
    r
}

} // verus!

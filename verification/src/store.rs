use crate::types::ChunkList;
use crate::types::Collection;
use crate::types::DocumentMetadata;
use crate::types::MemoryStats;
use crate::types::StringList;
use crate::types::Vector;
use crate::types::valid_vector;
use crate::util::sat_add_spec;
use crate::util::sat_add_u64;
use vstd::hash_map::StringHashMap;
use vstd::prelude::*;

verus! {

broadcast use vstd::hash_map::axiom_string_hash_map_spec_len;

/// The storage key of a document: `collection_id`, a double colon, and the
/// document id.
pub open spec fn doc_key(c: Seq<char>, d: Seq<char>) -> Seq<char> {
    c + seq![':', ':'] + d
}

pub fn make_doc_key(collection_id: &String, document_id: &String) -> (r: String)
    ensures
        r@ == doc_key(collection_id@, document_id@),
{
    let mut k = collection_id.clone();
    crate::util::push_char(&mut k, ':');
    crate::util::push_char(&mut k, ':');
    k.append(document_id.as_str());
    proof {
        assert(k@ =~= doc_key(collection_id@, document_id@));
    }
    k
}

/// An id list mirrors a map's domain: no duplicates, and membership in the
/// list coincides with presence in the map.
pub open spec fn ids_match<V>(ids: Seq<Seq<char>>, m: Map<Seq<char>, V>) -> bool {
    &&& ids.no_duplicates()
    &&& forall|k: Seq<char>| m.dom().contains(k) <==> ids.contains(k)
}

/// A map mirrored by an id list has exactly as many entries as the list.
pub proof fn lemma_ids_match_len<V>(ids: Seq<Seq<char>>, m: Map<Seq<char>, V>)
    requires
        ids_match(ids, m),
    ensures
        m.dom().finite(),
        m.dom().len() == ids.len(),
{
    broadcast use vstd::seq_lib::seq_to_set_is_finite;

    assert(m.dom() =~= ids.to_set());
    ids.unique_seq_to_set();
}

/// The whole persistent state: one map per entity class, plus the ordered id
/// lists that stand in for map iteration.
pub struct Store {
    /// Collections by collection id.
    pub collections: StringHashMap<Collection>,
    /// Insertion-ordered list of the collection ids.
    pub collection_ids: Vec<String>,
    /// Document metadata by composite key `collection_id::document_id`.
    pub documents: StringHashMap<DocumentMetadata>,
    /// Chunk lists by document id.
    pub chunks: StringHashMap<ChunkList>,
    /// Insertion-ordered list of the document ids holding chunk lists.
    pub chunk_doc_ids: Vec<String>,
    /// Vectors by vector id.
    pub vectors: StringHashMap<Vector>,
    /// Insertion-ordered list of the stored vector ids.
    pub vector_ids: Vec<String>,
    /// Vector-id lists by collection id.
    pub vector_index: StringHashMap<StringList>,
    /// Document-id lists by collection id.
    pub document_index: StringHashMap<StringList>,
    /// Configuration values by key.
    pub config: StringHashMap<String>,
}

impl Store {
    /// Well-formedness: the id lists mirror their maps, every collection and
    /// vector sits under its own id, and every stored vector is valid.
    pub open spec fn wf(&self) -> bool {
        &&& ids_match(self.collection_ids.deep_view(), self.collections@)
        &&& ids_match(self.chunk_doc_ids.deep_view(), self.chunks@)
        &&& ids_match(self.vector_ids.deep_view(), self.vectors@)
        &&& forall|k: Seq<char>|
            self.collections@.contains_key(k) ==> (#[trigger] self.collections@[k]).id@ == k
        &&& forall|k: Seq<char>|
            self.vectors@.contains_key(k) ==> (#[trigger] self.vectors@[k]).id@ == k
        &&& forall|k: Seq<char>|
            self.vectors@.contains_key(k) ==> valid_vector((#[trigger] self.vectors@[k])@)
    }

    pub fn new() -> (r: Store)
        ensures
            r.wf(),
            r.collections@ == Map::<Seq<char>, Collection>::empty(),
            r.documents@ == Map::<Seq<char>, DocumentMetadata>::empty(),
            r.chunks@ == Map::<Seq<char>, ChunkList>::empty(),
            r.vectors@ == Map::<Seq<char>, Vector>::empty(),
            r.vector_index@ == Map::<Seq<char>, StringList>::empty(),
            r.document_index@ == Map::<Seq<char>, StringList>::empty(),
            r.config@ == Map::<Seq<char>, String>::empty(),
    {
        let r = Store {
            collections: StringHashMap::new(),
            collection_ids: Vec::new(),
            documents: StringHashMap::new(),
            chunks: StringHashMap::new(),
            chunk_doc_ids: Vec::new(),
            vectors: StringHashMap::new(),
            vector_ids: Vec::new(),
            vector_index: StringHashMap::new(),
            document_index: StringHashMap::new(),
            config: StringHashMap::new(),
        };
        proof {
            assert(r.collection_ids.deep_view() =~= Seq::<Seq<char>>::empty());
            assert(r.chunk_doc_ids.deep_view() =~= Seq::<Seq<char>>::empty());
            assert(r.vector_ids.deep_view() =~= Seq::<Seq<char>>::empty());
        }
        r
    }
}

// =============================================================================
// CONFIGURATION
// =============================================================================

pub fn set_config(store: &mut Store, key: &String, value: String) -> (r: Result<(), String>)
    requires
        old(store).wf(),
    ensures
        final (store).wf(),
        r is Ok,
        final (store).config@ == old(store).config@.insert(key@, value),
        final (store).collections@ == old(store).collections@,
        final (store).documents@ == old(store).documents@,
        final (store).chunks@ == old(store).chunks@,
        final (store).vectors@ == old(store).vectors@,
        final (store).vector_index@ == old(store).vector_index@,
        final (store).document_index@ == old(store).document_index@,
        final (store).collection_ids@ == old(store).collection_ids@,
        final (store).chunk_doc_ids@ == old(store).chunk_doc_ids@,
        final (store).vector_ids@ == old(store).vector_ids@,
    {
    store.config.insert(key.clone(), value);
    Ok(())
}

pub fn get_config(store: &Store, key: &String) -> (r: Option<String>)
    ensures
        match r {
            Some(v) => store.config@.contains_key(key@) && v@ == store.config@[key@]@,
            None => !store.config@.contains_key(key@),
        },
{
    match store.config.get(key.as_str()) {
        Some(v) => Some(v.clone()),
        None => None,
    }
}

// =============================================================================
// GLOBAL COUNTS
// =============================================================================

pub fn count_collections(store: &Store) -> (r: u64)
    ensures
        r == store.collections@.len(),
{
    let n = store.collections.len();
    proof {
        assert(store.collections@.len() == store.collections.len());
    }
    n as u64
}

pub fn count_documents(store: &Store) -> (r: u64)
    ensures
        r == store.documents@.len(),
{
    store.documents.len() as u64
}

pub fn count_vectors(store: &Store) -> (r: u64)
    ensures
        r == store.vectors@.len(),
{
    store.vectors.len() as u64
}

/// The total number of chunks over a list of document ids, saturating at the
/// 64-bit maximum.
pub open spec fn sum_chunk_counts(ids: Seq<Seq<char>>, m: Map<Seq<char>, ChunkList>) -> u64
    decreases ids.len(),
{
    if ids.len() == 0 {
        0u64
    } else {
        sat_add_spec(
            sum_chunk_counts(ids.drop_last(), m),
            if m.contains_key(ids.last()) {
                m[ids.last()]@.len() as u64
            } else {
                0u64
            },
        )
    }
}

pub fn count_chunks(store: &Store) -> (r: u64)
    requires
        store.wf(),
    ensures
        r == sum_chunk_counts(store.chunk_doc_ids.deep_view(), store.chunks@),
{
    let n = store.chunk_doc_ids.len();
    let mut total: u64 = 0;
    let mut i: usize = 0;
    while i < n
        invariant
            0 <= i <= n,
            n == store.chunk_doc_ids@.len(),
            total == sum_chunk_counts(store.chunk_doc_ids.deep_view().take(i as int), store.chunks@),
        decreases n - i,
    {
        let ghost ids = store.chunk_doc_ids.deep_view();
        proof {
            assert(ids.take(i + 1).drop_last() =~= ids.take(i as int));
            assert(ids.take(i + 1).last() == ids[i as int]);
            assert(ids[i as int] == store.chunk_doc_ids@[i as int]@);
        }
        let add: u64 = match store.chunks.get(store.chunk_doc_ids[i].as_str()) {
            Some(list) => list.0.len() as u64,
            None => 0,
        };
        proof {
            if store.chunks@.contains_key(ids[i as int]) {
                assert(store.chunks@[ids[i as int]]@.len() == store.chunks@[ids[i as int]].0@.len());
            }
        }
        total = sat_add_u64(total, add);
        i += 1;
    }
    proof {
        assert(store.chunk_doc_ids.deep_view().take(n as int) =~= store.chunk_doc_ids.deep_view());
    }
    total
}

/// Collection, document, chunk and vector counts, in that order.
pub fn get_storage_stats(store: &Store) -> (r: (u64, u64, u64, u64))
    requires
        store.wf(),
    ensures
        r.0 == store.collections@.len(),
        r.1 == store.documents@.len(),
        r.2 == sum_chunk_counts(store.chunk_doc_ids.deep_view(), store.chunks@),
        r.3 == store.vectors@.len(),
{
    (count_collections(store), count_documents(store), count_chunks(store), count_vectors(store))
}

// =============================================================================
// MEMORY STATISTICS
// =============================================================================

/// Bytes in one memory page of the host's paged stable memory.
pub const PAGE_BYTES: u64 = 65_536;

/// Saturating multiplication for byte totals.
pub open spec fn sat_mul_spec(a: u64, b: u64) -> u64 {
    if a * b <= u64::MAX {
        (a * b) as u64
    } else {
        u64::MAX
    }
}

pub fn sat_mul_u64(a: u64, b: u64) -> (r: u64)
    ensures
        r == sat_mul_spec(a, b),
{
    if b == 0 {
        return 0;
    }
    if a > u64::MAX / b {
        proof {
            assert(a * b > u64::MAX) by (nonlinear_arith)
                requires
                    a > u64::MAX / b,
                    b > 0,
                    a <= u64::MAX,
            {
                vstd::arithmetic::div_mod::lemma_fundamental_div_mod(u64::MAX as int, b as int);
            }
        }
        u64::MAX
    } else {
        proof {
            assert(a * b <= u64::MAX) by (nonlinear_arith)
                requires
                    a <= u64::MAX / b,
                    b > 0,
            {
                vstd::arithmetic::div_mod::lemma_fundamental_div_mod(u64::MAX as int, b as int);
            }
        }
        a * b
    }
}

/// Derives the memory statistics record from page counts the host reports.
pub fn memory_stats_from_pages(total_pages: u64, used_pages: u64) -> (r: MemoryStats)
    ensures
        r.total_pages == total_pages,
        r.used_pages == used_pages,
        r.total_bytes == sat_mul_spec(total_pages, PAGE_BYTES),
        r.available_bytes == sat_mul_spec(
            if used_pages <= total_pages {
                (total_pages - used_pages) as u64
            } else {
                0u64
            },
            PAGE_BYTES,
        ),
{
    let available_pages: u64 = if used_pages <= total_pages {
        total_pages - used_pages
    } else {
        0
    };
    MemoryStats {
        total_pages,
        used_pages,
        total_bytes: sat_mul_u64(total_pages, PAGE_BYTES),
        available_bytes: sat_mul_u64(available_pages, PAGE_BYTES),
    }
}

} // verus!

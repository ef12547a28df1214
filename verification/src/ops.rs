use crate::cache::BoundedCache;
use crate::store::Store;
use crate::store::doc_key;
use crate::types::AdminLevel;
use crate::types::SemanticChunk;
use crate::types::Vector;
use vstd::prelude::*;

verus! {

/// The display name of an admin level.
pub fn level_name(level: AdminLevel) -> (r: String)
    ensures
        level == AdminLevel::Genesis ==> r@ == "genesis"@,
        level == AdminLevel::Regular ==> r@ == "regular"@,
        level == AdminLevel::NoAccess ==> r@ == "none"@,
{
    match level {
        AdminLevel::Genesis => String::from_str("genesis"),
        AdminLevel::Regular => String::from_str("regular"),
        AdminLevel::NoAccess => String::from_str("none"),
    }
}

/// Decides whether a document can be embedded now: its collection and the
/// document itself must exist, it must not be embedded already, and it
/// must have chunks.  On success the chunks are handed back.
pub fn check_embeddable(store: &Store, collection_id: &String, document_id: &String) -> (r: Result<
    Vec<SemanticChunk>,
    String,
>)
    requires
        store.wf(),
    ensures
        r is Ok <==> ({
            &&& store.collections@.contains_key(collection_id@)
            &&& crate::documents::document_visible(*store, collection_id@, document_id@)
            &&& !store.documents@[doc_key(collection_id@, document_id@)]@.is_embedded
            &&& store.chunks@.contains_key(document_id@)
            &&& store.chunks@[document_id@]@.len() > 0
        }),
        r matches Ok(chunks) ==> crate::types::ChunkList(chunks)@ == store.chunks@[document_id@]@,
{
    if !crate::collections::collection_exists(store, collection_id) {
        return Err(String::from_str("Collection not found"));
    }
    let document = match crate::documents::get_document(store, collection_id, document_id) {
        Some(d) => d,
        None => {
            return Err(String::from_str("Document not found"));
        },
    };
    if document.is_embedded {
        return Err(String::from_str("Document is already embedded"));
    }
    let chunks = crate::documents::get_document_chunks(store, document_id);
    if chunks.len() == 0 {
        return Err(String::from_str("No chunks found for document"));
    }
    proof {
        if !store.chunks@.contains_key(document_id@) {
            assert(chunks@.len() == 0);
        }
    }
    Ok(chunks)
}

/// Lands an embedding batch: stores the vectors, marks the document
/// embedded, and invalidates the collection's cache entry, all in one
/// non-suspending step.  It succeeds exactly when the batch is valid and
/// resolvable and the document record exists.
pub fn ingest_finish(
    store: &mut Store,
    cache: &mut BoundedCache,
    collection_id: &String,
    document_id: &String,
    vectors: Vec<Vector>,
) -> (r: Result<u32, String>)
    requires
        old(store).wf(),
        old(cache).wf(),
    ensures
        final (store).wf(),
        final (cache).wf(),
        r is Ok <==> ({
            &&& crate::vectors::batch_valid(crate::util::views_of_vectors(vectors@))
            &&& crate::vectors::batch_resolvable(
                *old(store),
                crate::util::views_of_vectors(vectors@),
            )
            &&& old(store).documents@.contains_key(doc_key(collection_id@, document_id@))
        }),
        r matches Ok(count) ==> count == vectors@.len() as u32,
        r is Ok ==> ({
            let folded = crate::vectors::batch_fold(
                *old(store),
                crate::vectors::vector_map_views(old(store).vectors@),
                crate::vectors::index_views(old(store).vector_index@),
                crate::util::views_of_vectors(vectors@),
            );
            &&& crate::vectors::vector_map_views(final (store).vectors@) == folded.0
            &&& crate::vectors::index_views(final (store).vector_index@) == folded.1
            &&& final (store).documents@ =~= old(store).documents@.insert(
                doc_key(collection_id@, document_id@),
                final (store).documents@[doc_key(collection_id@, document_id@)],
            )
            &&& final (store).documents@[doc_key(collection_id@, document_id@)]@
                == crate::types::DocumentMetadataV {
                is_embedded: true,
                ..old(store).documents@[doc_key(collection_id@, document_id@)]@
            }
            &&& !crate::cache::fresh_key(final (cache).entries@, collection_id@, 0)
        }),
        r is Err ==> final (cache).entries@ == old(cache).entries@,
        (!crate::vectors::batch_valid(crate::util::views_of_vectors(vectors@))
            || !crate::vectors::batch_resolvable(
            *old(store),
            crate::util::views_of_vectors(vectors@),
        )) ==> (final (store).vectors@ == old(store).vectors@ && final (store).vector_index@
            == old(store).vector_index@ && final (store).documents@ == old(store).documents@),
        final (store).collections@ == old(store).collections@,
        final (store).chunks@ == old(store).chunks@,
        final (store).config@ == old(store).config@,
{
    let stored = match crate::vectors::store_vectors_batch(store, vectors) {
        Ok(count) => count,
        Err(e) => {
            return Err(e);
        },
    };
    match crate::documents::mark_document_embedded(store, collection_id, document_id) {
        Ok(_) => {},
        Err(e) => {
            return Err(e);
        },
    }
    crate::cache::invalidate_collection_cache(cache, collection_id);
    Ok(stored)
}

/// Unwinds a failed ingest: removes the just-added document with its
/// chunks and vectors, and invalidates the collection's cache entry, so a
/// later read observes no trace of it.
pub fn compensate_failed_ingest(
    store: &mut Store,
    cache: &mut BoundedCache,
    collection_id: &String,
    document_id: &String,
)
    requires
        old(store).wf(),
        old(cache).wf(),
    ensures
        final (store).wf(),
        final (cache).wf(),
        !final (store).chunks@.contains_key(document_id@),
        old(store).document_index@.contains_key(collection_id@) ==> (final (
            store
        ).document_index@.contains_key(collection_id@) && !crate::util::seq_contains_string(
            final (store).document_index@[collection_id@]@,
            document_id@,
        )),
        (!crate::vectors::has_doc_vectors(old(store).vectors@, document_id@)
            || crate::vectors::first_owner(
            old(store).collection_ids.deep_view(),
            old(store).documents@,
            document_id@,
        ) is Some) ==> (forall|k: Seq<char>|
            #[trigger] final (store).vectors@.contains_key(k) ==> final (
                store
            ).vectors@[k].document_id@ != document_id@),
        !crate::cache::fresh_key(final (cache).entries@, collection_id@, 0),
{
    let ghost pre = *store;
    let _ignored = crate::documents::delete_document(store, collection_id, document_id);
    proof {
        if pre.document_index@.contains_key(collection_id@) {
            crate::util::lemma_filter_membership(
                pre.document_index@[collection_id@]@,
                |x: Seq<char>| x != document_id@,
                document_id@,
            );
            if crate::util::seq_contains_string(
                store.document_index@[collection_id@]@,
                document_id@,
            ) {
                assert(store.document_index@[collection_id@]@.contains(document_id@));
            }
            if store.document_index@[collection_id@]@.contains(document_id@) {
                let i = choose|i: int|
                    0 <= i < store.document_index@[collection_id@]@.len()
                        && store.document_index@[collection_id@]@[i] == document_id@;
                assert(crate::util::seq_contains_string(
                    store.document_index@[collection_id@]@,
                    document_id@,
                ));
            }
        }
    }
    crate::cache::invalidate_collection_cache(cache, collection_id);
}

} // verus!

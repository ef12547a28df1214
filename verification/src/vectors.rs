use crate::store::Store;
use crate::store::doc_key;
use crate::types::MAX_COMPONENT_MICRO;
use crate::types::MAX_DIMENSIONS;
use crate::types::StringList;
use crate::types::Vector;
use crate::types::VectorV;
use crate::types::valid_vector;
use crate::util::views_of_vectors;
use vstd::prelude::*;

verus! {

broadcast use vstd::hash_map::axiom_string_hash_map_spec_len;

// =============================================================================
// LOOKUP
// =============================================================================

pub fn get_vector(store: &Store, vector_id: &String) -> (r: Option<Vector>)
    ensures
        match r {
            Some(v) => store.vectors@.contains_key(vector_id@) && v@
                == store.vectors@[vector_id@]@,
            None => !store.vectors@.contains_key(vector_id@),
        },
{
    match store.vectors.get(vector_id.as_str()) {
        Some(v) => Some(v.clone()),
        None => None,
    }
}

/// The first collection, in creation order, whose documents map holds the
/// document: how a vector's owning collection is resolved.
pub open spec fn first_owner(
    ids: Seq<Seq<char>>,
    docs: Map<Seq<char>, crate::types::DocumentMetadata>,
    d: Seq<char>,
) -> Option<Seq<char>>
    decreases ids.len(),
{
    if ids.len() == 0 {
        None
    } else if docs.contains_key(doc_key(ids[0], d)) {
        Some(ids[0])
    } else {
        first_owner(ids.drop_first(), docs, d)
    }
}

/// Resolves the collection a document belongs to by scanning the
/// collections in creation order.
pub fn extract_collection_id_from_document_id(store: &Store, document_id: &String) -> (r: Result<
    String,
    String,
>)
    ensures
        match r {
            Ok(c) => first_owner(store.collection_ids.deep_view(), store.documents@, document_id@)
                == Some(c@),
            Err(_) => first_owner(
                store.collection_ids.deep_view(),
                store.documents@,
                document_id@,
            ) is None,
        },
{
    let n = store.collection_ids.len();
    let ghost ids = store.collection_ids.deep_view();
    proof {
        assert(ids.skip(0) =~= ids);
    }
    let mut i: usize = 0;
    while i < n
        invariant
            0 <= i <= n,
            n == store.collection_ids@.len(),
            ids == store.collection_ids.deep_view(),
            first_owner(ids, store.documents@, document_id@) == first_owner(
                ids.skip(i as int),
                store.documents@,
                document_id@,
            ),
        decreases n - i,
    {
        proof {
            assert(ids[i as int] == store.collection_ids@[i as int]@);
            assert(ids.skip(i as int)[0] == ids[i as int]);
            assert(ids.skip(i as int).drop_first() =~= ids.skip(i + 1));
        }
        let key = crate::store::make_doc_key(&store.collection_ids[i], document_id);
        if store.documents.contains_key(key.as_str()) {
            return Ok(store.collection_ids[i].clone());
        }
        i += 1;
    }
    proof {
        assert(ids.skip(n as int) =~= Seq::<Seq<char>>::empty());
    }
    Err(String::from_str("Could not determine collection for document"))
}

// =============================================================================
// INDEX MAINTENANCE
// =============================================================================

/// Creates an empty vector index for a fresh collection.
pub fn init_collection_index(store: &mut Store, collection_id: &String)
    requires
        old(store).wf(),
    ensures
        final (store).wf(),
        final (store).vector_index@ =~= old(store).vector_index@.insert(
            collection_id@,
            final (store).vector_index@[collection_id@],
        ),
        final (store).vector_index@[collection_id@]@ == Seq::<Seq<char>>::empty(),
        final (store).collections@ == old(store).collections@,
        final (store).documents@ == old(store).documents@,
        final (store).chunks@ == old(store).chunks@,
        final (store).vectors@ == old(store).vectors@,
        final (store).document_index@ == old(store).document_index@,
{
    store.vector_index.insert(collection_id.clone(), StringList::new());
}

/// Drops a collection's vector index.
pub fn cleanup_collection_index(store: &mut Store, collection_id: &String)
    requires
        old(store).wf(),
    ensures
        final (store).wf(),
        final (store).vector_index@ == old(store).vector_index@.remove(collection_id@),
        final (store).collections@ == old(store).collections@,
        final (store).documents@ == old(store).documents@,
        final (store).chunks@ == old(store).chunks@,
        final (store).vectors@ == old(store).vectors@,
        final (store).document_index@ == old(store).document_index@,
{
    store.vector_index.remove(collection_id.as_str());
}

/// Clears every vector and every vector-index entry.
pub fn clear_vectors(store: &mut Store)
    requires
        old(store).wf(),
    ensures
        final (store).wf(),
        final (store).vectors@ == Map::<Seq<char>, Vector>::empty(),
        final (store).vector_index@ == Map::<Seq<char>, StringList>::empty(),
        final (store).collections@ == old(store).collections@,
        final (store).documents@ == old(store).documents@,
        final (store).chunks@ == old(store).chunks@,
        final (store).document_index@ == old(store).document_index@,
{
    store.vectors.clear();
    store.vector_ids = Vec::new();
    store.vector_index.clear();
    proof {
        assert(store.vector_ids.deep_view() =~= Seq::<Seq<char>>::empty());
    }
}

// =============================================================================
// COUNTS AND DIMENSIONS
// =============================================================================

/// Counts the vector ids a collection's index lists.
pub fn get_vector_count(store: &Store, collection_id: &String) -> (r: u64)
    ensures
        store.vector_index@.contains_key(collection_id@) ==> r
            == store.vector_index@[collection_id@]@.len(),
        !store.vector_index@.contains_key(collection_id@) ==> r == 0,
{
    match store.vector_index.get(collection_id.as_str()) {
        Some(ids) => ids.0.len() as u64,
        None => 0,
    }
}

/// The vector records a collection's id list resolves to, in index order.
pub open spec fn resolved_vectors(store: Store, ids: Seq<Seq<char>>) -> Seq<VectorV>
    decreases ids.len(),
{
    if ids.len() == 0 {
        Seq::empty()
    } else {
        let prefix = resolved_vectors(store, ids.drop_last());
        if store.vectors@.contains_key(ids.last()) {
            prefix.push(store.vectors@[ids.last()]@)
        } else {
            prefix
        }
    }
}

/// Every vector a collection's index resolves to, in index order.  Every
/// returned vector is valid: positive norm, non-empty bounded embedding.
pub fn get_collection_vectors(store: &Store, collection_id: &String) -> (r: Vec<Vector>)
    requires
        store.wf(),
    ensures
        !store.vector_index@.contains_key(collection_id@) ==> r@.len() == 0,
        store.vector_index@.contains_key(collection_id@) ==> views_of_vectors(r@)
            == resolved_vectors(*store, store.vector_index@[collection_id@]@),
        forall|i: int| 0 <= i < r@.len() ==> valid_vector((#[trigger] r@[i])@),
{
    let mut out: Vec<Vector> = Vec::new();
    let ids = match store.vector_index.get(collection_id.as_str()) {
        Some(l) => l,
        None => {
            return out;
        },
    };
    let n = ids.0.len();
    let mut i: usize = 0;
    while i < n
        invariant
            0 <= i <= n,
            store.wf(),
            n == ids.0@.len(),
            store.vector_index@.contains_key(collection_id@),
            ids@ == store.vector_index@[collection_id@]@,
            views_of_vectors(out@) == resolved_vectors(*store, ids@.take(i as int)),
            forall|j: int| 0 <= j < out@.len() ==> valid_vector((#[trigger] out@[j])@),
        decreases n - i,
    {
        proof {
            assert(ids@[i as int] == ids.0@[i as int]@);
            assert(ids@.take(i + 1).drop_last() =~= ids@.take(i as int));
            assert(ids@.take(i + 1).last() == ids@[i as int]);
        }
        let ghost pre = out@;
        match store.vectors.get(ids.0[i].as_str()) {
            Some(v) => {
                out.push(v.clone());
                proof {
                    assert(views_of_vectors(out@) =~= views_of_vectors(pre).push(
                        store.vectors@[ids@[i as int]]@,
                    ));
                }
            },
            None => {},
        }
        i += 1;
    }
    proof {
        assert(ids@.take(n as int) =~= ids@);
    }
    out
}

/// The embedding length of the collection's first resolvable vector.
pub fn get_collection_embedding_dimensions(store: &Store, collection_id: &String) -> (r: Option<
    u32,
>)
    requires
        store.wf(),
    ensures
        match r {
            Some(d) => store.vector_index@.contains_key(collection_id@) && resolved_vectors(
                *store,
                store.vector_index@[collection_id@]@,
            ).len() > 0 && d == resolved_vectors(
                *store,
                store.vector_index@[collection_id@]@,
            )[0].embedding.len(),
            None => !store.vector_index@.contains_key(collection_id@) || resolved_vectors(
                *store,
                store.vector_index@[collection_id@]@,
            ).len() == 0,
        },
{
    let vectors = get_collection_vectors(store, collection_id);
    if vectors.len() > 0 {
        proof {
            assert(views_of_vectors(vectors@)[0] == vectors@[0]@);
        }
        Some(vectors[0].embedding.len() as u32)
    } else {
        None
    }
}

/// The vectors of one document, found through its owning collection's
/// index.
pub open spec fn doc_vectors_of(store: Store, ids: Seq<Seq<char>>, d: Seq<char>) -> Seq<VectorV>
    decreases ids.len(),
{
    if ids.len() == 0 {
        Seq::empty()
    } else {
        let prefix = doc_vectors_of(store, ids.drop_last(), d);
        if store.vectors@.contains_key(ids.last()) && store.vectors@[ids.last()]@.document_id
            == d {
            prefix.push(store.vectors@[ids.last()]@)
        } else {
            prefix
        }
    }
}

/// Every vector of a document, in the owning collection's index order; empty
/// when no collection holds the document.
pub fn get_document_vectors(store: &Store, document_id: &String) -> (r: Vec<Vector>)
    requires
        store.wf(),
    ensures
        forall|i: int| 0 <= i < r@.len() ==> valid_vector((#[trigger] r@[i])@),
        match first_owner(store.collection_ids.deep_view(), store.documents@, document_id@) {
            Some(c) => (if store.vector_index@.contains_key(c) {
                views_of_vectors(r@) == doc_vectors_of(
                    *store,
                    store.vector_index@[c]@,
                    document_id@,
                )
            } else {
                r@.len() == 0
            }),
            None => r@.len() == 0,
        },
{
    let mut out: Vec<Vector> = Vec::new();
    let collection_id = match extract_collection_id_from_document_id(store, document_id) {
        Ok(c) => c,
        Err(_) => {
            return out;
        },
    };
    let ids = match store.vector_index.get(collection_id.as_str()) {
        Some(l) => l,
        None => {
            return out;
        },
    };
    let n = ids.0.len();
    let mut i: usize = 0;
    while i < n
        invariant
            0 <= i <= n,
            store.wf(),
            n == ids.0@.len(),
            store.vector_index@.contains_key(collection_id@),
            ids@ == store.vector_index@[collection_id@]@,
            views_of_vectors(out@) == doc_vectors_of(*store, ids@.take(i as int), document_id@),
            forall|j: int| 0 <= j < out@.len() ==> valid_vector((#[trigger] out@[j])@),
        decreases n - i,
    {
        proof {
            assert(ids@[i as int] == ids.0@[i as int]@);
            assert(ids@.take(i + 1).drop_last() =~= ids@.take(i as int));
            assert(ids@.take(i + 1).last() == ids@[i as int]);
        }
        let ghost pre = out@;
        match store.vectors.get(ids.0[i].as_str()) {
            Some(v) => {
                if v.document_id.eq(document_id) {
                    out.push(v.clone());
                    proof {
                        assert(views_of_vectors(out@) =~= views_of_vectors(pre).push(
                            store.vectors@[ids@[i as int]]@,
                        ));
                    }
                }
            },
            None => {},
        }
        i += 1;
    }
    proof {
        assert(ids@.take(n as int) =~= ids@);
    }
    out
}

// =============================================================================
// DELETION
// =============================================================================

/// Deletes one vector: the record leaves the vector map and its id leaves
/// the owning collection's index in the same step.
pub fn delete_vector(store: &mut Store, vector_id: &String) -> (r: Result<(), String>)
    requires
        old(store).wf(),
    ensures
        final (store).wf(),
        r is Ok <==> (old(store).vectors@.contains_key(vector_id@) && first_owner(
            old(store).collection_ids.deep_view(),
            old(store).documents@,
            old(store).vectors@[vector_id@].document_id@,
        ) is Some),
        r is Ok ==> ({
            let c = first_owner(
                old(store).collection_ids.deep_view(),
                old(store).documents@,
                old(store).vectors@[vector_id@].document_id@,
            )->Some_0;
            &&& final (store).vectors@ == old(store).vectors@.remove(vector_id@)
            &&& (if old(store).vector_index@.contains_key(c) {
                final (store).vector_index@ =~= old(store).vector_index@.insert(
                    c,
                    final (store).vector_index@[c],
                ) && final (store).vector_index@[c]@ == old(store).vector_index@[c]@.filter(
                    |x: Seq<char>| x != vector_id@,
                )
            } else {
                final (store).vector_index@ == old(store).vector_index@
            })
        }),
        r is Err ==> ({
            &&& final (store).vectors@ == old(store).vectors@
            &&& final (store).vector_index@ == old(store).vector_index@
        }),
        final (store).collections@ == old(store).collections@,
        final (store).collection_ids@ == old(store).collection_ids@,
        final (store).documents@ == old(store).documents@,
        final (store).chunks@ == old(store).chunks@,
        final (store).chunk_doc_ids@ == old(store).chunk_doc_ids@,
        final (store).document_index@ == old(store).document_index@,
        final (store).config@ == old(store).config@,
{
    let document_id = match store.vectors.get(vector_id.as_str()) {
        Some(v) => v.document_id.clone(),
        None => {
            return Err(String::from_str("Vector not found"));
        },
    };
    let collection_id = match extract_collection_id_from_document_id(store, &document_id) {
        Ok(c) => c,
        Err(e) => {
            return Err(e);
        },
    };
    let ghost pre_aux = store.vector_ids.deep_view();
    let ghost pre_vectors = store.vectors@;
    store.vectors.remove(vector_id.as_str());
    crate::util::string_vec_remove(&mut store.vector_ids, vector_id);
    proof {
        crate::util::lemma_filter_no_dup(pre_aux, |x: Seq<char>| x != vector_id@);
        assert forall|k: Seq<char>|
            store.vectors@.dom().contains(k) <==> store.vector_ids.deep_view().contains(k) by {
            crate::util::lemma_filter_membership(pre_aux, |x: Seq<char>| x != vector_id@, k);
            assert(store.vectors@.dom().contains(k) <==> (pre_vectors.dom().contains(k) && k
                != vector_id@));
        }
    }
    match store.vector_index.get(collection_id.as_str()) {
        Some(l) => {
            let mut ids = l.clone();
            crate::util::string_vec_remove(&mut ids.0, vector_id);
            store.vector_index.insert(collection_id.clone(), ids);
        },
        None => {},
    }
    Ok(())
}

/// Every repeated id has a first occurrence with nothing equal before it.
proof fn lemma_first_occurrence(ids: Seq<Seq<char>>, j: int, x: Seq<char>)
    requires
        0 <= j < ids.len(),
        ids[j] == x,
    ensures
        exists|j0: int|
            0 <= j0 <= j && #[trigger] ids[j0] == x && (forall|j2: int|
                0 <= j2 < j0 ==> ids[j2] != x),
    decreases j,
{
    if forall|j2: int| 0 <= j2 < j ==> ids[j2] != x {
        assert(ids[j] == x);
    } else {
        let j2 = choose|j2: int| 0 <= j2 < j && ids[j2] == x;
        lemma_first_occurrence(ids, j2, x);
    }
}

/// Whether one entry of a deletion batch goes through: its vector is
/// stored, its owner resolves, and no earlier entry names the same id.
pub open spec fn delete_succeeds(store0: Store, ids: Seq<Seq<char>>, j: int) -> bool {
    &&& store0.vectors@.contains_key(ids[j])
    &&& first_owner(
        store0.collection_ids.deep_view(),
        store0.documents@,
        store0.vectors@[ids[j]].document_id@,
    ) is Some
    &&& forall|j2: int| 0 <= j2 < j ==> ids[j2] != ids[j]
}

/// Deletes a batch of vectors one by one.  The call succeeds exactly when
/// every listed deletion went through; afterwards exactly the successfully
/// deleted vectors are gone, the others are untouched, and each deleted id
/// has left its owning collection's index list.
pub fn delete_vectors_batch(store: &mut Store, vector_ids: Vec<String>) -> (r: Result<u32, String>)
    requires
        old(store).wf(),
    ensures
        final (store).wf(),
        r is Ok <==> (forall|j: int|
            0 <= j < vector_ids@.len() ==> delete_succeeds(
                *old(store),
                vector_ids.deep_view(),
                j,
            )),
        r matches Ok(count) ==> count == vector_ids@.len() as u32,
        forall|k: Seq<char>|
            final (store).vectors@.contains_key(k) <==> (old(store).vectors@.contains_key(k) && !(
            exists|j: int|
                0 <= j < vector_ids@.len() && (#[trigger] vector_ids.deep_view()[j]) == k
                    && delete_succeeds(*old(store), vector_ids.deep_view(), j))),
        forall|k: Seq<char>|
            #[trigger] final (store).vectors@.contains_key(k) ==> final (store).vectors@[k] == old(
                store,
            ).vectors@[k],
        forall|j: int|
            0 <= j < vector_ids@.len() && delete_succeeds(
                *old(store),
                vector_ids.deep_view(),
                j,
            ) ==> ({
                let c = first_owner(
                    old(store).collection_ids.deep_view(),
                    old(store).documents@,
                    old(store).vectors@[#[trigger] vector_ids.deep_view()[j]].document_id@,
                )->Some_0;
                old(store).vector_index@.contains_key(c) ==> (final (
                    store
                ).vector_index@.contains_key(c) && !crate::util::seq_contains_string(
                    final (store).vector_index@[c]@,
                    vector_ids.deep_view()[j],
                ))
            }),
        final (store).collections@ == old(store).collections@,
        final (store).collection_ids@ == old(store).collection_ids@,
        final (store).documents@ == old(store).documents@,
        final (store).chunks@ == old(store).chunks@,
        final (store).chunk_doc_ids@ == old(store).chunk_doc_ids@,
        final (store).document_index@ == old(store).document_index@,
        final (store).config@ == old(store).config@,
{
    let ghost ids = vector_ids.deep_view();
    let n = vector_ids.len();
    let mut deleted: usize = 0;
    let mut failed: usize = 0;
    let mut i: usize = 0;
    while i < n
        invariant
            0 <= i <= n,
            n == vector_ids@.len(),
            ids == vector_ids.deep_view(),
            store.wf(),
            old(store).wf(),
            deleted as int + failed as int == i,
            (failed == 0) <==> (forall|j: int| 0 <= j < i ==> delete_succeeds(*old(store), ids, j)),
            forall|k: Seq<char>|
                store.vectors@.contains_key(k) <==> (old(store).vectors@.contains_key(k) && !(
                exists|j: int|
                    0 <= j < i && (#[trigger] ids[j]) == k && delete_succeeds(
                        *old(store),
                        ids,
                        j,
                    ))),
            forall|k: Seq<char>|
                #[trigger] store.vectors@.contains_key(k) ==> store.vectors@[k] == old(
                    store,
                ).vectors@[k],
            forall|c: Seq<char>|
                #[trigger] old(store).vector_index@.contains_key(c)
                    ==> store.vector_index@.contains_key(c),
            forall|j: int|
                0 <= j < i && delete_succeeds(*old(store), ids, j) ==> ({
                    let c = first_owner(
                        old(store).collection_ids.deep_view(),
                        old(store).documents@,
                        old(store).vectors@[#[trigger] ids[j]].document_id@,
                    )->Some_0;
                    old(store).vector_index@.contains_key(c) ==> (
                    store.vector_index@.contains_key(c) && !crate::util::seq_contains_string(
                        store.vector_index@[c]@,
                        ids[j],
                    ))
                }),
            store.collections@ == old(store).collections@,
            store.collection_ids@ == old(store).collection_ids@,
            store.documents@ == old(store).documents@,
            store.chunks@ == old(store).chunks@,
            store.chunk_doc_ids@ == old(store).chunk_doc_ids@,
            store.document_index@ == old(store).document_index@,
            store.config@ == old(store).config@,
        decreases n - i,
    {
        proof {
            assert(ids[i as int] == vector_ids@[i as int]@);
        }
        let ghost pre = *store;
        let outcome = delete_vector(store, &vector_ids[i]);
        proof {
            // the per-step outcome is exactly the per-entry success
            // condition over the original state
            assert(pre.collection_ids.deep_view() == old(store).collection_ids.deep_view());
            if delete_succeeds(*old(store), ids, i as int) {
                assert(pre.vectors@.contains_key(ids[i as int])) by {
                    if exists|j: int|
                        0 <= j < i && (#[trigger] ids[j]) == ids[i as int] && delete_succeeds(
                            *old(store),
                            ids,
                            j,
                        ) {
                        let j = choose|j: int|
                            0 <= j < i && (#[trigger] ids[j]) == ids[i as int] && delete_succeeds(
                                *old(store),
                                ids,
                                j,
                            );
                        assert(ids[j] == ids[i as int]);
                    }
                }
                assert(pre.vectors@[ids[i as int]] == old(store).vectors@[ids[i as int]]);
                assert(outcome is Ok);
            } else {
                if pre.vectors@.contains_key(ids[i as int]) {
                    assert(pre.vectors@[ids[i as int]] == old(store).vectors@[ids[i as int]]);
                    assert(old(store).vectors@.contains_key(ids[i as int]));
                    if first_owner(
                        old(store).collection_ids.deep_view(),
                        old(store).documents@,
                        old(store).vectors@[ids[i as int]].document_id@,
                    ) is Some {
                        // the entry fails only because an earlier entry
                        // names the same id; its first occurrence already
                        // deleted the vector, contradicting presence
                        let jd = choose|j2: int| 0 <= j2 < i && ids[j2] == ids[i as int];
                        lemma_first_occurrence(ids, jd, ids[i as int]);
                        let j0 = choose|j0: int|
                            0 <= j0 <= jd && #[trigger] ids[j0] == ids[i as int] && (forall|
                                j2: int,
                            |
                                0 <= j2 < j0 ==> ids[j2] != ids[i as int]);
                        assert(delete_succeeds(*old(store), ids, j0));
                        assert(!pre.vectors@.contains_key(ids[i as int]));
                        assert(false);
                    }
                    assert(outcome is Err);
                } else {
                    assert(outcome is Err);
                }
            }
            // membership after the step
            assert forall|k: Seq<char>|
                store.vectors@.contains_key(k) <==> (old(store).vectors@.contains_key(k) && !(
                exists|j: int|
                    0 <= j < i + 1 && (#[trigger] ids[j]) == k && delete_succeeds(
                        *old(store),
                        ids,
                        j,
                    ))) by {
                if exists|j: int|
                    0 <= j < i + 1 && (#[trigger] ids[j]) == k && delete_succeeds(
                        *old(store),
                        ids,
                        j,
                    ) {
                    let j = choose|j: int|
                        0 <= j < i + 1 && (#[trigger] ids[j]) == k && delete_succeeds(
                            *old(store),
                            ids,
                            j,
                        );
                    if j < i {
                        assert(!pre.vectors@.contains_key(k));
                        assert(!store.vectors@.contains_key(k)) by {
                            if outcome is Ok {
                                assert(store.vectors@ == pre.vectors@.remove(ids[i as int]));
                            }
                        }
                    } else {
                        assert(!store.vectors@.contains_key(k));
                    }
                }
            }
            // stripped ids stay stripped
            assert forall|j: int|
                0 <= j < i + 1 && delete_succeeds(*old(store), ids, j) implies ({
                let c = first_owner(
                    old(store).collection_ids.deep_view(),
                    old(store).documents@,
                    old(store).vectors@[#[trigger] ids[j]].document_id@,
                )->Some_0;
                old(store).vector_index@.contains_key(c) ==> (store.vector_index@.contains_key(c)
                    && !crate::util::seq_contains_string(store.vector_index@[c]@, ids[j]))
            }) by {
                let c = first_owner(
                    old(store).collection_ids.deep_view(),
                    old(store).documents@,
                    old(store).vectors@[ids[j]].document_id@,
                )->Some_0;
                if old(store).vector_index@.contains_key(c) {
                    if outcome is Ok {
                        let ci = first_owner(
                            pre.collection_ids.deep_view(),
                            pre.documents@,
                            pre.vectors@[ids[i as int]].document_id@,
                        )->Some_0;
                        if j < i {
                            assert(!crate::util::seq_contains_string(
                                pre.vector_index@[c]@,
                                ids[j],
                            ));
                            if ci == c && pre.vector_index@.contains_key(ci) {
                                crate::util::lemma_filter_membership(
                                    pre.vector_index@[ci]@,
                                    |x: Seq<char>| x != ids[i as int],
                                    ids[j],
                                );
                                if crate::util::seq_contains_string(
                                    store.vector_index@[c]@,
                                    ids[j],
                                ) {
                                    assert(store.vector_index@[c]@.contains(ids[j]));
                                    assert(pre.vector_index@[c]@.contains(ids[j]));
                                    assert(crate::util::seq_contains_string(
                                        pre.vector_index@[c]@,
                                        ids[j],
                                    ));
                                }
                            }
                        } else {
                            // the entry just deleted: its owner list was
                            // filtered by its id
                            assert(ci == c);
                            assert(pre.vector_index@.contains_key(ci));
                            crate::util::lemma_filter_membership(
                                pre.vector_index@[ci]@,
                                |x: Seq<char>| x != ids[i as int],
                                ids[j],
                            );
                            if crate::util::seq_contains_string(store.vector_index@[c]@, ids[j]) {
                                assert(store.vector_index@[c]@.contains(ids[j]));
                            }
                        }
                    } else {
                        if j < i {
                        } else {
                            assert(false);
                        }
                    }
                }
            }
        }
        match outcome {
            Ok(_) => {
                deleted = deleted + 1;
            },
            Err(_) => {
                failed = failed + 1;
            },
        }
        proof {
            if failed == 0 {
                assert forall|j: int|
                    0 <= j < i + 1 implies delete_succeeds(*old(store), ids, j) by {}
            } else {
                if forall|j: int| 0 <= j < i + 1 ==> delete_succeeds(*old(store), ids, j) {
                    assert(delete_succeeds(*old(store), ids, i as int));
                    assert(false);
                }
            }
        }
        i += 1;
    }
    if failed > 0 {
        return Err(String::from_str("Failed to delete some vectors"));
    }
    Ok(#[verifier::truncate] (deleted as u32))
}

/// Whether any stored vector belongs to the document.
pub open spec fn has_doc_vectors(vm: Map<Seq<char>, Vector>, d: Seq<char>) -> bool {
    exists|k: Seq<char>| #[trigger] vm.contains_key(k) && vm[k].document_id@ == d
}

/// Deletes every stored vector of a document, wherever it sits in the
/// vector map, and rewrites the owning collection's index list, in one
/// step.  A document without vectors has nothing to delete; vectors whose
/// owning collection cannot be resolved fail the call with nothing changed.
pub fn delete_document_vectors(store: &mut Store, document_id: &String) -> (r: Result<(), String>)
    requires
        old(store).wf(),
    ensures
        final (store).wf(),
        r is Ok <==> (!has_doc_vectors(old(store).vectors@, document_id@) || first_owner(
            old(store).collection_ids.deep_view(),
            old(store).documents@,
            document_id@,
        ) is Some),
        r is Ok ==> ({
            &&& forall|k: Seq<char>|
                final (store).vectors@.contains_key(k) <==> (old(store).vectors@.contains_key(k)
                    && old(store).vectors@[k].document_id@ != document_id@)
            &&& forall|k: Seq<char>|
                final (store).vectors@.contains_key(k) ==> final (store).vectors@[k] == old(
                    store,
                ).vectors@[k]
            &&& (!has_doc_vectors(old(store).vectors@, document_id@) ==> final (
                store
            ).vector_index@ == old(store).vector_index@)
            &&& (has_doc_vectors(old(store).vectors@, document_id@) ==> ({
                let c = first_owner(
                    old(store).collection_ids.deep_view(),
                    old(store).documents@,
                    document_id@,
                )->Some_0;
                if old(store).vector_index@.contains_key(c) {
                    final (store).vector_index@ =~= old(store).vector_index@.insert(
                        c,
                        final (store).vector_index@[c],
                    ) && final (store).vector_index@[c]@ == old(
                        store
                    ).vector_index@[c]@.filter(
                        |x: Seq<char>|
                            !(old(store).vectors@.contains_key(x)
                                && old(store).vectors@[x].document_id@ == document_id@),
                    )
                } else {
                    final (store).vector_index@ == old(store).vector_index@
                }
            }))
        }),
        r is Err ==> ({
            &&& final (store).vectors@ == old(store).vectors@
            &&& final (store).vector_index@ == old(store).vector_index@
        }),
        final (store).collections@ == old(store).collections@,
        final (store).collection_ids@ == old(store).collection_ids@,
        final (store).documents@ == old(store).documents@,
        final (store).chunks@ == old(store).chunks@,
        final (store).chunk_doc_ids@ == old(store).chunk_doc_ids@,
        final (store).document_index@ == old(store).document_index@,
        final (store).config@ == old(store).config@,
{
    let ghost aux = store.vector_ids.deep_view();
    let ghost keep = |x: Seq<char>|
        !(old(store).vectors@.contains_key(x) && old(store).vectors@[x].document_id@
            == document_id@);
    let ghost doomed_p = |x: Seq<char>|
        old(store).vectors@.contains_key(x) && old(store).vectors@[x].document_id@
            == document_id@;

    // Decide every stored id against the untouched store first.
    let an = store.vector_ids.len();
    let mut kept_aux: Vec<String> = Vec::new();
    let mut doomed: Vec<String> = Vec::new();
    let mut i: usize = 0;
    while i < an
        invariant
            0 <= i <= an,
            an == aux.len(),
            an == store.vector_ids@.len(),
            *store == *old(store),
            old(store).wf(),
            aux == store.vector_ids.deep_view(),
            keep == (|x: Seq<char>|
                !(old(store).vectors@.contains_key(x) && old(store).vectors@[x].document_id@
                    == document_id@)),
            doomed_p == (|x: Seq<char>|
                old(store).vectors@.contains_key(x) && old(store).vectors@[x].document_id@
                    == document_id@),
            kept_aux.deep_view() == aux.take(i as int).filter(keep),
            doomed.deep_view() == aux.take(i as int).filter(doomed_p),
        decreases an - i,
    {
        proof {
            assert(aux[i as int] == store.vector_ids@[i as int]@);
            assert(aux.take(i + 1).drop_last() =~= aux.take(i as int));
            assert(aux.take(i + 1).last() == aux[i as int]);
        }
        let ghost pre_kept = kept_aux.deep_view();
        let ghost pre_doomed = doomed.deep_view();
        let vid = &store.vector_ids[i];
        let is_mine = match store.vectors.get(vid.as_str()) {
            Some(v) => v.document_id.eq(document_id),
            None => false,
        };
        if is_mine {
            doomed.push(vid.clone());
        } else {
            kept_aux.push(vid.clone());
        }
        proof {
            reveal(Seq::filter);
            if is_mine {
                assert(doomed.deep_view() =~= pre_doomed.push(aux[i as int]));
            } else {
                assert(kept_aux.deep_view() =~= pre_kept.push(aux[i as int]));
            }
            assert(kept_aux.deep_view() =~= aux.take(i + 1).filter(keep));
            assert(doomed.deep_view() =~= aux.take(i + 1).filter(doomed_p));
        }
        i += 1;
    }
    proof {
        assert(aux.take(an as int) =~= aux);
    }
    if doomed.len() == 0 {
        proof {
            if has_doc_vectors(old(store).vectors@, document_id@) {
                let k = choose|k: Seq<char>|
                    #[trigger] old(store).vectors@.contains_key(k)
                        && old(store).vectors@[k].document_id@ == document_id@;
                assert(aux.contains(k));
                crate::util::lemma_filter_membership(aux, doomed_p, k);
            }
        }
        return Ok(());
    }
    proof {
        crate::util::lemma_filter_membership(aux, doomed_p, doomed.deep_view()[0]);
        assert(has_doc_vectors(old(store).vectors@, document_id@)) by {
            assert(doomed.deep_view().contains(doomed.deep_view()[0]));
            assert(doomed_p(doomed.deep_view()[0]));
        }
    }
    let collection_id = match extract_collection_id_from_document_id(store, document_id) {
        Ok(c) => c,
        Err(e) => {
            return Err(e);
        },
    };

    // Decide the owning collection's rewritten index list against the
    // pristine map: entries of other documents stay, dangling entries stay.
    let index_list: Option<StringList> = match store.vector_index.get(collection_id.as_str()) {
        Some(l) => Some(l.clone()),
        None => None,
    };
    let mut kept_index: Vec<String> = Vec::new();
    let ghost mut ids: Seq<Seq<char>> = Seq::empty();
    match &index_list {
        Some(old_list) => {
            proof {
                ids = old_list@;
            }
            let n = old_list.0.len();
            let mut x: usize = 0;
            while x < n
                invariant
                    0 <= x <= n,
                    n == ids.len(),
                    old_list@ == ids,
                    n == old_list.0@.len(),
                    *store == *old(store),
                    old(store).wf(),
                    keep == (|x2: Seq<char>|
                        !(old(store).vectors@.contains_key(x2)
                            && old(store).vectors@[x2].document_id@ == document_id@)),
                    kept_index.deep_view() == ids.take(x as int).filter(keep),
                decreases n - x,
            {
                proof {
                    assert(ids[x as int] == old_list.0@[x as int]@);
                    assert(ids.take(x + 1).drop_last() =~= ids.take(x as int));
                    assert(ids.take(x + 1).last() == ids[x as int]);
                }
                let ghost pre_kept = kept_index.deep_view();
                let vid = &old_list.0[x];
                let is_mine = match store.vectors.get(vid.as_str()) {
                    Some(v) => v.document_id.eq(document_id),
                    None => false,
                };
                if !is_mine {
                    kept_index.push(vid.clone());
                }
                proof {
                    reveal(Seq::filter);
                    if !is_mine {
                        assert(kept_index.deep_view() =~= pre_kept.push(ids[x as int]));
                    }
                    assert(kept_index.deep_view() =~= ids.take(x + 1).filter(keep));
                }
                x += 1;
            }
            proof {
                assert(ids.take(n as int) =~= ids);
            }
        },
        None => {},
    }

    // Remove the doomed vectors from the map and the id list.
    let ghost doomed_ids = doomed.deep_view();
    let dn = doomed.len();
    let mut j: usize = 0;
    while j < dn
        invariant
            0 <= j <= dn,
            dn == doomed_ids.len(),
            doomed.deep_view() == doomed_ids,
            dn == doomed@.len(),
            old(store).wf(),
            store.collections@ == old(store).collections@,
            store.collection_ids@ == old(store).collection_ids@,
            store.documents@ == old(store).documents@,
            store.chunks@ == old(store).chunks@,
            store.chunk_doc_ids@ == old(store).chunk_doc_ids@,
            store.document_index@ == old(store).document_index@,
            store.config@ == old(store).config@,
            store.vector_index@ == old(store).vector_index@,
            forall|k: Seq<char>|
                store.vectors@.contains_key(k) <==> (old(store).vectors@.contains_key(k)
                    && !doomed_ids.take(j as int).contains(k)),
            forall|k: Seq<char>|
                store.vectors@.contains_key(k) ==> store.vectors@[k] == old(store).vectors@[k],
        decreases dn - j,
    {
        proof {
            assert(doomed_ids[j as int] == doomed@[j as int]@);
        }
        store.vectors.remove(doomed[j].as_str());
        proof {
            assert forall|k: Seq<char>|
                store.vectors@.contains_key(k) <==> (old(store).vectors@.contains_key(k)
                    && !doomed_ids.take(j + 1).contains(k)) by {
                if doomed_ids.take(j + 1).contains(k) {
                    let m = choose|m: int|
                        0 <= m < doomed_ids.take(j + 1).len() && #[trigger] doomed_ids.take(
                            j + 1,
                        )[m] == k;
                    if m < j {
                        assert(doomed_ids.take(j as int)[m] == k);
                        assert(doomed_ids.take(j as int).contains(k));
                    } else {
                        assert(k == doomed_ids[j as int]);
                    }
                }
                if doomed_ids.take(j as int).contains(k) {
                    let m = choose|m: int|
                        0 <= m < doomed_ids.take(j as int).len() && #[trigger] doomed_ids.take(
                            j as int,
                        )[m] == k;
                    assert(doomed_ids.take(j + 1)[m] == k);
                    assert(doomed_ids.take(j + 1).contains(k));
                }
                if k == doomed_ids[j as int] {
                    assert(doomed_ids.take(j + 1)[j as int] == k);
                    assert(doomed_ids.take(j + 1).contains(k));
                }
            }
        }
        j += 1;
    }
    proof {
        assert(doomed_ids.take(dn as int) =~= doomed_ids);
    }
    store.vector_ids = kept_aux;
    proof {
        // the map and the id list agree again, and only this document's
        // vectors are gone
        crate::util::lemma_filter_no_dup(aux, keep);
        assert forall|k: Seq<char>|
            store.vectors@.contains_key(k) <==> (old(store).vectors@.contains_key(k) && old(
            store,
        ).vectors@[k].document_id@ != document_id@) by {
            crate::util::lemma_filter_membership(aux, doomed_p, k);
            if old(store).vectors@.contains_key(k) {
                assert(aux.contains(k));
            }
        }
        assert forall|k: Seq<char>|
            store.vectors@.dom().contains(k) <==> store.vector_ids.deep_view().contains(k) by {
            crate::util::lemma_filter_membership(aux, keep, k);
            crate::util::lemma_filter_membership(aux, doomed_p, k);
            if old(store).vectors@.contains_key(k) {
                assert(aux.contains(k));
            }
        }
    }

    // Install the rewritten index list, when the collection had one.
    match index_list {
        Some(_) => {
            store.vector_index.insert(collection_id.clone(), StringList(kept_index));
            proof {
                assert(store.vector_index@ =~= old(store).vector_index@.insert(
                    collection_id@,
                    store.vector_index@[collection_id@],
                ));
            }
        },
        None => {},
    }
    Ok(())
}

// =============================================================================
// VALIDATION AND REPAIR
// =============================================================================

/// Whether an indexed vector id passes the integrity checks: it resolves,
/// its vector is valid, and its document still exists in the collection.
pub open spec fn index_entry_sound(store: Store, c: Seq<char>, k: Seq<char>) -> bool {
    &&& store.vectors@.contains_key(k)
    &&& valid_vector(store.vectors@[k]@)
    &&& store.documents@.contains_key(doc_key(c, store.vectors@[k].document_id@))
}

/// How many entries of an index list resolve to a stored vector that
/// fails the integrity checks.
pub open spec fn invalid_entry_count(store0: Store, c: Seq<char>, ids: Seq<Seq<char>>) -> int
    decreases ids.len(),
{
    if ids.len() == 0 {
        0
    } else {
        invalid_entry_count(store0, c, ids.drop_last()) + (if store0.vectors@.contains_key(
            ids.last(),
        ) && !index_entry_sound(store0, c, ids.last()) {
            1int
        } else {
            0int
        })
    }
}

/// The invalid count is non-negative, and zero exactly when every
/// resolvable entry is sound.
proof fn lemma_invalid_count_zero(store0: Store, c: Seq<char>, ids: Seq<Seq<char>>)
    ensures
        invalid_entry_count(store0, c, ids) >= 0,
        (invalid_entry_count(store0, c, ids) == 0) <==> (forall|j: int|
            0 <= j < ids.len() ==> !(store0.vectors@.contains_key(#[trigger] ids[j])
                && !index_entry_sound(store0, c, ids[j]))),
    decreases ids.len(),
{
    if ids.len() > 0 {
        lemma_invalid_count_zero(store0, c, ids.drop_last());
        assert(ids[ids.len() - 1] == ids.last());
        assert forall|j: int|
            0 <= j < ids.drop_last().len() implies ids.drop_last()[j] == ids[j] by {}
        if invalid_entry_count(store0, c, ids) == 0 {
            assert(invalid_entry_count(store0, c, ids.drop_last()) == 0);
        }
        if forall|j: int|
            0 <= j < ids.len() ==> !(store0.vectors@.contains_key(#[trigger] ids[j])
                && !index_entry_sound(store0, c, ids[j])) {
            assert forall|j: int|
                0 <= j < ids.drop_last().len() implies !(store0.vectors@.contains_key(
                #[trigger] ids.drop_last()[j],
            ) && !index_entry_sound(store0, c, ids.drop_last()[j])) by {
                assert(ids.drop_last()[j] == ids[j]);
            }
        }
    }
}

/// Checks a collection's vectors: empty embeddings, invalid norms and
/// missing documents are reported, and with `should_repair` the index list
/// is rewritten to the entries that pass.  Resolvable entries that fail are
/// what trigger a repair; without any, the index is left alone.
pub fn validate_vectors(store: &mut Store, collection_id: &String, should_repair: bool) -> (r: Vec<
    String,
>)
    requires
        old(store).wf(),
    ensures
        final (store).wf(),
        r@.len() >= 1,
        !old(store).collections@.contains_key(collection_id@) ==> r.deep_view() == seq![
            "Collection not found"@,
        ],
        (old(store).collections@.contains_key(collection_id@) && !old(
            store,
        ).vector_index@.contains_key(collection_id@)) ==> r.deep_view() == seq![
            "No issues found"@,
        ],
        (old(store).collections@.contains_key(collection_id@) && old(
            store,
        ).vector_index@.contains_key(collection_id@)) ==> ({
            let bad = invalid_entry_count(
                *old(store),
                collection_id@,
                old(store).vector_index@[collection_id@]@,
            );
            if bad == 0 {
                r.deep_view() == seq!["No issues found"@]
            } else {
                &&& r@.len() == bad + (if should_repair {
                    1int
                } else {
                    0int
                })
                &&& (forall|x: int|
                    0 <= x < bad ==> r.deep_view()[x] == "Invalid vector entry"@)
                &&& (should_repair ==> r.deep_view()[bad]
                    == "Index repaired: valid vectors retained"@)
            }
        }),
        final (store).collections@ == old(store).collections@,
        final (store).collection_ids@ == old(store).collection_ids@,
        final (store).documents@ == old(store).documents@,
        final (store).chunks@ == old(store).chunks@,
        final (store).chunk_doc_ids@ == old(store).chunk_doc_ids@,
        final (store).vectors@ == old(store).vectors@,
        final (store).config@ == old(store).config@,
        !(should_repair && old(store).collections@.contains_key(collection_id@) && old(
            store,
        ).vector_index@.contains_key(collection_id@) && (exists|j: int|
            0 <= j < old(store).vector_index@[collection_id@]@.len() && old(
                store,
            ).vectors@.contains_key(#[trigger] old(store).vector_index@[collection_id@]@[j])
                && !index_entry_sound(
                *old(store),
                collection_id@,
                old(store).vector_index@[collection_id@]@[j],
            ))) ==> final (store).vector_index@ == old(store).vector_index@,
        (should_repair && old(store).collections@.contains_key(collection_id@) && old(
            store,
        ).vector_index@.contains_key(collection_id@) && (exists|j: int|
            0 <= j < old(store).vector_index@[collection_id@]@.len() && old(
                store,
            ).vectors@.contains_key(#[trigger] old(store).vector_index@[collection_id@]@[j])
                && !index_entry_sound(
                *old(store),
                collection_id@,
                old(store).vector_index@[collection_id@]@[j],
            ))) ==> ({
            &&& final (store).vector_index@ =~= old(store).vector_index@.insert(
                collection_id@,
                final (store).vector_index@[collection_id@],
            )
            &&& final (store).vector_index@[collection_id@]@ == old(
                store,
            ).vector_index@[collection_id@]@.filter(
                |x: Seq<char>| index_entry_sound(*old(store), collection_id@, x),
            )
        }),
{
    let mut report: Vec<String> = Vec::new();
    if !store.collections.contains_key(collection_id.as_str()) {
        report.push(String::from_str("Collection not found"));
        proof {
            assert(report.deep_view() =~= seq!["Collection not found"@]);
        }
        return report;
    }
    let index_list: StringList = match store.vector_index.get(collection_id.as_str()) {
        Some(l) => l.clone(),
        None => {
            report.push(String::from_str("No issues found"));
            proof {
                assert(report.deep_view() =~= seq!["No issues found"@]);
            }
            return report;
        },
    };
    let ghost ids = index_list@;
    let ghost sound = |x: Seq<char>| index_entry_sound(*old(store), collection_id@, x);
    let n = index_list.0.len();
    let mut valid_ids: Vec<String> = Vec::new();
    let mut found_invalid: bool = false;
    let mut i: usize = 0;
    while i < n
        invariant
            0 <= i <= n,
            n == ids.len(),
            index_list@ == ids,
            n == index_list.0@.len(),
            *store == *old(store),
            old(store).wf(),
            sound == (|x: Seq<char>| index_entry_sound(*old(store), collection_id@, x)),
            valid_ids.deep_view() == ids.take(i as int).filter(sound),
            found_invalid == (exists|j: int|
                0 <= j < i && old(store).vectors@.contains_key(#[trigger] ids[j]) && !sound(
                    ids[j],
                )),
            report@.len() == invalid_entry_count(*old(store), collection_id@, ids.take(i as int)),
            forall|x: int|
                0 <= x < report@.len() ==> report.deep_view()[x] == "Invalid vector entry"@,
        decreases n - i,
    {
        proof {
            assert(ids[i as int] == index_list.0@[i as int]@);
            assert(ids.take(i + 1).drop_last() =~= ids.take(i as int));
            assert(ids.take(i + 1).last() == ids[i as int]);
        }
        let ghost pre_valid = valid_ids.deep_view();
        let ghost pre_found = found_invalid;
        let ghost pre_report = report.deep_view();
        let vid = &index_list.0[i];
        match store.vectors.get(vid.as_str()) {
            Some(v) => {
                let doc_ok = crate::documents::document_exists(
                    store,
                    collection_id,
                    &v.document_id,
                );
                let data_ok = check_vector_valid(v);
                if doc_ok && data_ok {
                    valid_ids.push(vid.clone());
                } else {
                    found_invalid = true;
                    report.push(String::from_str("Invalid vector entry"));
                }
            },
            None => {},
        }
        proof {
            reveal(Seq::filter);
            assert(ids.take(i + 1).drop_last() =~= ids.take(i as int));
            assert(ids.take(i + 1).last() == ids[i as int]);
            if valid_ids.deep_view() != pre_valid {
                assert(valid_ids.deep_view() =~= pre_valid.push(ids[i as int]));
            }
            assert(valid_ids.deep_view() =~= ids.take(i + 1).filter(sound));
            if report.deep_view() != pre_report {
                assert(report.deep_view() =~= pre_report.push("Invalid vector entry"@));
            }
            assert(report@.len() == invalid_entry_count(
                *old(store),
                collection_id@,
                ids.take(i + 1),
            ));
            assert forall|x: int|
                0 <= x < report@.len() implies report.deep_view()[x]
                == "Invalid vector entry"@ by {
                if x < pre_report.len() {
                    assert(report.deep_view()[x] == pre_report[x]);
                }
            }
            assert(found_invalid == (exists|j: int|
                0 <= j < i + 1 && old(store).vectors@.contains_key(#[trigger] ids[j]) && !sound(
                    ids[j],
                ))) by {
                if found_invalid && !pre_found {
                    assert(old(store).vectors@.contains_key(ids[i as int]) && !sound(
                        ids[i as int],
                    ));
                }
                if pre_found {
                    let j = choose|j: int|
                        0 <= j < i && old(store).vectors@.contains_key(#[trigger] ids[j]) && !sound(
                            ids[j],
                        );
                    assert(old(store).vectors@.contains_key(ids[j]) && !sound(ids[j]));
                }
            }
        }
        i += 1;
    }
    proof {
        assert(ids.take(n as int) =~= ids);
    }
    let ghost bad = invalid_entry_count(*old(store), collection_id@, ids);
    proof {
        lemma_invalid_count_zero(*old(store), collection_id@, ids);
    }
    if found_invalid {
        proof {
            assert(bad != 0);
            assert(report@.len() == bad);
        }
        if should_repair {
            store.vector_index.insert(collection_id.clone(), StringList(valid_ids));
            proof {
                assert(store.vector_index@ =~= old(store).vector_index@.insert(
                    collection_id@,
                    store.vector_index@[collection_id@],
                ));
            }
            let ghost pre_report = report.deep_view();
            report.push(String::from_str("Index repaired: valid vectors retained"));
            proof {
                assert(report.deep_view()[bad] == "Index repaired: valid vectors retained"@);
                assert forall|x: int|
                    0 <= x < bad implies report.deep_view()[x] == "Invalid vector entry"@ by {
                    assert(report.deep_view()[x] == pre_report[x]);
                }
            }
        }
    } else {
        proof {
            assert(bad == 0);
            assert(report@.len() == 0);
        }
        report.push(String::from_str("No issues found"));
        proof {
            assert(report.deep_view() =~= seq!["No issues found"@]);
        }
    }
    report
}

/// The vectors of a collection that carry the given model name.
pub fn find_vectors_by_model(store: &Store, collection_id: &String, model: &String) -> (r: Vec<
    Vector,
>)
    requires
        store.wf(),
    ensures
        forall|i: int|
            0 <= i < r@.len() ==> valid_vector((#[trigger] r@[i])@) && r@[i]@.model == model@,
{
    let vectors = get_collection_vectors(store, collection_id);
    let n = vectors.len();
    let mut out: Vec<Vector> = Vec::new();
    let mut i: usize = 0;
    while i < n
        invariant
            0 <= i <= n,
            n == vectors@.len(),
            forall|j: int| 0 <= j < vectors@.len() ==> valid_vector((#[trigger] vectors@[j])@),
            forall|j: int|
                0 <= j < out@.len() ==> valid_vector((#[trigger] out@[j])@) && out@[j]@.model
                    == model@,
        decreases n - i,
    {
        if vectors[i].model.eq(model) {
            out.push(vectors[i].clone());
        }
        i += 1;
    }
    out
}

// =============================================================================
// BATCH STORAGE
// =============================================================================

/// The views of a vectors map.
pub open spec fn vector_map_views(m: Map<Seq<char>, Vector>) -> Map<Seq<char>, VectorV> {
    Map::new(|k: Seq<char>| m.contains_key(k), |k: Seq<char>| m[k]@)
}

/// The views of a vector-index map.
pub open spec fn index_views(m: Map<Seq<char>, StringList>) -> Map<Seq<char>, Seq<Seq<char>>> {
    Map::new(|k: Seq<char>| m.contains_key(k), |k: Seq<char>| m[k]@)
}

/// Every vector of a batch is valid.
pub open spec fn batch_valid(vs: Seq<VectorV>) -> bool {
    forall|i: int| 0 <= i < vs.len() ==> valid_vector(#[trigger] vs[i])
}

/// Every vector of a batch belongs to a resolvable document.
pub open spec fn batch_resolvable(store0: Store, vs: Seq<VectorV>) -> bool {
    forall|i: int|
        0 <= i < vs.len() ==> (first_owner(
            store0.collection_ids.deep_view(),
            store0.documents@,
            (#[trigger] vs[i]).document_id,
        )) is Some
}

/// The state of the vector map and the vector-index views after storing a
/// batch, vector by vector: each vector is upserted under its id, and a
/// fresh id is appended to its owning collection's index list.
pub open spec fn batch_fold(
    store0: Store,
    vm: Map<Seq<char>, VectorV>,
    iv: Map<Seq<char>, Seq<Seq<char>>>,
    vs: Seq<VectorV>,
) -> (Map<Seq<char>, VectorV>, Map<Seq<char>, Seq<Seq<char>>>)
    decreases vs.len(),
{
    if vs.len() == 0 {
        (vm, iv)
    } else {
        let prev = batch_fold(store0, vm, iv, vs.drop_last());
        let v = vs.last();
        match first_owner(store0.collection_ids.deep_view(), store0.documents@, v.document_id) {
            Some(c) => {
                let cur = if prev.1.contains_key(c) {
                    prev.1[c]
                } else {
                    Seq::<Seq<char>>::empty()
                };
                let iv2 = if prev.0.contains_key(v.id) {
                    prev.1
                } else {
                    prev.1.insert(c, cur.push(v.id))
                };
                (prev.0.insert(v.id, v), iv2)
            },
            None => prev,
        }
    }
}

/// Decides whether a vector may be stored: non-empty bounded embedding and
/// a positive norm.
pub fn check_vector_valid(v: &Vector) -> (r: bool)
    ensures
        r == valid_vector(v@),
{
    if v.embedding.len() == 0 {
        return false;
    }
    if v.embedding.len() > MAX_DIMENSIONS {
        return false;
    }
    if v.norm <= 0 {
        return false;
    }
    let n = v.embedding.len();
    let mut i: usize = 0;
    while i < n
        invariant
            0 <= i <= n,
            n == v.embedding@.len(),
            forall|j: int|
                0 <= j < i ==> -MAX_COMPONENT_MICRO <= #[trigger] v.embedding@[j]
                    <= MAX_COMPONENT_MICRO,
        decreases n - i,
    {
        let e = v.embedding[i];
        if e < -MAX_COMPONENT_MICRO || e > MAX_COMPONENT_MICRO {
            return false;
        }
        i += 1;
    }
    true
}

/// Stores a batch of vectors.  The whole batch is validated and resolved
/// before anything is written, so a failure leaves the store untouched; a
/// success upserts every vector and appends each fresh id to its owning
/// collection's index, both maps moving together.
pub fn store_vectors_batch(store: &mut Store, vectors: Vec<Vector>) -> (r: Result<u32, String>)
    requires
        old(store).wf(),
    ensures
        final (store).wf(),
        r is Ok <==> (batch_valid(views_of_vectors(vectors@)) && batch_resolvable(
            *old(store),
            views_of_vectors(vectors@),
        )),
        r matches Ok(count) ==> count == vectors@.len() as u32,
        r is Ok ==> ({
            let folded = batch_fold(
                *old(store),
                vector_map_views(old(store).vectors@),
                index_views(old(store).vector_index@),
                views_of_vectors(vectors@),
            );
            &&& vector_map_views(final (store).vectors@) == folded.0
            &&& index_views(final (store).vector_index@) == folded.1
        }),
        r is Err ==> ({
            &&& final (store).vectors@ == old(store).vectors@
            &&& final (store).vector_index@ == old(store).vector_index@
        }),
        final (store).collections@ == old(store).collections@,
        final (store).collection_ids@ == old(store).collection_ids@,
        final (store).documents@ == old(store).documents@,
        final (store).chunks@ == old(store).chunks@,
        final (store).chunk_doc_ids@ == old(store).chunk_doc_ids@,
        final (store).document_index@ == old(store).document_index@,
        final (store).config@ == old(store).config@,
{
    let n = vectors.len();
    let ghost views = views_of_vectors(vectors@);

    // Validate the whole batch first: a bad vector stores nothing.
    let mut i: usize = 0;
    while i < n
        invariant
            0 <= i <= n,
            n == vectors@.len(),
            views == views_of_vectors(vectors@),
            *store == *old(store),
            old(store).wf(),
            forall|j: int| 0 <= j < i ==> valid_vector(#[trigger] views[j]),
        decreases n - i,
    {
        proof {
            assert(views[i as int] == vectors@[i as int]@);
        }
        if !check_vector_valid(&vectors[i]) {
            return Err(String::from_str("Vector has an empty embedding or an invalid norm"));
        }
        i += 1;
    }

    // Resolve every owning collection before any write.
    let mut owners: Vec<String> = Vec::new();
    i = 0;
    while i < n
        invariant
            0 <= i <= n,
            n == vectors@.len(),
            views == views_of_vectors(vectors@),
            owners@.len() == i,
            store.wf(),
            *store == *old(store),
            old(store).wf(),
            forall|j: int|
                0 <= j < i ==> first_owner(
                    store.collection_ids.deep_view(),
                    store.documents@,
                    (#[trigger] views[j]).document_id,
                ) == Some(owners.deep_view()[j]),
        decreases n - i,
    {
        proof {
            assert(views[i as int] == vectors@[i as int]@);
        }
        match extract_collection_id_from_document_id(store, &vectors[i].document_id) {
            Ok(c) => {
                let ghost pre = owners.deep_view();
                owners.push(c);
                proof {
                    assert(owners.deep_view() =~= pre.push(owners@[i as int]@));
                }
            },
            Err(_) => {
                return Err(String::from_str("Could not determine collection for document"));
            },
        }
        i += 1;
    }

    // Store: both maps move together, one vector at a time.
    let ghost vm0 = vector_map_views(old(store).vectors@);
    let ghost iv0 = index_views(old(store).vector_index@);
    i = 0;
    while i < n
        invariant
            0 <= i <= n,
            n == vectors@.len(),
            views == views_of_vectors(vectors@),
            owners@.len() == n,
            batch_valid(views),
            store.wf(),
            store.collections@ == old(store).collections@,
            store.collection_ids@ == old(store).collection_ids@,
            store.documents@ == old(store).documents@,
            store.chunks@ == old(store).chunks@,
            store.chunk_doc_ids@ == old(store).chunk_doc_ids@,
            store.document_index@ == old(store).document_index@,
            store.config@ == old(store).config@,
            vm0 == vector_map_views(old(store).vectors@),
            iv0 == index_views(old(store).vector_index@),
            forall|j: int|
                0 <= j < n ==> first_owner(
                    old(store).collection_ids.deep_view(),
                    old(store).documents@,
                    (#[trigger] views[j]).document_id,
                ) == Some(owners.deep_view()[j]),
            (vector_map_views(store.vectors@), index_views(store.vector_index@)) == batch_fold(
                *old(store),
                vm0,
                iv0,
                views.take(i as int),
            ),
        decreases n - i,
    {
        proof {
            assert(views[i as int] == vectors@[i as int]@);
            assert(views.take(i + 1).drop_last() =~= views.take(i as int));
            assert(views.take(i + 1).last() == views[i as int]);
            assert(owners.deep_view()[i as int] == owners@[i as int]@);
        }
        let ghost prev_vm = vector_map_views(store.vectors@);
        let ghost prev_iv = index_views(store.vector_index@);
        let v = vectors[i].clone();
        let vid = v.id.clone();
        let exists = store.vectors.contains_key(vid.as_str());
        let ghost pre_aux = store.vector_ids.deep_view();
        store.vectors.insert(vid.clone(), v);
        if !exists {
            store.vector_ids.push(vid.clone());
        }
        proof {
            assert(vector_map_views(store.vectors@) =~= prev_vm.insert(
                views[i as int].id,
                views[i as int],
            ));
            let auxv = store.vector_ids.deep_view();
            if exists {
                assert(store.vectors@.dom() =~= prev_vm.dom());
                assert(crate::store::ids_match(auxv, store.vectors@));
            } else {
                assert(auxv =~= pre_aux.push(vid@));
                assert(auxv.drop_last() =~= pre_aux);
                assert forall|k: Seq<char>|
                    store.vectors@.dom().contains(k) <==> auxv.contains(k) by {
                    if k == vid@ {
                        assert(auxv[auxv.len() - 1] == k);
                        assert(auxv.contains(k));
                    } else {
                        if pre_aux.contains(k) {
                            let m = choose|m: int| 0 <= m < pre_aux.len() && pre_aux[m] == k;
                            assert(auxv[m] == k);
                            assert(auxv.contains(k));
                        }
                        if auxv.contains(k) {
                            let m = choose|m: int| 0 <= m < auxv.len() && auxv[m] == k;
                            assert(m < auxv.len() - 1);
                            assert(pre_aux[m] == k);
                            assert(pre_aux.contains(k));
                        }
                    }
                }
                assert(auxv.no_duplicates()) by {
                    assert(!pre_aux.contains(vid@));
                    assert forall|m1: int, m2: int|
                        0 <= m1 < auxv.len() && 0 <= m2 < auxv.len() && m1 != m2 implies auxv[m1]
                        != auxv[m2] by {
                        if m1 < auxv.len() - 1 && m2 < auxv.len() - 1 {
                            assert(pre_aux[m1] == auxv[m1]);
                            assert(pre_aux[m2] == auxv[m2]);
                        } else if m1 == auxv.len() - 1 && m2 < auxv.len() - 1 {
                            assert(pre_aux[m2] == auxv[m2]);
                            if auxv[m2] == vid@ {
                                assert(pre_aux.contains(vid@));
                            }
                        } else if m2 == auxv.len() - 1 && m1 < auxv.len() - 1 {
                            assert(pre_aux[m1] == auxv[m1]);
                            if auxv[m1] == vid@ {
                                assert(pre_aux.contains(vid@));
                            }
                        }
                    }
                }
            }
        }
        if !exists {
            let mut list: StringList = match store.vector_index.get(owners[i].as_str()) {
                Some(l) => l.clone(),
                None => StringList::new(),
            };
            let ghost pre_list = list@;
            list.0.push(vid);
            proof {
                assert(list@ =~= pre_list.push(views[i as int].id));
            }
            store.vector_index.insert(owners[i].clone(), list);
            proof {
                assert(index_views(store.vector_index@) =~= prev_iv.insert(
                    owners.deep_view()[i as int],
                    store.vector_index@[owners.deep_view()[i as int]]@,
                ));
            }
        }
        proof {
            assert((vector_map_views(store.vectors@), index_views(store.vector_index@))
                =~= batch_fold(*old(store), vm0, iv0, views.take(i + 1)));
        }
        i += 1;
    }
    proof {
        assert(views.take(n as int) =~= views);
    }
    Ok(#[verifier::truncate] (n as u32))
}

} // verus!

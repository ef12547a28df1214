use crate::cache::BoundedCache;
use crate::cache::CacheEntry;
use crate::cache::fresh_key;
use crate::hashing::generated_id;
use crate::store::Store;
use crate::types::VectorV;
use crate::vectors::batch_fold;
use crate::vectors::first_owner;
use vstd::prelude::*;

verus! {

/// The cache bounds hold whenever the cache is well formed: memory stays
/// under its cap and the entry count under its limit, and every cache
/// operation returns the cache well formed, so the bounds hold after every
/// insertion and eviction.
pub proof fn lemma_cache_bounds(cache: BoundedCache)
    requires
        cache.wf(),
    ensures
        cache.total_memory <= cache.max_memory,
        cache.entries@.len() <= cache.max_entries,
{
}

/// Invalidating a collection leaves no fresh entry for it at any clock
/// reading, so the next cache-backed read takes the authoritative stored
/// vectors.
pub proof fn lemma_invalidation_forces_storage_read(
    entries: Map<Seq<char>, CacheEntry>,
    c: Seq<char>,
    now: u64,
)
    ensures
        !fresh_key(entries.remove(c), c, now),
{
}

/// Identifier derivation is deterministic: equal seed text and equal clock
/// reading give the same identifier, so re-adding the same title in the
/// same tick derives the same document id, while a different tick mixes a
/// different timestamp into the digest input.
pub proof fn lemma_generated_id_deterministic(
    prefix: Seq<char>,
    seed1: Seq<char>,
    seed2: Seq<char>,
    now: u64,
)
    requires
        seed1 == seed2,
    ensures
        generated_id(prefix, seed1, now) == generated_id(prefix, seed2, now),
{
}

/// Adding the same title and content twice within one timestamp tick
/// changes nothing the second time: the derived id is the same, the
/// re-filed record and chunk list carry the same views, and the document
/// index does not grow, because an id it already lists is never appended
/// again.  The facts required here are exactly what `add_document` ensures
/// for each of the two calls.
pub proof fn lemma_add_document_idempotent(
    mid: Store,
    post: Store,
    request: crate::types::AddDocumentRequest,
    now: u64,
)
    requires
        ({
            let id = generated_id("doc"@, request.title@, now);
            let key = crate::store::doc_key(request.collection_id@, id);
            &&& mid.documents@.contains_key(key)
            &&& mid.chunks@.contains_key(id)
            &&& post.documents@ =~= mid.documents@.insert(key, post.documents@[key])
            &&& post.documents@[key]@ == mid.documents@[key]@
            &&& post.chunks@ =~= mid.chunks@.insert(id, post.chunks@[id])
            &&& post.chunks@[id]@ == mid.chunks@[id]@
            &&& mid.document_index@.contains_key(request.collection_id@)
            &&& crate::util::seq_contains_string(
                mid.document_index@[request.collection_id@]@,
                id,
            )
            &&& post.document_index@ =~= mid.document_index@.insert(
                request.collection_id@,
                post.document_index@[request.collection_id@],
            )
            &&& post.document_index@[request.collection_id@]@ == (if crate::util::seq_contains_string(
                mid.document_index@[request.collection_id@]@,
                id,
            ) {
                mid.document_index@[request.collection_id@]@
            } else {
                mid.document_index@[request.collection_id@]@.push(id)
            })
        }),
    ensures
        post.documents@.dom() == mid.documents@.dom(),
        ({
            let id = generated_id("doc"@, request.title@, now);
            let key = crate::store::doc_key(request.collection_id@, id);
            &&& forall|k: Seq<char>|
                #[trigger] post.documents@.contains_key(k) ==> post.documents@[k]@
                    == mid.documents@[k]@
            &&& forall|k: Seq<char>|
                #[trigger] post.chunks@.contains_key(k) ==> post.chunks@[k]@ == mid.chunks@[k]@
            &&& post.document_index@[request.collection_id@]@
                == mid.document_index@[request.collection_id@]@
            &&& post.chunks@.dom() == mid.chunks@.dom()
        }),
{
    let id = generated_id("doc"@, request.title@, now);
    let key = crate::store::doc_key(request.collection_id@, id);
    assert(post.documents@.dom() =~= mid.documents@.dom());
    assert(post.chunks@.dom() =~= mid.chunks@.dom());
    assert forall|k: Seq<char>|
        #[trigger] post.documents@.contains_key(k) implies post.documents@[k]@
        == mid.documents@[k]@ by {
        if k != key {
            assert(post.documents@[k] == mid.documents@[k]);
        }
    }
    assert forall|k: Seq<char>|
        #[trigger] post.chunks@.contains_key(k) implies post.chunks@[k]@ == mid.chunks@[k]@ by {
        if k != id {
            assert(post.chunks@[k] == mid.chunks@[k]);
        }
    }
}

/// What the batch fold stores: an id is in the folded vector map exactly
/// when it was already stored or the batch carries it.
proof fn lemma_fold_dom(
    store0: Store,
    vm: Map<Seq<char>, VectorV>,
    iv: Map<Seq<char>, Seq<Seq<char>>>,
    vs: Seq<VectorV>,
    x: Seq<char>,
)
    requires
        crate::vectors::batch_resolvable(store0, vs),
    ensures
        batch_fold(store0, vm, iv, vs).0.contains_key(x) <==> (vm.contains_key(x) || exists|i: int|
            0 <= i < vs.len() && (#[trigger] vs[i]).id == x),
    decreases vs.len(),
{
    if vs.len() > 0 {
        let prefix = vs.drop_last();
        lemma_prefix_resolvable(store0, vs);
        lemma_fold_dom(store0, vm, iv, prefix, x);
        if vs.last().id == x {
            assert(vs[vs.len() - 1].id == x);
        }
        if batch_fold(store0, vm, iv, prefix).0.contains_key(x) && !vm.contains_key(x) {
            let i = choose|i: int| 0 <= i < prefix.len() && (#[trigger] prefix[i]).id == x;
            assert(vs[i].id == x);
        }
        if exists|i: int| 0 <= i < vs.len() && (#[trigger] vs[i]).id == x {
            let i = choose|i: int| 0 <= i < vs.len() && (#[trigger] vs[i]).id == x;
            if i < vs.len() - 1 {
                assert(prefix[i].id == x);
            }
        }
    }
}

/// A batch that resolves keeps resolving on its prefix.
proof fn lemma_prefix_resolvable(store0: Store, vs: Seq<VectorV>)
    requires
        vs.len() > 0,
        crate::vectors::batch_resolvable(store0, vs),
    ensures
        crate::vectors::batch_resolvable(store0, vs.drop_last()),
{
    let prefix = vs.drop_last();
    assert forall|i: int|
        0 <= i < prefix.len() implies (first_owner(
        store0.collection_ids.deep_view(),
        store0.documents@,
        (#[trigger] prefix[i]).document_id,
    )) is Some by {
        assert(prefix[i] == vs[i]);
    }
}

/// Ids already listed in the accumulated index stay listed through one
/// more fold step: index lists only ever grow within a batch.
proof fn lemma_fold_step_keeps_index(
    store0: Store,
    vm: Map<Seq<char>, VectorV>,
    iv: Map<Seq<char>, Seq<Seq<char>>>,
    vs: Seq<VectorV>,
    id: Seq<char>,
    c: Seq<char>,
)
    requires
        vs.len() > 0,
        batch_fold(store0, vm, iv, vs.drop_last()).1.contains_key(c),
        batch_fold(store0, vm, iv, vs.drop_last()).1[c].contains(id),
    ensures
        batch_fold(store0, vm, iv, vs).1.contains_key(c),
        batch_fold(store0, vm, iv, vs).1[c].contains(id),
{
    let prev = batch_fold(store0, vm, iv, vs.drop_last());
    let v = vs.last();
    match first_owner(store0.collection_ids.deep_view(), store0.documents@, v.document_id) {
        Some(cl) => {
            if !prev.0.contains_key(v.id) && cl == c {
                let cur = prev.1[c];
                let j = choose|j: int| 0 <= j < cur.len() && cur[j] == id;
                assert(cur.push(v.id)[j] == id);
            }
        },
        None => {},
    }
}

/// Batch storage moves both maps together: after a batch of fresh,
/// pairwise-distinct vectors lands, every one of them sits in the vector
/// map under its id and that id is listed in its owning collection's
/// index.  No reachable state holds one side without the other, because
/// both updates happen in the same fold step.
pub proof fn lemma_batch_atomicity(
    store0: Store,
    vm: Map<Seq<char>, VectorV>,
    iv: Map<Seq<char>, Seq<Seq<char>>>,
    vs: Seq<VectorV>,
)
    requires
        crate::vectors::batch_resolvable(store0, vs),
        forall|i: int, j: int|
            0 <= i < vs.len() && 0 <= j < vs.len() && i != j ==> (#[trigger] vs[i]).id != (
            #[trigger] vs[j]).id,
        forall|i: int| 0 <= i < vs.len() ==> !vm.contains_key((#[trigger] vs[i]).id),
    ensures
        forall|i: int|
            0 <= i < vs.len() ==> ({
                let folded = batch_fold(store0, vm, iv, vs);
                let c = first_owner(
                    store0.collection_ids.deep_view(),
                    store0.documents@,
                    (#[trigger] vs[i]).document_id,
                )->Some_0;
                &&& folded.0.contains_key(vs[i].id)
                &&& folded.1.contains_key(c)
                &&& folded.1[c].contains(vs[i].id)
            }),
    decreases vs.len(),
{
    if vs.len() > 0 {
        let prefix = vs.drop_last();
        lemma_prefix_resolvable(store0, vs);
        assert forall|i: int, j: int|
            0 <= i < prefix.len() && 0 <= j < prefix.len() && i != j implies (
        #[trigger] prefix[i]).id != (#[trigger] prefix[j]).id by {
            assert(prefix[i] == vs[i] && prefix[j] == vs[j]);
        }
        assert forall|i: int|
            0 <= i < prefix.len() implies !vm.contains_key((#[trigger] prefix[i]).id) by {
            assert(prefix[i] == vs[i]);
        }
        lemma_batch_atomicity(store0, vm, iv, prefix);
        let prev = batch_fold(store0, vm, iv, prefix);
        let v = vs.last();
        let folded = batch_fold(store0, vm, iv, vs);
        let cl = first_owner(
            store0.collection_ids.deep_view(),
            store0.documents@,
            v.document_id,
        )->Some_0;
        assert(!prev.0.contains_key(v.id)) by {
            lemma_fold_dom(store0, vm, iv, prefix, v.id);
            assert(vs[vs.len() - 1] == v);
            if exists|i: int| 0 <= i < prefix.len() && (#[trigger] prefix[i]).id == v.id {
                let i = choose|i: int| 0 <= i < prefix.len() && (#[trigger] prefix[i]).id == v.id;
                assert(vs[i].id == vs[vs.len() - 1].id);
            }
        }
        let cur = if prev.1.contains_key(cl) {
            prev.1[cl]
        } else {
            Seq::<Seq<char>>::empty()
        };
        assert(folded.1[cl] == cur.push(v.id));
        assert(folded.1[cl][folded.1[cl].len() - 1] == v.id);
        assert forall|i: int|
            0 <= i < vs.len() implies ({
            let c = first_owner(
                store0.collection_ids.deep_view(),
                store0.documents@,
                (#[trigger] vs[i]).document_id,
            )->Some_0;
            &&& folded.0.contains_key(vs[i].id)
            &&& folded.1.contains_key(c)
            &&& folded.1[c].contains(vs[i].id)
        }) by {
            if i < vs.len() - 1 {
                assert(vs[i] == prefix[i]);
                let c = first_owner(
                    store0.collection_ids.deep_view(),
                    store0.documents@,
                    vs[i].document_id,
                )->Some_0;
                assert(prev.0.contains_key(vs[i].id) && prev.1.contains_key(c)
                    && prev.1[c].contains(vs[i].id));
                lemma_fold_step_keeps_index(store0, vm, iv, vs, vs[i].id, c);
            } else {
                assert(vs[i] == v);
            }
        }
    }
}

/// Storing the same batch twice changes nothing the second time: with the
/// batch's ids pairwise distinct, the second fold starts from a state that
/// already holds every batched vector, so every upsert is absorbed and no
/// index entry is appended.
pub proof fn lemma_batch_store_idempotent(
    store0: Store,
    vm: Map<Seq<char>, VectorV>,
    iv: Map<Seq<char>, Seq<Seq<char>>>,
    vs: Seq<VectorV>,
)
    requires
        crate::vectors::batch_resolvable(store0, vs),
        forall|i: int, j: int|
            0 <= i < vs.len() && 0 <= j < vs.len() && i != j ==> (#[trigger] vs[i]).id != (
            #[trigger] vs[j]).id,
    ensures
        batch_fold(store0, batch_fold(store0, vm, iv, vs).0, batch_fold(store0, vm, iv, vs).1, vs)
            == batch_fold(store0, vm, iv, vs),
{
    let f = batch_fold(store0, vm, iv, vs);
    lemma_fold_holds_prefix(store0, vm, iv, vs, vs.len() as int);
    assert(vs.take(vs.len() as int) =~= vs);
    lemma_fold_absorbed(store0, f.0, f.1, vs);
}

/// The fold of a prefix holds each of the prefix's vectors under its id,
/// when the batch's ids are pairwise distinct.
proof fn lemma_fold_holds_prefix(
    store0: Store,
    vm: Map<Seq<char>, VectorV>,
    iv: Map<Seq<char>, Seq<Seq<char>>>,
    whole: Seq<VectorV>,
    k: int,
)
    requires
        crate::vectors::batch_resolvable(store0, whole),
        0 <= k <= whole.len(),
        forall|i: int, j: int|
            0 <= i < whole.len() && 0 <= j < whole.len() && i != j ==> (#[trigger] whole[i]).id
                != (#[trigger] whole[j]).id,
    ensures
        forall|i: int|
            0 <= i < k ==> (batch_fold(store0, vm, iv, whole.take(k)).0.contains_key(
                (#[trigger] whole[i]).id,
            ) && batch_fold(store0, vm, iv, whole.take(k)).0[whole[i].id] == whole[i]),
    decreases k,
{
    if k > 0 {
        lemma_fold_holds_prefix(store0, vm, iv, whole, k - 1);
        let prefix = whole.take(k);
        assert(prefix.drop_last() =~= whole.take(k - 1));
        assert(prefix.last() == whole[k - 1]);
        let prev = batch_fold(store0, vm, iv, whole.take(k - 1));
        let folded = batch_fold(store0, vm, iv, prefix);
        assert(crate::vectors::batch_resolvable(store0, prefix)) by {
            assert forall|i: int|
                0 <= i < prefix.len() implies (first_owner(
                store0.collection_ids.deep_view(),
                store0.documents@,
                (#[trigger] prefix[i]).document_id,
            )) is Some by {
                assert(prefix[i] == whole[i]);
            }
        }
        assert(folded.0 == prev.0.insert(whole[k - 1].id, whole[k - 1]));
        assert forall|i: int|
            0 <= i < k implies (folded.0.contains_key((#[trigger] whole[i]).id) && folded.0[whole[
            i
        ].id] == whole[i]) by {
            if i < k - 1 {
                assert(prev.0.contains_key(whole[i].id) && prev.0[whole[i].id] == whole[i]);
                assert(whole[i].id != whole[k - 1].id);
            }
        }
    }
}

/// Folding a batch over a state that already holds every batched vector
/// changes nothing.
proof fn lemma_fold_absorbed(
    store0: Store,
    vm: Map<Seq<char>, VectorV>,
    iv: Map<Seq<char>, Seq<Seq<char>>>,
    vs: Seq<VectorV>,
)
    requires
        crate::vectors::batch_resolvable(store0, vs),
        forall|i: int|
            0 <= i < vs.len() ==> (vm.contains_key((#[trigger] vs[i]).id) && vm[vs[i].id]
                == vs[i]),
    ensures
        batch_fold(store0, vm, iv, vs) == (vm, iv),
    decreases vs.len(),
{
    if vs.len() > 0 {
        let prefix = vs.drop_last();
        lemma_prefix_resolvable(store0, vs);
        assert forall|i: int|
            0 <= i < prefix.len() implies (vm.contains_key((#[trigger] prefix[i]).id) && vm[prefix[
            i
        ].id] == prefix[i]) by {
            assert(prefix[i] == vs[i]);
        }
        lemma_fold_absorbed(store0, vm, iv, prefix);
        let v = vs.last();
        assert(vm.contains_key(v.id) && vm[v.id] == v) by {
            assert(vs[vs.len() - 1] == v);
        }
        assert(vm.insert(v.id, v) =~= vm);
        assert(batch_fold(store0, vm, iv, vs) == (vm, iv));
    }
}

} // verus!

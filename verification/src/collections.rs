use crate::store::Store;
use crate::store::ids_match;
use crate::types::AdminLevel;
use crate::types::Collection;
use crate::types::CollectionSettings;
use crate::types::CollectionStats;
use crate::types::CollectionV;
use crate::types::CollectionWithStats;
use crate::types::CreateCollectionRequest;
use crate::types::StringList;
use crate::types::default_settings_view;
use crate::types::valid_collection_id;
use crate::types::validate_collection_id;
use crate::util::byte_len;
use crate::util::seq_contains_string;
use crate::util::string_has_non_space;
use crate::util::string_vec_contains;
use crate::util::string_vec_remove;
use vstd::prelude::*;

verus! {

broadcast use vstd::hash_map::axiom_string_hash_map_spec_len;

/// Whether the principal is the genesis admin or a listed admin of the
/// collection.
pub open spec fn is_admin_of(c: CollectionV, caller: Seq<char>) -> bool {
    c.genesis_admin == caller || seq_contains_string(c.admins, caller)
}

/// The admin level of a principal on a collection: genesis, regular, or
/// none.
pub open spec fn admin_level_of(store: Store, collection_id: Seq<char>, caller: Seq<char>) -> AdminLevel {
    if store.collections@.contains_key(collection_id) {
        if store.collections@[collection_id]@.genesis_admin == caller {
            AdminLevel::Genesis
        } else if seq_contains_string(store.collections@[collection_id]@.admins, caller) {
            AdminLevel::Regular
        } else {
            AdminLevel::NoAccess
        }
    } else {
        AdminLevel::NoAccess
    }
}

/// Everything outside the collection maps is untouched.
pub open spec fn non_collection_state_unchanged(pre: Store, post: Store) -> bool {
    &&& post.documents@ == pre.documents@
    &&& post.chunks@ == pre.chunks@
    &&& post.chunk_doc_ids@ == pre.chunk_doc_ids@
    &&& post.vectors@ == pre.vectors@
    &&& post.config@ == pre.config@
}

/// Nothing in the store changed.
pub open spec fn store_unchanged(pre: Store, post: Store) -> bool {
    &&& post.collections@ == pre.collections@
    &&& post.collection_ids@ == pre.collection_ids@
    &&& post.vector_index@ == pre.vector_index@
    &&& post.document_index@ == pre.document_index@
    &&& non_collection_state_unchanged(pre, post)
}

// =============================================================================
// CREATION AND LOOKUP
// =============================================================================

/// The collection value that `create_collection` stores for a request.
pub open spec fn created_collection_view(
    request: CreateCollectionRequest,
    creator: Seq<char>,
    now: u64,
) -> CollectionV {
    CollectionV {
        id: request.id@,
        name: request.name@,
        description: match request.description {
            Some(d) => Some(d@),
            None => None,
        },
        created_at: now,
        updated_at: now,
        genesis_admin: creator,
        admins: seq![creator],
        settings: match request.settings {
            Some(s) => s@,
            None => default_settings_view(),
        },
    }
}

/// Creates a collection with empty document and vector indices.  Fails on an
/// invalid identifier and on a duplicate; on failure the store is unchanged.
pub fn create_collection(store: &mut Store, request: CreateCollectionRequest, creator: String, now: u64) -> (r:
    Result<Collection, String>)
    requires
        old(store).wf(),
    ensures
        final (store).wf(),
        r is Ok <==> valid_collection_id(request.id@) && !old(store).collections@.contains_key(
            request.id@,
        ),
        r is Ok ==> {
            &&& final (store).collections@ =~= old(store).collections@.insert(
                request.id@,
                final (store).collections@[request.id@],
            )
            &&& final (store).collections@[request.id@]@ == created_collection_view(
                request,
                creator@,
                now,
            )
            &&& final (store).vector_index@ =~= old(store).vector_index@.insert(
                request.id@,
                final (store).vector_index@[request.id@],
            )
            &&& final (store).vector_index@[request.id@]@ == Seq::<Seq<char>>::empty()
            &&& final (store).document_index@ =~= old(store).document_index@.insert(
                request.id@,
                final (store).document_index@[request.id@],
            )
            &&& final (store).document_index@[request.id@]@ == Seq::<Seq<char>>::empty()
            &&& non_collection_state_unchanged(*old(store), *final (store))
        },
        r is Err ==> store_unchanged(*old(store), *final (store)),
        r matches Ok(c) ==> c@ == created_collection_view(request, creator@, now),
{
    match validate_collection_id(&request.id) {
        Ok(_) => {},
        Err(e) => {
            return Err(e);
        },
    }
    if store.collections.contains_key(request.id.as_str()) {
        return Err(String::from_str("Collection already exists"));
    }
    let mut admins: Vec<String> = Vec::new();
    admins.push(creator.clone());
    let settings = match request.settings {
        Some(s) => s,
        None => CollectionSettings::default(),
    };
    let collection = Collection {
        id: request.id.clone(),
        name: request.name,
        description: request.description,
        created_at: now,
        updated_at: now,
        genesis_admin: creator,
        admins,
        settings,
    };
    proof {
        assert(collection@.admins =~= seq![collection.genesis_admin@]);
    }
    let result = collection.clone();
    store.collections.insert(request.id.clone(), collection);
    store.collection_ids.push(request.id.clone());
    store.vector_index.insert(request.id.clone(), StringList::new());
    store.document_index.insert(request.id.clone(), StringList::new());
    proof {
        let pre = old(store);
        let ids = store.collection_ids.deep_view();
        assert(ids =~= pre.collection_ids.deep_view().push(request.id@));
        assert(ids.drop_last() =~= pre.collection_ids.deep_view());
        let pids = pre.collection_ids.deep_view();
        assert forall|k: Seq<char>|
            store.collections@.dom().contains(k) <==> ids.contains(k) by {
            if k == request.id@ {
                assert(store.collections@.dom().contains(k));
                assert(ids[ids.len() - 1] == k);
                assert(ids.contains(k));
            } else {
                assert(store.collections@.dom().contains(k) <==> pre.collections@.dom().contains(
                    k,
                ));
                if pids.contains(k) {
                    let i = choose|i: int| 0 <= i < pids.len() && pids[i] == k;
                    assert(ids[i] == k);
                    assert(ids.contains(k));
                }
                if ids.contains(k) {
                    let i = choose|i: int| 0 <= i < ids.len() && ids[i] == k;
                    assert(i < ids.len() - 1);
                    assert(pids[i] == k);
                    assert(pids.contains(k));
                }
            }
        }
        assert(ids.no_duplicates()) by {
            assert(!pre.collection_ids.deep_view().contains(request.id@));
            assert forall|i: int, j: int|
                0 <= i < ids.len() && 0 <= j < ids.len() && i != j implies ids[i] != ids[j] by {
                if i < ids.len() - 1 && j < ids.len() - 1 {
                    assert(pre.collection_ids.deep_view()[i] == ids[i]);
                    assert(pre.collection_ids.deep_view()[j] == ids[j]);
                } else if i == ids.len() - 1 && j < ids.len() - 1 {
                    assert(pre.collection_ids.deep_view()[j] == ids[j]);
                    if ids[j] == request.id@ {
                        assert(pre.collection_ids.deep_view().contains(request.id@));
                    }
                } else if j == ids.len() - 1 && i < ids.len() - 1 {
                    assert(pre.collection_ids.deep_view()[i] == ids[i]);
                    if ids[i] == request.id@ {
                        assert(pre.collection_ids.deep_view().contains(request.id@));
                    }
                }
            }
        }
    }
    Ok(result)
}

pub fn get_collection(store: &Store, collection_id: &String) -> (r: Option<Collection>)
    ensures
        match r {
            Some(c) => store.collections@.contains_key(collection_id@) && c@
                == store.collections@[collection_id@]@,
            None => !store.collections@.contains_key(collection_id@),
        },
{
    match store.collections.get(collection_id.as_str()) {
        Some(c) => Some(c.clone()),
        None => None,
    }
}

pub fn collection_exists(store: &Store, collection_id: &String) -> (r: bool)
    ensures
        r == store.collections@.contains_key(collection_id@),
{
    store.collections.contains_key(collection_id.as_str())
}

/// The on-demand statistics of a collection: how many documents its index
/// lists and how many vectors its index resolves.
pub open spec fn stats_ok(store: Store, c: Seq<char>, stats: CollectionStats) -> bool {
    &&& stats.document_count == (if store.document_index@.contains_key(c) {
        store.document_index@[c]@.len() as int
    } else {
        0
    }) as u32
    &&& stats.vector_count == (if store.vector_index@.contains_key(c) {
        crate::vectors::resolved_vectors(store, store.vector_index@[c]@).len() as int
    } else {
        0
    }) as u32
    &&& stats.created_at == store.collections@[c]@.created_at
    &&& stats.updated_at == store.collections@[c]@.updated_at
}

/// A collection together with statistics computed on demand from the
/// indices.
pub fn get_collection_with_stats(store: &Store, collection_id: &String) -> (r: Option<
    CollectionWithStats,
>)
    requires
        store.wf(),
    ensures
        match r {
            Some(cws) => store.collections@.contains_key(collection_id@) && cws.collection@
                == store.collections@[collection_id@]@ && stats_ok(
                *store,
                collection_id@,
                cws.stats,
            ),
            None => !store.collections@.contains_key(collection_id@),
        },
{
    let collection = match get_collection(store, collection_id) {
        Some(c) => c,
        None => {
            return None;
        },
    };
    let document_count = crate::documents::count_collection_documents(store, collection_id);
    let vector_count = crate::vectors::get_collection_vectors(store, collection_id).len();
    let stats = CollectionStats {
        document_count: #[verifier::truncate] (document_count as u32),
        vector_count: #[verifier::truncate] (vector_count as u32),
        created_at: collection.created_at,
        updated_at: collection.updated_at,
    };
    Some(CollectionWithStats { collection, stats })
}

/// Every collection with its statistics, in creation order.
pub fn list_collections_with_stats(store: &Store) -> (r: Vec<CollectionWithStats>)
    requires
        store.wf(),
    ensures
        r@.len() == store.collection_ids@.len(),
        forall|i: int|
            0 <= i < r@.len() ==> ((#[trigger] r@[i]).collection@
                == store.collections@[store.collection_ids.deep_view()[i]]@ && stats_ok(
                *store,
                store.collection_ids.deep_view()[i],
                r@[i].stats,
            )),
{
    let n = store.collection_ids.len();
    let mut out: Vec<CollectionWithStats> = Vec::new();
    let mut i: usize = 0;
    while i < n
        invariant
            0 <= i <= n,
            store.wf(),
            n == store.collection_ids@.len(),
            out@.len() == i,
            forall|j: int|
                0 <= j < i ==> ((#[trigger] out@[j]).collection@
                    == store.collections@[store.collection_ids.deep_view()[j]]@ && stats_ok(
                    *store,
                    store.collection_ids.deep_view()[j],
                    out@[j].stats,
                )),
        decreases n - i,
    {
        proof {
            assert(store.collection_ids.deep_view()[i as int] == store.collection_ids@[i as int]@);
            assert(store.collection_ids.deep_view().contains(
                store.collection_ids.deep_view()[i as int],
            ));
        }
        match get_collection_with_stats(store, &store.collection_ids[i]) {
            Some(cws) => {
                out.push(cws);
            },
            None => {
                proof {
                    assert(false);
                }
            },
        }
        i += 1;
    }
    out
}

// =============================================================================
// ADMIN MODEL
// =============================================================================

pub fn is_collection_admin(store: &Store, collection_id: &String, caller: &String) -> (r: bool)
    ensures
        r == (store.collections@.contains_key(collection_id@) && is_admin_of(
            store.collections@[collection_id@]@,
            caller@,
        )),
{
    match store.collections.get(collection_id.as_str()) {
        Some(c) => c.genesis_admin.eq(caller) || string_vec_contains(&c.admins, caller),
        None => false,
    }
}

pub fn get_admin_level(store: &Store, collection_id: &String, caller: &String) -> (r: AdminLevel)
    ensures
        r == admin_level_of(*store, collection_id@, caller@),
{
    match store.collections.get(collection_id.as_str()) {
        Some(c) => {
            if c.genesis_admin.eq(caller) {
                AdminLevel::Genesis
            } else if string_vec_contains(&c.admins, caller) {
                AdminLevel::Regular
            } else {
                AdminLevel::NoAccess
            }
        },
        None => AdminLevel::NoAccess,
    }
}

/// Accepts any admin level above none, and reports the level held.
pub fn require_admin_access(store: &Store, collection_id: &String, caller: &String) -> (r: Result<
    AdminLevel,
    String,
>)
    ensures
        r is Ok <==> admin_level_of(*store, collection_id@, caller@) != AdminLevel::NoAccess,
        r matches Ok(level) ==> level == admin_level_of(*store, collection_id@, caller@),
{
    let level = get_admin_level(store, collection_id, caller);
    match level {
        AdminLevel::Genesis => Ok(AdminLevel::Genesis),
        AdminLevel::Regular => Ok(AdminLevel::Regular),
        AdminLevel::NoAccess => Err(String::from_str("Admin access required")),
    }
}

/// Accepts the genesis admin alone.
pub fn require_genesis_admin(store: &Store, collection_id: &String, caller: &String) -> (r: Result<
    (),
    String,
>)
    ensures
        r is Ok <==> admin_level_of(*store, collection_id@, caller@) == AdminLevel::Genesis,
{
    let level = get_admin_level(store, collection_id, caller);
    match level {
        AdminLevel::Genesis => Ok(()),
        AdminLevel::Regular => Err(String::from_str("Genesis admin access required")),
        AdminLevel::NoAccess => Err(String::from_str("Admin access required")),
    }
}

pub fn get_collection_admins(store: &Store, collection_id: &String) -> (r: Vec<String>)
    ensures
        store.collections@.contains_key(collection_id@) ==> r.deep_view()
            == store.collections@[collection_id@]@.admins,
        !store.collections@.contains_key(collection_id@) ==> r.deep_view() == Seq::<
            Seq<char>,
        >::empty(),
{
    match store.collections.get(collection_id.as_str()) {
        Some(c) => crate::util::clone_string_vec(&c.admins),
        None => {
            let r: Vec<String> = Vec::new();
            proof {
                assert(r.deep_view() =~= Seq::<Seq<char>>::empty());
            }
            r
        },
    }
}

pub fn get_genesis_admin(store: &Store, collection_id: &String) -> (r: Option<String>)
    ensures
        match r {
            Some(g) => store.collections@.contains_key(collection_id@) && g@
                == store.collections@[collection_id@]@.genesis_admin,
            None => !store.collections@.contains_key(collection_id@),
        },
{
    match store.collections.get(collection_id.as_str()) {
        Some(c) => Some(c.genesis_admin.clone()),
        None => None,
    }
}

/// Re-inserting a collection under its own key leaves the store well formed
/// and every other map untouched.
proof fn lemma_update_in_place(pre: Store, post: Store, k: Seq<char>, v: Collection)
    requires
        pre.wf(),
        pre.collections@.contains_key(k),
        v.id@ == k,
        post.collections@ == pre.collections@.insert(k, v),
        post.collection_ids@ == pre.collection_ids@,
        post.vectors@ == pre.vectors@,
        post.vector_ids@ == pre.vector_ids@,
        post.chunks@ == pre.chunks@,
        post.chunk_doc_ids@ == pre.chunk_doc_ids@,
    ensures
        post.wf(),
{
    assert(post.collections@.dom() =~= pre.collections@.dom());
    assert(post.collection_ids.deep_view() == pre.collection_ids.deep_view());
    assert(post.chunk_doc_ids.deep_view() == pre.chunk_doc_ids.deep_view());
    assert(post.vector_ids.deep_view() == pre.vector_ids.deep_view());
    assert(ids_match(post.collection_ids.deep_view(), post.collections@));
}

/// Adds a regular admin.  Only the genesis admin may do so, and the
/// principal must not already be an admin.
pub fn add_collection_admin(
    store: &mut Store,
    collection_id: &String,
    new_admin: &String,
    caller: &String,
    now: u64,
) -> (r: Result<(), String>)
    requires
        old(store).wf(),
    ensures
        final (store).wf(),
        r is Ok <==> (old(store).collections@.contains_key(collection_id@) && old(
            store,
        ).collections@[collection_id@]@.genesis_admin == caller@ && !seq_contains_string(
            old(store).collections@[collection_id@]@.admins,
            new_admin@,
        )),
        r is Ok ==> {
            &&& final (store).collections@ =~= old(store).collections@.insert(
                collection_id@,
                final (store).collections@[collection_id@],
            )
            &&& final (store).collections@[collection_id@]@ == CollectionV {
                admins: old(store).collections@[collection_id@]@.admins.push(new_admin@),
                updated_at: now,
                ..old(store).collections@[collection_id@]@
            }
            &&& final (store).collection_ids@ == old(store).collection_ids@
            &&& final (store).vector_index@ == old(store).vector_index@
            &&& final (store).document_index@ == old(store).document_index@
            &&& non_collection_state_unchanged(*old(store), *final (store))
        },
        r is Err ==> store_unchanged(*old(store), *final (store)),
{
    let c = match store.collections.get(collection_id.as_str()) {
        Some(c) => c,
        None => {
            return Err(String::from_str("Collection not found"));
        },
    };
    if !c.genesis_admin.eq(caller) {
        return Err(String::from_str("Only the genesis admin can add new admins"));
    }
    if string_vec_contains(&c.admins, new_admin) {
        return Err(String::from_str("User is already an admin"));
    }
    let mut updated = c.clone();
    updated.admins.push(new_admin.clone());
    updated.updated_at = now;
    proof {
        assert(updated.admins.deep_view() =~= old(
            store,
        ).collections@[collection_id@]@.admins.push(new_admin@));
        assert(updated@ == CollectionV {
            admins: old(store).collections@[collection_id@]@.admins.push(new_admin@),
            updated_at: now,
            ..old(store).collections@[collection_id@]@
        });
    }
    let key = collection_id.clone();
    store.collections.insert(key, updated);
    proof {
        lemma_update_in_place(
            *old(store),
            *store,
            collection_id@,
            store.collections@[collection_id@],
        );
    }
    Ok(())
}

/// Removes a regular admin.  Only the genesis admin may do so; the genesis
/// admin itself cannot be removed.
pub fn remove_collection_admin(
    store: &mut Store,
    collection_id: &String,
    admin_to_remove: &String,
    caller: &String,
    now: u64,
) -> (r: Result<(), String>)
    requires
        old(store).wf(),
    ensures
        final (store).wf(),
        r is Ok <==> (old(store).collections@.contains_key(collection_id@) && old(
            store,
        ).collections@[collection_id@]@.genesis_admin == caller@ && admin_to_remove@ != old(
            store,
        ).collections@[collection_id@]@.genesis_admin && seq_contains_string(
            old(store).collections@[collection_id@]@.admins,
            admin_to_remove@,
        )),
        r is Ok ==> {
            &&& final (store).collections@ =~= old(store).collections@.insert(
                collection_id@,
                final (store).collections@[collection_id@],
            )
            &&& final (store).collections@[collection_id@]@ == CollectionV {
                admins: old(store).collections@[collection_id@]@.admins.filter(
                    |x: Seq<char>| x != admin_to_remove@,
                ),
                updated_at: now,
                ..old(store).collections@[collection_id@]@
            }
            &&& final (store).collection_ids@ == old(store).collection_ids@
            &&& final (store).vector_index@ == old(store).vector_index@
            &&& final (store).document_index@ == old(store).document_index@
            &&& non_collection_state_unchanged(*old(store), *final (store))
        },
        r is Err ==> store_unchanged(*old(store), *final (store)),
{
    let c = match store.collections.get(collection_id.as_str()) {
        Some(c) => c,
        None => {
            return Err(String::from_str("Collection not found"));
        },
    };
    if !c.genesis_admin.eq(caller) {
        return Err(String::from_str("Only the genesis admin can remove admins"));
    }
    if admin_to_remove.eq(&c.genesis_admin) {
        return Err(String::from_str("Cannot remove the genesis admin"));
    }
    if !string_vec_contains(&c.admins, admin_to_remove) {
        return Err(String::from_str("User is not an admin"));
    }
    let mut updated = c.clone();
    string_vec_remove(&mut updated.admins, admin_to_remove);
    updated.updated_at = now;
    proof {
        assert(updated@ == CollectionV {
            admins: old(store).collections@[collection_id@]@.admins.filter(
                |x: Seq<char>| x != admin_to_remove@,
            ),
            updated_at: now,
            ..old(store).collections@[collection_id@]@
        });
    }
    let key = collection_id.clone();
    store.collections.insert(key, updated);
    proof {
        lemma_update_in_place(
            *old(store),
            *store,
            collection_id@,
            store.collections@[collection_id@],
        );
    }
    Ok(())
}

/// Hands the genesis role to an existing regular admin.  Succeeds exactly
/// when the caller is the current genesis admin and the target is already
/// listed as an admin; afterwards the target is the genesis admin.
pub fn transfer_genesis_admin(
    store: &mut Store,
    collection_id: &String,
    new_genesis_admin: &String,
    caller: &String,
    now: u64,
) -> (r: Result<(), String>)
    requires
        old(store).wf(),
    ensures
        final (store).wf(),
        r is Ok <==> (old(store).collections@.contains_key(collection_id@) && old(
            store,
        ).collections@[collection_id@]@.genesis_admin == caller@ && seq_contains_string(
            old(store).collections@[collection_id@]@.admins,
            new_genesis_admin@,
        )),
        r is Ok ==> {
            &&& final (store).collections@ =~= old(store).collections@.insert(
                collection_id@,
                final (store).collections@[collection_id@],
            )
            &&& final (store).collections@[collection_id@]@ == CollectionV {
                genesis_admin: new_genesis_admin@,
                updated_at: now,
                ..old(store).collections@[collection_id@]@
            }
            &&& final (store).collection_ids@ == old(store).collection_ids@
            &&& final (store).vector_index@ == old(store).vector_index@
            &&& final (store).document_index@ == old(store).document_index@
            &&& non_collection_state_unchanged(*old(store), *final (store))
        },
        r is Err ==> store_unchanged(*old(store), *final (store)),
{
    let c = match store.collections.get(collection_id.as_str()) {
        Some(c) => c,
        None => {
            return Err(String::from_str("Collection not found"));
        },
    };
    if !c.genesis_admin.eq(caller) {
        return Err(String::from_str("Only the current genesis admin can transfer ownership"));
    }
    if !string_vec_contains(&c.admins, new_genesis_admin) {
        return Err(String::from_str("New genesis admin must be an existing admin"));
    }
    let mut updated = c.clone();
    updated.genesis_admin = new_genesis_admin.clone();
    updated.updated_at = now;
    let key = collection_id.clone();
    store.collections.insert(key, updated);
    proof {
        lemma_update_in_place(
            *old(store),
            *store,
            collection_id@,
            store.collections@[collection_id@],
        );
    }
    Ok(())
}

/// Replaces the collection's settings.  Any admin may do so.
pub fn update_collection_settings(
    store: &mut Store,
    collection_id: &String,
    settings: CollectionSettings,
    caller: &String,
    now: u64,
) -> (r: Result<(), String>)
    requires
        old(store).wf(),
    ensures
        final (store).wf(),
        r is Ok <==> (old(store).collections@.contains_key(collection_id@) && is_admin_of(
            old(store).collections@[collection_id@]@,
            caller@,
        )),
        r is Ok ==> {
            &&& final (store).collections@ =~= old(store).collections@.insert(
                collection_id@,
                final (store).collections@[collection_id@],
            )
            &&& final (store).collections@[collection_id@]@ == CollectionV {
                settings: settings@,
                updated_at: now,
                ..old(store).collections@[collection_id@]@
            }
            &&& final (store).collection_ids@ == old(store).collection_ids@
            &&& final (store).vector_index@ == old(store).vector_index@
            &&& final (store).document_index@ == old(store).document_index@
            &&& non_collection_state_unchanged(*old(store), *final (store))
        },
        r is Err ==> store_unchanged(*old(store), *final (store)),
{
    if !is_collection_admin(store, collection_id, caller) {
        if store.collections.contains_key(collection_id.as_str()) {
            return Err(String::from_str("Admin access required"));
        }
        return Err(String::from_str("Collection not found"));
    }
    let c = match store.collections.get(collection_id.as_str()) {
        Some(c) => c,
        None => {
            proof {
                assert(false);
            }
            return Err(String::from_str("Collection not found"));
        },
    };
    let mut updated = c.clone();
    updated.settings = settings;
    updated.updated_at = now;
    let key = collection_id.clone();
    store.collections.insert(key, updated);
    proof {
        lemma_update_in_place(
            *old(store),
            *store,
            collection_id@,
            store.collections@[collection_id@],
        );
    }
    Ok(())
}

/// A replacement collection name must keep some non-whitespace content and
/// at most 100 bytes.
pub open spec fn valid_collection_name(s: Seq<char>) -> bool {
    crate::util::has_non_space(s) && crate::types::blen(s) <= 100
}

/// A replacement description must stay within 500 bytes.
pub open spec fn valid_collection_description(s: Seq<char>) -> bool {
    crate::types::blen(s) <= 500
}

/// Renames a collection or replaces its description, under the same length
/// rules creation enforces.  Any admin may do so.
pub fn update_collection_metadata(
    store: &mut Store,
    collection_id: &String,
    name: Option<String>,
    description: Option<String>,
    caller: &String,
    now: u64,
) -> (r: Result<(), String>)
    requires
        old(store).wf(),
    ensures
        final (store).wf(),
        r is Ok <==> ({
            &&& old(store).collections@.contains_key(collection_id@)
            &&& is_admin_of(old(store).collections@[collection_id@]@, caller@)
            &&& (name matches Some(n) ==> valid_collection_name(n@))
            &&& (description matches Some(d) ==> valid_collection_description(d@))
        }),
        r is Ok ==> {
            &&& final (store).collections@ =~= old(store).collections@.insert(
                collection_id@,
                final (store).collections@[collection_id@],
            )
            &&& final (store).collections@[collection_id@]@ == CollectionV {
                name: match name {
                    Some(n) => n@,
                    None => old(store).collections@[collection_id@]@.name,
                },
                description: match description {
                    Some(d) => Some(d@),
                    None => old(store).collections@[collection_id@]@.description,
                },
                updated_at: now,
                ..old(store).collections@[collection_id@]@
            }
            &&& final (store).collection_ids@ == old(store).collection_ids@
            &&& final (store).vector_index@ == old(store).vector_index@
            &&& final (store).document_index@ == old(store).document_index@
            &&& non_collection_state_unchanged(*old(store), *final (store))
        },
        r is Err ==> store_unchanged(*old(store), *final (store)),
{
    if !is_collection_admin(store, collection_id, caller) {
        if store.collections.contains_key(collection_id.as_str()) {
            return Err(String::from_str("Admin access required"));
        }
        return Err(String::from_str("Collection not found"));
    }
    match &name {
        Some(n) => {
            if !string_has_non_space(n.as_str()) || byte_len(n) > 100 {
                return Err(String::from_str("Collection name must be 1-100 characters"));
            }
        },
        None => {},
    }
    match &description {
        Some(d) => {
            if byte_len(d) > 500 {
                return Err(
                    String::from_str("Collection description must be 500 characters or less"),
                );
            }
        },
        None => {},
    }
    let c = match store.collections.get(collection_id.as_str()) {
        Some(c) => c,
        None => {
            proof {
                assert(false);
            }
            return Err(String::from_str("Collection not found"));
        },
    };
    let mut updated = c.clone();
    match name {
        Some(n) => {
            updated.name = n;
        },
        None => {},
    }
    match description {
        Some(d) => {
            updated.description = Some(d);
        },
        None => {},
    }
    updated.updated_at = now;
    let key = collection_id.clone();
    store.collections.insert(key, updated);
    proof {
        lemma_update_in_place(
            *old(store),
            *store,
            collection_id@,
            store.collections@[collection_id@],
        );
    }
    Ok(())
}

// =============================================================================
// DELETION
// =============================================================================

/// The document storage keys named by a collection's document-id list.
pub open spec fn doc_key_set(c: Seq<char>, docs: Seq<Seq<char>>) -> Set<Seq<char>> {
    Set::new(|k: Seq<char>| exists|i: int| 0 <= i < docs.len() && k == crate::store::doc_key(c, docs[i]))
}

/// The set of identifiers a list names.
pub open spec fn id_set(ids: Seq<Seq<char>>) -> Set<Seq<char>> {
    Set::new(|k: Seq<char>| ids.contains(k))
}

/// Deletes a collection and everything filed under it: the collection
/// record, both of its indices, its documents, their chunk lists, and its
/// vectors.  Only the genesis admin may delete; on failure nothing changes.
pub fn delete_collection(store: &mut Store, collection_id: &String, caller: &String) -> (r: Result<
    (),
    String,
>)
    requires
        old(store).wf(),
    ensures
        final (store).wf(),
        r is Ok <==> admin_level_of(*old(store), collection_id@, caller@) == AdminLevel::Genesis,
        r is Ok ==> {
            let docs = if old(store).document_index@.contains_key(collection_id@) {
                old(store).document_index@[collection_id@]@
            } else {
                Seq::<Seq<char>>::empty()
            };
            let vecs = if old(store).vector_index@.contains_key(collection_id@) {
                old(store).vector_index@[collection_id@]@
            } else {
                Seq::<Seq<char>>::empty()
            };
            &&& final (store).collections@ == old(store).collections@.remove(collection_id@)
            &&& final (store).vector_index@ == old(store).vector_index@.remove(collection_id@)
            &&& final (store).document_index@ == old(store).document_index@.remove(collection_id@)
            &&& final (store).documents@ == old(store).documents@.remove_keys(
                doc_key_set(collection_id@, docs),
            )
            &&& final (store).chunks@ == old(store).chunks@.remove_keys(id_set(docs))
            &&& final (store).vectors@ == old(store).vectors@.remove_keys(id_set(vecs))
            &&& final (store).config@ == old(store).config@
        },
        r is Err ==> store_unchanged(*old(store), *final (store)),
{
    match require_genesis_admin(store, collection_id, caller) {
        Ok(_) => {},
        Err(e) => {
            return Err(e);
        },
    }
    let doc_list: StringList = match store.document_index.get(collection_id.as_str()) {
        Some(l) => l.clone(),
        None => StringList::new(),
    };
    let vec_list: StringList = match store.vector_index.get(collection_id.as_str()) {
        Some(l) => l.clone(),
        None => StringList::new(),
    };
    let ghost docs = doc_list@;
    let ghost vecs = vec_list@;

    // Remove every document of the collection, with its chunk list.
    let n = doc_list.0.len();
    let mut i: usize = 0;
    while i < n
        invariant
            0 <= i <= n,
            n == docs.len(),
            doc_list@ == docs,
            n == doc_list.0@.len(),
            store.collections@ == old(store).collections@,
            store.collection_ids@ == old(store).collection_ids@,
            store.vector_index@ == old(store).vector_index@,
            store.document_index@ == old(store).document_index@,
            store.vectors@ == old(store).vectors@,
            store.vector_ids@ == old(store).vector_ids@,
            store.config@ == old(store).config@,
            store.documents@ == old(store).documents@.remove_keys(
                doc_key_set(collection_id@, docs.take(i as int)),
            ),
            store.chunks@ == old(store).chunks@.remove_keys(id_set(docs.take(i as int))),
            ids_match(store.chunk_doc_ids.deep_view(), store.chunks@),
            old(store).wf(),
        decreases n - i,
    {
        let d = &doc_list.0[i];
        proof {
            assert(docs[i as int] == doc_list.0@[i as int]@);
        }
        let dkey = crate::store::make_doc_key(collection_id, d);
        let ghost pre_documents = store.documents@;
        let ghost pre_chunks = store.chunks@;
        let ghost pre_ids = store.chunk_doc_ids.deep_view();
        store.documents.remove(dkey.as_str());
        store.chunks.remove(d.as_str());
        string_vec_remove(&mut store.chunk_doc_ids, d);
        proof {
            let c = collection_id@;
            let dk = crate::store::doc_key(c, docs[i as int]);
            // documents frame
            assert forall|k: Seq<char>|
                doc_key_set(c, docs.take(i + 1)).contains(k) <==> (doc_key_set(
                    c,
                    docs.take(i as int),
                ).contains(k) || k == dk) by {
                if doc_key_set(c, docs.take(i + 1)).contains(k) {
                    let j = choose|j: int|
                        0 <= j < docs.take(i + 1).len() && k == crate::store::doc_key(
                            c,
                            #[trigger] docs.take(i + 1)[j],
                        );
                    if j < i {
                        assert(docs.take(i as int)[j] == docs.take(i + 1)[j]);
                        assert(doc_key_set(c, docs.take(i as int)).contains(k));
                    } else {
                        assert(docs.take(i + 1)[j] == docs[i as int]);
                    }
                }
                if doc_key_set(c, docs.take(i as int)).contains(k) {
                    let j = choose|j: int|
                        0 <= j < docs.take(i as int).len() && k == crate::store::doc_key(
                            c,
                            #[trigger] docs.take(i as int)[j],
                        );
                    assert(docs.take(i + 1)[j] == docs.take(i as int)[j]);
                    assert(doc_key_set(c, docs.take(i + 1)).contains(k));
                }
                if k == dk {
                    assert(docs.take(i + 1)[i as int] == docs[i as int]);
                    assert(doc_key_set(c, docs.take(i + 1)).contains(k));
                }
            }
            assert(store.documents@ =~= old(store).documents@.remove_keys(
                doc_key_set(c, docs.take(i + 1)),
            ));
            // chunks frame
            assert forall|k: Seq<char>|
                id_set(docs.take(i + 1)).contains(k) <==> (id_set(docs.take(i as int)).contains(k)
                    || k == docs[i as int]) by {
                if id_set(docs.take(i + 1)).contains(k) {
                    let j = choose|j: int| 0 <= j < docs.take(i + 1).len() && #[trigger] docs.take(i + 1)[j] == k;
                    if j < i {
                        assert(docs.take(i as int)[j] == k);
                        assert(docs.take(i as int).contains(k));
                    }
                }
                if id_set(docs.take(i as int)).contains(k) {
                    let j = choose|j: int|
                        0 <= j < docs.take(i as int).len() && #[trigger] docs.take(i as int)[j] == k;
                    assert(docs.take(i + 1)[j] == k);
                    assert(docs.take(i + 1).contains(k));
                }
                if k == docs[i as int] {
                    assert(docs.take(i + 1)[i as int] == k);
                    assert(docs.take(i + 1).contains(k));
                }
            }
            assert(store.chunks@ =~= old(store).chunks@.remove_keys(id_set(docs.take(i + 1))));
            // chunk id list stays matched
            crate::util::lemma_filter_no_dup(pre_ids, |x: Seq<char>| x != d@);
            assert forall|k: Seq<char>|
                store.chunks@.dom().contains(k) <==> store.chunk_doc_ids.deep_view().contains(
                    k,
                ) by {
                crate::util::lemma_filter_membership(pre_ids, |x: Seq<char>| x != d@, k);
                assert(store.chunks@.dom().contains(k) <==> (pre_chunks.dom().contains(k) && k
                    != d@));
            }
        }
        i += 1;
    }
    proof {
        assert(docs.take(n as int) =~= docs);
    }

    // Remove every vector of the collection.
    let vn = vec_list.0.len();
    let mut j: usize = 0;
    while j < vn
        invariant
            0 <= j <= vn,
            vn == vecs.len(),
            vec_list@ == vecs,
            vn == vec_list.0@.len(),
            store.collections@ == old(store).collections@,
            store.collection_ids@ == old(store).collection_ids@,
            store.vector_index@ == old(store).vector_index@,
            store.document_index@ == old(store).document_index@,
            store.config@ == old(store).config@,
            store.documents@ == old(store).documents@.remove_keys(doc_key_set(collection_id@, docs)),
            store.chunks@ == old(store).chunks@.remove_keys(id_set(docs)),
            ids_match(store.chunk_doc_ids.deep_view(), store.chunks@),
            store.vectors@ == old(store).vectors@.remove_keys(id_set(vecs.take(j as int))),
            ids_match(store.vector_ids.deep_view(), store.vectors@),
            old(store).wf(),
        decreases vn - j,
    {
        proof {
            assert(vecs[j as int] == vec_list.0@[j as int]@);
        }
        let ghost pre_vaux = store.vector_ids.deep_view();
        let ghost pre_vmap = store.vectors@;
        store.vectors.remove(vec_list.0[j].as_str());
        string_vec_remove(&mut store.vector_ids, &vec_list.0[j]);
        proof {
            crate::util::lemma_filter_no_dup(pre_vaux, |x: Seq<char>| x != vec_list.0@[j as int]@);
            assert forall|k: Seq<char>|
                store.vectors@.dom().contains(k) <==> store.vector_ids.deep_view().contains(
                    k,
                ) by {
                crate::util::lemma_filter_membership(
                    pre_vaux,
                    |x: Seq<char>| x != vec_list.0@[j as int]@,
                    k,
                );
                assert(store.vectors@.dom().contains(k) <==> (pre_vmap.dom().contains(k) && k
                    != vecs[j as int]));
            }
        }
        proof {
            assert forall|k: Seq<char>|
                id_set(vecs.take(j + 1)).contains(k) <==> (id_set(vecs.take(j as int)).contains(k)
                    || k == vecs[j as int]) by {
                if id_set(vecs.take(j + 1)).contains(k) {
                    let m = choose|m: int| 0 <= m < vecs.take(j + 1).len() && #[trigger] vecs.take(j + 1)[m] == k;
                    if m < j {
                        assert(vecs.take(j as int)[m] == k);
                        assert(vecs.take(j as int).contains(k));
                    }
                }
                if id_set(vecs.take(j as int)).contains(k) {
                    let m = choose|m: int|
                        0 <= m < vecs.take(j as int).len() && #[trigger] vecs.take(j as int)[m] == k;
                    assert(vecs.take(j + 1)[m] == k);
                    assert(vecs.take(j + 1).contains(k));
                }
                if k == vecs[j as int] {
                    assert(vecs.take(j + 1)[j as int] == k);
                    assert(vecs.take(j + 1).contains(k));
                }
            }
            assert(store.vectors@ =~= old(store).vectors@.remove_keys(id_set(vecs.take(j + 1))));
        }
        j += 1;
    }
    proof {
        assert(vecs.take(vn as int) =~= vecs);
    }

    // Remove the collection record and both indices.
    let ghost pre_cids = store.collection_ids.deep_view();
    store.vector_index.remove(collection_id.as_str());
    store.document_index.remove(collection_id.as_str());
    store.collections.remove(collection_id.as_str());
    string_vec_remove(&mut store.collection_ids, collection_id);
    proof {
        crate::util::lemma_filter_no_dup(pre_cids, |x: Seq<char>| x != collection_id@);
        assert forall|k: Seq<char>|
            store.collections@.dom().contains(k) <==> store.collection_ids.deep_view().contains(
                k,
            ) by {
            crate::util::lemma_filter_membership(pre_cids, |x: Seq<char>| x != collection_id@, k);
            assert(store.collections@.dom().contains(k) <==> (old(
                store,
            ).collections@.dom().contains(k) && k != collection_id@));
        }
    }
    Ok(())
}

/// Lists every collection, in creation order.
pub fn list_collections(store: &Store) -> (r: Vec<Collection>)
    requires
        store.wf(),
    ensures
        r@.len() == store.collection_ids@.len(),
        forall|i: int|
            0 <= i < r@.len() ==> (#[trigger] r@[i])@ == store.collections@[store.collection_ids.deep_view()[i]]@,
{
    let n = store.collection_ids.len();
    let mut out: Vec<Collection> = Vec::new();
    let mut i: usize = 0;
    while i < n
        invariant
            0 <= i <= n,
            store.wf(),
            n == store.collection_ids@.len(),
            out@.len() == i,
            forall|j: int|
                0 <= j < i ==> (#[trigger] out@[j])@
                    == store.collections@[store.collection_ids.deep_view()[j]]@,
        decreases n - i,
    {
        proof {
            assert(store.collection_ids.deep_view()[i as int] == store.collection_ids@[i as int]@);
            assert(store.collection_ids.deep_view().contains(
                store.collection_ids.deep_view()[i as int],
            ));
        }
        match store.collections.get(store.collection_ids[i].as_str()) {
            Some(c) => {
                out.push(c.clone());
            },
            None => {
                proof {
                    assert(false);
                }
            },
        }
        i += 1;
    }
    out
}

} // verus!

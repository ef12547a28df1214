use blueband::cache::BoundedCache;
use blueband::cache::CACHE_TTL;
use blueband::cache::cleanup_cache;
use blueband::cache::clear_cache;
use blueband::cache::get_cache_stats;
use blueband::cache::get_cached_vectors;
use blueband::cache::invalidate_collection_cache;
use blueband::collections::create_collection;
use blueband::documents::add_document;
use blueband::scale::scale_value;
use blueband::scale::unscale_value;
use blueband::similarity::calculate_norm;
use blueband::similarity::validate_embedding;
use blueband::store::Store;
use blueband::types::AddDocumentRequest;
use blueband::types::CreateCollectionRequest;
use blueband::types::Vector;
use blueband::vectors::delete_document_vectors;
use blueband::vectors::delete_vector;
use blueband::vectors::get_collection_vectors;
use blueband::vectors::get_vector;
use blueband::vectors::get_vector_count;
use blueband::vectors::store_vectors_batch;
use blueband::vectors::validate_vectors;

fn setup_collection(store: &mut Store, id: &str) -> String {
    let request = CreateCollectionRequest {
        id: id.to_string(),
        name: format!("{} name", id),
        description: None,
        settings: None,
    };
    create_collection(store, request, "alice".to_string(), 1).unwrap();
    let doc_request = AddDocumentRequest {
        collection_id: id.to_string(),
        title: format!("{} title", id),
        content: "some document content".to_string(),
        content_type: None,
        source_url: None,
        author: None,
        tags: None,
    };
    add_document(store, doc_request, 2).unwrap().id
}

fn make_vector(id: &str, document_id: &str, chunk: &str, embedding: Vec<i64>) -> Vector {
    let norm = calculate_norm(&embedding).expect("valid embedding");
    Vector {
        id: id.to_string(),
        document_id: document_id.to_string(),
        chunk_id: chunk.to_string(),
        embedding,
        norm,
        model: "text-embedding-ada-002".to_string(),
        created_at: 3,
    }
}

#[test]
fn batch_store_and_collection_vectors() {
    let mut store = Store::new();
    let doc = setup_collection(&mut store, "docs");
    let vs = vec![
        make_vector("vec_a", &doc, "chunk_0", vec![1_000_000, 0, 0]),
        make_vector("vec_b", &doc, "chunk_1", vec![0, 1_000_000, 0]),
    ];
    let stored = store_vectors_batch(&mut store, vs).unwrap();
    assert_eq!(stored, 2);
    assert_eq!(get_vector_count(&store, &"docs".to_string()), 2);
    let fetched = get_collection_vectors(&store, &"docs".to_string());
    assert_eq!(fetched.len(), 2);
    for v in &fetched {
        // Every returned vector is valid: positive norm, non-empty embedding.
        assert!(v.norm > 0);
        assert!(!v.embedding.is_empty());
    }
    assert!(get_vector(&store, &"vec_a".to_string()).is_some());
}

#[test]
fn batch_store_rejects_invalid_vectors() {
    let mut store = Store::new();
    let doc = setup_collection(&mut store, "docs");
    let mut bad = make_vector("vec_bad", &doc, "chunk_0", vec![1_000_000]);
    bad.norm = 0;
    let result = store_vectors_batch(&mut store, vec![bad]);
    assert!(result.is_err());
    assert_eq!(get_vector_count(&store, &"docs".to_string()), 0);

    let unresolvable = make_vector("vec_x", "doc_missing", "chunk_0", vec![1_000_000]);
    assert!(store_vectors_batch(&mut store, vec![unresolvable]).is_err());
    assert_eq!(get_vector_count(&store, &"docs".to_string()), 0);
}

#[test]
fn batch_store_twice_changes_nothing() {
    let mut store = Store::new();
    let doc = setup_collection(&mut store, "docs");
    let batch = || {
        vec![
            make_vector("vec_a", &doc, "chunk_0", vec![1_000_000, 0, 0]),
            make_vector("vec_b", &doc, "chunk_1", vec![0, 1_000_000, 0]),
        ]
    };
    store_vectors_batch(&mut store, batch()).unwrap();
    let first_ids: Vec<String> = get_collection_vectors(&store, &"docs".to_string())
        .into_iter()
        .map(|v| v.id)
        .collect();
    let first_count = get_vector_count(&store, &"docs".to_string());

    store_vectors_batch(&mut store, batch()).unwrap();
    let second_ids: Vec<String> = get_collection_vectors(&store, &"docs".to_string())
        .into_iter()
        .map(|v| v.id)
        .collect();
    assert_eq!(first_ids, second_ids);
    assert_eq!(get_vector_count(&store, &"docs".to_string()), first_count);
}

#[test]
fn delete_vector_strips_the_index() {
    let mut store = Store::new();
    let doc = setup_collection(&mut store, "docs");
    let vs = vec![
        make_vector("vec_a", &doc, "chunk_0", vec![1_000_000, 0, 0]),
        make_vector("vec_b", &doc, "chunk_1", vec![0, 1_000_000, 0]),
    ];
    store_vectors_batch(&mut store, vs).unwrap();
    delete_vector(&mut store, &"vec_a".to_string()).unwrap();
    assert!(get_vector(&store, &"vec_a".to_string()).is_none());
    assert_eq!(get_vector_count(&store, &"docs".to_string()), 1);
    assert!(delete_vector(&mut store, &"vec_a".to_string()).is_err());
}

#[test]
fn delete_document_vectors_clears_them() {
    let mut store = Store::new();
    let doc = setup_collection(&mut store, "docs");
    let vs = vec![
        make_vector("vec_a", &doc, "chunk_0", vec![1_000_000, 0, 0]),
        make_vector("vec_b", &doc, "chunk_1", vec![0, 1_000_000, 0]),
    ];
    store_vectors_batch(&mut store, vs).unwrap();
    delete_document_vectors(&mut store, &doc).unwrap();
    assert_eq!(get_vector_count(&store, &"docs".to_string()), 0);
    assert!(get_vector(&store, &"vec_a".to_string()).is_none());
    assert!(get_vector(&store, &"vec_b".to_string()).is_none());
}

#[test]
fn batch_delete_reports_and_cleans() {
    let mut store = Store::new();
    let doc = setup_collection(&mut store, "docs");
    store_vectors_batch(
        &mut store,
        vec![
            make_vector("vec_a", &doc, "chunk_0", vec![1_000_000]),
            make_vector("vec_b", &doc, "chunk_1", vec![1_000_000]),
        ],
    )
    .unwrap();
    let deleted = blueband::vectors::delete_vectors_batch(
        &mut store,
        vec!["vec_a".to_string(), "vec_b".to_string()],
    )
    .unwrap();
    assert_eq!(deleted, 2);
    assert_eq!(get_vector_count(&store, &"docs".to_string()), 0);
    assert!(get_vector(&store, &"vec_a".to_string()).is_none());

    // A missing id fails the whole batch, but the present one is deleted.
    store_vectors_batch(
        &mut store,
        vec![make_vector("vec_c", &doc, "chunk_0", vec![1_000_000])],
    )
    .unwrap();
    let outcome = blueband::vectors::delete_vectors_batch(
        &mut store,
        vec!["vec_missing".to_string(), "vec_c".to_string()],
    );
    assert!(outcome.is_err());
    assert!(get_vector(&store, &"vec_c".to_string()).is_none());
}

#[test]
fn deleting_document_vectors_reaches_unindexed_records() {
    // A stored vector of the document is deleted even when the collection
    // index has lost track of it.
    let mut store = Store::new();
    let doc = setup_collection(&mut store, "docs");
    store_vectors_batch(
        &mut store,
        vec![
            make_vector("vec_a", &doc, "chunk_0", vec![1_000_000]),
            make_vector("vec_b", &doc, "chunk_1", vec![1_000_000]),
        ],
    )
    .unwrap();
    // Knock vec_b out of the index list while it stays in the map.
    blueband::vectors::init_collection_index(&mut store, &"docs".to_string());
    store_vectors_batch(
        &mut store,
        vec![make_vector("vec_a", &doc, "chunk_0", vec![1_000_000])],
    )
    .unwrap();
    assert!(get_vector(&store, &"vec_b".to_string()).is_some());
    delete_document_vectors(&mut store, &doc).unwrap();
    assert!(get_vector(&store, &"vec_a".to_string()).is_none());
    assert!(get_vector(&store, &"vec_b".to_string()).is_none());
}

#[test]
fn validate_vectors_reports() {
    let mut store = Store::new();
    let doc = setup_collection(&mut store, "docs");
    let report = validate_vectors(&mut store, &"missing".to_string(), false);
    assert_eq!(report, vec!["Collection not found".to_string()]);

    store_vectors_batch(
        &mut store,
        vec![make_vector("vec_a", &doc, "chunk_0", vec![1_000_000])],
    )
    .unwrap();
    let clean = validate_vectors(&mut store, &"docs".to_string(), true);
    assert_eq!(clean, vec!["No issues found".to_string()]);
    assert_eq!(get_vector_count(&store, &"docs".to_string()), 1);
}

#[test]
fn cache_lru_eviction_order() {
    // With room for two entries, filling a, b, then c evicts a; re-reading
    // a through the cache then evicts b, the least recently used.
    let mut store = Store::new();
    let doc_a = setup_collection(&mut store, "aaa");
    let doc_b = setup_collection(&mut store, "bbb");
    let doc_c = setup_collection(&mut store, "ccc");
    store_vectors_batch(
        &mut store,
        vec![
            make_vector("vec_a", &doc_a, "chunk_0", vec![1_000_000]),
            make_vector("vec_b", &doc_b, "chunk_0", vec![1_000_000]),
            make_vector("vec_c", &doc_c, "chunk_0", vec![1_000_000]),
        ],
    )
    .unwrap();

    let mut cache = BoundedCache::new(100 * 1024 * 1024, 2);
    let now = 50;
    assert_eq!(get_cached_vectors(&mut cache, &store, &"aaa".to_string(), now).len(), 1);
    assert_eq!(get_cached_vectors(&mut cache, &store, &"bbb".to_string(), now).len(), 1);
    assert_eq!(get_cached_vectors(&mut cache, &store, &"ccc".to_string(), now).len(), 1);
    // a was evicted to admit c.
    assert!(cache.get(&"aaa".to_string(), now).is_none());
    // Reading a again re-admits it and evicts b.
    assert_eq!(get_cached_vectors(&mut cache, &store, &"aaa".to_string(), now).len(), 1);
    assert!(cache.get(&"bbb".to_string(), now).is_none());
    assert!(cache.get(&"ccc".to_string(), now).is_some());
    assert!(cache.get(&"aaa".to_string(), now).is_some());

    let stats = get_cache_stats(&cache);
    assert_eq!(stats.entry_count, 2);
    assert_eq!(stats.max_entries, 2);
    assert!(stats.total_memory_bytes <= stats.max_memory_bytes);
}

#[test]
fn cache_ttl_expiry() {
    let mut store = Store::new();
    let doc = setup_collection(&mut store, "docs");
    store_vectors_batch(
        &mut store,
        vec![make_vector("vec_a", &doc, "chunk_0", vec![1_000_000])],
    )
    .unwrap();
    let mut cache = BoundedCache::new(100 * 1024 * 1024, 10);
    let now = 100;
    get_cached_vectors(&mut cache, &store, &"docs".to_string(), now);
    assert!(cache.get(&"docs".to_string(), now + CACHE_TTL - 1).is_some());
    assert!(cache.get(&"docs".to_string(), now + CACHE_TTL).is_none());
}

#[test]
fn cache_cleanup_counts_evictions() {
    let mut store = Store::new();
    let doc = setup_collection(&mut store, "docs");
    store_vectors_batch(
        &mut store,
        vec![make_vector("vec_a", &doc, "chunk_0", vec![1_000_000])],
    )
    .unwrap();
    let mut cache = BoundedCache::new(100 * 1024 * 1024, 10);
    get_cached_vectors(&mut cache, &store, &"docs".to_string(), 100);
    assert_eq!(cleanup_cache(&mut cache, 100 + CACHE_TTL), 1);
    assert_eq!(get_cache_stats(&cache).entry_count, 0);
}

#[test]
fn invalidation_reaches_storage() {
    // After invalidation the next read observes the authoritative stored
    // set, not the stale cached one.
    let mut store = Store::new();
    let doc = setup_collection(&mut store, "docs");
    store_vectors_batch(
        &mut store,
        vec![
            make_vector("vec_a", &doc, "chunk_0", vec![1_000_000]),
            make_vector("vec_b", &doc, "chunk_1", vec![1_000_000]),
        ],
    )
    .unwrap();
    let mut cache = BoundedCache::new(100 * 1024 * 1024, 10);
    assert_eq!(get_cached_vectors(&mut cache, &store, &"docs".to_string(), 5).len(), 2);
    delete_vector(&mut store, &"vec_b".to_string()).unwrap();
    // The cache still holds the stale pair until it is invalidated.
    assert_eq!(get_cached_vectors(&mut cache, &store, &"docs".to_string(), 6).len(), 2);
    invalidate_collection_cache(&mut cache, &"docs".to_string());
    assert_eq!(get_cached_vectors(&mut cache, &store, &"docs".to_string(), 7).len(), 1);
}

#[test]
fn clear_cache_empties_it() {
    let mut store = Store::new();
    let doc = setup_collection(&mut store, "docs");
    store_vectors_batch(
        &mut store,
        vec![make_vector("vec_a", &doc, "chunk_0", vec![1_000_000])],
    )
    .unwrap();
    let mut cache = BoundedCache::new(100 * 1024 * 1024, 10);
    get_cached_vectors(&mut cache, &store, &"docs".to_string(), 5);
    clear_cache(&mut cache);
    assert_eq!(get_cache_stats(&cache).entry_count, 0);
}

#[test]
fn test_scale_unscale_roundtrip() {
    let original: f64 = 0.5;
    let micro = (original * 1_000_000.0).round() as i64;
    let scaled = scale_value(micro).unwrap();
    let unscaled_micro = unscale_value(scaled).unwrap();
    let unscaled = unscaled_micro as f64 / 1_000_000.0;
    assert!((original - unscaled).abs() < 1e-6);
    assert_eq!(unscaled_micro, micro);

    // A negative component survives the round trip too.
    let negative = scale_value(-123_456).unwrap();
    assert_eq!(unscale_value(negative).unwrap(), -123_456);
    // Components below the representable floor are refused.
    assert!(scale_value(-10_000_001).is_err());
}

#[test]
fn test_norm_validation() {
    let valid_embedding = vec![100_000, 200_000, 300_000];
    assert!(calculate_norm(&valid_embedding).is_ok());

    let empty_embedding: Vec<i64> = vec![];
    assert!(calculate_norm(&empty_embedding).is_err());

    let zero_embedding = vec![0, 0, 0];
    assert!(calculate_norm(&zero_embedding).is_err());
}

#[test]
fn test_embedding_validation() {
    let valid_embedding = vec![100_000, 200_000, 300_000];
    assert!(validate_embedding(&valid_embedding).is_ok());

    let empty_embedding: Vec<i64> = vec![];
    assert!(validate_embedding(&empty_embedding).is_err());

    let oversized = vec![1_000_000_000_001_i64, 200_000, 300_000];
    assert!(validate_embedding(&oversized).is_err());
}

#[test]
fn norm_is_the_floor_square_root() {
    // A three-four-five triangle at micro scale: norm of (0.3, 0.4) is 0.5.
    let norm = calculate_norm(&vec![300_000, 400_000]).unwrap();
    assert_eq!(norm, 500_000);
}

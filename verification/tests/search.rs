use blueband::cache::BoundedCache;
use blueband::collections::create_collection;
use blueband::documents::add_document;
use blueband::embeddings::build_vectors_from_embeddings;
use blueband::embeddings::calculate_embedding_cycles;
use blueband::embeddings::calculate_max_response_bytes;
use blueband::embeddings::classify_outcall_error;
use blueband::embeddings::parse_embedding_model;
use blueband::embeddings::validate_embedding_request;
use blueband::embeddings::validate_embedding_response;
use blueband::embeddings::OutcallErrorKind;
use blueband::hashing::generate_id;
use blueband::hashing::generate_idempotency_key;
use blueband::ops::check_embeddable;
use blueband::ops::compensate_failed_ingest;
use blueband::ops::ingest_finish;
use blueband::similarity::calculate_document_centroid;
use blueband::similarity::calculate_norm;
use blueband::similarity::compute_similarity_batch;
use blueband::similarity::cosine_similarity;
use blueband::similarity::cosine_similarity_search;
use blueband::similarity::find_similar_documents;
use blueband::similarity::similarity_search_filtered;
use blueband::similarity::MemoryVectorIndex;
use blueband::similarity::MemoryVectorItem;
use blueband::similarity::SimilarityConfig;
use blueband::store::Store;
use blueband::types::AddDocumentRequest;
use blueband::types::CreateCollectionRequest;
use blueband::types::EmbeddingModel;
use blueband::types::SemanticChunk;
use blueband::types::Vector;
use blueband::vectors::get_collection_vectors;
use blueband::vectors::store_vectors_batch;

fn setup_collection(store: &mut Store, id: &str) -> String {
    let request = CreateCollectionRequest {
        id: id.to_string(),
        name: format!("{} name", id),
        description: None,
        settings: None,
    };
    create_collection(store, request, "alice".to_string(), 1).unwrap();
    let doc_request = AddDocumentRequest {
        collection_id: id.to_string(),
        title: format!("{} title", id),
        content: "some document content about fruit".to_string(),
        content_type: None,
        source_url: None,
        author: None,
        tags: None,
    };
    add_document(store, doc_request, 2).unwrap().id
}

fn make_vector(id: &str, document_id: &str, chunk: &str, embedding: Vec<i64>) -> Vector {
    let norm = calculate_norm(&embedding).expect("valid embedding");
    Vector {
        id: id.to_string(),
        document_id: document_id.to_string(),
        chunk_id: chunk.to_string(),
        embedding,
        norm,
        model: "text-embedding-ada-002".to_string(),
        created_at: 3,
    }
}

fn default_config() -> SimilarityConfig {
    SimilarityConfig {
        min_score: None,
        max_results: 10,
        use_approximate: true,
        candidate_factor_micro: 3_000_000,
    }
}

#[test]
fn ranked_fruit_scores() {
    // apple (1,0,0), apricot (0.9,0.1,0) and banana (0,1,0): querying with
    // apple ranks them apple, apricot, banana with scores near 1.000,
    // 0.994 and 0.000.
    let mut store = Store::new();
    let doc = setup_collection(&mut store, "fruit");
    store_vectors_batch(
        &mut store,
        vec![
            make_vector("vec_apple", &doc, "chunk_0", vec![1_000_000, 0, 0]),
            make_vector("vec_apricot", &doc, "chunk_1", vec![900_000, 100_000, 0]),
            make_vector("vec_banana", &doc, "chunk_2", vec![0, 1_000_000, 0]),
        ],
    )
    .unwrap();
    let mut cache = BoundedCache::new(100 * 1024 * 1024, 10);
    let query = vec![1_000_000, 0, 0];
    let matches = cosine_similarity_search(
        &store,
        &mut cache,
        &query,
        &"fruit".to_string(),
        &default_config(),
        9,
    )
    .unwrap();
    assert_eq!(matches.len(), 3);
    assert_eq!(matches[0].chunk_id, "chunk_0");
    assert_eq!(matches[1].chunk_id, "chunk_1");
    assert_eq!(matches[2].chunk_id, "chunk_2");
    assert!((matches[0].score - 1_000_000).abs() <= 2);
    assert!((matches[1].score - 993_884).abs() <= 2_000);
    assert_eq!(matches[2].score, 0);
    // Sorted by score descending.
    assert!(matches[0].score >= matches[1].score);
    assert!(matches[1].score >= matches[2].score);
    // Enriched with the document title and the chunk text.
    assert_eq!(matches[0].document_title, Some("fruit title".to_string()));
    assert!(matches[0].chunk_text.is_some());
}

#[test]
fn exact_cosine_value() {
    // cos((1,0),(1,1)) is 1/sqrt(2): 707106 in micro-units, within
    // fixed-point rounding of the norms.
    let a = vec![1_000_000, 0];
    let b = vec![1_000_000, 1_000_000];
    let na = calculate_norm(&a).unwrap();
    let nb = calculate_norm(&b).unwrap();
    let s = cosine_similarity(&a, &b, na, nb).unwrap();
    assert!((s - 707_106).abs() <= 3);

    let mismatched = cosine_similarity(&a, &vec![1_000_000, 0, 0], na, nb);
    assert!(mismatched.is_err());
}

#[test]
fn approximate_search_on_a_large_collection() {
    // A thousand and one vectors of dimension eight push the search onto
    // the approximate path; it must return exactly ten distinct results.
    let mut store = Store::new();
    let doc = setup_collection(&mut store, "big");
    let mut vectors = Vec::new();
    let mut state: u64 = 0x2545F4914F6CDD1D;
    for i in 0..1001 {
        let mut embedding = Vec::new();
        for _ in 0..8 {
            state = state.wrapping_mul(6364136223846793005).wrapping_add(1442695040888963407);
            let component = ((state >> 33) as i64 % 2_000_000) - 1_000_000;
            embedding.push(if component == 0 { 1 } else { component });
        }
        vectors.push(make_vector(
            &format!("vec_{}", i),
            &doc,
            &format!("chunk_{}", i),
            embedding,
        ));
    }
    store_vectors_batch(&mut store, vectors).unwrap();
    let mut cache = BoundedCache::new(100 * 1024 * 1024, 10);
    let query = vec![500_000, -250_000, 125_000, -62_500, 31_250, -15_625, 7_812, -3_906];
    let matches = cosine_similarity_search(
        &store,
        &mut cache,
        &query,
        &"big".to_string(),
        &default_config(),
        9,
    )
    .unwrap();
    assert_eq!(matches.len(), 10);
    for i in 0..matches.len() {
        for j in (i + 1)..matches.len() {
            assert!(
                matches[i].chunk_id != matches[j].chunk_id,
                "duplicate result"
            );
        }
        if i + 1 < matches.len() {
            assert!(matches[i].score >= matches[i + 1].score);
        }
    }
}

#[test]
fn filtered_search_respects_the_allowlist() {
    let mut store = Store::new();
    let doc_a = setup_collection(&mut store, "library");
    let doc_request = AddDocumentRequest {
        collection_id: "library".to_string(),
        title: "second".to_string(),
        content: "other content".to_string(),
        content_type: None,
        source_url: None,
        author: None,
        tags: None,
    };
    let doc_b = add_document(&mut store, doc_request, 3).unwrap().id;
    store_vectors_batch(
        &mut store,
        vec![
            make_vector("vec_a", &doc_a, "chunk_0", vec![1_000_000, 0]),
            make_vector("vec_b", &doc_b, "chunk_0", vec![900_000, 100_000]),
        ],
    )
    .unwrap();
    let mut cache = BoundedCache::new(100 * 1024 * 1024, 10);
    let query = vec![1_000_000, 0];
    let allow = vec![doc_b.clone()];
    let matches = similarity_search_filtered(
        &store,
        &mut cache,
        &query,
        &"library".to_string(),
        Some(&allow),
        &default_config(),
        9,
    )
    .unwrap();
    assert_eq!(matches.len(), 1);
    assert_eq!(matches[0].document_id, doc_b);
}

#[test]
fn empty_collection_yields_empty_results() {
    let mut store = Store::new();
    setup_collection(&mut store, "empty");
    let mut cache = BoundedCache::new(100 * 1024 * 1024, 10);
    let matches = cosine_similarity_search(
        &store,
        &mut cache,
        &vec![1_000_000, 0],
        &"empty".to_string(),
        &default_config(),
        9,
    )
    .unwrap();
    assert_eq!(matches.len(), 0);

    // An invalid query is an error, not an empty result.
    let invalid = cosine_similarity_search(
        &store,
        &mut cache,
        &vec![],
        &"empty".to_string(),
        &default_config(),
        9,
    );
    assert!(invalid.is_err());
}

#[test]
fn batch_search_runs_each_query() {
    let mut store = Store::new();
    let doc = setup_collection(&mut store, "fruit");
    store_vectors_batch(
        &mut store,
        vec![make_vector("vec_a", &doc, "chunk_0", vec![1_000_000, 0])],
    )
    .unwrap();
    let mut cache = BoundedCache::new(100 * 1024 * 1024, 10);
    let queries = vec![vec![1_000_000, 0], vec![0, 1_000_000]];
    let results =
        compute_similarity_batch(&store, &mut cache, &queries, &"fruit".to_string(), &default_config(), 9)
            .unwrap();
    assert_eq!(results.len(), 2);
    assert_eq!(results[0].len(), 1);
}

#[test]
fn document_centroid_is_the_mean() {
    let vs = vec![
        make_vector("vec_a", "doc_x", "chunk_0", vec![1_000_000, 0]),
        make_vector("vec_b", "doc_x", "chunk_1", vec![0, 1_000_000]),
    ];
    let centroid = calculate_document_centroid(&vs).unwrap();
    assert_eq!(centroid, vec![500_000, 500_000]);

    let mismatched = vec![
        make_vector("vec_a", "doc_x", "chunk_0", vec![1_000_000, 0]),
        make_vector("vec_b", "doc_x", "chunk_1", vec![1_000_000]),
    ];
    assert!(calculate_document_centroid(&mismatched).is_err());
    assert!(calculate_document_centroid(&vec![]).is_err());
}

#[test]
fn similar_documents_exclude_the_source() {
    let mut store = Store::new();
    let doc_a = setup_collection(&mut store, "library");
    let doc_request = AddDocumentRequest {
        collection_id: "library".to_string(),
        title: "second".to_string(),
        content: "other content".to_string(),
        content_type: None,
        source_url: None,
        author: None,
        tags: None,
    };
    let doc_b = add_document(&mut store, doc_request, 3).unwrap().id;
    store_vectors_batch(
        &mut store,
        vec![
            make_vector("vec_a", &doc_a, "chunk_0", vec![1_000_000, 0]),
            make_vector("vec_b", &doc_b, "chunk_0", vec![900_000, 100_000]),
        ],
    )
    .unwrap();
    let mut cache = BoundedCache::new(100 * 1024 * 1024, 10);
    let matches = find_similar_documents(
        &store,
        &mut cache,
        &doc_a,
        &"library".to_string(),
        &default_config(),
        9,
    )
    .unwrap();
    assert!(matches.iter().all(|m| m.document_id != doc_a));
    assert_eq!(matches.len(), 1);
    assert_eq!(matches[0].document_id, doc_b);
}

#[test]
fn memory_index_searches_items() {
    let mut index = MemoryVectorIndex::new();
    assert!(index.is_empty());
    index.add_item(MemoryVectorItem {
        id: "item_0".to_string(),
        text: "apple".to_string(),
        embedding: vec![1_000_000, 0],
        norm: 1_000_000,
    });
    index.add_item(MemoryVectorItem {
        id: "item_1".to_string(),
        text: "banana".to_string(),
        embedding: vec![0, 1_000_000],
        norm: 1_000_000,
    });
    assert_eq!(index.len(), 2);
    let query = vec![1_000_000, 0];
    let qnorm = calculate_norm(&query).unwrap();
    let results = index.search_similar(&query, qnorm, 5, None).unwrap();
    assert_eq!(results.len(), 2);
    assert_eq!(results[0].document_id, "item_0");
    assert_eq!(results[0].text, "apple");
    assert!(results[0].score >= results[1].score);
    index.clear();
    assert!(index.is_empty());
}

#[test]
fn ingest_compensation_leaves_no_trace() {
    // When embedding fails after the document was added, compensation
    // removes it: no documents and no vectors remain visible.
    let mut store = Store::new();
    create_collection(
        &mut store,
        CreateCollectionRequest {
            id: "docs".to_string(),
            name: "docs".to_string(),
            description: None,
            settings: None,
        },
        "alice".to_string(),
        1,
    )
    .unwrap();
    let doc = add_document(
        &mut store,
        AddDocumentRequest {
            collection_id: "docs".to_string(),
            title: "alpha".to_string(),
            content: "hello world".to_string(),
            content_type: None,
            source_url: None,
            author: None,
            tags: None,
        },
        2,
    )
    .unwrap();
    let mut cache = BoundedCache::new(100 * 1024 * 1024, 10);
    // The embedding call failed: unwind.
    compensate_failed_ingest(&mut store, &mut cache, &"docs".to_string(), &doc.id);
    assert_eq!(blueband::documents::list_documents(&store, &"docs".to_string()).len(), 0);
    assert_eq!(get_collection_vectors(&store, &"docs".to_string()).len(), 0);
}

#[test]
fn ingest_finish_lands_the_batch() {
    let mut store = Store::new();
    let doc = setup_collection(&mut store, "docs");
    let mut cache = BoundedCache::new(100 * 1024 * 1024, 10);
    let chunks = vec![SemanticChunk {
        id: "chunk_0".to_string(),
        document_id: doc.clone(),
        text: "some text".to_string(),
        position: 0,
        char_start: 0,
        char_end: 9,
        token_count: Some(3),
    }];
    let embeddings = vec![vec![1_000_000, 0]];
    let vectors =
        build_vectors_from_embeddings(&chunks, &embeddings, &"text-embedding-ada-002".to_string(), 9)
            .unwrap();
    assert_eq!(vectors.len(), 1);
    assert!(vectors[0].id.starts_with("vec_"));
    assert_eq!(vectors[0].norm, 1_000_000);
    let stored = ingest_finish(&mut store, &mut cache, &"docs".to_string(), &doc, vectors).unwrap();
    assert_eq!(stored, 1);
    let fetched = blueband::documents::get_document(&store, &"docs".to_string(), &doc).unwrap();
    assert!(fetched.is_embedded);
    assert_eq!(get_collection_vectors(&store, &"docs".to_string()).len(), 1);

    // Once embedded, the document is not embeddable again.
    assert!(check_embeddable(&store, &"docs".to_string(), &doc).is_err());
}

#[test]
fn embedding_request_rules() {
    let url = "https://proxy.example".to_string();
    let texts = vec!["hello".to_string()];
    assert!(validate_embedding_request(&texts, &url).is_ok());
    assert!(validate_embedding_request(&vec![], &url).is_err());
    assert!(validate_embedding_request(&vec!["x".to_string(); 51], &url).is_err());
    assert!(validate_embedding_request(&texts, &"http://proxy.example".to_string()).is_err());
    assert!(validate_embedding_request(&vec!["   ".to_string()], &url).is_err());
    assert!(validate_embedding_request(&vec!["z".repeat(4001)], &url).is_err());
    assert!(validate_embedding_request(&vec!["z".repeat(4000); 50], &url).is_err());
}

#[test]
fn embedding_response_rules() {
    let model = EmbeddingModel::Custom("local".to_string());
    let good = vec![vec![1_000_000, 0], vec![0, 1_000_000]];
    assert!(validate_embedding_response(&good, 2, &model).is_ok());
    assert!(validate_embedding_response(&good, 3, &model).is_err());
    let with_empty = vec![vec![]];
    assert!(validate_embedding_response(&with_empty, 1, &model).is_err());
    let ada = EmbeddingModel::OpenAIAda002;
    assert!(validate_embedding_response(&good, 2, &ada).is_err());
}

#[test]
fn cycle_budget_formula() {
    // One short text stays at the one-billion floor.
    let ada = EmbeddingModel::OpenAIAda002;
    assert_eq!(calculate_embedding_cycles(&ada, 1, 100), 1_000_000_000);
    // The response-size estimate of twenty texts: (1536*4*20 + 20*150 +
    // 1000) * 3 / 2.
    assert_eq!(calculate_max_response_bytes(&ada, 20), 190_320);
    // Very small requests clamp up to the fifty-kilobyte floor.
    assert_eq!(calculate_max_response_bytes(&ada, 1), 50_000);
}

#[test]
fn model_parsing_and_dimensions() {
    let ada = parse_embedding_model(&"text-embedding-ada-002".to_string()).unwrap();
    assert_eq!(ada.model_name(), "text-embedding-ada-002");
    assert_eq!(ada.expected_dimensions(), Some(1536));
    let large = parse_embedding_model(&"text-embedding-3-large".to_string()).unwrap();
    assert_eq!(large.expected_dimensions(), Some(3072));
    let custom = parse_embedding_model(&"local-model".to_string()).unwrap();
    assert_eq!(custom.model_name(), "local-model");
    assert_eq!(custom.expected_dimensions(), None);
}

#[test]
fn outcall_error_classes() {
    assert_eq!(
        classify_outcall_error(&"request rejected: OutOfCycles".to_string()),
        OutcallErrorKind::OutOfCycles
    );
    assert_eq!(
        classify_outcall_error(&"SysTransient: try again".to_string()),
        OutcallErrorKind::Transient
    );
    assert_eq!(
        classify_outcall_error(&"connection timeout".to_string()),
        OutcallErrorKind::Transient
    );
    assert_eq!(
        classify_outcall_error(&"403 forbidden".to_string()),
        OutcallErrorKind::Other
    );
}

#[test]
fn idempotency_key_is_stable() {
    let model = "text-embedding-ada-002".to_string();
    let url = "https://proxy.example".to_string();
    let texts = vec!["alpha".to_string(), "beta".to_string()];
    let k1 = generate_idempotency_key(&model, &url, &texts);
    let k2 = generate_idempotency_key(&model, &url, &texts);
    assert_eq!(k1, k2);
    assert!(k1.starts_with("icp-vdb-"));
    assert_eq!(k1.len(), 8 + 16);
    let other = generate_idempotency_key(&model, &url, &vec!["alpha".to_string()]);
    assert_ne!(k1, other);
}

#[test]
fn generated_ids_have_the_documented_shape() {
    let id = generate_id("vec", &"chunk_0".to_string(), 7);
    assert!(id.starts_with("vec_"));
    assert_eq!(id.len(), 4 + 16);
    assert_eq!(id, generate_id("vec", &"chunk_0".to_string(), 7));
    assert_ne!(id, generate_id("vec", &"chunk_0".to_string(), 8));
}

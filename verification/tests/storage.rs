use blueband::collections::add_collection_admin;
use blueband::collections::create_collection;
use blueband::collections::delete_collection;
use blueband::collections::get_admin_level;
use blueband::collections::get_collection;
use blueband::collections::get_collection_with_stats;
use blueband::collections::get_genesis_admin;
use blueband::collections::list_collections;
use blueband::collections::remove_collection_admin;
use blueband::collections::transfer_genesis_admin;
use blueband::collections::update_collection_metadata;
use blueband::documents::add_document;
use blueband::documents::delete_document;
use blueband::documents::get_chunk;
use blueband::documents::get_chunk_text;
use blueband::documents::get_document;
use blueband::documents::list_documents;
use blueband::documents::mark_document_embedded;
use blueband::store::Store;
use blueband::types::AddDocumentRequest;
use blueband::types::AdminLevel;
use blueband::types::CollectionSettings;
use blueband::types::CreateCollectionRequest;
use blueband::types::validate_collection_id;
use blueband::types::validate_document_content;

fn basic_request(id: &str) -> CreateCollectionRequest {
    CreateCollectionRequest {
        id: id.to_string(),
        name: format!("{} name", id),
        description: None,
        settings: None,
    }
}

fn small_chunk_settings() -> CollectionSettings {
    CollectionSettings {
        embedding_model: "text-embedding-ada-002".to_string(),
        proxy_url: "https://example.test/proxy".to_string(),
        chunk_size: 6,
        chunk_overlap: 2,
        max_documents: None,
        auto_embed: true,
    }
}

fn doc_request(collection: &str, title: &str, content: &str) -> AddDocumentRequest {
    AddDocumentRequest {
        collection_id: collection.to_string(),
        title: title.to_string(),
        content: content.to_string(),
        content_type: None,
        source_url: None,
        author: None,
        tags: None,
    }
}

#[test]
fn create_and_get_collection() {
    let mut store = Store::new();
    let created = create_collection(&mut store, basic_request("docs"), "alice".to_string(), 7)
        .expect("create should succeed");
    assert_eq!(created.id, "docs");
    assert_eq!(created.genesis_admin, "alice");
    assert_eq!(created.admins, vec!["alice".to_string()]);
    assert_eq!(created.created_at, 7);
    let fetched = get_collection(&store, &"docs".to_string()).expect("collection present");
    assert_eq!(fetched.name, "docs name");
    assert_eq!(fetched.settings.chunk_size, 512);
    assert_eq!(fetched.settings.chunk_overlap, 64);
    assert_eq!(list_collections(&store).len(), 1);

    let duplicate = create_collection(&mut store, basic_request("docs"), "bob".to_string(), 8);
    assert!(duplicate.is_err());
    assert_eq!(list_collections(&store).len(), 1);
}

#[test]
fn collection_id_rules() {
    assert!(validate_collection_id(&"docs".to_string()).is_ok());
    assert!(validate_collection_id(&"ok_id-1".to_string()).is_ok());
    assert!(validate_collection_id(&"".to_string()).is_err());
    assert!(validate_collection_id(&"has space".to_string()).is_err());
    assert!(validate_collection_id(&"admin".to_string()).is_err());
    assert!(validate_collection_id(&"system".to_string()).is_err());
    assert!(validate_collection_id(&"__hidden".to_string()).is_err());
    let long = "x".repeat(65);
    assert!(validate_collection_id(&long).is_err());
}

#[test]
fn document_content_rules() {
    assert!(validate_document_content(&"hello".to_string()).is_ok());
    assert!(validate_document_content(&"".to_string()).is_err());
    let big = "y".repeat(10_000_001);
    assert!(validate_document_content(&big).is_err());
}

#[test]
fn sliding_window_chunks() {
    // A six-character window with overlap two over eleven characters gives
    // windows [0,6), [4,10), [8,11): three chunks.
    let mut store = Store::new();
    let mut request = basic_request("docs");
    request.settings = Some(small_chunk_settings());
    create_collection(&mut store, request, "alice".to_string(), 1).unwrap();
    let doc = add_document(&mut store, doc_request("docs", "alpha", "hello world"), 2)
        .expect("add should succeed");
    assert_eq!(doc.total_chunks, 3);
    assert_eq!(doc.size, 11);
    assert!(!doc.is_embedded);

    let c0 = get_chunk(&store, &doc.id, &"chunk_0".to_string()).expect("first chunk");
    assert_eq!(c0.text, "hello ");
    assert_eq!(c0.char_start, 0);
    assert_eq!(c0.char_end, 6);
    assert_eq!(c0.position, 0);
    let c1 = get_chunk(&store, &doc.id, &"chunk_1".to_string()).expect("second chunk");
    assert_eq!(c1.text, "o worl");
    assert_eq!(c1.char_start, 4);
    assert_eq!(c1.char_end, 10);
    let c2 = get_chunk(&store, &doc.id, &"chunk_2".to_string()).expect("third chunk");
    assert_eq!(c2.text, "rld");
    assert_eq!(c2.char_start, 8);
    assert_eq!(c2.char_end, 11);
    assert!(get_chunk(&store, &doc.id, &"chunk_3".to_string()).is_none());
    assert_eq!(
        get_chunk_text(&store, &doc.id, &"chunk_0".to_string()),
        Some("hello ".to_string())
    );
}

#[test]
fn add_document_lists_one_new_id_with_checksum() {
    let mut store = Store::new();
    create_collection(&mut store, basic_request("docs"), "alice".to_string(), 1).unwrap();
    assert_eq!(list_documents(&store, &"docs".to_string()).len(), 0);
    let doc = add_document(&mut store, doc_request("docs", "alpha", "hello world"), 2).unwrap();
    let listed = list_documents(&store, &"docs".to_string());
    assert_eq!(listed.len(), 1);
    assert_eq!(listed[0].id, doc.id);
    // The checksum is the SHA-256 hex digest of the content.
    assert_eq!(
        doc.checksum,
        "b94d27b9934d3e08a52e52d7da7dabfac484efe37a5380ee9088f7ace2efcde9"
    );
    assert!(doc.id.starts_with("doc_"));
    assert_eq!(doc.id.len(), 4 + 16);

    let fetched = get_document(&store, &"docs".to_string(), &doc.id).expect("visible");
    assert_eq!(fetched.checksum, doc.checksum);
    assert_eq!(fetched.title, "alpha");
}

#[test]
fn identical_add_in_one_tick_is_an_upsert() {
    // Re-adding the same title and content in the same tick derives the
    // same id and leaves the state as after the first call: one index
    // entry, one record, one chunk list.
    let mut store = Store::new();
    create_collection(&mut store, basic_request("docs"), "alice".to_string(), 1).unwrap();
    let d1 = add_document(&mut store, doc_request("docs", "alpha", "hello world"), 42).unwrap();
    let d2 = add_document(&mut store, doc_request("docs", "alpha", "hello world"), 42).unwrap();
    assert_eq!(d1.id, d2.id);
    let listed = list_documents(&store, &"docs".to_string());
    assert_eq!(listed.len(), 1);
    assert_eq!(listed[0].id, d1.id);
    assert_eq!(listed[0].checksum, d1.checksum);
    assert_eq!(
        blueband::documents::get_document_chunks(&store, &d1.id).len(),
        d1.total_chunks as usize
    );
}

#[test]
fn collection_documents_resolve_by_composite_key() {
    let mut store = Store::new();
    create_collection(&mut store, basic_request("docs"), "alice".to_string(), 1).unwrap();
    let doc = add_document(&mut store, doc_request("docs", "alpha", "hello world"), 2).unwrap();
    let fetched = blueband::documents::get_collection_documents(&store, &"docs".to_string());
    assert_eq!(fetched.len(), 1);
    assert_eq!(fetched[0].id, doc.id);

    blueband::documents::delete_collection_documents(&mut store, &"docs".to_string()).unwrap();
    assert_eq!(
        blueband::documents::get_collection_documents(&store, &"docs".to_string()).len(),
        0
    );
    // The record itself is gone, not merely hidden from the index.
    assert!(!blueband::documents::document_exists(
        &store,
        &"docs".to_string(),
        &doc.id
    ));
}

#[test]
fn identical_adds_in_one_tick_share_an_id() {
    let mut store1 = Store::new();
    create_collection(&mut store1, basic_request("docs"), "alice".to_string(), 1).unwrap();
    let d1 = add_document(&mut store1, doc_request("docs", "alpha", "hello world"), 42).unwrap();
    let mut store2 = Store::new();
    create_collection(&mut store2, basic_request("docs"), "alice".to_string(), 1).unwrap();
    let d2 = add_document(&mut store2, doc_request("docs", "alpha", "hello world"), 42).unwrap();
    assert_eq!(d1.id, d2.id);

    // A different tick mixes a different timestamp into the digest.
    let mut store3 = Store::new();
    create_collection(&mut store3, basic_request("docs"), "alice".to_string(), 1).unwrap();
    let d3 = add_document(&mut store3, doc_request("docs", "alpha", "hello world"), 43).unwrap();
    assert_ne!(d1.id, d3.id);
}

#[test]
fn document_cap_is_enforced() {
    let mut store = Store::new();
    let mut request = basic_request("docs");
    let mut settings = small_chunk_settings();
    settings.max_documents = Some(1);
    request.settings = Some(settings);
    create_collection(&mut store, request, "alice".to_string(), 1).unwrap();
    add_document(&mut store, doc_request("docs", "one", "first content"), 2).unwrap();
    let second = add_document(&mut store, doc_request("docs", "two", "second content"), 3);
    assert!(second.is_err());
    assert_eq!(list_documents(&store, &"docs".to_string()).len(), 1);
}

#[test]
fn metadata_rules_on_add() {
    let mut store = Store::new();
    create_collection(&mut store, basic_request("docs"), "alice".to_string(), 1).unwrap();
    let mut request = doc_request("docs", "", "content");
    assert!(add_document(&mut store, request, 2).is_err());
    request = doc_request("docs", "ok", "content");
    request.tags = Some(vec!["t".to_string(); 21]);
    assert!(add_document(&mut store, request, 2).is_err());
    let mut good = doc_request("docs", "ok", "content");
    good.tags = Some(vec!["tag-one".to_string(), "tag-two".to_string()]);
    assert!(add_document(&mut store, good, 2).is_ok());
}

#[test]
fn admin_transitions() {
    let mut store = Store::new();
    create_collection(&mut store, basic_request("docs"), "alice".to_string(), 1).unwrap();
    let c = "docs".to_string();
    let alice = "alice".to_string();
    let bob = "bob".to_string();
    let carol = "carol".to_string();

    // Only genesis may add admins.
    assert!(add_collection_admin(&mut store, &c, &bob, &carol, 2).is_err());
    assert!(add_collection_admin(&mut store, &c, &bob, &alice, 2).is_ok());
    assert_eq!(get_admin_level(&store, &c, &bob), AdminLevel::Regular);

    // The transfer target must already be an admin.
    assert!(transfer_genesis_admin(&mut store, &c, &carol, &alice, 3).is_err());
    assert!(transfer_genesis_admin(&mut store, &c, &bob, &alice, 3).is_ok());
    assert_eq!(get_genesis_admin(&store, &c), Some(bob.clone()));
    assert_eq!(get_admin_level(&store, &c, &bob), AdminLevel::Genesis);

    // The genesis admin cannot be removed.
    assert!(remove_collection_admin(&mut store, &c, &bob, &bob, 4).is_err());
    assert!(remove_collection_admin(&mut store, &c, &alice, &bob, 4).is_ok());
    assert_eq!(get_admin_level(&store, &c, &alice), AdminLevel::NoAccess);
}

#[test]
fn genesis_guard_on_delete() {
    let mut store = Store::new();
    create_collection(&mut store, basic_request("docs"), "alice".to_string(), 1).unwrap();
    let denied = delete_collection(&mut store, &"docs".to_string(), &"mallory".to_string());
    assert!(denied.is_err());
    assert!(get_collection(&store, &"docs".to_string()).is_some());
}

#[test]
fn delete_collection_cascades() {
    let mut store = Store::new();
    create_collection(&mut store, basic_request("docs"), "alice".to_string(), 1).unwrap();
    let doc = add_document(&mut store, doc_request("docs", "alpha", "hello world"), 2).unwrap();
    delete_collection(&mut store, &"docs".to_string(), &"alice".to_string()).unwrap();
    assert!(get_collection(&store, &"docs".to_string()).is_none());
    assert_eq!(list_documents(&store, &"docs".to_string()).len(), 0);
    assert_eq!(
        blueband::documents::get_document_chunks(&store, &doc.id).len(),
        0
    );
    assert_eq!(list_collections(&store).len(), 0);
}

#[test]
fn collection_metadata_update_rules() {
    let mut store = Store::new();
    create_collection(&mut store, basic_request("docs"), "alice".to_string(), 1).unwrap();
    let c = "docs".to_string();
    let alice = "alice".to_string();
    let long_name = "n".repeat(101);
    assert!(
        update_collection_metadata(&mut store, &c, Some(long_name), None, &alice, 2).is_err()
    );
    assert!(update_collection_metadata(
        &mut store,
        &c,
        Some("fresh name".to_string()),
        Some("about".to_string()),
        &alice,
        3
    )
    .is_ok());
    let updated = get_collection(&store, &c).unwrap();
    assert_eq!(updated.name, "fresh name");
    assert_eq!(updated.description, Some("about".to_string()));
    assert_eq!(updated.updated_at, 3);
}

#[test]
fn stats_count_documents_and_vectors() {
    let mut store = Store::new();
    create_collection(&mut store, basic_request("docs"), "alice".to_string(), 1).unwrap();
    add_document(&mut store, doc_request("docs", "alpha", "hello world"), 2).unwrap();
    let with_stats = get_collection_with_stats(&store, &"docs".to_string()).unwrap();
    assert_eq!(with_stats.stats.document_count, 1);
    assert_eq!(with_stats.stats.vector_count, 0);
}

#[test]
fn mark_embedded_flips_the_flag() {
    let mut store = Store::new();
    create_collection(&mut store, basic_request("docs"), "alice".to_string(), 1).unwrap();
    let doc = add_document(&mut store, doc_request("docs", "alpha", "hello world"), 2).unwrap();
    assert!(!doc.is_embedded);
    mark_document_embedded(&mut store, &"docs".to_string(), &doc.id).unwrap();
    let fetched = get_document(&store, &"docs".to_string(), &doc.id).unwrap();
    assert!(fetched.is_embedded);
}

#[test]
fn delete_document_hides_it() {
    let mut store = Store::new();
    create_collection(&mut store, basic_request("docs"), "alice".to_string(), 1).unwrap();
    let doc = add_document(&mut store, doc_request("docs", "alpha", "hello world"), 2).unwrap();
    delete_document(&mut store, &"docs".to_string(), &doc.id).unwrap();
    assert!(get_document(&store, &"docs".to_string(), &doc.id).is_none());
    assert_eq!(list_documents(&store, &"docs".to_string()).len(), 0);
    assert_eq!(
        blueband::documents::get_document_chunks(&store, &doc.id).len(),
        0
    );
}

#[test]
fn config_round_trip() {
    let mut store = Store::new();
    blueband::store::set_config(&mut store, &"mode".to_string(), "fast".to_string()).unwrap();
    assert_eq!(
        blueband::store::get_config(&store, &"mode".to_string()),
        Some("fast".to_string())
    );
    assert_eq!(blueband::store::get_config(&store, &"other".to_string()), None);
}

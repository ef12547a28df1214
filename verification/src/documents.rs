use crate::store::Store;
use crate::store::doc_key;
use crate::store::ids_match;
use crate::store::make_doc_key;
use crate::types::ChunkList;
use crate::types::DocumentMetadata;
use crate::types::DocumentMetadataV;
use crate::types::SemanticChunk;
use crate::types::StringList;
use crate::types::AddDocumentRequest;
use crate::types::blen;
use crate::util::seq_contains_string;
use crate::util::string_vec_remove;
use vstd::prelude::*;

verus! {

broadcast use vstd::hash_map::axiom_string_hash_map_spec_len;

// =============================================================================
// METADATA VALIDATION
// =============================================================================

/// Document metadata is acceptable when the title is non-empty and at most
/// 200 bytes, there are at most 20 tags, and every tag is at most 50 bytes.
pub open spec fn valid_document_metadata(d: DocumentMetadataV) -> bool {
    &&& 1 <= blen(d.title) <= 200
    &&& match d.tags {
        Some(ts) => ts.len() <= 20 && forall|i: int| 0 <= i < ts.len() ==> blen(#[trigger] ts[i])
            <= 50,
        None => true,
    }
}

pub fn validate_document_metadata(document: &DocumentMetadata) -> (r: Result<(), String>)
    ensures
        r is Ok <==> valid_document_metadata(document@),
{
    let title_bytes = document.title.as_str().as_bytes().len();
    if title_bytes == 0 {
        return Err(String::from_str("Document title cannot be empty"));
    }
    if title_bytes > 200 {
        return Err(String::from_str("Document title exceeds 200 character limit"));
    }
    match &document.tags {
        Some(tags) => {
            if tags.len() > 20 {
                return Err(String::from_str("Document cannot have more than 20 tags"));
            }
            let n = tags.len();
            let mut i: usize = 0;
            while i < n
                invariant
                    0 <= i <= n,
                    n == tags@.len(),
                    n <= 20,
                    document@.tags == Some(tags.deep_view()),
                    forall|j: int| 0 <= j < i ==> blen(#[trigger] tags.deep_view()[j]) <= 50,
                decreases n - i,
            {
                proof {
                    assert(tags.deep_view()[i as int] == tags@[i as int]@);
                }
                if tags[i].as_str().as_bytes().len() > 50 {
                    proof {
                        assert(blen(tags.deep_view()[i as int]) > 50);
                    }
                    return Err(String::from_str("Tag length cannot exceed 50 characters"));
                }
                i += 1;
            }
            proof {
                assert(document@.tags == Some(tags.deep_view()));
            }
            Ok(())
        },
        None => Ok(()),
    }
}

// =============================================================================
// LOOKUP
// =============================================================================

/// A document is visible exactly when the collection's document index lists
/// its id and the documents map holds its record.
pub open spec fn document_visible(store: Store, c: Seq<char>, d: Seq<char>) -> bool {
    &&& store.document_index@.contains_key(c)
    &&& seq_contains_string(store.document_index@[c]@, d)
    &&& store.documents@.contains_key(doc_key(c, d))
}

/// Looks a document up through the collection's index: a record not listed
/// there is invisible.
pub fn get_document(store: &Store, collection_id: &String, document_id: &String) -> (r: Option<
    DocumentMetadata,
>)
    ensures
        match r {
            Some(d) => document_visible(*store, collection_id@, document_id@) && d@
                == store.documents@[doc_key(collection_id@, document_id@)]@,
            None => !document_visible(*store, collection_id@, document_id@),
        },
{
    match store.document_index.get(collection_id.as_str()) {
        Some(doc_ids) => {
            if crate::util::string_vec_contains(&doc_ids.0, document_id) {
                let storage_key = make_doc_key(collection_id, document_id);
                match store.documents.get(storage_key.as_str()) {
                    Some(d) => Some(d.clone()),
                    None => None,
                }
            } else {
                None
            }
        },
        None => None,
    }
}

pub fn document_exists(store: &Store, collection_id: &String, document_id: &String) -> (r: bool)
    ensures
        r == store.documents@.contains_key(doc_key(collection_id@, document_id@)),
{
    let storage_key = make_doc_key(collection_id, document_id);
    store.documents.contains_key(storage_key.as_str())
}

pub fn get_document_title(store: &Store, collection_id: &String, document_id: &String) -> (r:
    Option<String>)
    ensures
        match r {
            Some(t) => document_visible(*store, collection_id@, document_id@) && t@
                == store.documents@[doc_key(collection_id@, document_id@)]@.title,
            None => !document_visible(*store, collection_id@, document_id@),
        },
{
    match get_document(store, collection_id, document_id) {
        Some(d) => Some(d.title),
        None => None,
    }
}

/// The document records an id list resolves to, in list order: one view per
/// id that is visible through the index.
pub open spec fn resolved_docs(store: Store, c: Seq<char>, ids: Seq<Seq<char>>) -> Seq<
    DocumentMetadataV,
>
    decreases ids.len(),
{
    if ids.len() == 0 {
        Seq::empty()
    } else {
        let prefix = resolved_docs(store, c, ids.drop_last());
        if document_visible(store, c, ids.last()) {
            prefix.push(store.documents@[doc_key(c, ids.last())]@)
        } else {
            prefix
        }
    }
}

/// The sequence of views of a list of document records.
pub open spec fn views_of_docs(s: Seq<DocumentMetadata>) -> Seq<DocumentMetadataV> {
    Seq::new(s.len(), |i: int| s[i]@)
}

/// Lists the documents of a collection, resolving each indexed id that the
/// documents map actually holds, in index order.
pub fn list_documents(store: &Store, collection_id: &String) -> (r: Vec<DocumentMetadata>)
    ensures
        !store.document_index@.contains_key(collection_id@) ==> r@.len() == 0,
        store.document_index@.contains_key(collection_id@) ==> views_of_docs(r@) == resolved_docs(
            *store,
            collection_id@,
            store.document_index@[collection_id@]@,
        ),
{
    let mut out: Vec<DocumentMetadata> = Vec::new();
    let doc_ids = match store.document_index.get(collection_id.as_str()) {
        Some(l) => l,
        None => {
            return out;
        },
    };
    let n = doc_ids.0.len();
    let mut i: usize = 0;
    while i < n
        invariant
            0 <= i <= n,
            n == doc_ids.0@.len(),
            store.document_index@.contains_key(collection_id@),
            doc_ids@ == store.document_index@[collection_id@]@,
            views_of_docs(out@) == resolved_docs(*store, collection_id@, doc_ids@.take(i as int)),
        decreases n - i,
    {
        proof {
            assert(doc_ids@[i as int] == doc_ids.0@[i as int]@);
            assert(doc_ids@.take(i + 1).drop_last() =~= doc_ids@.take(i as int));
            assert(doc_ids@.take(i + 1).last() == doc_ids@[i as int]);
        }
        let ghost pre = out@;
        match get_document(store, collection_id, &doc_ids.0[i]) {
            Some(d) => {
                out.push(d);
                proof {
                    assert(views_of_docs(out@) =~= views_of_docs(pre).push(
                        store.documents@[doc_key(collection_id@, doc_ids@[i as int])]@,
                    ));
                }
            },
            None => {},
        }
        i += 1;
    }
    proof {
        assert(doc_ids@.take(n as int) =~= doc_ids@);
    }
    out
}

// =============================================================================
// CHUNKING
// =============================================================================

/// A chunk window never shrinks to nothing: a zero size is read as one.
pub open spec fn effective_chunk_size(cs: u32) -> nat {
    if cs == 0 {
        1
    } else {
        cs as nat
    }
}

/// The stride between window starts: size minus overlap, or the full size
/// when the overlap is not smaller than the size.
pub open spec fn effective_stride(cs: u32, ov: u32) -> nat {
    let c = effective_chunk_size(cs);
    if (ov as nat) < c {
        (c - ov) as nat
    } else {
        c
    }
}

/// The sliding windows over a text of `len` characters: `[start, end)`
/// ranges of at most `cs` characters, each the stride past the one before,
/// ending with the window that reaches the end of the text.
pub open spec fn chunk_windows(len: nat, cs: nat, st: nat, start: nat) -> Seq<(nat, nat)>
    decreases len - start,
{
    if start >= len || st < 1 {
        Seq::empty()
    } else {
        let end = if start + cs <= len {
            (start + cs) as nat
        } else {
            len
        };
        if end == len {
            seq![(start, end)]
        } else {
            seq![(start, end)] + chunk_windows(
                len,
                cs,
                st,
                if start + st < len {
                    (start + st) as nat
                } else {
                    len
                },
            )
        }
    }
}

/// The token estimate for a chunk: a quarter of its length, rounded up,
/// capped at the 32-bit maximum.
pub open spec fn token_estimate(len: nat) -> u32 {
    let t = len / 4 + if len % 4 == 0 {
        0
    } else {
        1nat
    };
    if t <= u32::MAX {
        t as u32
    } else {
        u32::MAX
    }
}

pub fn estimate_tokens(text: &str) -> (r: u32)
    ensures
        r == token_estimate(text@.len()),
{
    let n = text.unicode_len();
    let q = n / 4 + if n % 4 == 0 {
        0
    } else {
        1
    };
    if q > u32::MAX as usize {
        u32::MAX
    } else {
        q as u32
    }
}

/// The chunk built over window `[a, b)` at position `pos`.
pub open spec fn chunk_view(s: Seq<char>, doc: Seq<char>, a: nat, b: nat, pos: nat) -> crate::types::SemanticChunkV {
    crate::types::SemanticChunkV {
        id: "chunk_"@ + crate::hashing::dec_of(pos),
        document_id: doc,
        text: s.subrange(a as int, b as int),
        position: pos as u32,
        char_start: blen(s.take(a as int)) as u64,
        char_end: blen(s.take(b as int)) as u64,
        token_count: Some(token_estimate((b - a) as nat)),
    }
}

/// The chunks produced from a window list: windows whose text is all
/// whitespace are dropped, and positions number the kept ones in order.
pub open spec fn chunks_from_windows(
    s: Seq<char>,
    doc: Seq<char>,
    ws: Seq<(nat, nat)>,
    pos: nat,
) -> Seq<crate::types::SemanticChunkV>
    decreases ws.len(),
{
    if ws.len() == 0 {
        Seq::empty()
    } else {
        let a = ws[0].0;
        let b = ws[0].1;
        if crate::util::has_non_space(s.subrange(a as int, b as int)) {
            seq![chunk_view(s, doc, a, b, pos)] + chunks_from_windows(
                s,
                doc,
                ws.drop_first(),
                pos + 1,
            )
        } else {
            chunks_from_windows(s, doc, ws.drop_first(), pos)
        }
    }
}

/// The chunk list of a text under the collection's chunking settings.
pub open spec fn semantic_chunks_of(s: Seq<char>, doc: Seq<char>, cs: u32, ov: u32) -> Seq<
    crate::types::SemanticChunkV,
> {
    chunks_from_windows(
        s,
        doc,
        chunk_windows(s.len(), effective_chunk_size(cs), effective_stride(cs, ov), 0),
        0,
    )
}

proof fn lemma_windows_len(len: nat, cs: nat, st: nat, start: nat)
    requires
        start <= len,
    ensures
        chunk_windows(len, cs, st, start).len() <= len - start,
    decreases len - start,
{
    if start >= len || st < 1 {
    } else {
        let end = if start + cs <= len {
            (start + cs) as nat
        } else {
            len
        };
        if end == len {
        } else {
            if start + st < len {
                lemma_windows_len(len, cs, st, (start + st) as nat);
            } else {
                lemma_windows_len(len, cs, st, len);
            }
        }
    }
}

proof fn lemma_chunks_len(s: Seq<char>, doc: Seq<char>, ws: Seq<(nat, nat)>, pos: nat)
    ensures
        chunks_from_windows(s, doc, ws, pos).len() <= ws.len(),
    decreases ws.len(),
{
    if ws.len() == 0 {
    } else {
        if crate::util::has_non_space(s.subrange(ws[0].0 as int, ws[0].1 as int)) {
            lemma_chunks_len(s, doc, ws.drop_first(), pos + 1);
        } else {
            lemma_chunks_len(s, doc, ws.drop_first(), pos);
        }
    }
}

/// The sequence of views of a chunk list.
pub open spec fn views_of_chunks(s: Seq<SemanticChunk>) -> Seq<crate::types::SemanticChunkV> {
    Seq::new(s.len(), |i: int| s[i]@)
}

/// Cuts a text into sliding-window chunks: windows of `chunk_size`
/// characters advancing by `chunk_size - chunk_overlap`, keeping every
/// window with non-whitespace content, with character-range and byte-range
/// bookkeeping against the original text.
pub fn create_semantic_chunks(
    content: &String,
    document_id: &String,
    settings: &crate::types::CollectionSettings,
) -> (r: Vec<SemanticChunk>)
    requires
        content@.len() <= crate::types::MAX_CONTENT_BYTES,
    ensures
        views_of_chunks(r@) == semantic_chunks_of(
            content@,
            document_id@,
            settings.chunk_size,
            settings.chunk_overlap,
        ),
        r@.len() <= content@.len(),
{
    let s = content.as_str();
    let n = s.unicode_len();
    let cs: usize = if settings.chunk_size == 0 {
        1
    } else {
        settings.chunk_size as usize
    };
    let st: usize = if settings.chunk_overlap < settings.chunk_size {
        cs - (settings.chunk_overlap as usize)
    } else {
        cs
    };
    let ghost full = semantic_chunks_of(
        content@,
        document_id@,
        settings.chunk_size,
        settings.chunk_overlap,
    );
    proof {
        assert(cs as nat == effective_chunk_size(settings.chunk_size));
        assert(st as nat == effective_stride(settings.chunk_size, settings.chunk_overlap));
        lemma_windows_len(n as nat, cs as nat, st as nat, 0);
        lemma_chunks_len(
            content@,
            document_id@,
            chunk_windows(n as nat, cs as nat, st as nat, 0),
            0,
        );
        assert(full.len() <= n);
    }
    let mut out: Vec<SemanticChunk> = Vec::new();
    let mut pos: u32 = 0;
    let mut start: usize = 0;
    let mut done: bool = false;
    while !done && start < n
        invariant
            0 <= start,
            n == content@.len(),
            n <= crate::types::MAX_CONTENT_BYTES,
            s@ == content@,
            cs >= 1,
            1 <= st <= cs,
            cs as nat == effective_chunk_size(settings.chunk_size),
            st as nat == effective_stride(settings.chunk_size, settings.chunk_overlap),
            full == semantic_chunks_of(
                content@,
                document_id@,
                settings.chunk_size,
                settings.chunk_overlap,
            ),
            full.len() <= n,
            pos as int == out@.len(),
            !done ==> full =~= views_of_chunks(out@) + chunks_from_windows(
                content@,
                document_id@,
                chunk_windows(n as nat, cs as nat, st as nat, start as nat),
                pos as nat,
            ),
            done ==> full =~= views_of_chunks(out@),
        decreases (n - start) + (if done {
            0int
        } else {
            1int
        }),
    {
        let end: usize = if cs >= n - start {
            n
        } else {
            start + cs
        };
        let ghost ws = chunk_windows(n as nat, cs as nat, st as nat, start as nat);
        proof {
            assert(ws[0] == (start as nat, end as nat));
            if end == n {
                assert(ws =~= seq![(start as nat, end as nat)]);
            } else {
                assert(start + st < n);
                assert(ws =~= seq![(start as nat, end as nat)] + chunk_windows(
                    n as nat,
                    cs as nat,
                    st as nat,
                    (start + st) as nat,
                ));
            }
            assert(ws.drop_first() =~= if end == n {
                Seq::<(nat, nat)>::empty()
            } else {
                chunk_windows(n as nat, cs as nat, st as nat, (start + st) as nat)
            });
        }
        let text = s.substring_char(start, end);
        let ghost pre_out = out@;
        if crate::util::string_has_non_space(text) {
            let prefix_str = s.substring_char(0, start);
            let char_start_bytes = prefix_str.as_bytes().len();
            let prefix_end_str = s.substring_char(0, end);
            let char_end_bytes = prefix_end_str.as_bytes().len();
            let tokens = estimate_tokens(text);
            let mut id = String::from_str("chunk_");
            let num = crate::hashing::u64_to_dec(pos as u64);
            let id_full = id.concat(num.as_str());
            let chunk = SemanticChunk {
                id: id_full,
                document_id: document_id.clone(),
                text: text.to_owned(),
                position: pos,
                char_start: char_start_bytes as u64,
                char_end: char_end_bytes as u64,
                token_count: Some(tokens),
            };
            proof {
                assert(prefix_str@ =~= content@.take(start as int));
                assert(prefix_end_str@ =~= content@.take(end as int));
                assert(chunk@ == chunk_view(
                    content@,
                    document_id@,
                    start as nat,
                    end as nat,
                    pos as nat,
                ));
            }
            out.push(chunk);
            proof {
                assert(views_of_chunks(out@) =~= views_of_chunks(pre_out).push(
                    chunk_view(content@, document_id@, start as nat, end as nat, pos as nat),
                ));
                assert(views_of_chunks(pre_out).push(
                    chunk_view(content@, document_id@, start as nat, end as nat, pos as nat),
                ) + chunks_from_windows(
                    content@,
                    document_id@,
                    ws.drop_first(),
                    (pos + 1) as nat,
                ) =~= views_of_chunks(pre_out) + (seq![
                    chunk_view(content@, document_id@, start as nat, end as nat, pos as nat),
                ] + chunks_from_windows(
                    content@,
                    document_id@,
                    ws.drop_first(),
                    (pos + 1) as nat,
                )));
            }
            pos = pos + 1;
        }
        proof {
            assert(full =~= views_of_chunks(out@) + chunks_from_windows(
                content@,
                document_id@,
                ws.drop_first(),
                pos as nat,
            ));
        }
        if end == n {
            done = true;
            proof {
                assert(chunks_from_windows(
                    content@,
                    document_id@,
                    ws.drop_first(),
                    pos as nat,
                ) =~= Seq::empty());
                assert(full =~= views_of_chunks(out@));
            }
        } else {
            start = start + st;
        }
    }
    proof {
        if !done {
            assert(chunk_windows(n as nat, cs as nat, st as nat, start as nat) =~= Seq::empty());
            assert(full =~= views_of_chunks(out@));
        }
        assert(out@.len() == full.len());
    }
    out
}

// =============================================================================
// DOCUMENT CREATION
// =============================================================================

/// Whether a collection can take one more document under its optional cap.
pub open spec fn doc_cap_ok(store: Store, c: Seq<char>) -> bool {
    match store.collections@[c]@.settings.max_documents {
        Some(max) => (if store.document_index@.contains_key(c) {
            store.document_index@[c]@.len() as int
        } else {
            0
        }) < max as int,
        None => true,
    }
}

/// The metadata rules applied to an add request: title between one and two
/// hundred bytes, at most twenty tags of at most fifty bytes each.
pub open spec fn valid_request_metadata(request: AddDocumentRequest) -> bool {
    &&& 1 <= blen(request.title@) <= 200
    &&& match request.tags {
        Some(ts) => ts.deep_view().len() <= 20 && forall|i: int|
            0 <= i < ts.deep_view().len() ==> blen(#[trigger] ts.deep_view()[i]) <= 50,
        None => true,
    }
}

/// The record `add_document` files for a request, given the derived id and
/// the owning collection's chunking settings.
pub open spec fn created_document_view(
    request: AddDocumentRequest,
    id: Seq<char>,
    now: u64,
    settings: crate::types::CollectionSettingsV,
) -> DocumentMetadataV {
    DocumentMetadataV {
        id: id,
        collection_id: request.collection_id@,
        title: request.title@,
        content_type: match request.content_type {
            Some(ct) => ct@,
            None => crate::types::ContentTypeV::PlainText,
        },
        source_url: match request.source_url {
            Some(u) => Some(u@),
            None => None,
        },
        timestamp: now,
        total_chunks: semantic_chunks_of(
            request.content@,
            id,
            settings.chunk_size,
            settings.chunk_overlap,
        ).len() as u32,
        size: blen(request.content@) as u64,
        is_embedded: false,
        checksum: crate::hashing::checksum_of(request.content@),
        author: match request.author {
            Some(a) => Some(a@),
            None => None,
        },
        tags: match request.tags {
            Some(ts) => Some(ts.deep_view()),
            None => None,
        },
    }
}

/// Adds a document: derives its id from the title and the clock, records
/// the content checksum, cuts the sliding-window chunks, and files record,
/// chunk list and index entry together.  On any failure nothing is stored.
pub fn add_document(store: &mut Store, request: AddDocumentRequest, now: u64) -> (r: Result<
    DocumentMetadata,
    String,
>)
    requires
        old(store).wf(),
    ensures
        final (store).wf(),
        r is Ok <==> ({
            &&& crate::types::valid_document_content(request.content@)
            &&& old(store).collections@.contains_key(request.collection_id@)
            &&& doc_cap_ok(*old(store), request.collection_id@)
            &&& valid_request_metadata(request)
        }),
        r matches Ok(d) ==> ({
            let id = crate::hashing::generated_id("doc"@, request.title@, now);
            let settings = old(store).collections@[request.collection_id@]@.settings;
            &&& d@ == created_document_view(request, id, now, settings)
            &&& d@.id == id
            &&& final (store).documents@ =~= old(store).documents@.insert(
                doc_key(request.collection_id@, id),
                final (store).documents@[doc_key(request.collection_id@, id)],
            )
            &&& final (store).documents@[doc_key(request.collection_id@, id)]@ == d@
            &&& final (store).chunks@ =~= old(store).chunks@.insert(
                id,
                final (store).chunks@[id],
            )
            &&& final (store).chunks@[id]@ == semantic_chunks_of(
                request.content@,
                id,
                settings.chunk_size,
                settings.chunk_overlap,
            )
            &&& final (store).document_index@ =~= old(store).document_index@.insert(
                request.collection_id@,
                final (store).document_index@[request.collection_id@],
            )
            &&& final (store).document_index@[request.collection_id@]@ == ({
                let pre = if old(store).document_index@.contains_key(request.collection_id@) {
                    old(store).document_index@[request.collection_id@]@
                } else {
                    Seq::<Seq<char>>::empty()
                };
                if crate::util::seq_contains_string(pre, id) {
                    pre
                } else {
                    pre.push(id)
                }
            })
            &&& final (store).collections@ == old(store).collections@
            &&& final (store).collection_ids@ == old(store).collection_ids@
            &&& final (store).vectors@ == old(store).vectors@
            &&& final (store).vector_index@ == old(store).vector_index@
            &&& final (store).config@ == old(store).config@
        }),
        r is Err ==> ({
            &&& final (store).collections@ == old(store).collections@
            &&& final (store).collection_ids@ == old(store).collection_ids@
            &&& final (store).documents@ == old(store).documents@
            &&& final (store).chunks@ == old(store).chunks@
            &&& final (store).chunk_doc_ids@ == old(store).chunk_doc_ids@
            &&& final (store).vectors@ == old(store).vectors@
            &&& final (store).vector_index@ == old(store).vector_index@
            &&& final (store).document_index@ == old(store).document_index@
            &&& final (store).config@ == old(store).config@
        }),
{
    match crate::types::validate_document_content(&request.content) {
        Ok(_) => {},
        Err(e) => {
            return Err(e);
        },
    }
    let collection = match crate::collections::get_collection(store, &request.collection_id) {
        Some(c) => c,
        None => {
            return Err(String::from_str("Collection not found"));
        },
    };
    match collection.settings.max_documents {
        Some(max_docs) => {
            let current_count = count_collection_documents(store, &request.collection_id);
            if current_count >= max_docs as u64 {
                return Err(String::from_str("Collection has reached maximum document count"));
            }
        },
        None => {},
    }
    let document_id = crate::hashing::generate_id("doc", &request.title, now);
    let storage_key = make_doc_key(&request.collection_id, &document_id);
    let checksum = crate::hashing::content_checksum(&request.content);
    proof {
        crate::util::lemma_utf8_ge_chars(request.content@);
    }
    let chunks = create_semantic_chunks(&request.content, &document_id, &collection.settings);
    let total: u32 = chunks.len() as u32;
    let size_bytes: u64 = crate::util::byte_len(&request.content) as u64;
    let document = DocumentMetadata {
        id: document_id.clone(),
        collection_id: request.collection_id.clone(),
        title: request.title,
        content_type: match request.content_type {
            Some(ct) => ct,
            None => crate::types::ContentType::PlainText,
        },
        source_url: request.source_url,
        timestamp: now,
        total_chunks: total,
        size: size_bytes,
        is_embedded: false,
        checksum,
        author: request.author,
        tags: request.tags,
    };
    match validate_document_metadata(&document) {
        Ok(_) => {},
        Err(e) => {
            return Err(e);
        },
    }
    proof {
        let id = crate::hashing::generated_id("doc"@, request.title@, now);
        let settings = old(store).collections@[request.collection_id@]@.settings;
        assert(collection.settings@ == settings);
        assert(views_of_chunks(chunks@) == semantic_chunks_of(
            request.content@,
            id,
            settings.chunk_size,
            settings.chunk_overlap,
        ));
        assert(document@ == created_document_view(request, id, now, settings));
    }
    let result = document.clone();
    let ghost chunk_views = views_of_chunks(chunks@);
    store.documents.insert(storage_key, document);
    store_document_chunks(store, &document_id, chunks);
    add_to_document_index(store, &request.collection_id, &document_id);
    proof {
        let id = crate::hashing::generated_id("doc"@, request.title@, now);
        let settings = old(store).collections@[request.collection_id@]@.settings;
        assert(document_id@ == id);
        assert(store.chunks@[id]@ =~= chunk_views);
        assert(store.chunks@[id]@ =~= semantic_chunks_of(
            request.content@,
            id,
            settings.chunk_size,
            settings.chunk_overlap,
        ));
        assert(store.documents@ =~= old(store).documents@.insert(
            doc_key(request.collection_id@, id),
            store.documents@[doc_key(request.collection_id@, id)],
        ));
        assert(store.chunks@ =~= old(store).chunks@.insert(id, store.chunks@[id]));
        assert(store.document_index@ =~= old(store).document_index@.insert(
            request.collection_id@,
            store.document_index@[request.collection_id@],
        ));
        assert(result@ == created_document_view(request, id, now, settings));
        assert(store.documents@[doc_key(request.collection_id@, id)]@ == result@);
        assert(store.document_index@[request.collection_id@]@ == ({
            let pre = if old(store).document_index@.contains_key(request.collection_id@) {
                old(store).document_index@[request.collection_id@]@
            } else {
                Seq::<Seq<char>>::empty()
            };
            if crate::util::seq_contains_string(pre, id) {
                pre
            } else {
                pre.push(id)
            }
        }));
        assert(store.collections@ == old(store).collections@);
        assert(store.collection_ids@ == old(store).collection_ids@);
        assert(store.vectors@ == old(store).vectors@);
        assert(store.vector_index@ == old(store).vector_index@);
        assert(store.config@ == old(store).config@);
    }
    Ok(result)
}

// =============================================================================
// EMBEDDED FLAG
// =============================================================================

/// Flips `is_embedded` on the stored record; required before the document's
/// chunks appear in enriched results.
pub fn mark_document_embedded(store: &mut Store, collection_id: &String, document_id: &String) -> (r: Result<(), String>)
    requires
        old(store).wf(),
    ensures
        final (store).wf(),
        r is Ok <==> old(store).documents@.contains_key(doc_key(collection_id@, document_id@)),
        r is Ok ==> {
            &&& final (store).documents@ =~= old(store).documents@.insert(
                doc_key(collection_id@, document_id@),
                final (store).documents@[doc_key(collection_id@, document_id@)],
            )
            &&& final (store).documents@[doc_key(collection_id@, document_id@)]@
                == DocumentMetadataV {
                is_embedded: true,
                ..old(store).documents@[doc_key(collection_id@, document_id@)]@
            }
        },
        r is Err ==> final (store).documents@ == old(store).documents@,
        final (store).collections@ == old(store).collections@,
        final (store).collection_ids@ == old(store).collection_ids@,
        final (store).chunks@ == old(store).chunks@,
        final (store).chunk_doc_ids@ == old(store).chunk_doc_ids@,
        final (store).vectors@ == old(store).vectors@,
        final (store).vector_index@ == old(store).vector_index@,
        final (store).document_index@ == old(store).document_index@,
        final (store).config@ == old(store).config@,
{
    let storage_key = make_doc_key(collection_id, document_id);
    let doc = match store.documents.get(storage_key.as_str()) {
        Some(d) => d,
        None => {
            return Err(String::from_str("Document not found in collection"));
        },
    };
    let mut updated = doc.clone();
    updated.is_embedded = true;
    store.documents.insert(storage_key, updated);
    Ok(())
}

// =============================================================================
// DOCUMENT DELETION
// =============================================================================

/// Deletes a document: its chunk list, its vectors, and its entry in the
/// collection's document index.  The metadata record itself stays in the
/// documents map but is no longer visible through the index.
pub fn delete_document(store: &mut Store, collection_id: &String, document_id: &String) -> (r:
    Result<(), String>)
    requires
        old(store).wf(),
    ensures
        final (store).wf(),
        r is Ok <==> old(store).document_index@.contains_key(collection_id@),
        final (store).chunks@ == old(store).chunks@.remove(document_id@),
        r is Ok ==> ({
            &&& final (store).document_index@ =~= old(store).document_index@.insert(
                collection_id@,
                final (store).document_index@[collection_id@],
            )
            &&& final (store).document_index@[collection_id@]@ == old(
                store,
            ).document_index@[collection_id@]@.filter(|x: Seq<char>| x != document_id@)
        }),
        r is Err ==> final (store).document_index@ == old(store).document_index@,
        (!crate::vectors::has_doc_vectors(old(store).vectors@, document_id@)
            || crate::vectors::first_owner(
            old(store).collection_ids.deep_view(),
            old(store).documents@,
            document_id@,
        ) is Some) ==> ({
            &&& forall|k: Seq<char>|
                final (store).vectors@.contains_key(k) <==> (old(store).vectors@.contains_key(k)
                    && old(store).vectors@[k].document_id@ != document_id@)
            &&& forall|k: Seq<char>|
                final (store).vectors@.contains_key(k) ==> final (store).vectors@[k] == old(
                    store,
                ).vectors@[k]
        }),
        (crate::vectors::has_doc_vectors(old(store).vectors@, document_id@)
            && crate::vectors::first_owner(
            old(store).collection_ids.deep_view(),
            old(store).documents@,
            document_id@,
        ) is None) ==> (final (store).vectors@ == old(store).vectors@ && final (
            store
        ).vector_index@ == old(store).vector_index@),
        final (store).collections@ == old(store).collections@,
        final (store).collection_ids@ == old(store).collection_ids@,
        final (store).documents@ == old(store).documents@,
        final (store).config@ == old(store).config@,
{
    let ghost pre_ids = store.chunk_doc_ids.deep_view();
    let ghost pre_chunks = store.chunks@;
    store.chunks.remove(document_id.as_str());
    crate::util::string_vec_remove(&mut store.chunk_doc_ids, document_id);
    proof {
        crate::util::lemma_filter_no_dup(pre_ids, |x: Seq<char>| x != document_id@);
        assert forall|k: Seq<char>|
            store.chunks@.dom().contains(k) <==> store.chunk_doc_ids.deep_view().contains(k) by {
            crate::util::lemma_filter_membership(pre_ids, |x: Seq<char>| x != document_id@, k);
            assert(store.chunks@.dom().contains(k) <==> (pre_chunks.dom().contains(k) && k
                != document_id@));
        }
    }
    let _vector_result = crate::vectors::delete_document_vectors(store, document_id);
    let mut doc_ids: StringList = match store.document_index.get(collection_id.as_str()) {
        Some(l) => l.clone(),
        None => {
            return Err(String::from_str("Collection not found"));
        },
    };
    string_vec_remove(&mut doc_ids.0, document_id);
    store.document_index.insert(collection_id.clone(), doc_ids);
    proof {
        assert(store.document_index@ =~= old(store).document_index@.insert(
            collection_id@,
            store.document_index@[collection_id@],
        ));
    }
    Ok(())
}

// =============================================================================
// DOCUMENT INDEX
// =============================================================================

/// Creates an empty document index for a fresh collection.
pub fn init_collection_document_index(store: &mut Store, collection_id: &String)
    requires
        old(store).wf(),
    ensures
        final (store).wf(),
        final (store).document_index@ =~= old(store).document_index@.insert(
            collection_id@,
            final (store).document_index@[collection_id@],
        ),
        final (store).document_index@[collection_id@]@ == Seq::<Seq<char>>::empty(),
        final (store).collections@ == old(store).collections@,
        final (store).collection_ids@ == old(store).collection_ids@,
        final (store).documents@ == old(store).documents@,
        final (store).chunks@ == old(store).chunks@,
        final (store).chunk_doc_ids@ == old(store).chunk_doc_ids@,
        final (store).vectors@ == old(store).vectors@,
        final (store).vector_index@ == old(store).vector_index@,
        final (store).config@ == old(store).config@,
{
    store.document_index.insert(collection_id.clone(), StringList::new());
}

/// Drops a collection's document index.
pub fn cleanup_collection_document_index(store: &mut Store, collection_id: &String)
    requires
        old(store).wf(),
    ensures
        final (store).wf(),
        final (store).document_index@ == old(store).document_index@.remove(collection_id@),
        final (store).collections@ == old(store).collections@,
        final (store).collection_ids@ == old(store).collection_ids@,
        final (store).documents@ == old(store).documents@,
        final (store).chunks@ == old(store).chunks@,
        final (store).chunk_doc_ids@ == old(store).chunk_doc_ids@,
        final (store).vectors@ == old(store).vectors@,
        final (store).vector_index@ == old(store).vector_index@,
        final (store).config@ == old(store).config@,
{
    store.document_index.remove(collection_id.as_str());
}

/// Appends a document id to the collection's index, creating the index
/// entry when it is missing; an id the index already lists is not appended
/// again, so the index never holds duplicates of one id.
pub fn add_to_document_index(store: &mut Store, collection_id: &String, document_id: &String)
    requires
        old(store).wf(),
    ensures
        final (store).wf(),
        final (store).document_index@ =~= old(store).document_index@.insert(
            collection_id@,
            final (store).document_index@[collection_id@],
        ),
        final (store).document_index@[collection_id@]@ == ({
            let pre = if old(store).document_index@.contains_key(collection_id@) {
                old(store).document_index@[collection_id@]@
            } else {
                Seq::<Seq<char>>::empty()
            };
            if crate::util::seq_contains_string(pre, document_id@) {
                pre
            } else {
                pre.push(document_id@)
            }
        }),
        final (store).collections@ == old(store).collections@,
        final (store).collection_ids@ == old(store).collection_ids@,
        final (store).documents@ == old(store).documents@,
        final (store).chunks@ == old(store).chunks@,
        final (store).chunk_doc_ids@ == old(store).chunk_doc_ids@,
        final (store).vectors@ == old(store).vectors@,
        final (store).vector_index@ == old(store).vector_index@,
        final (store).config@ == old(store).config@,
{
    let mut doc_ids: StringList = match store.document_index.get(collection_id.as_str()) {
        Some(l) => l.clone(),
        None => StringList::new(),
    };
    let ghost pre = doc_ids@;
    if !crate::util::string_vec_contains(&doc_ids.0, document_id) {
        doc_ids.0.push(document_id.clone());
        proof {
            assert(doc_ids@ =~= pre.push(document_id@));
        }
    }
    store.document_index.insert(collection_id.clone(), doc_ids);
}

// =============================================================================
// CHUNK STORAGE AND LOOKUP
// =============================================================================

/// Stores a chunk list under a document id, keeping the id bookkeeping
/// intact.
pub fn store_document_chunks(store: &mut Store, document_id: &String, chunks: Vec<SemanticChunk>)
    requires
        old(store).wf(),
    ensures
        final (store).wf(),
        final (store).chunks@ =~= old(store).chunks@.insert(
            document_id@,
            final (store).chunks@[document_id@],
        ),
        final (store).chunks@[document_id@]@ == ChunkList(chunks)@,
        final (store).collections@ == old(store).collections@,
        final (store).collection_ids@ == old(store).collection_ids@,
        final (store).documents@ == old(store).documents@,
        final (store).vectors@ == old(store).vectors@,
        final (store).vector_index@ == old(store).vector_index@,
        final (store).document_index@ == old(store).document_index@,
        final (store).config@ == old(store).config@,
{
    let already = store.chunks.contains_key(document_id.as_str());
    store.chunks.insert(document_id.clone(), ChunkList(chunks));
    if !already {
        store.chunk_doc_ids.push(document_id.clone());
    }
    proof {
        let pre = old(store);
        let ids = store.chunk_doc_ids.deep_view();
        let pids = pre.chunk_doc_ids.deep_view();
        if already {
            assert(store.chunks@.dom() =~= pre.chunks@.dom());
            assert(ids_match(ids, store.chunks@));
        } else {
            assert(ids =~= pids.push(document_id@));
            assert(ids.drop_last() =~= pids);
            assert forall|k: Seq<char>|
                store.chunks@.dom().contains(k) <==> ids.contains(k) by {
                if k == document_id@ {
                    assert(store.chunks@.dom().contains(k));
                    assert(ids[ids.len() - 1] == k);
                    assert(ids.contains(k));
                } else {
                    if pids.contains(k) {
                        let i = choose|i: int| 0 <= i < pids.len() && pids[i] == k;
                        assert(ids[i] == k);
                        assert(ids.contains(k));
                    }
                    if ids.contains(k) {
                        let i = choose|i: int| 0 <= i < ids.len() && ids[i] == k;
                        assert(i < ids.len() - 1);
                        assert(pids[i] == k);
                        assert(pids.contains(k));
                    }
                }
            }
            assert(ids.no_duplicates()) by {
                assert(!pids.contains(document_id@));
                assert forall|i: int, j: int|
                    0 <= i < ids.len() && 0 <= j < ids.len() && i != j implies ids[i] != ids[j] by {
                    if i < ids.len() - 1 && j < ids.len() - 1 {
                        assert(pids[i] == ids[i]);
                        assert(pids[j] == ids[j]);
                    } else if i == ids.len() - 1 && j < ids.len() - 1 {
                        assert(pids[j] == ids[j]);
                        if ids[j] == document_id@ {
                            assert(pids.contains(document_id@));
                        }
                    } else if j == ids.len() - 1 && i < ids.len() - 1 {
                        assert(pids[i] == ids[i]);
                        if ids[i] == document_id@ {
                            assert(pids.contains(document_id@));
                        }
                    }
                }
            }
        }
    }
}

pub fn get_document_chunks(store: &Store, document_id: &String) -> (r: Vec<SemanticChunk>)
    ensures
        store.chunks@.contains_key(document_id@) ==> ChunkList(r)@
            == store.chunks@[document_id@]@,
        !store.chunks@.contains_key(document_id@) ==> r@.len() == 0,
{
    match store.chunks.get(document_id.as_str()) {
        Some(list) => {
            let c = list.clone();
            c.0
        },
        None => Vec::new(),
    }
}

/// The same lookup under the name callers outside a collection context use.
pub fn get_document_chunks_by_document_id(store: &Store, document_id: &String) -> (r: Vec<
    SemanticChunk,
>)
    ensures
        store.chunks@.contains_key(document_id@) ==> ChunkList(r)@
            == store.chunks@[document_id@]@,
        !store.chunks@.contains_key(document_id@) ==> r@.len() == 0,
{
    get_document_chunks(store, document_id)
}

/// Scans the document's chunk list for the first chunk with the given id.
pub fn get_chunk(store: &Store, document_id: &String, chunk_id: &String) -> (r: Option<
    SemanticChunk,
>)
    ensures
        match r {
            Some(ch) => store.chunks@.contains_key(document_id@) && (exists|i: int|
                0 <= i < store.chunks@[document_id@]@.len() && (
                #[trigger] store.chunks@[document_id@]@[i]).id == chunk_id@ && ch@
                    == store.chunks@[document_id@]@[i] && (forall|j: int|
                    0 <= j < i ==> (#[trigger] store.chunks@[document_id@]@[j]).id != chunk_id@)),
            None => !store.chunks@.contains_key(document_id@) || forall|i: int|
                0 <= i < store.chunks@[document_id@]@.len() ==> (
                #[trigger] store.chunks@[document_id@]@[i]).id != chunk_id@,
        },
{
    let list = match store.chunks.get(document_id.as_str()) {
        Some(l) => l,
        None => {
            return None;
        },
    };
    let n = list.0.len();
    let mut i: usize = 0;
    while i < n
        invariant
            0 <= i <= n,
            n == list.0@.len(),
            list@ == store.chunks@[document_id@]@,
            store.chunks@.contains_key(document_id@),
            forall|j: int| 0 <= j < i ==> (#[trigger] list@[j]).id != chunk_id@,
        decreases n - i,
    {
        proof {
            assert(list@[i as int] == list.0@[i as int]@);
        }
        if list.0[i].id.eq(chunk_id) {
            let found = list.0[i].clone();
            proof {
                assert(store.chunks@[document_id@]@[i as int].id == chunk_id@ && found@
                    == store.chunks@[document_id@]@[i as int]);
            }
            return Some(found);
        }
        i += 1;
    }
    None
}

/// The text of the first chunk with the given id: exactly what `get_chunk`
/// finds, projected to its text.
pub fn get_chunk_text(store: &Store, document_id: &String, chunk_id: &String) -> (r: Option<
    String,
>)
    ensures
        match r {
            Some(t) => store.chunks@.contains_key(document_id@) && (exists|i: int|
                0 <= i < store.chunks@[document_id@]@.len() && (
                #[trigger] store.chunks@[document_id@]@[i]).id == chunk_id@
                    && store.chunks@[document_id@]@[i].text == t@ && (forall|j: int|
                    0 <= j < i ==> (#[trigger] store.chunks@[document_id@]@[j]).id != chunk_id@)),
            None => !store.chunks@.contains_key(document_id@) || forall|i: int|
                0 <= i < store.chunks@[document_id@]@.len() ==> (
                #[trigger] store.chunks@[document_id@]@[i]).id != chunk_id@,
        },
{
    match get_chunk(store, document_id, chunk_id) {
        Some(ch) => Some(ch.text),
        None => None,
    }
}

/// The text of the document's first chunk, the cheap stand-in the library
/// offers for raw content retrieval.
pub fn get_document_content(store: &Store, document_id: &String) -> (r: Option<String>)
    ensures
        match r {
            Some(t) => store.chunks@.contains_key(document_id@)
                && store.chunks@[document_id@]@.len() > 0 && t@
                == store.chunks@[document_id@]@[0].text,
            None => !store.chunks@.contains_key(document_id@) || store.chunks@[document_id@]@.len()
                == 0,
        },
{
    match store.chunks.get(document_id.as_str()) {
        Some(list) => {
            if list.0.len() > 0 {
                proof {
                    assert(list@[0] == list.0@[0]@);
                }
                Some(list.0[0].text.clone())
            } else {
                None
            }
        },
        None => None,
    }
}

// =============================================================================
// COUNTS
// =============================================================================

pub fn count_collection_documents(store: &Store, collection_id: &String) -> (r: u64)
    ensures
        store.document_index@.contains_key(collection_id@) ==> r
            == store.document_index@[collection_id@]@.len(),
        !store.document_index@.contains_key(collection_id@) ==> r == 0,
{
    match store.document_index.get(collection_id.as_str()) {
        Some(doc_ids) => doc_ids.0.len() as u64,
        None => 0,
    }
}

/// The same index count under the name the public surface uses.
pub fn get_document_count(store: &Store, collection_id: &String) -> (r: u64)
    ensures
        store.document_index@.contains_key(collection_id@) ==> r
            == store.document_index@[collection_id@]@.len(),
        !store.document_index@.contains_key(collection_id@) ==> r == 0,
{
    count_collection_documents(store, collection_id)
}

/// Fetches the record of every indexed document id straight from the
/// documents map by its composite storage key, without the index-membership
/// re-check of `list_documents`.
pub fn get_collection_documents(store: &Store, collection_id: &String) -> (r: Vec<
    DocumentMetadata,
>)
    ensures
        !store.document_index@.contains_key(collection_id@) ==> r@.len() == 0,
        store.document_index@.contains_key(collection_id@) ==> views_of_docs(r@)
            == resolved_keyed_docs(*store, collection_id@, store.document_index@[collection_id@]@),
{
    let mut out: Vec<DocumentMetadata> = Vec::new();
    let doc_ids = match store.document_index.get(collection_id.as_str()) {
        Some(l) => l,
        None => {
            return out;
        },
    };
    let n = doc_ids.0.len();
    let mut i: usize = 0;
    while i < n
        invariant
            0 <= i <= n,
            n == doc_ids.0@.len(),
            store.document_index@.contains_key(collection_id@),
            doc_ids@ == store.document_index@[collection_id@]@,
            views_of_docs(out@) == resolved_keyed_docs(
                *store,
                collection_id@,
                doc_ids@.take(i as int),
            ),
        decreases n - i,
    {
        proof {
            assert(doc_ids@[i as int] == doc_ids.0@[i as int]@);
            assert(doc_ids@.take(i + 1).drop_last() =~= doc_ids@.take(i as int));
            assert(doc_ids@.take(i + 1).last() == doc_ids@[i as int]);
        }
        let ghost pre = out@;
        let storage_key = make_doc_key(collection_id, &doc_ids.0[i]);
        match store.documents.get(storage_key.as_str()) {
            Some(d) => {
                out.push(d.clone());
                proof {
                    assert(views_of_docs(out@) =~= views_of_docs(pre).push(
                        store.documents@[doc_key(collection_id@, doc_ids@[i as int])]@,
                    ));
                }
            },
            None => {},
        }
        i += 1;
    }
    proof {
        assert(doc_ids@.take(n as int) =~= doc_ids@);
    }
    out
}

/// The records an id list resolves to through the composite storage keys of
/// one collection.
pub open spec fn resolved_keyed_docs(store: Store, c: Seq<char>, ids: Seq<Seq<char>>) -> Seq<
    DocumentMetadataV,
>
    decreases ids.len(),
{
    if ids.len() == 0 {
        Seq::empty()
    } else {
        let prefix = resolved_keyed_docs(store, c, ids.drop_last());
        if store.documents@.contains_key(doc_key(c, ids.last())) {
            prefix.push(store.documents@[doc_key(c, ids.last())]@)
        } else {
            prefix
        }
    }
}

// =============================================================================
// COLLECTION-WIDE REMOVAL
// =============================================================================

/// Removes every document of a collection: the records under their
/// composite keys, the chunk lists under the document ids, and finally the
/// collection's document index entry.
pub fn delete_collection_documents(store: &mut Store, collection_id: &String) -> (r: Result<
    (),
    String,
>)
    requires
        old(store).wf(),
    ensures
        final (store).wf(),
        r is Ok ==> {
            let docs = if old(store).document_index@.contains_key(collection_id@) {
                old(store).document_index@[collection_id@]@
            } else {
                Seq::<Seq<char>>::empty()
            };
            &&& final (store).documents@ == old(store).documents@.remove_keys(
                crate::collections::doc_key_set(collection_id@, docs),
            )
            &&& final (store).chunks@ == old(store).chunks@.remove_keys(
                crate::collections::id_set(docs),
            )
            &&& final (store).document_index@ == old(store).document_index@.remove(collection_id@)
        },
        r is Ok,
        final (store).collections@ == old(store).collections@,
        final (store).collection_ids@ == old(store).collection_ids@,
        final (store).vectors@ == old(store).vectors@,
        final (store).vector_ids@ == old(store).vector_ids@,
        final (store).vector_index@ == old(store).vector_index@,
        final (store).config@ == old(store).config@,
{
    let doc_list: StringList = match store.document_index.get(collection_id.as_str()) {
        Some(l) => l.clone(),
        None => {
            store.document_index.remove(collection_id.as_str());
            return Ok(());
        },
    };
    let ghost docs = doc_list@;
    let n = doc_list.0.len();
    let mut i: usize = 0;
    while i < n
        invariant
            0 <= i <= n,
            n == docs.len(),
            doc_list@ == docs,
            n == doc_list.0@.len(),
            store.collections@ == old(store).collections@,
            store.collection_ids@ == old(store).collection_ids@,
            store.vector_index@ == old(store).vector_index@,
            store.document_index@ == old(store).document_index@,
            store.vectors@ == old(store).vectors@,
            store.vector_ids@ == old(store).vector_ids@,
            store.config@ == old(store).config@,
            store.documents@ == old(store).documents@.remove_keys(
                crate::collections::doc_key_set(collection_id@, docs.take(i as int)),
            ),
            store.chunks@ == old(store).chunks@.remove_keys(
                crate::collections::id_set(docs.take(i as int)),
            ),
            ids_match(store.chunk_doc_ids.deep_view(), store.chunks@),
            old(store).wf(),
        decreases n - i,
    {
        let d = &doc_list.0[i];
        proof {
            assert(docs[i as int] == doc_list.0@[i as int]@);
        }
        let dkey = make_doc_key(collection_id, d);
        let ghost pre_chunks = store.chunks@;
        let ghost pre_ids = store.chunk_doc_ids.deep_view();
        store.documents.remove(dkey.as_str());
        store.chunks.remove(d.as_str());
        crate::util::string_vec_remove(&mut store.chunk_doc_ids, d);
        proof {
            let c = collection_id@;
            let dk = doc_key(c, docs[i as int]);
            assert forall|k: Seq<char>|
                crate::collections::doc_key_set(c, docs.take(i + 1)).contains(k) <==> (
                crate::collections::doc_key_set(c, docs.take(i as int)).contains(k) || k
                    == dk) by {
                if crate::collections::doc_key_set(c, docs.take(i + 1)).contains(k) {
                    let j = choose|j: int|
                        0 <= j < docs.take(i + 1).len() && k == doc_key(
                            c,
                            #[trigger] docs.take(i + 1)[j],
                        );
                    if j < i {
                        assert(docs.take(i as int)[j] == docs.take(i + 1)[j]);
                        assert(crate::collections::doc_key_set(c, docs.take(i as int)).contains(
                            k,
                        ));
                    } else {
                        assert(docs.take(i + 1)[j] == docs[i as int]);
                    }
                }
                if crate::collections::doc_key_set(c, docs.take(i as int)).contains(k) {
                    let j = choose|j: int|
                        0 <= j < docs.take(i as int).len() && k == doc_key(
                            c,
                            #[trigger] docs.take(i as int)[j],
                        );
                    assert(docs.take(i + 1)[j] == docs.take(i as int)[j]);
                    assert(crate::collections::doc_key_set(c, docs.take(i + 1)).contains(k));
                }
                if k == dk {
                    assert(docs.take(i + 1)[i as int] == docs[i as int]);
                    assert(crate::collections::doc_key_set(c, docs.take(i + 1)).contains(k));
                }
            }
            assert(store.documents@ =~= old(store).documents@.remove_keys(
                crate::collections::doc_key_set(c, docs.take(i + 1)),
            ));
            assert forall|k: Seq<char>|
                crate::collections::id_set(docs.take(i + 1)).contains(k) <==> (
                crate::collections::id_set(docs.take(i as int)).contains(k) || k
                    == docs[i as int]) by {
                if crate::collections::id_set(docs.take(i + 1)).contains(k) {
                    let j = choose|j: int|
                        0 <= j < docs.take(i + 1).len() && #[trigger] docs.take(i + 1)[j] == k;
                    if j < i {
                        assert(docs.take(i as int)[j] == k);
                        assert(docs.take(i as int).contains(k));
                    }
                }
                if crate::collections::id_set(docs.take(i as int)).contains(k) {
                    let j = choose|j: int|
                        0 <= j < docs.take(i as int).len() && #[trigger] docs.take(i as int)[j]
                            == k;
                    assert(docs.take(i + 1)[j] == k);
                    assert(docs.take(i + 1).contains(k));
                }
                if k == docs[i as int] {
                    assert(docs.take(i + 1)[i as int] == k);
                    assert(docs.take(i + 1).contains(k));
                }
            }
            assert(store.chunks@ =~= old(store).chunks@.remove_keys(
                crate::collections::id_set(docs.take(i + 1)),
            ));
            crate::util::lemma_filter_no_dup(pre_ids, |x: Seq<char>| x != d@);
            assert forall|k: Seq<char>|
                store.chunks@.dom().contains(k) <==> store.chunk_doc_ids.deep_view().contains(
                    k,
                ) by {
                crate::util::lemma_filter_membership(pre_ids, |x: Seq<char>| x != d@, k);
                assert(store.chunks@.dom().contains(k) <==> (pre_chunks.dom().contains(k) && k
                    != d@));
            }
        }
        i += 1;
    }
    proof {
        assert(docs.take(n as int) =~= docs);
    }
    store.document_index.remove(collection_id.as_str());
    Ok(())
}

} // verus!
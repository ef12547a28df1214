use vstd::prelude::*;

verus! {

/// Byte length of a character sequence under UTF-8 encoding; string limits
/// throughout the library are byte limits, as the host protocol counts bytes.
pub open spec fn blen(s: Seq<char>) -> nat {
    vstd::utf8::encode_utf8(s).len()
}

/// Embeddings, norms and similarity scores are carried as 64-bit integers in
/// micro-units: the represented real value times 1_000_000.  The unit keeps
/// every computation exact and gives the library a single fixed-point scale.
pub const MICRO: i64 = 1_000_000;

/// Largest admissible magnitude of one embedding component, in micro-units
/// (a represented value of one million).  Components beyond it are rejected
/// the way the original data path rejects non-finite floats.
pub const MAX_COMPONENT_MICRO: i64 = 1_000_000_000_000;

/// Largest admissible embedding length.
pub const MAX_DIMENSIONS: usize = 100_000;

// =============================================================================
// DOCUMENT TYPES
// =============================================================================

#[derive(Debug)]
pub enum ContentType {
    PlainText,
    Markdown,
    Html,
    Pdf,
    Other(String),
}

#[verifier::ext_equal]
pub enum ContentTypeV {
    PlainText,
    Markdown,
    Html,
    Pdf,
    Other(Seq<char>),
}

impl View for ContentType {
    type V = ContentTypeV;

    open spec fn view(&self) -> ContentTypeV {
        match self {
            ContentType::PlainText => ContentTypeV::PlainText,
            ContentType::Markdown => ContentTypeV::Markdown,
            ContentType::Html => ContentTypeV::Html,
            ContentType::Pdf => ContentTypeV::Pdf,
            ContentType::Other(s) => ContentTypeV::Other(s@),
        }
    }
}

impl Clone for ContentType {
    fn clone(&self) -> (r: Self)
        ensures
            r@ == self@,
    {
        match self {
            ContentType::PlainText => ContentType::PlainText,
            ContentType::Markdown => ContentType::Markdown,
            ContentType::Html => ContentType::Html,
            ContentType::Pdf => ContentType::Pdf,
            ContentType::Other(s) => ContentType::Other(s.clone()),
        }
    }
}

impl Default for ContentType {
    fn default() -> (r: Self)
        ensures
            r@ == ContentTypeV::PlainText,
    {
        ContentType::PlainText
    }
}

#[derive(Debug)]
pub struct DocumentMetadata {
    pub id: String,
    pub collection_id: String,
    pub title: String,
    pub content_type: ContentType,
    pub source_url: Option<String>,
    pub timestamp: u64,
    pub total_chunks: u32,
    pub size: u64,
    pub is_embedded: bool,
    pub checksum: String,
    pub author: Option<String>,
    pub tags: Option<Vec<String>>,
}

#[verifier::ext_equal]
pub struct DocumentMetadataV {
    pub id: Seq<char>,
    pub collection_id: Seq<char>,
    pub title: Seq<char>,
    pub content_type: ContentTypeV,
    pub source_url: Option<Seq<char>>,
    pub timestamp: u64,
    pub total_chunks: u32,
    pub size: u64,
    pub is_embedded: bool,
    pub checksum: Seq<char>,
    pub author: Option<Seq<char>>,
    pub tags: Option<Seq<Seq<char>>>,
}

impl View for DocumentMetadata {
    type V = DocumentMetadataV;

    open spec fn view(&self) -> DocumentMetadataV {
        DocumentMetadataV {
            id: self.id@,
            collection_id: self.collection_id@,
            title: self.title@,
            content_type: self.content_type@,
            source_url: match self.source_url {
                Some(u) => Some(u@),
                None => None,
            },
            timestamp: self.timestamp,
            total_chunks: self.total_chunks,
            size: self.size,
            is_embedded: self.is_embedded,
            checksum: self.checksum@,
            author: match self.author {
                Some(a) => Some(a@),
                None => None,
            },
            tags: match self.tags {
                Some(ts) => Some(ts.deep_view()),
                None => None,
            },
        }
    }
}

#[derive(Debug)]
pub struct SemanticChunk {
    pub id: String,
    pub document_id: String,
    pub text: String,
    pub position: u32,
    pub char_start: u64,
    pub char_end: u64,
    pub token_count: Option<u32>,
}

#[verifier::ext_equal]
pub struct SemanticChunkV {
    pub id: Seq<char>,
    pub document_id: Seq<char>,
    pub text: Seq<char>,
    pub position: u32,
    pub char_start: u64,
    pub char_end: u64,
    pub token_count: Option<u32>,
}

impl View for SemanticChunk {
    type V = SemanticChunkV;

    open spec fn view(&self) -> SemanticChunkV {
        SemanticChunkV {
            id: self.id@,
            document_id: self.document_id@,
            text: self.text@,
            position: self.position,
            char_start: self.char_start,
            char_end: self.char_end,
            token_count: self.token_count,
        }
    }
}

impl Clone for SemanticChunk {
    fn clone(&self) -> (r: Self)
        ensures
            r@ == self@,
    {
        SemanticChunk {
            id: self.id.clone(),
            document_id: self.document_id.clone(),
            text: self.text.clone(),
            position: self.position,
            char_start: self.char_start,
            char_end: self.char_end,
            token_count: self.token_count,
        }
    }
}

// =============================================================================
// VECTOR TYPES
// =============================================================================

#[derive(Debug)]
pub struct Vector {
    pub id: String,
    pub document_id: String,
    pub chunk_id: String,
    /// Embedding components in micro-units.
    pub embedding: Vec<i64>,
    /// Precomputed L2 norm in micro-units; positive for a valid vector.
    pub norm: i64,
    pub model: String,
    pub created_at: u64,
}

#[verifier::ext_equal]
pub struct VectorV {
    pub id: Seq<char>,
    pub document_id: Seq<char>,
    pub chunk_id: Seq<char>,
    pub embedding: Seq<i64>,
    pub norm: i64,
    pub model: Seq<char>,
    pub created_at: u64,
}

impl View for Vector {
    type V = VectorV;

    open spec fn view(&self) -> VectorV {
        VectorV {
            id: self.id@,
            document_id: self.document_id@,
            chunk_id: self.chunk_id@,
            embedding: self.embedding@,
            norm: self.norm,
            model: self.model@,
            created_at: self.created_at,
        }
    }
}

impl Clone for Vector {
    fn clone(&self) -> (r: Self)
        ensures
            r@ == self@,
    {
        let embedding = self.embedding.clone();
        proof {
            assert(embedding@ =~= self.embedding@);
        }
        Vector {
            id: self.id.clone(),
            document_id: self.document_id.clone(),
            chunk_id: self.chunk_id.clone(),
            embedding,
            norm: self.norm,
            model: self.model.clone(),
            created_at: self.created_at,
        }
    }
}

/// An embedding is admissible when it is non-empty, not longer than the
/// dimension cap, and every component is bounded in magnitude.  This is the
/// micro-unit analogue of "non-empty, every entry finite".
pub open spec fn valid_embedding_seq(e: Seq<i64>) -> bool {
    &&& e.len() > 0
    &&& e.len() <= MAX_DIMENSIONS
    &&& forall|i: int|
        0 <= i < e.len() ==> -MAX_COMPONENT_MICRO <= #[trigger] e[i] <= MAX_COMPONENT_MICRO
}

/// A stored norm is admissible when it is positive: the analogue of
/// "positive and finite".
pub open spec fn valid_norm(n: i64) -> bool {
    0 < n
}

/// A vector fit for storage and search.
pub open spec fn valid_vector(v: VectorV) -> bool {
    &&& valid_embedding_seq(v.embedding)
    &&& valid_norm(v.norm)
}

#[derive(Debug)]
pub struct VectorMatch {
    /// Cosine similarity score in micro-units.
    pub score: i64,
    pub document_id: String,
    pub chunk_id: String,
    pub document_title: Option<String>,
    pub chunk_text: Option<String>,
}

#[verifier::ext_equal]
pub struct VectorMatchV {
    pub score: i64,
    pub document_id: Seq<char>,
    pub chunk_id: Seq<char>,
    pub document_title: Option<Seq<char>>,
    pub chunk_text: Option<Seq<char>>,
}

impl View for VectorMatch {
    type V = VectorMatchV;

    open spec fn view(&self) -> VectorMatchV {
        VectorMatchV {
            score: self.score,
            document_id: self.document_id@,
            chunk_id: self.chunk_id@,
            document_title: match self.document_title {
                Some(t) => Some(t@),
                None => None,
            },
            chunk_text: match self.chunk_text {
                Some(t) => Some(t@),
                None => None,
            },
        }
    }
}

impl Clone for VectorMatch {
    fn clone(&self) -> (r: Self)
        ensures
            r@ == self@,
    {
        VectorMatch {
            score: self.score,
            document_id: self.document_id.clone(),
            chunk_id: self.chunk_id.clone(),
            document_title: match &self.document_title {
                Some(t) => Some(t.clone()),
                None => None,
            },
            chunk_text: match &self.chunk_text {
                Some(t) => Some(t.clone()),
                None => None,
            },
        }
    }
}

#[derive(Debug)]
pub struct QueryResult {
    pub matches: Vec<VectorMatch>,
    pub total_found: u32,
    pub query_time_ms: u64,
}

// =============================================================================
// COLLECTION TYPES
// =============================================================================

#[derive(Debug)]
pub struct CollectionSettings {
    pub embedding_model: String,
    pub proxy_url: String,
    pub chunk_size: u32,
    pub chunk_overlap: u32,
    pub max_documents: Option<u32>,
    pub auto_embed: bool,
}

#[verifier::ext_equal]
pub struct CollectionSettingsV {
    pub embedding_model: Seq<char>,
    pub proxy_url: Seq<char>,
    pub chunk_size: u32,
    pub chunk_overlap: u32,
    pub max_documents: Option<u32>,
    pub auto_embed: bool,
}

impl View for CollectionSettings {
    type V = CollectionSettingsV;

    open spec fn view(&self) -> CollectionSettingsV {
        CollectionSettingsV {
            embedding_model: self.embedding_model@,
            proxy_url: self.proxy_url@,
            chunk_size: self.chunk_size,
            chunk_overlap: self.chunk_overlap,
            max_documents: self.max_documents,
            auto_embed: self.auto_embed,
        }
    }
}

impl Clone for CollectionSettings {
    fn clone(&self) -> (r: Self)
        ensures
            r@ == self@,
    {
        CollectionSettings {
            embedding_model: self.embedding_model.clone(),
            proxy_url: self.proxy_url.clone(),
            chunk_size: self.chunk_size,
            chunk_overlap: self.chunk_overlap,
            max_documents: self.max_documents,
            auto_embed: self.auto_embed,
        }
    }
}

/// The settings a fresh collection receives when the request names none.
pub open spec fn default_settings_view() -> CollectionSettingsV {
    CollectionSettingsV {
        embedding_model: "text-embedding-ada-002"@,
        proxy_url: "https://api.openai.com/v1"@,
        chunk_size: 512u32,
        chunk_overlap: 64u32,
        max_documents: None,
        auto_embed: true,
    }
}

impl Default for CollectionSettings {
    fn default() -> (r: Self)
        ensures
            r@ == default_settings_view(),
    {
        CollectionSettings {
            embedding_model: String::from_str("text-embedding-ada-002"),
            proxy_url: String::from_str("https://api.openai.com/v1"),
            chunk_size: 512,
            chunk_overlap: 64,
            max_documents: None,
            auto_embed: true,
        }
    }
}

#[derive(Debug)]
pub struct Collection {
    pub id: String,
    pub name: String,
    pub description: Option<String>,
    pub created_at: u64,
    pub updated_at: u64,
    pub genesis_admin: String,
    pub admins: Vec<String>,
    pub settings: CollectionSettings,
}

#[verifier::ext_equal]
pub struct CollectionV {
    pub id: Seq<char>,
    pub name: Seq<char>,
    pub description: Option<Seq<char>>,
    pub created_at: u64,
    pub updated_at: u64,
    pub genesis_admin: Seq<char>,
    pub admins: Seq<Seq<char>>,
    pub settings: CollectionSettingsV,
}

impl View for Collection {
    type V = CollectionV;

    open spec fn view(&self) -> CollectionV {
        CollectionV {
            id: self.id@,
            name: self.name@,
            description: match self.description {
                Some(d) => Some(d@),
                None => None,
            },
            created_at: self.created_at,
            updated_at: self.updated_at,
            genesis_admin: self.genesis_admin@,
            admins: self.admins.deep_view(),
            settings: self.settings@,
        }
    }
}

impl Clone for Collection {
    fn clone(&self) -> (r: Self)
        ensures
            r@ == self@,
    {
        let admins = self.admins.clone();
        proof {
            assert(admins@ =~= self.admins@);
            assert(admins.deep_view() =~= self.admins.deep_view());
        }
        Collection {
            id: self.id.clone(),
            name: self.name.clone(),
            description: match &self.description {
                Some(d) => Some(d.clone()),
                None => None,
            },
            created_at: self.created_at,
            updated_at: self.updated_at,
            genesis_admin: self.genesis_admin.clone(),
            admins,
            settings: self.settings.clone(),
        }
    }
}

impl Clone for DocumentMetadata {
    fn clone(&self) -> (r: Self)
        ensures
            r@ == self@,
    {
        let tags: Option<Vec<String>> = match &self.tags {
            Some(ts) => {
                let c = ts.clone();
                proof {
                    assert(c@ =~= ts@);
                    assert(c.deep_view() =~= ts.deep_view());
                }
                Some(c)
            },
            None => None,
        };
        DocumentMetadata {
            id: self.id.clone(),
            collection_id: self.collection_id.clone(),
            title: self.title.clone(),
            content_type: self.content_type.clone(),
            source_url: match &self.source_url {
                Some(u) => Some(u.clone()),
                None => None,
            },
            timestamp: self.timestamp,
            total_chunks: self.total_chunks,
            size: self.size,
            is_embedded: self.is_embedded,
            checksum: self.checksum.clone(),
            author: match &self.author {
                Some(a) => Some(a.clone()),
                None => None,
            },
            tags,
        }
    }
}

#[derive(Debug)]
pub struct CollectionStats {
    pub document_count: u32,
    pub vector_count: u32,
    pub created_at: u64,
    pub updated_at: u64,
}

#[derive(Debug)]
pub struct CollectionWithStats {
    pub collection: Collection,
    pub stats: CollectionStats,
}

// =============================================================================
// REQUEST TYPES
// =============================================================================

#[derive(Debug)]
pub struct CreateCollectionRequest {
    pub id: String,
    pub name: String,
    pub description: Option<String>,
    pub settings: Option<CollectionSettings>,
}

#[derive(Debug)]
pub struct AddDocumentRequest {
    pub collection_id: String,
    pub title: String,
    pub content: String,
    pub content_type: Option<ContentType>,
    pub source_url: Option<String>,
    pub author: Option<String>,
    pub tags: Option<Vec<String>>,
}

// =============================================================================
// LIST WRAPPER TYPES
// =============================================================================

/// A list of identifiers, the value type of the per-collection indices.
#[derive(Debug)]
pub struct StringList(pub Vec<String>);

impl View for StringList {
    type V = Seq<Seq<char>>;

    open spec fn view(&self) -> Seq<Seq<char>> {
        self.0.deep_view()
    }
}

impl StringList {
    pub fn new() -> (r: Self)
        ensures
            r@ == Seq::<Seq<char>>::empty(),
    {
        StringList(Vec::new())
    }
}

impl Clone for StringList {
    fn clone(&self) -> (r: Self)
        ensures
            r@ == self@,
    {
        let inner = self.0.clone();
        proof {
            assert(inner@ =~= self.0@);
            assert(inner.deep_view() =~= self.0.deep_view());
        }
        StringList(inner)
    }
}

/// The chunk list stored per document.
#[derive(Debug)]
pub struct ChunkList(pub Vec<SemanticChunk>);

impl View for ChunkList {
    type V = Seq<SemanticChunkV>;

    open spec fn view(&self) -> Seq<SemanticChunkV> {
        Seq::new(self.0@.len(), |i: int| self.0@[i]@)
    }
}

impl ChunkList {
    pub fn new() -> (r: Self)
        ensures
            r@ == Seq::<SemanticChunkV>::empty(),
    {
        let r = ChunkList(Vec::new());
        proof {
            assert(r@ =~= Seq::<SemanticChunkV>::empty());
        }
        r
    }
}

impl Clone for ChunkList {
    fn clone(&self) -> (r: Self)
        ensures
            r@ == self@,
    {
        let inner = self.0.clone();
        proof {
            assert forall|i: int| 0 <= i < inner@.len() implies inner@[i]@ == self.0@[i]@ by {
                assert(vstd::pervasive::cloned::<SemanticChunk>(self.0[i], inner[i]));
            }
            assert(ChunkList(inner)@ =~= self@);
        }
        ChunkList(inner)
    }
}

// =============================================================================
// ADMIN TYPES
// =============================================================================

#[derive(Clone, Copy, Debug, PartialEq, Eq, Structural)]
pub enum AdminLevel {
    Genesis,
    Regular,
    NoAccess,
}

#[derive(Clone, Copy, Debug, PartialEq, Eq, Structural)]
pub struct AdminInfo {
    pub level: AdminLevel,
    pub is_genesis: bool,
    pub can_manage_admins: bool,
    pub can_manage_content: bool,
}

impl AdminInfo {
    pub fn from_level(level: AdminLevel) -> (r: Self)
        ensures
            r.level == level,
            r.is_genesis == (level == AdminLevel::Genesis),
            r.can_manage_admins == (level == AdminLevel::Genesis),
            r.can_manage_content == (level != AdminLevel::NoAccess),
    {
        match level {
            AdminLevel::Genesis => AdminInfo {
                level: AdminLevel::Genesis,
                is_genesis: true,
                can_manage_admins: true,
                can_manage_content: true,
            },
            AdminLevel::Regular => AdminInfo {
                level: AdminLevel::Regular,
                is_genesis: false,
                can_manage_admins: false,
                can_manage_content: true,
            },
            AdminLevel::NoAccess => AdminInfo {
                level: AdminLevel::NoAccess,
                is_genesis: false,
                can_manage_admins: false,
                can_manage_content: false,
            },
        }
    }
}

// =============================================================================
// EMBEDDING TYPES
// =============================================================================

#[derive(Debug)]
pub enum EmbeddingModel {
    OpenAIAda002,
    OpenAISmall,
    OpenAILarge,
    Custom(String),
}

#[verifier::ext_equal]
pub enum EmbeddingModelV {
    OpenAIAda002,
    OpenAISmall,
    OpenAILarge,
    Custom(Seq<char>),
}

impl View for EmbeddingModel {
    type V = EmbeddingModelV;

    open spec fn view(&self) -> EmbeddingModelV {
        match self {
            EmbeddingModel::OpenAIAda002 => EmbeddingModelV::OpenAIAda002,
            EmbeddingModel::OpenAISmall => EmbeddingModelV::OpenAISmall,
            EmbeddingModel::OpenAILarge => EmbeddingModelV::OpenAILarge,
            EmbeddingModel::Custom(s) => EmbeddingModelV::Custom(s@),
        }
    }
}

impl Clone for EmbeddingModel {
    fn clone(&self) -> (r: Self)
        ensures
            r@ == self@,
    {
        match self {
            EmbeddingModel::OpenAIAda002 => EmbeddingModel::OpenAIAda002,
            EmbeddingModel::OpenAISmall => EmbeddingModel::OpenAISmall,
            EmbeddingModel::OpenAILarge => EmbeddingModel::OpenAILarge,
            EmbeddingModel::Custom(s) => EmbeddingModel::Custom(s.clone()),
        }
    }
}

pub open spec fn model_name_spec(m: EmbeddingModelV) -> Seq<char> {
    match m {
        EmbeddingModelV::OpenAIAda002 => "text-embedding-ada-002"@,
        EmbeddingModelV::OpenAISmall => "text-embedding-3-small"@,
        EmbeddingModelV::OpenAILarge => "text-embedding-3-large"@,
        EmbeddingModelV::Custom(name) => name,
    }
}

pub open spec fn expected_dimensions_spec(m: EmbeddingModelV) -> Option<usize> {
    match m {
        EmbeddingModelV::OpenAIAda002 => Some(1536usize),
        EmbeddingModelV::OpenAISmall => Some(1536usize),
        EmbeddingModelV::OpenAILarge => Some(3072usize),
        EmbeddingModelV::Custom(_) => None,
    }
}

impl EmbeddingModel {
    pub fn model_name(&self) -> (r: String)
        ensures
            r@ == model_name_spec(self@),
    {
        match self {
            EmbeddingModel::OpenAIAda002 => String::from_str("text-embedding-ada-002"),
            EmbeddingModel::OpenAISmall => String::from_str("text-embedding-3-small"),
            EmbeddingModel::OpenAILarge => String::from_str("text-embedding-3-large"),
            EmbeddingModel::Custom(name) => name.clone(),
        }
    }

    pub fn expected_dimensions(&self) -> (r: Option<usize>)
        ensures
            r == expected_dimensions_spec(self@),
    {
        match self {
            EmbeddingModel::OpenAIAda002 => Some(1536),
            EmbeddingModel::OpenAISmall => Some(1536),
            EmbeddingModel::OpenAILarge => Some(3072),
            EmbeddingModel::Custom(_) => None,
        }
    }
}

#[derive(Debug)]
pub struct EmbeddingRequest {
    pub texts: Vec<String>,
    pub model: EmbeddingModel,
    pub proxy_url: String,
}

/// A validated embedding-service reply, already converted to micro-units.
#[derive(Debug)]
pub struct EmbeddingResponse {
    pub embeddings: Vec<Vec<i64>>,
    pub model: String,
    pub usage_tokens: Option<u32>,
}

/// A metadata filter for search calls: optional allow-lists of document
/// and chunk ids, and an optional result cap.
#[derive(Debug)]
pub struct MetadataFilter {
    pub document_ids: Option<Vec<String>>,
    pub chunk_ids: Option<Vec<String>>,
    pub limit: Option<u64>,
}

// =============================================================================
// CACHE STATS
// =============================================================================

#[derive(Clone, Copy, Debug, PartialEq, Eq, Structural)]
pub struct CacheStats {
    pub entry_count: usize,
    pub total_memory_bytes: usize,
    pub max_memory_bytes: usize,
    pub max_entries: usize,
    pub memory_usage_percent: u32,
}

impl CacheStats {
    pub fn is_near_limit(&self) -> (r: bool)
        ensures
            r == (self.memory_usage_percent > 80),
    {
        self.memory_usage_percent > 80
    }
}

// =============================================================================
// MEMORY STATS
// =============================================================================

#[derive(Clone, Copy, Debug, PartialEq, Eq, Structural)]
pub struct MemoryStats {
    pub total_pages: u64,
    pub used_pages: u64,
    pub total_bytes: u64,
    pub available_bytes: u64,
}

// =============================================================================
// SEARCH RESULT TYPES
// =============================================================================

#[derive(Debug)]
pub struct MemorySearchResult {
    pub document_id: String,
    pub chunk_id: String,
    /// Cosine similarity score in micro-units.
    pub score: i64,
    pub text: String,
}

#[derive(Debug)]
pub struct BulkEmbedResult {
    pub embedded: u32,
    pub skipped: u32,
    pub failed: u32,
    pub errors: Vec<String>,
}

// =============================================================================
// VALIDATION
// =============================================================================

/// A collection identifier character: ASCII alphanumeric, underscore or
/// hyphen.
pub open spec fn is_id_char(c: char) -> bool {
    ||| 'a' <= c && c <= 'z'
    ||| 'A' <= c && c <= 'Z'
    ||| '0' <= c && c <= '9'
    ||| c == '_'
    ||| c == '-'
}

/// Identifiers equal to a reserved word or starting with a double underscore
/// are refused.
pub open spec fn is_reserved_id(s: Seq<char>) -> bool {
    ||| (s.len() >= 2 && s[0] == '_' && s[1] == '_')
    ||| s =~= seq!['a', 'd', 'm', 'i', 'n']
    ||| s =~= seq!['s', 'y', 's', 't', 'e', 'm']
}

pub open spec fn valid_collection_id(s: Seq<char>) -> bool {
    &&& 1 <= blen(s) <= 64
    &&& forall|i: int| 0 <= i < s.len() ==> is_id_char(#[trigger] s[i])
    &&& !is_reserved_id(s)
}

fn id_char_ok(c: char) -> (r: bool)
    ensures
        r == is_id_char(c),
{
    ('a' <= c && c <= 'z') || ('A' <= c && c <= 'Z') || ('0' <= c && c <= '9') || c == '_' || c
        == '-'
}

pub fn validate_collection_id(id: &String) -> (r: Result<(), String>)
    ensures
        r is Ok <==> valid_collection_id(id@),
{
    let s = id.as_str();
    let byte_len = s.as_bytes().len();
    if byte_len == 0 || byte_len > 64 {
        return Err(String::from_str("Collection ID must be 1-64 characters"));
    }
    let n = s.unicode_len();
    let mut i: usize = 0;
    while i < n
        invariant
            n == id@.len(),
            0 <= i <= n,
            s@ == id@,
            forall|j: int| 0 <= j < i ==> is_id_char(#[trigger] id@[j]),
        decreases n - i,
    {
        let c = s.get_char(i);
        if !id_char_ok(c) {
            return Err(
                String::from_str(
                    "Collection ID must contain only alphanumeric characters, underscores, and hyphens",
                ),
            );
        }
        i += 1;
    }
    if n >= 2 && s.get_char(0) == '_' && s.get_char(1) == '_' {
        return Err(String::from_str("Collection ID uses reserved prefix or keyword"));
    }
    if is_str_admin(s) || is_str_system(s) {
        return Err(String::from_str("Collection ID uses reserved prefix or keyword"));
    }
    Ok(())
}

fn is_str_admin(s: &str) -> (r: bool)
    ensures
        r == (s@ =~= seq!['a', 'd', 'm', 'i', 'n']),
{
    if s.unicode_len() != 5 {
        return false;
    }
    let r = s.get_char(0) == 'a' && s.get_char(1) == 'd' && s.get_char(2) == 'm' && s.get_char(3)
        == 'i' && s.get_char(4) == 'n';
    proof {
        if r {
            assert(s@ =~= seq!['a', 'd', 'm', 'i', 'n']);
        }
    }
    r
}

fn is_str_system(s: &str) -> (r: bool)
    ensures
        r == (s@ =~= seq!['s', 'y', 's', 't', 'e', 'm']),
{
    if s.unicode_len() != 6 {
        return false;
    }
    let r = s.get_char(0) == 's' && s.get_char(1) == 'y' && s.get_char(2) == 's' && s.get_char(3)
        == 't' && s.get_char(4) == 'e' && s.get_char(5) == 'm';
    proof {
        if r {
            assert(s@ =~= seq!['s', 'y', 's', 't', 'e', 'm']);
        }
    }
    r
}

/// The document content cap in bytes (10 MB).
pub const MAX_CONTENT_BYTES: usize = 10_000_000;

pub open spec fn valid_document_content(s: Seq<char>) -> bool {
    1 <= blen(s) <= MAX_CONTENT_BYTES
}

pub fn validate_document_content(content: &String) -> (r: Result<(), String>)
    ensures
        r is Ok <==> valid_document_content(content@),
{
    let byte_len = content.as_str().as_bytes().len();
    if byte_len == 0 {
        return Err(String::from_str("Document content cannot be empty"));
    }
    if byte_len > MAX_CONTENT_BYTES {
        return Err(String::from_str("Document content exceeds 10MB limit"));
    }
    Ok(())
}

} // verus!

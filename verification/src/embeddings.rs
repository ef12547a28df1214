use crate::types::EmbeddingModel;
use crate::types::SemanticChunk;
use crate::types::Vector;
use crate::types::blen;
use crate::types::expected_dimensions_spec;
use crate::types::valid_embedding_seq;
use crate::util::byte_len;
use crate::util::sat_add_u64;
use crate::util::sat_add_spec;
use crate::util::str_contains;
use crate::util::str_equals;
use crate::util::string_has_non_space;
use vstd::prelude::*;

verus! {

// =============================================================================
// REQUEST VALIDATION
// =============================================================================

/// The per-request limits the embedding collaborator contract imposes.
pub const MAX_TEXTS_PER_REQUEST: usize = 50;

/// The total byte budget over all texts of one request.
pub const MAX_TOTAL_TEXT_BYTES: u64 = 50_000;

/// The byte budget of one text.
pub const MAX_TEXT_BYTES: usize = 4000;

/// The request body cap the host transport enforces.
pub const MAX_REQUEST_BODY_BYTES: u64 = 45_000;

/// The saturating total byte length of a list of texts.
pub open spec fn total_text_bytes(texts: Seq<Seq<char>>) -> u64
    decreases texts.len(),
{
    if texts.len() == 0 {
        0u64
    } else {
        sat_add_spec(total_text_bytes(texts.drop_last()), blen(texts.last()) as u64)
    }
}

/// Whether a proxy URL names the secure scheme.
pub open spec fn is_https_url(url: Seq<char>) -> bool {
    url.len() >= 8 && url.subrange(0, 8) == "https://"@
}

fn url_is_https(url: &String) -> (r: bool)
    ensures
        r == is_https_url(url@),
{
    let s = url.as_str();
    if s.unicode_len() < 8 {
        return false;
    }
    let r = s.get_char(0) == 'h' && s.get_char(1) == 't' && s.get_char(2) == 't' && s.get_char(3)
        == 'p' && s.get_char(4) == 's' && s.get_char(5) == ':' && s.get_char(6) == '/'
        && s.get_char(7) == '/';
    proof {
        reveal_strlit("https://");
        if r {
            assert(url@.subrange(0, 8) =~= "https://"@);
        } else {
            if url@.subrange(0, 8) == "https://"@ {
                assert(url@[0] == 'h' && url@[1] == 't' && url@[2] == 't' && url@[3] == 'p'
                    && url@[4] == 's' && url@[5] == ':' && url@[6] == '/' && url@[7] == '/') by {
                    assert(url@.subrange(0, 8)[0] == url@[0]);
                    assert(url@.subrange(0, 8)[1] == url@[1]);
                    assert(url@.subrange(0, 8)[2] == url@[2]);
                    assert(url@.subrange(0, 8)[3] == url@[3]);
                    assert(url@.subrange(0, 8)[4] == url@[4]);
                    assert(url@.subrange(0, 8)[5] == url@[5]);
                    assert(url@.subrange(0, 8)[6] == url@[6]);
                    assert(url@.subrange(0, 8)[7] == url@[7]);
                }
            }
        }
    }
    r
}

/// The collaborator contract on a request: between one and fifty texts,
/// none blank, none over its byte budget, the total under the batch
/// budget, and a secure proxy URL.
pub open spec fn valid_embedding_request(texts: Seq<Seq<char>>, url: Seq<char>) -> bool {
    &&& 1 <= texts.len() <= MAX_TEXTS_PER_REQUEST
    &&& total_text_bytes(texts) <= MAX_TOTAL_TEXT_BYTES
    &&& is_https_url(url)
    &&& forall|i: int|
        0 <= i < texts.len() ==> (crate::util::has_non_space(#[trigger] texts[i]) && blen(texts[i])
            <= MAX_TEXT_BYTES)
}

/// Checks a request against the collaborator contract, exactly.
pub fn validate_embedding_request(texts: &Vec<String>, proxy_url: &String) -> (r: Result<
    (),
    String,
>)
    ensures
        r is Ok <==> valid_embedding_request(texts.deep_view(), proxy_url@),
{
    let n = texts.len();
    if n == 0 {
        return Err(String::from_str("No texts provided for embedding"));
    }
    if n > MAX_TEXTS_PER_REQUEST {
        return Err(String::from_str("Too many texts in single request"));
    }
    let ghost tv = texts.deep_view();
    let mut total: u64 = 0;
    let mut i: usize = 0;
    while i < n
        invariant
            0 <= i <= n,
            n == texts@.len(),
            tv == texts.deep_view(),
            total == total_text_bytes(tv.take(i as int)),
        decreases n - i,
    {
        proof {
            assert(tv.take(i + 1).drop_last() =~= tv.take(i as int));
            assert(tv.take(i + 1).last() == tv[i as int]);
            assert(tv[i as int] == texts@[i as int]@);
        }
        let b = byte_len(&texts[i]) as u64;
        total = sat_add_u64(total, b);
        i += 1;
    }
    proof {
        assert(tv.take(n as int) =~= tv);
    }
    if total > MAX_TOTAL_TEXT_BYTES {
        return Err(String::from_str("Total text content too large"));
    }
    if !url_is_https(proxy_url) {
        return Err(String::from_str("Proxy URL must use HTTPS"));
    }
    let mut j: usize = 0;
    while j < n
        invariant
            0 <= j <= n,
            n == texts@.len(),
            tv == texts.deep_view(),
            forall|x: int|
                0 <= x < j ==> (crate::util::has_non_space(#[trigger] tv[x]) && blen(tv[x])
                    <= MAX_TEXT_BYTES),
        decreases n - j,
    {
        proof {
            assert(tv[j as int] == texts@[j as int]@);
        }
        if !string_has_non_space(texts[j].as_str()) {
            return Err(String::from_str("Text is empty"));
        }
        if byte_len(&texts[j]) > MAX_TEXT_BYTES {
            return Err(String::from_str("Text is too long"));
        }
        j += 1;
    }
    Ok(())
}

// =============================================================================
// RESOURCE BUDGETS
// =============================================================================

/// The model dimension a budget assumes when the model declares none.
pub open spec fn budget_dimensions(m: crate::types::EmbeddingModelV) -> int {
    match expected_dimensions_spec(m) {
        Some(d) => d as int,
        None => 1536,
    }
}

/// The cycle budget of an embedding call: the host fee schedule applied to
/// the request and the estimated response, times two and a half, floored
/// at one billion.
pub open spec fn cycles_spec(m: crate::types::EmbeddingModelV, text_count: int, body_size: int) -> int {
    let base_fee = (3_000_000 + 60_000 * 13) * 13;
    let request_fee = 400 * 13 * body_size;
    let response_bytes = budget_dimensions(m) * 4 * text_count + text_count * 150 + 1000;
    let response_fee = 800 * 13 * response_bytes;
    let total = base_fee + request_fee + response_fee;
    let buffered = total * 5 / 2;
    if buffered >= 1_000_000_000 {
        buffered
    } else {
        1_000_000_000
    }
}

/// Computes the cycle budget for one embedding call.
pub fn calculate_embedding_cycles(model: &EmbeddingModel, text_count: usize, request_body_size: usize) -> (r: u128)
    ensures
        r as int == cycles_spec(model@, text_count as int, request_body_size as int),
{
    let base_fee: u128 = (3_000_000 + 60_000 * 13) * 13;
    let request_fee: u128 = 400 * 13 * (request_body_size as u128);
    let dimensions: u128 = match model.expected_dimensions() {
        Some(d) => d as u128,
        None => 1536,
    };
    proof {
        let d = budget_dimensions(model@);
        assert(0 <= d <= 3072);
        assert(0 <= d * 4 * (text_count as int) <= 12288 * 18446744073709551615int)
            by (nonlinear_arith)
            requires
                0 <= d <= 3072,
                0 <= text_count as int <= 18446744073709551615int;
    }
    let response_bytes: u128 = dimensions * 4 * (text_count as u128) + (text_count as u128) * 150
        + 1000;
    proof {
        assert(response_bytes as int <= 229440837236696354121001000int);
        assert(10400 * (response_bytes as int) <= 2386184707261642082858410400000int)
            by (nonlinear_arith)
            requires
                0 <= response_bytes as int <= 229440837236696354121001000int;
        assert(400 * 13 * (request_body_size as int) <= 95923069183289668398000int)
            by (nonlinear_arith)
            requires
                0 <= request_body_size as int <= 18446744073709551615int;
    }
    let response_fee: u128 = 800 * 13 * response_bytes;
    let total = base_fee + request_fee + response_fee;
    proof {
        assert((total as int) * 5 <= 11930923537271611658413177002000int) by (nonlinear_arith)
            requires
                0 <= total as int <= 2386184707361642082858410400000int;
    }
    let buffered = total * 5 / 2;
    if buffered >= 1_000_000_000 {
        buffered
    } else {
        1_000_000_000
    }
}

/// The response size cap for one embedding call: the estimated payload and
/// a half again, clamped between fifty kilobytes and two megabytes.
pub open spec fn max_response_bytes_spec(m: crate::types::EmbeddingModelV, text_count: int) -> int {
    let estimated = budget_dimensions(m) * 4 * text_count + text_count * 150 + 1000;
    let buffered = estimated * 3 / 2;
    if buffered < 50_000 {
        50_000
    } else if buffered > 2_000_000 {
        2_000_000
    } else {
        buffered
    }
}

pub fn calculate_max_response_bytes(model: &EmbeddingModel, text_count: usize) -> (r: u64)
    ensures
        r as int == max_response_bytes_spec(model@, text_count as int),
{
    let dimensions: u128 = match model.expected_dimensions() {
        Some(d) => d as u128,
        None => 1536,
    };
    proof {
        let d = budget_dimensions(model@);
        assert(0 <= d * 4 * (text_count as int) <= 12288 * 18446744073709551615int)
            by (nonlinear_arith)
            requires
                0 <= d <= 3072,
                0 <= text_count as int <= 18446744073709551615int;
    }
    let estimated: u128 = dimensions * 4 * (text_count as u128) + (text_count as u128) * 150
        + 1000;
    let buffered: u128 = estimated * 3 / 2;
    if buffered < 50_000 {
        50_000
    } else if buffered > 2_000_000 {
        2_000_000
    } else {
        buffered as u64
    }
}

/// The saturating request-body estimate: every text's bytes plus a small
/// per-item framing charge, plus a fixed envelope charge.
pub open spec fn estimated_body_bytes(texts: Seq<Seq<char>>) -> u64
    decreases texts.len(),
{
    if texts.len() == 0 {
        60u64
    } else {
        sat_add_spec(
            estimated_body_bytes(texts.drop_last()),
            sat_add_spec(blen(texts.last()) as u64, 3u64),
        )
    }
}

/// Refuses a batch whose estimated request body exceeds the transport cap.
pub fn check_request_size(texts: &Vec<String>) -> (r: Result<(), String>)
    ensures
        r is Ok <==> estimated_body_bytes(texts.deep_view()) <= MAX_REQUEST_BODY_BYTES,
{
    let ghost tv = texts.deep_view();
    let n = texts.len();
    let mut total: u64 = 60;
    let mut i: usize = 0;
    while i < n
        invariant
            0 <= i <= n,
            n == texts@.len(),
            tv == texts.deep_view(),
            total == estimated_body_bytes(tv.take(i as int)),
        decreases n - i,
    {
        proof {
            assert(tv.take(i + 1).drop_last() =~= tv.take(i as int));
            assert(tv.take(i + 1).last() == tv[i as int]);
            assert(tv[i as int] == texts@[i as int]@);
        }
        let b = sat_add_u64(byte_len(&texts[i]) as u64, 3);
        total = sat_add_u64(total, b);
        i += 1;
    }
    proof {
        assert(tv.take(n as int) =~= tv);
    }
    if total > MAX_REQUEST_BODY_BYTES {
        return Err(String::from_str("Request body too large"));
    }
    Ok(())
}

// =============================================================================
// MODEL NAMES
// =============================================================================

/// Parses a model name; unknown names become the custom variant, so the
/// parse always succeeds.
pub fn parse_embedding_model(model_str: &String) -> (r: Result<EmbeddingModel, String>)
    ensures
        r is Ok,
        r matches Ok(m) ==> m@ == (if model_str@ == "text-embedding-ada-002"@ {
            crate::types::EmbeddingModelV::OpenAIAda002
        } else if model_str@ == "text-embedding-3-small"@ {
            crate::types::EmbeddingModelV::OpenAISmall
        } else if model_str@ == "text-embedding-3-large"@ {
            crate::types::EmbeddingModelV::OpenAILarge
        } else {
            crate::types::EmbeddingModelV::Custom(model_str@)
        }),
{
    if str_equals(model_str.as_str(), "text-embedding-ada-002") {
        Ok(EmbeddingModel::OpenAIAda002)
    } else if str_equals(model_str.as_str(), "text-embedding-3-small") {
        Ok(EmbeddingModel::OpenAISmall)
    } else if str_equals(model_str.as_str(), "text-embedding-3-large") {
        Ok(EmbeddingModel::OpenAILarge)
    } else {
        Ok(EmbeddingModel::Custom(model_str.clone()))
    }
}

// =============================================================================
// RESPONSE VALIDATION
// =============================================================================

/// The collaborator contract on a reply: one embedding per input text,
/// each non-empty, in range, and of the model's declared dimension when it
/// has one.
pub open spec fn valid_embedding_response(
    embeddings: Seq<Seq<i64>>,
    expected_count: int,
    m: crate::types::EmbeddingModelV,
) -> bool {
    &&& embeddings.len() == expected_count
    &&& forall|i: int| 0 <= i < embeddings.len() ==> valid_embedding_seq(#[trigger] embeddings[i])
    &&& match expected_dimensions_spec(m) {
        Some(d) => forall|i: int|
            0 <= i < embeddings.len() ==> (#[trigger] embeddings[i]).len() == d,
        None => true,
    }
}

/// Checks a decoded reply against the collaborator contract, exactly.
pub fn validate_embedding_response(
    embeddings: &Vec<Vec<i64>>,
    expected_count: usize,
    model: &EmbeddingModel,
) -> (r: Result<(), String>)
    ensures
        r is Ok <==> valid_embedding_response(
            embeddings.deep_view(),
            expected_count as int,
            model@,
        ),
{
    if embeddings.len() != expected_count {
        return Err(String::from_str("Embedding count mismatch"));
    }
    let expected_dim = model.expected_dimensions();
    let n = embeddings.len();
    let mut i: usize = 0;
    while i < n
        invariant
            0 <= i <= n,
            n == embeddings@.len(),
            expected_dim == expected_dimensions_spec(model@),
            forall|j: int|
                0 <= j < i ==> valid_embedding_seq(#[trigger] embeddings.deep_view()[j]),
            match expected_dimensions_spec(model@) {
                Some(d) => forall|j: int|
                    0 <= j < i ==> (#[trigger] embeddings.deep_view()[j]).len() == d,
                None => true,
            },
        decreases n - i,
    {
        proof {
            assert(embeddings.deep_view()[i as int] == embeddings@[i as int]@);
        }
        match crate::similarity::validate_embedding(&embeddings[i]) {
            Ok(_) => {},
            Err(e) => {
                return Err(e);
            },
        }
        match expected_dim {
            Some(d) => {
                if embeddings[i].len() != d {
                    return Err(String::from_str("Dimension mismatch"));
                }
            },
            None => {},
        }
        i += 1;
    }
    Ok(())
}

// =============================================================================
// VECTOR CONSTRUCTION
// =============================================================================

/// Builds the stored vectors for a batch of chunks and their embeddings:
/// one vector per chunk, with a derived id, the exact floor-square-root
/// norm, and the reply's model name.
pub fn build_vectors_from_embeddings(
    chunks: &Vec<SemanticChunk>,
    embeddings: &Vec<Vec<i64>>,
    model_name: &String,
    now: u64,
) -> (r: Result<Vec<Vector>, String>)
    ensures
        r is Ok <==> (chunks@.len() == embeddings@.len() && forall|i: int|
            0 <= i < embeddings@.len() ==> (valid_embedding_seq(
                (#[trigger] embeddings@[i])@,
            ) && crate::similarity::dot_spec(embeddings@[i]@, embeddings@[i]@) >= 1)),
        r matches Ok(vs) ==> ({
            &&& vs@.len() == chunks@.len()
            &&& forall|i: int|
                0 <= i < vs@.len() ==> ({
                    &&& (#[trigger] vs@[i])@.id == crate::hashing::generated_id(
                        "vec"@,
                        chunks@[i]@.id,
                        now,
                    )
                    &&& vs@[i]@.document_id == chunks@[i]@.document_id
                    &&& vs@[i]@.chunk_id == chunks@[i]@.id
                    &&& vs@[i]@.embedding == embeddings@[i]@
                    &&& crate::similarity::is_floor_sqrt(
                        crate::similarity::dot_spec(embeddings@[i]@, embeddings@[i]@),
                        vs@[i]@.norm as int,
                    )
                    &&& vs@[i]@.model == model_name@
                    &&& vs@[i]@.created_at == now
                    &&& crate::types::valid_vector(vs@[i]@)
                })
        }),
{
    if chunks.len() != embeddings.len() {
        return Err(String::from_str("Embedding count mismatch"));
    }
    let n = chunks.len();
    let mut out: Vec<Vector> = Vec::new();
    let mut i: usize = 0;
    while i < n
        invariant
            0 <= i <= n,
            n == chunks@.len(),
            n == embeddings@.len(),
            out@.len() == i,
            forall|j: int|
                0 <= j < i ==> (valid_embedding_seq((#[trigger] embeddings@[j])@)
                    && crate::similarity::dot_spec(embeddings@[j]@, embeddings@[j]@) >= 1),
            forall|j: int|
                0 <= j < i ==> ({
                    &&& (#[trigger] out@[j])@.id == crate::hashing::generated_id(
                        "vec"@,
                        chunks@[j]@.id,
                        now,
                    )
                    &&& out@[j]@.document_id == chunks@[j]@.document_id
                    &&& out@[j]@.chunk_id == chunks@[j]@.id
                    &&& out@[j]@.embedding == embeddings@[j]@
                    &&& crate::similarity::is_floor_sqrt(
                        crate::similarity::dot_spec(embeddings@[j]@, embeddings@[j]@),
                        out@[j]@.norm as int,
                    )
                    &&& out@[j]@.model == model_name@
                    &&& out@[j]@.created_at == now
                    &&& crate::types::valid_vector(out@[j]@)
                }),
        decreases n - i,
    {
        let norm = match crate::similarity::calculate_norm(&embeddings[i]) {
            Ok(nv) => nv,
            Err(e) => {
                return Err(e);
            },
        };
        let embedding = crate::util::clone_i64_vec(&embeddings[i]);
        let vector = Vector {
            id: crate::hashing::generate_id("vec", &chunks[i].id, now),
            document_id: chunks[i].document_id.clone(),
            chunk_id: chunks[i].id.clone(),
            embedding,
            norm,
            model: model_name.clone(),
            created_at: now,
        };
        out.push(vector);
        i += 1;
    }
    Ok(out)
}

// =============================================================================
// TRANSPORT ERROR CLASSIFICATION
// =============================================================================

/// The retry-relevant classes of a failed outcall.
#[derive(Clone, Copy, Debug, PartialEq, Eq, Structural)]
pub enum OutcallErrorKind {
    OutOfCycles,
    Transient,
    Other,
}

/// Classifies a transport error message: cycle exhaustion first, then
/// transient conditions, then everything else.
pub fn classify_outcall_error(message: &String) -> (r: OutcallErrorKind)
    ensures
        r == OutcallErrorKind::OutOfCycles <==> (crate::util::contains_sub(message@, "cycles"@)
            || crate::util::contains_sub(message@, "OutOfCycles"@)),
        r == OutcallErrorKind::Transient <==> (!(crate::util::contains_sub(message@, "cycles"@)
            || crate::util::contains_sub(message@, "OutOfCycles"@)) && (crate::util::contains_sub(
            message@,
            "SysTransient"@,
        ) || crate::util::contains_sub(message@, "timeout"@))),
{
    if str_contains(message.as_str(), "cycles") || str_contains(message.as_str(), "OutOfCycles") {
        OutcallErrorKind::OutOfCycles
    } else if str_contains(message.as_str(), "SysTransient") || str_contains(
        message.as_str(),
        "timeout",
    ) {
        OutcallErrorKind::Transient
    } else {
        OutcallErrorKind::Other
    }
}

} // verus!

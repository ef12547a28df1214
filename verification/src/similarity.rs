use crate::types::MAX_COMPONENT_MICRO;
use crate::types::MAX_DIMENSIONS;
use crate::types::MICRO;
use crate::types::Vector;
use crate::types::VectorV;
use crate::types::valid_embedding_seq;
use vstd::multiset::Multiset;
use vstd::prelude::*;

verus! {

// =============================================================================
// FIXED-POINT VECTOR ARITHMETIC
// =============================================================================

/// The dot product of two component sequences, peeling from the end.
pub open spec fn dot_spec(a: Seq<i64>, b: Seq<i64>) -> int
    decreases a.len(),
{
    if a.len() == 0 || b.len() == 0 {
        0
    } else {
        dot_spec(a.drop_last(), b.drop_last()) + (a.last() as int) * (b.last() as int)
    }
}

/// The cosine score in micro-units: the dot product scaled by one million
/// and divided by the norm product, truncating toward zero.
pub open spec fn score_spec(a: Seq<i64>, b: Seq<i64>, norm_a: i64, norm_b: i64) -> int {
    let m = dot_spec(a, b) * (MICRO as int);
    let den = (norm_a as int) * (norm_b as int);
    if m >= 0 {
        m / den
    } else {
        -((-m) / den)
    }
}

/// Whether a score value is representable.
pub open spec fn score_fits(s: int) -> bool {
    i64::MIN <= s <= i64::MAX
}

/// Checks that an embedding is fit for scoring: non-empty, bounded length,
/// bounded components.
pub fn validate_embedding(embedding: &Vec<i64>) -> (r: Result<(), String>)
    ensures
        r is Ok <==> valid_embedding_seq(embedding@),
{
    if embedding.len() == 0 {
        return Err(String::from_str("Embedding is empty"));
    }
    if embedding.len() > MAX_DIMENSIONS {
        return Err(String::from_str("Embedding has too many dimensions"));
    }
    let n = embedding.len();
    let mut i: usize = 0;
    while i < n
        invariant
            0 <= i <= n,
            n == embedding@.len(),
            forall|j: int|
                0 <= j < i ==> -MAX_COMPONENT_MICRO <= #[trigger] embedding@[j]
                    <= MAX_COMPONENT_MICRO,
        decreases n - i,
    {
        let e = embedding[i];
        if e < -MAX_COMPONENT_MICRO || e > MAX_COMPONENT_MICRO {
            return Err(String::from_str("Embedding value out of range"));
        }
        i += 1;
    }
    Ok(())
}

/// The magnitude bound carried through dot-product accumulation.
proof fn lemma_dot_bound(a: Seq<i64>, b: Seq<i64>)
    requires
        a.len() == b.len(),
        forall|i: int|
            0 <= i < a.len() ==> -MAX_COMPONENT_MICRO <= #[trigger] a[i] <= MAX_COMPONENT_MICRO,
        forall|i: int|
            0 <= i < b.len() ==> -MAX_COMPONENT_MICRO <= #[trigger] b[i] <= MAX_COMPONENT_MICRO,
    ensures
        -(a.len() as int) * (MAX_COMPONENT_MICRO as int) * (MAX_COMPONENT_MICRO as int) <= dot_spec(
            a,
            b,
        ) <= (a.len() as int) * (MAX_COMPONENT_MICRO as int) * (MAX_COMPONENT_MICRO as int),
    decreases a.len(),
{
    let mc = MAX_COMPONENT_MICRO as int;
    if a.len() == 0 {
    } else {
        lemma_dot_bound(a.drop_last(), b.drop_last());
        assert(-(mc * mc) <= (a.last() as int) * (b.last() as int) <= mc * mc) by (nonlinear_arith)
            requires
                -mc <= a.last() <= mc,
                -mc <= b.last() <= mc,
                mc > 0;
        assert((a.len() as int) * mc * mc == ((a.len() - 1) as int) * mc * mc + mc
            * mc) by (nonlinear_arith);
    }
}

/// Computes the dot product exactly in 128-bit arithmetic.
pub fn dot_product(a: &Vec<i64>, b: &Vec<i64>) -> (r: i128)
    requires
        a@.len() == b@.len(),
        a@.len() <= MAX_DIMENSIONS,
        forall|i: int|
            0 <= i < a@.len() ==> -MAX_COMPONENT_MICRO <= #[trigger] a@[i] <= MAX_COMPONENT_MICRO,
        forall|i: int|
            0 <= i < b@.len() ==> -MAX_COMPONENT_MICRO <= #[trigger] b@[i] <= MAX_COMPONENT_MICRO,
    ensures
        r == dot_spec(a@, b@),
{
    let n = a.len();
    let mut acc: i128 = 0;
    let mut i: usize = 0;
    while i < n
        invariant
            0 <= i <= n,
            n == a@.len(),
            n == b@.len(),
            n <= MAX_DIMENSIONS,
            forall|j: int|
                0 <= j < n ==> -MAX_COMPONENT_MICRO <= #[trigger] a@[j] <= MAX_COMPONENT_MICRO,
            forall|j: int|
                0 <= j < n ==> -MAX_COMPONENT_MICRO <= #[trigger] b@[j] <= MAX_COMPONENT_MICRO,
            acc == dot_spec(a@.take(i as int), b@.take(i as int)),
        decreases n - i,
    {
        let ghost mc = MAX_COMPONENT_MICRO as int;
        proof {
            assert(a@.take(i + 1).drop_last() =~= a@.take(i as int));
            assert(b@.take(i + 1).drop_last() =~= b@.take(i as int));
            assert(a@.take(i + 1).last() == a@[i as int]);
            assert(b@.take(i + 1).last() == b@[i as int]);
            assert forall|j: int|
                0 <= j < a@.take(i as int).len() implies -MAX_COMPONENT_MICRO <= #[trigger] a@.take(
                i as int,
            )[j] <= MAX_COMPONENT_MICRO by {
                assert(a@.take(i as int)[j] == a@[j]);
            }
            assert forall|j: int|
                0 <= j < b@.take(i as int).len() implies -MAX_COMPONENT_MICRO <= #[trigger] b@.take(
                i as int,
            )[j] <= MAX_COMPONENT_MICRO by {
                assert(b@.take(i as int)[j] == b@[j]);
            }
            lemma_dot_bound(a@.take(i as int), b@.take(i as int));
            assert((i as int) * mc * mc <= (MAX_DIMENSIONS as int) * mc * mc) by (nonlinear_arith)
                requires
                    0 <= i as int <= MAX_DIMENSIONS as int,
                    mc > 0;
            assert(-(mc * mc) <= (a@[i as int] as int) * (b@[i as int] as int) <= mc
                * mc) by (nonlinear_arith)
                requires
                    -mc <= a@[i as int] <= mc,
                    -mc <= b@[i as int] <= mc,
                    mc > 0;
        }
        acc = acc + (a[i] as i128) * (b[i] as i128);
        i += 1;
    }
    proof {
        assert(a@.take(n as int) =~= a@);
        assert(b@.take(n as int) =~= b@);
    }
    acc
}

/// Whether `r` is the floor of the square root of `x`.
pub open spec fn is_floor_sqrt(x: int, r: int) -> bool {
    0 <= r && r * r <= x && x < (r + 1) * (r + 1)
}

/// The floor square root, by binary search.
pub fn isqrt_u128(x: u128) -> (r: u128)
    ensures
        is_floor_sqrt(x as int, r as int),
        r <= u64::MAX,
{
    let mut lo: u128 = 0;
    let mut hi: u128 = 18_446_744_073_709_551_616u128;
    proof {
        assert((hi as int) * (hi as int) > x as int) by (nonlinear_arith)
            requires
                hi as int == 0x10000000000000000,
                x as int <= u128::MAX as int;
    }
    while lo + 1 < hi
        invariant
            0 <= lo < hi,
            hi <= 0x10000000000000000,
            (lo as int) * (lo as int) <= x as int,
            (hi as int) * (hi as int) > x as int,
        decreases hi - lo,
    {
        let mid = lo + (hi - lo) / 2;
        proof {
            assert(mid < hi);
            assert((mid as int) * (mid as int) <= u128::MAX as int) by (nonlinear_arith)
                requires
                    0 <= (mid as int) < 0x10000000000000000;
        }
        let sq = mid * mid;
        if sq <= x {
            lo = mid;
        } else {
            hi = mid;
        }
    }
    proof {
        assert((lo + 1) as int == hi as int || (lo + 1) as int > hi as int);
        assert(((lo + 1) as int) * ((lo + 1) as int) > x as int) by (nonlinear_arith)
            requires
                (hi as int) * (hi as int) > x as int,
                lo + 1 >= hi,
                hi >= 1;
        assert(lo <= u64::MAX) by {
            if lo > u64::MAX {
                assert((lo as int) * (lo as int) > x as int) by (nonlinear_arith)
                    requires
                        (lo as int) > 0xFFFFFFFFFFFFFFFF,
                        x as int <= u128::MAX as int;
            }
        }
    }
    lo
}

/// The norm of an embedding, in micro-units: the floor square root of the
/// sum of squared components.  Fails on an invalid embedding and on the
/// all-zero embedding, whose norm would not be positive.
pub fn calculate_norm(embedding: &Vec<i64>) -> (r: Result<i64, String>)
    ensures
        r is Ok <==> (valid_embedding_seq(embedding@) && dot_spec(embedding@, embedding@) >= 1),
        r matches Ok(n) ==> is_floor_sqrt(dot_spec(embedding@, embedding@), n as int) && n > 0,
{
    match validate_embedding(embedding) {
        Ok(_) => {},
        Err(e) => {
            return Err(e);
        },
    }
    let sum = dot_product(embedding, embedding);
    proof {
        lemma_dot_bound(embedding@, embedding@);
        let mc = MAX_COMPONENT_MICRO as int;
        assert((embedding@.len() as int) * mc * mc <= (MAX_DIMENSIONS as int) * mc
            * mc) by (nonlinear_arith)
            requires
                0 <= embedding@.len() as int <= MAX_DIMENSIONS as int,
                mc > 0;
        assert(sum >= 0) by {
            lemma_dot_self_nonneg(embedding@);
        }
    }
    let root = isqrt_u128(sum as u128);
    if root == 0 {
        proof {
            assert(dot_spec(embedding@, embedding@) < 1);
        }
        return Err(String::from_str("Invalid norm"));
    }
    proof {
        assert((root as int) * (root as int) <= (0xFFFFFFFFFFFFFFFFu64 as int) * (
        0xFFFFFFFFFFFFFFFFu64 as int)) by (nonlinear_arith)
            requires
                0 <= root as int <= 0xFFFFFFFFFFFFFFFFu64 as int;
        assert(root as int <= i64::MAX as int) by {
            if root as int > i64::MAX as int {
                let mc = MAX_COMPONENT_MICRO as int;
                assert((root as int) * (root as int) > (i64::MAX as int) * (i64::MAX
                    as int)) by (nonlinear_arith)
                    requires
                        root as int > i64::MAX as int;
                assert((i64::MAX as int) * (i64::MAX as int) > (MAX_DIMENSIONS as int) * mc
                    * mc) by (nonlinear_arith)
                    requires
                        mc == 1000000000000int,
                        (MAX_DIMENSIONS as int) == 100000int;
            }
        }
    }
    proof {
        assert((root as int) * (root as int) >= 1) by (nonlinear_arith)
            requires
                (root as int) >= 1;
    }
    Ok(root as i64)
}

/// A dot product of a sequence with itself is non-negative.
proof fn lemma_dot_self_nonneg(a: Seq<i64>)
    ensures
        dot_spec(a, a) >= 0,
    decreases a.len(),
{
    if a.len() > 0 {
        lemma_dot_self_nonneg(a.drop_last());
        assert((a.last() as int) * (a.last() as int) >= 0) by (nonlinear_arith);
    }
}

/// The cosine similarity of two embeddings under precomputed norms, in
/// micro-units.  Mismatched dimensions, out-of-range inputs, non-positive
/// norms, and an unrepresentable result are all reported as errors, exactly.
pub fn cosine_similarity(a: &Vec<i64>, b: &Vec<i64>, norm_a: i64, norm_b: i64) -> (r: Result<
    i64,
    String,
>)
    ensures
        r is Ok <==> (valid_embedding_seq(a@) && valid_embedding_seq(b@) && a@.len() == b@.len()
            && norm_a > 0 && norm_b > 0 && score_fits(score_spec(a@, b@, norm_a, norm_b))),
        r matches Ok(s) ==> s == score_spec(a@, b@, norm_a, norm_b),
{
    match validate_embedding(a) {
        Ok(_) => {},
        Err(e) => {
            return Err(e);
        },
    }
    match validate_embedding(b) {
        Ok(_) => {},
        Err(e) => {
            return Err(e);
        },
    }
    if a.len() != b.len() {
        return Err(String::from_str("Dimension mismatch"));
    }
    if norm_a <= 0 || norm_b <= 0 {
        return Err(String::from_str("Invalid similarity result"));
    }
    let d = dot_product(a, b);
    proof {
        lemma_dot_bound(a@, b@);
        let mc = MAX_COMPONENT_MICRO as int;
        let nd = a@.len() as int;
        assert(nd * mc * mc <= (MAX_DIMENSIONS as int) * mc * mc) by (nonlinear_arith)
            requires
                0 <= nd <= MAX_DIMENSIONS as int,
                mc > 0;
        assert((MAX_DIMENSIONS as int) * mc * mc == 100000000000000000000000000000int)
            by (nonlinear_arith)
            requires
                mc == 1000000000000int,
                (MAX_DIMENSIONS as int) == 100000int;
        assert(-(i128::MAX as int) <= (d as int) * (MICRO as int) && (d as int) * (MICRO as int)
            <= i128::MAX as int) by (nonlinear_arith)
            requires
                -100000000000000000000000000000int <= d as int
                    <= 100000000000000000000000000000int,
                (MICRO as int) == 1000000int;
        assert((norm_a as int) * (norm_b as int) > 0 && (norm_a as int) * (norm_b as int)
            <= i128::MAX as int) by (nonlinear_arith)
            requires
                0 < (norm_a as int) <= 9223372036854775807int,
                0 < (norm_b as int) <= 9223372036854775807int;
    }
    let m: i128 = d * (MICRO as i128);
    let den: i128 = (norm_a as i128) * (norm_b as i128);
    let s: i128 = if m >= 0 {
        let q = (m as u128) / (den as u128);
        proof {
            vstd::arithmetic::div_mod::lemma_div_nonincreasing(m as int, den as int);
            vstd::arithmetic::div_mod::lemma_div_pos_is_pos(m as int, den as int);
        }
        q as i128
    } else {
        let neg = -m;
        let q = (neg as u128) / (den as u128);
        proof {
            vstd::arithmetic::div_mod::lemma_div_nonincreasing(neg as int, den as int);
            vstd::arithmetic::div_mod::lemma_div_pos_is_pos(neg as int, den as int);
        }
        -(q as i128)
    };
    if s > (i64::MAX as i128) || s < (i64::MIN as i128) {
        return Err(String::from_str("Invalid similarity result"));
    }
    Ok(s as i64)
}

// =============================================================================
// SEARCH CONFIGURATION
// =============================================================================

/// Search configuration: an optional score floor in micro-units, the result
/// cap, whether the approximate path may be used, and the candidate factor
/// in micro-units (how many candidates the coarse pass gathers, as a
/// multiple of the result cap).
#[derive(Clone, Copy, Debug, PartialEq, Eq, Structural)]
pub struct SimilarityConfig {
    pub min_score: Option<i64>,
    pub max_results: u32,
    pub use_approximate: bool,
    pub candidate_factor_micro: i64,
}

impl Default for SimilarityConfig {
    fn default() -> (r: Self)
        ensures
            r.min_score is None,
            r.max_results == 10,
            r.use_approximate == true,
            r.candidate_factor_micro == 3 * MICRO,
    {
        SimilarityConfig {
            min_score: None,
            max_results: 10,
            use_approximate: true,
            candidate_factor_micro: 3_000_000,
        }
    }
}

// =============================================================================
// CANDIDATE SCORING
// =============================================================================

/// Whether a stored vector takes part in a search for the given query: the
/// dimensions agree, the data is valid, the score is representable, and any
/// score floor is met.
pub open spec fn eligible(q: Seq<i64>, v: VectorV, qnorm: i64, min_score: Option<i64>) -> bool {
    &&& valid_embedding_seq(v.embedding)
    &&& v.embedding.len() == q.len()
    &&& v.norm > 0
    &&& score_fits(score_spec(q, v.embedding, qnorm, v.norm))
    &&& match min_score {
        Some(m) => score_spec(q, v.embedding, qnorm, v.norm) >= m,
        None => true,
    }
}

/// How many of the listed candidate indices are eligible.
pub open spec fn eligible_count(
    q: Seq<i64>,
    vectors: Seq<Vector>,
    idxs: Seq<usize>,
    qnorm: i64,
    min_score: Option<i64>,
) -> int
    decreases idxs.len(),
{
    if idxs.len() == 0 {
        0
    } else {
        eligible_count(q, vectors, idxs.drop_last(), qnorm, min_score) + (if eligible(
            q,
            vectors[idxs.last() as int]@,
            qnorm,
            min_score,
        ) {
            1int
        } else {
            0int
        })
    }
}

/// Scores every eligible candidate, pairing the score with the candidate's
/// index; ineligible candidates are skipped, never fatal.
pub fn score_candidates(
    query: &Vec<i64>,
    qnorm: i64,
    vectors: &Vec<Vector>,
    idxs: &Vec<usize>,
    min_score: Option<i64>,
) -> (r: Vec<(i64, usize)>)
    requires
        valid_embedding_seq(query@),
        qnorm > 0,
        forall|i: int| 0 <= i < idxs@.len() ==> (#[trigger] idxs@[i]) < vectors@.len(),
        idxs@.no_duplicates(),
    ensures
        r@.len() == eligible_count(query@, vectors@, idxs@, qnorm, min_score),
        forall|j: int|
            0 <= j < r@.len() ==> ({
                &&& idxs@.contains((#[trigger] r@[j]).1)
                &&& (r@[j].1) < vectors@.len()
                &&& eligible(query@, vectors@[r@[j].1 as int]@, qnorm, min_score)
                &&& r@[j].0 == score_spec(
                    query@,
                    vectors@[r@[j].1 as int]@.embedding,
                    qnorm,
                    vectors@[r@[j].1 as int]@.norm,
                )
            }),
        forall|j1: int, j2: int|
            0 <= j1 < r@.len() && 0 <= j2 < r@.len() && j1 != j2 ==> (#[trigger] r@[j1]).1 != (
            #[trigger] r@[j2]).1,
        forall|p: int|
            0 <= p < idxs@.len() && eligible(
                query@,
                vectors@[#[trigger] idxs@[p] as int]@,
                qnorm,
                min_score,
            ) ==> exists|j: int| 0 <= j < r@.len() && (#[trigger] r@[j]).1 == idxs@[p],
{
    let n = idxs.len();
    let mut out: Vec<(i64, usize)> = Vec::new();
    let mut p: usize = 0;
    while p < n
        invariant
            0 <= p <= n,
            n == idxs@.len(),
            valid_embedding_seq(query@),
            qnorm > 0,
            forall|i: int| 0 <= i < idxs@.len() ==> (#[trigger] idxs@[i]) < vectors@.len(),
            idxs@.no_duplicates(),
            out@.len() == eligible_count(query@, vectors@, idxs@.take(p as int), qnorm, min_score),
            forall|j: int|
                0 <= j < out@.len() ==> ({
                    &&& idxs@.take(p as int).contains((#[trigger] out@[j]).1)
                    &&& (out@[j].1) < vectors@.len()
                    &&& eligible(query@, vectors@[out@[j].1 as int]@, qnorm, min_score)
                    &&& out@[j].0 == score_spec(
                        query@,
                        vectors@[out@[j].1 as int]@.embedding,
                        qnorm,
                        vectors@[out@[j].1 as int]@.norm,
                    )
                }),
            forall|j1: int, j2: int|
                0 <= j1 < out@.len() && 0 <= j2 < out@.len() && j1 != j2 ==> (
                #[trigger] out@[j1]).1 != (#[trigger] out@[j2]).1,
            forall|p2: int|
                0 <= p2 < p && eligible(
                    query@,
                    vectors@[#[trigger] idxs@[p2] as int]@,
                    qnorm,
                    min_score,
                ) ==> exists|j: int| 0 <= j < out@.len() && (#[trigger] out@[j]).1 == idxs@[p2],
        decreases n - p,
    {
        proof {
            assert(idxs@.take(p + 1).drop_last() =~= idxs@.take(p as int));
            assert(idxs@.take(p + 1).last() == idxs@[p as int]);
        }
        let ix = idxs[p];
        let v = &vectors[ix];
        let ghost pre = out@;
        let passes = match cosine_similarity(query, &v.embedding, qnorm, v.norm) {
            Ok(s) => {
                let keep = match min_score {
                    Some(m) => s >= m,
                    None => true,
                };
                if keep {
                    out.push((s, ix));
                    proof {
                        assert(out@[out@.len() - 1].1 == idxs@[p as int]);
                        assert(idxs@.take(p + 1).contains(idxs@[p as int]));
                        assert(!idxs@.take(p as int).contains(idxs@[p as int])) by {
                            if idxs@.take(p as int).contains(idxs@[p as int]) {
                                let q2 = choose|q2: int|
                                    0 <= q2 < p && #[trigger] idxs@.take(p as int)[q2]
                                        == idxs@[p as int];
                                assert(idxs@[q2] == idxs@[p as int]);
                            }
                        }
                    }
                }
                keep
            },
            Err(_) => false,
        };
        proof {
            assert forall|j: int|
                0 <= j < out@.len() implies idxs@.take(p + 1).contains(
                (#[trigger] out@[j]).1,
            ) by {
                if j < pre.len() {
                    assert(pre[j] == out@[j]);
                    let q2 = choose|q2: int|
                        0 <= q2 < p && #[trigger] idxs@.take(p as int)[q2] == pre[j].1;
                    assert(idxs@.take(p + 1)[q2] == pre[j].1);
                }
            }
            assert forall|p2: int|
                0 <= p2 < p + 1 && eligible(
                    query@,
                    vectors@[#[trigger] idxs@[p2] as int]@,
                    qnorm,
                    min_score,
                ) implies exists|j: int|
                0 <= j < out@.len() && (#[trigger] out@[j]).1 == idxs@[p2] by {
                if p2 < p {
                    let j = choose|j: int| 0 <= j < pre.len() && (#[trigger] pre[j]).1 == idxs@[p2];
                    assert(out@[j].1 == idxs@[p2]);
                } else {
                    assert(passes);
                    assert(out@[out@.len() - 1].1 == idxs@[p2]);
                }
            }
        }
        p += 1;
    }
    proof {
        assert(idxs@.take(n as int) =~= idxs@);
    }
    out
}

// =============================================================================
// SORTING AND TRUNCATION
// =============================================================================

/// Scores descending: every earlier entry scores at least as much as every
/// later one.
pub open spec fn sorted_desc(s: Seq<(i64, usize)>) -> bool {
    forall|i: int, j: int| 0 <= i < j < s.len() ==> (#[trigger] s[i]).0 >= (#[trigger] s[j]).0
}

/// Sorts scored candidates by score, highest first, keeping exactly the
/// same entries.
pub fn sort_by_score_desc(items: Vec<(i64, usize)>) -> (r: Vec<(i64, usize)>)
    ensures
        r@.len() == items@.len(),
        r@.to_multiset() == items@.to_multiset(),
        sorted_desc(r@),
{
    broadcast use vstd::seq_lib::group_to_multiset_ensures;

    let mut rest = items;
    let mut out: Vec<(i64, usize)> = Vec::new();
    proof {
        assert(out@.to_multiset().add(rest@.to_multiset()) =~= items@.to_multiset());
    }
    while rest.len() > 0
        invariant
            out@.to_multiset().add(rest@.to_multiset()) == items@.to_multiset(),
            out@.len() + rest@.len() == items@.len(),
            sorted_desc(out@),
            forall|i: int, j: int|
                0 <= i < out@.len() && 0 <= j < rest@.len() ==> (#[trigger] out@[i]).0 >= (
                #[trigger] rest@[j]).0,
        decreases rest@.len(),
    {
        broadcast use vstd::seq_lib::group_to_multiset_ensures;

        let rn = rest.len();
        let mut m: usize = 0;
        let mut q: usize = 1;
        while q < rn
            invariant
                0 <= m < q <= rn,
                rn == rest@.len(),
                forall|j: int| 0 <= j < q ==> (#[trigger] rest@[j]).0 <= rest@[m as int].0,
            decreases rn - q,
        {
            if rest[q].0 > rest[m].0 {
                m = q;
            }
            q += 1;
        }
        let ghost pre_rest = rest@;
        let ghost pre_out = out@;
        let x = rest.remove(m);
        out.push(x);
        proof {
            assert(pre_rest.remove(m as int).to_multiset() =~= pre_rest.to_multiset().remove(x));
            assert(pre_out.push(x).to_multiset() =~= pre_out.to_multiset().insert(x));
            assert(pre_rest.to_multiset().contains(x)) by {
                assert(pre_rest.contains(x)) by {
                    assert(pre_rest[m as int] == x);
                }
            }
            assert(out@.to_multiset().add(rest@.to_multiset()) =~= items@.to_multiset());
            assert forall|i: int, j: int|
                0 <= i < out@.len() && 0 <= j < rest@.len() implies (#[trigger] out@[i]).0 >= (
                #[trigger] rest@[j]).0 by {
                if j < m {
                    assert(rest@[j] == pre_rest[j]);
                } else {
                    assert(rest@[j] == pre_rest[j + 1]);
                }
                if i < pre_out.len() {
                    assert(out@[i] == pre_out[i]);
                } else {
                    assert(out@[i] == x);
                }
            }
            assert(sorted_desc(out@)) by {
                assert forall|i: int, j: int|
                    0 <= i < j < out@.len() implies (#[trigger] out@[i]).0 >= (
                    #[trigger] out@[j]).0 by {
                    if j < out@.len() - 1 {
                        assert(out@[i] == pre_out[i] && out@[j] == pre_out[j]);
                    } else {
                        assert(out@[j] == x);
                        if i < pre_out.len() {
                            assert(out@[i] == pre_out[i]);
                            assert(pre_out[i].0 >= pre_rest[m as int].0);
                        }
                    }
                }
            }
        }
    }
    proof {
        assert(rest@.to_multiset() =~= Multiset::<(i64, usize)>::empty());
        assert(out@.to_multiset().add(rest@.to_multiset()) =~= out@.to_multiset());
    }
    out
}

/// The full top-k search over a candidate index list: score, sort, cut to
/// the result cap.  The result is sorted, exact, and complete: every
/// eligible candidate either appears or scores no more than the last kept
/// entry of a full result.
pub fn search_top_k(
    query: &Vec<i64>,
    qnorm: i64,
    vectors: &Vec<Vector>,
    idxs: &Vec<usize>,
    min_score: Option<i64>,
    max_results: u32,
) -> (r: Vec<(i64, usize)>)
    requires
        valid_embedding_seq(query@),
        qnorm > 0,
        forall|i: int| 0 <= i < idxs@.len() ==> (#[trigger] idxs@[i]) < vectors@.len(),
        idxs@.no_duplicates(),
    ensures
        sorted_desc(r@),
        r@.len() <= max_results,
        r@.len() == vstd::math::min(
            max_results as int,
            eligible_count(query@, vectors@, idxs@, qnorm, min_score),
        ),
        forall|j: int|
            0 <= j < r@.len() ==> ({
                &&& idxs@.contains((#[trigger] r@[j]).1)
                &&& (r@[j].1) < vectors@.len()
                &&& eligible(query@, vectors@[r@[j].1 as int]@, qnorm, min_score)
                &&& r@[j].0 == score_spec(
                    query@,
                    vectors@[r@[j].1 as int]@.embedding,
                    qnorm,
                    vectors@[r@[j].1 as int]@.norm,
                )
            }),
        forall|j1: int, j2: int|
            0 <= j1 < r@.len() && 0 <= j2 < r@.len() && j1 != j2 ==> (#[trigger] r@[j1]).1 != (
            #[trigger] r@[j2]).1,
        forall|p: int|
            0 <= p < idxs@.len() && eligible(
                query@,
                vectors@[#[trigger] idxs@[p] as int]@,
                qnorm,
                min_score,
            ) && !(exists|j: int| 0 <= j < r@.len() && (#[trigger] r@[j]).1 == idxs@[p]) ==> (
            r@.len() == max_results && (r@.len() == 0 || score_spec(
                query@,
                vectors@[idxs@[p] as int]@.embedding,
                qnorm,
                vectors@[idxs@[p] as int]@.norm,
            ) <= r@[r@.len() - 1].0)),
{
    broadcast use vstd::seq_lib::group_to_multiset_ensures;

    let candidates = score_candidates(query, qnorm, vectors, idxs, min_score);
    let ghost cands = candidates@;
    let sorted = sort_by_score_desc(candidates);
    proof {
        lemma_multiset_pointwise(cands, sorted@);
    }
    let mut result = sorted;
    let ghost full = result@;
    result.truncate(max_results as usize);
    proof {
        if full.len() > max_results as usize {
            assert(result@ == full.subrange(0, max_results as int));
        } else {
            assert(result@ == full);
        }
        assert forall|p: int|
            0 <= p < idxs@.len() && eligible(
                query@,
                vectors@[#[trigger] idxs@[p] as int]@,
                qnorm,
                min_score,
            ) && !(exists|j: int| 0 <= j < result@.len() && (#[trigger] result@[j]).1 == idxs@[p])
            implies (result@.len() == max_results && (result@.len() == 0 || score_spec(
            query@,
            vectors@[idxs@[p] as int]@.embedding,
            qnorm,
            vectors@[idxs@[p] as int]@.norm,
        ) <= result@[result@.len() - 1].0)) by {
            let jc = choose|jc: int| 0 <= jc < cands.len() && (#[trigger] cands[jc]).1 == idxs@[p];
            assert(full.to_multiset().contains(cands[jc])) by {
                assert(cands.to_multiset().contains(cands[jc])) by {
                    assert(cands.contains(cands[jc]));
                }
            }
            assert(full.contains(cands[jc]));
            let jf = choose|jf: int| 0 <= jf < full.len() && full[jf] == cands[jc];
            assert(jf >= result@.len()) by {
                if jf < result@.len() {
                    assert(result@[jf] == full[jf]);
                    assert(result@[jf].1 == idxs@[p]);
                }
            }
            assert(full.len() > max_results);
            assert(result@.len() == max_results);
            if result@.len() > 0 {
                assert(full[jf].0 <= full[result@.len() - 1].0);
                assert(result@[result@.len() - 1] == full[result@.len() - 1]);
            }
            assert(cands[jc].0 == score_spec(
                query@,
                vectors@[idxs@[p] as int]@.embedding,
                qnorm,
                vectors@[idxs@[p] as int]@.norm,
            ));
        }
    }
    result
}

/// Entries of multiset-equal sequences appear in both, and distinctness of
/// indices carries over.
proof fn lemma_multiset_pointwise(a: Seq<(i64, usize)>, b: Seq<(i64, usize)>)
    requires
        a.to_multiset() == b.to_multiset(),
        forall|j1: int, j2: int|
            0 <= j1 < a.len() && 0 <= j2 < a.len() && j1 != j2 ==> (#[trigger] a[j1]).1 != (
            #[trigger] a[j2]).1,
    ensures
        forall|j: int| 0 <= j < b.len() ==> a.contains(#[trigger] b[j]),
        forall|j: int| 0 <= j < a.len() ==> b.contains(#[trigger] a[j]),
        forall|j1: int, j2: int|
            0 <= j1 < b.len() && 0 <= j2 < b.len() && j1 != j2 ==> (#[trigger] b[j1]).1 != (
            #[trigger] b[j2]).1,
{
    broadcast use vstd::seq_lib::group_to_multiset_ensures;

    assert forall|j: int| 0 <= j < b.len() implies a.contains(#[trigger] b[j]) by {
        assert(b.contains(b[j]));
        assert(b.to_multiset().contains(b[j]));
        assert(a.to_multiset().contains(b[j]));
    }
    assert forall|j: int| 0 <= j < a.len() implies b.contains(#[trigger] a[j]) by {
        assert(a.contains(a[j]));
        assert(a.to_multiset().contains(a[j]));
        assert(b.to_multiset().contains(a[j]));
    }
    assert forall|j1: int, j2: int|
        0 <= j1 < b.len() && 0 <= j2 < b.len() && j1 != j2 implies (#[trigger] b[j1]).1 != (
        #[trigger] b[j2]).1 by {
        if b[j1].1 == b[j2].1 {
            if b[j1] == b[j2] {
                let v = b[j1];
                lemma_two_positions_count(b, if j1 < j2 {
                    j1
                } else {
                    j2
                }, if j1 < j2 {
                    j2
                } else {
                    j1
                });
                assert(a.to_multiset().count(v) >= 2);
                lemma_count_two_positions(a, v);
                let (i1, i2) = choose|i1: int, i2: int|
                    0 <= i1 < a.len() && 0 <= i2 < a.len() && i1 != i2 && #[trigger] a[i1] == v
                        && #[trigger] a[i2] == v;
                assert(a[i1].1 == a[i2].1);
            } else {
                let i1 = choose|i1: int| 0 <= i1 < a.len() && a[i1] == b[j1];
                let i2 = choose|i2: int| 0 <= i2 < a.len() && a[i2] == b[j2];
                assert(a[i1].1 == a[i2].1);
                assert(i1 != i2);
            }
        }
    }
}

// =============================================================================
// MATCH CONSTRUCTION
// =============================================================================

/// Whether a match record reports one stored vector faithfully: its score
/// is the exact cosine score, its ids are the vector's, and the enrichment
/// fields reflect the store.
pub open spec fn matches_vector(
    m: crate::types::VectorMatchV,
    q: Seq<i64>,
    qnorm: i64,
    v: VectorV,
    store: crate::store::Store,
    c: Seq<char>,
    min_score: Option<i64>,
) -> bool {
    &&& eligible(q, v, qnorm, min_score)
    &&& m.score == score_spec(q, v.embedding, qnorm, v.norm)
    &&& m.document_id == v.document_id
    &&& m.chunk_id == v.chunk_id
    &&& match m.document_title {
        Some(t) => crate::documents::document_visible(store, c, v.document_id) && t
            == store.documents@[crate::store::doc_key(c, v.document_id)]@.title,
        None => !crate::documents::document_visible(store, c, v.document_id),
    }
    &&& match m.chunk_text {
        Some(t) => store.chunks@.contains_key(v.document_id) && (exists|i: int|
            0 <= i < store.chunks@[v.document_id]@.len() && (
            #[trigger] store.chunks@[v.document_id]@[i]).id == v.chunk_id
                && store.chunks@[v.document_id]@[i].text == t),
        None => !store.chunks@.contains_key(v.document_id) || (forall|i: int|
            0 <= i < store.chunks@[v.document_id]@.len() ==> (
            #[trigger] store.chunks@[v.document_id]@[i]).id != v.chunk_id),
    }
}

/// Whether a match record faithfully reports some vector of the list.
pub open spec fn match_from(
    m: crate::types::VectorMatchV,
    q: Seq<i64>,
    qnorm: i64,
    vs: Seq<VectorV>,
    store: crate::store::Store,
    c: Seq<char>,
    min_score: Option<i64>,
) -> bool {
    exists|ix: int| 0 <= ix < vs.len() && matches_vector(m, q, qnorm, #[trigger] vs[ix], store, c, min_score)
}

/// Match scores descending.
pub open spec fn sorted_matches(ms: Seq<crate::types::VectorMatchV>) -> bool {
    forall|i: int, j: int|
        0 <= i < j < ms.len() ==> (#[trigger] ms[i]).score >= (#[trigger] ms[j]).score
}

/// Builds the enriched match records for scored candidates, in order.
fn enrich_matches(
    store: &crate::store::Store,
    collection_id: &String,
    query: &Vec<i64>,
    qnorm: i64,
    vectors: &Vec<Vector>,
    pairs: &Vec<(i64, usize)>,
    min_score: Option<i64>,
) -> (r: Vec<crate::types::VectorMatch>)
    requires
        forall|j: int|
            0 <= j < pairs@.len() ==> ({
                &&& ((#[trigger] pairs@[j]).1) < vectors@.len()
                &&& eligible(query@, vectors@[pairs@[j].1 as int]@, qnorm, min_score)
                &&& pairs@[j].0 == score_spec(
                    query@,
                    vectors@[pairs@[j].1 as int]@.embedding,
                    qnorm,
                    vectors@[pairs@[j].1 as int]@.norm,
                )
            }),
    ensures
        r@.len() == pairs@.len(),
        forall|j: int|
            0 <= j < r@.len() ==> ((#[trigger] r@[j])@.score == pairs@[j].0 && matches_vector(
                r@[j]@,
                query@,
                qnorm,
                vectors@[pairs@[j].1 as int]@,
                *store,
                collection_id@,
                min_score,
            )),
{
    let n = pairs.len();
    let mut out: Vec<crate::types::VectorMatch> = Vec::new();
    let mut j: usize = 0;
    while j < n
        invariant
            0 <= j <= n,
            n == pairs@.len(),
            out@.len() == j,
            forall|j2: int|
                0 <= j2 < pairs@.len() ==> ({
                    &&& ((#[trigger] pairs@[j2]).1) < vectors@.len()
                    &&& eligible(query@, vectors@[pairs@[j2].1 as int]@, qnorm, min_score)
                    &&& pairs@[j2].0 == score_spec(
                        query@,
                        vectors@[pairs@[j2].1 as int]@.embedding,
                        qnorm,
                        vectors@[pairs@[j2].1 as int]@.norm,
                    )
                }),
            forall|j2: int|
                0 <= j2 < out@.len() ==> ((#[trigger] out@[j2])@.score == pairs@[j2].0
                    && matches_vector(
                    out@[j2]@,
                    query@,
                    qnorm,
                    vectors@[pairs@[j2].1 as int]@,
                    *store,
                    collection_id@,
                    min_score,
                )),
        decreases n - j,
    {
        let ix = pairs[j].1;
        let v = &vectors[ix];
        let title = crate::documents::get_document_title(store, collection_id, &v.document_id);
        let text = crate::documents::get_chunk_text(store, &v.document_id, &v.chunk_id);
        let m = crate::types::VectorMatch {
            score: pairs[j].0,
            document_id: v.document_id.clone(),
            chunk_id: v.chunk_id.clone(),
            document_title: title,
            chunk_text: text,
        };
        out.push(m);
        j += 1;
    }
    out
}

/// The index list `0, 1, ..., n-1`.
fn all_indices(n: usize) -> (r: Vec<usize>)
    ensures
        r@.len() == n,
        forall|i: int| 0 <= i < n ==> (#[trigger] r@[i]) == i,
        r@.no_duplicates(),
{
    let mut out: Vec<usize> = Vec::new();
    let mut i: usize = 0;
    while i < n
        invariant
            0 <= i <= n,
            out@.len() == i,
            forall|j: int| 0 <= j < i ==> (#[trigger] out@[j]) == j,
        decreases n - i,
    {
        out.push(i);
        i += 1;
    }
    out
}

/// Collections larger than this go through the approximate path when the
/// configuration allows it.
pub const APPROX_THRESHOLD: usize = 1000;

/// What a search leaves in the cache for its collection: a fresh entry
/// before implies a fresh entry after, and any fresh entry afterwards holds
/// exactly the effective vector set the search ran over.
pub open spec fn fresh_key_after_search(
    cache0: crate::cache::BoundedCache,
    cache1: crate::cache::BoundedCache,
    store: crate::store::Store,
    c: Seq<char>,
    now: u64,
) -> bool {
    &&& (crate::cache::fresh_key(cache0.entries@, c, now) ==> crate::cache::fresh_key(
        cache1.entries@,
        c,
        now,
    ))
    &&& (crate::cache::fresh_key(cache1.entries@, c, now)
        ==> crate::util::views_of_vectors(cache1.entries@[c].vectors@) == effective_vectors(
        cache0,
        store,
        c,
        now,
    ))
}

/// The vector set a search runs over: the cached entry when it is fresh,
/// and the authoritative stored set otherwise.
pub open spec fn effective_vectors(
    cache0: crate::cache::BoundedCache,
    store: crate::store::Store,
    c: Seq<char>,
    now: u64,
) -> Seq<VectorV> {
    if crate::cache::fresh_key(cache0.entries@, c, now) {
        crate::util::views_of_vectors(cache0.entries@[c].vectors@)
    } else if store.vector_index@.contains_key(c) {
        crate::vectors::resolved_vectors(store, store.vector_index@[c]@)
    } else {
        Seq::empty()
    }
}

/// How many vectors of a list are eligible for a query.
pub open spec fn eligible_count_views(
    q: Seq<i64>,
    vs: Seq<VectorV>,
    qnorm: i64,
    min_score: Option<i64>,
) -> int
    decreases vs.len(),
{
    if vs.len() == 0 {
        0
    } else {
        eligible_count_views(q, vs.drop_last(), qnorm, min_score) + (if eligible(
            q,
            vs.last(),
            qnorm,
            min_score,
        ) {
            1int
        } else {
            0int
        })
    }
}

/// The count over all indices equals the count over the views.
proof fn lemma_counts_agree(
    q: Seq<i64>,
    vectors: Seq<Vector>,
    idxs: Seq<usize>,
    qnorm: i64,
    min_score: Option<i64>,
)
    requires
        idxs.len() == vectors.len(),
        forall|i: int| 0 <= i < idxs.len() ==> (#[trigger] idxs[i]) == i,
    ensures
        eligible_count(q, vectors, idxs, qnorm, min_score) == eligible_count_views(
            q,
            crate::util::views_of_vectors(vectors),
            qnorm,
            min_score,
        ),
    decreases idxs.len(),
{
    let vs = crate::util::views_of_vectors(vectors);
    if idxs.len() > 0 {
        let n = idxs.len();
        let short = idxs.drop_last();
        let vshort = vectors.drop_last();
        assert forall|i: int| 0 <= i < short.len() implies (#[trigger] short[i]) == i by {
            assert(short[i] == idxs[i]);
        }
        lemma_counts_agree(q, vshort, short, qnorm, min_score);
        assert(crate::util::views_of_vectors(vshort) =~= vs.drop_last());
        assert(eligible_count(q, vshort, short, qnorm, min_score) == eligible_count(
            q,
            vectors,
            short,
            qnorm,
            min_score,
        )) by {
            lemma_count_shorter(q, vectors, vshort, short, qnorm, min_score);
        }
        assert(idxs.last() == n - 1);
        assert(vectors[idxs.last() as int]@ == vs.last());
    }
}

/// The eligibility count only reads the vectors the index list names.
proof fn lemma_count_shorter(
    q: Seq<i64>,
    vectors: Seq<Vector>,
    vshort: Seq<Vector>,
    idxs: Seq<usize>,
    qnorm: i64,
    min_score: Option<i64>,
)
    requires
        forall|i: int|
            0 <= i < idxs.len() ==> (#[trigger] idxs[i]) < vshort.len() && vshort[idxs[i] as int]
                == vectors[idxs[i] as int],
    ensures
        eligible_count(q, vshort, idxs, qnorm, min_score) == eligible_count(
            q,
            vectors,
            idxs,
            qnorm,
            min_score,
        ),
    decreases idxs.len(),
{
    if idxs.len() > 0 {
        let short = idxs.drop_last();
        assert forall|i: int|
            0 <= i < short.len() implies (#[trigger] short[i]) < vshort.len()
                && vshort[short[i] as int] == vectors[short[i] as int] by {
            assert(short[i] == idxs[i]);
        }
        lemma_count_shorter(q, vectors, vshort, short, qnorm, min_score);
        assert(idxs[idxs.len() - 1] == idxs.last());
    }
}

/// Cosine-similarity search over a collection: validates the query, takes
/// the vector set through the cache, scores and ranks it (approximately for
/// large sets when allowed), and enriches each match with document title
/// and chunk text.  The result is sorted by score descending, capped, with
/// every score the exact cosine of the query and the reported vector; the
/// exact path also returns the full top-k.
pub fn cosine_similarity_search(
    store: &crate::store::Store,
    cache: &mut crate::cache::BoundedCache,
    query_embedding: &Vec<i64>,
    collection_id: &String,
    config: &SimilarityConfig,
    now: u64,
) -> (r: Result<Vec<crate::types::VectorMatch>, String>)
    requires
        old(cache).wf(),
        store.wf(),
    ensures
        final (cache).wf(),
        r is Ok <==> (valid_embedding_seq(query_embedding@) && dot_spec(
            query_embedding@,
            query_embedding@,
        ) >= 1),
        fresh_key_after_search(*old(cache), *final (cache), *store, collection_id@, now),
        r matches Ok(ms) ==> ({
            let vs = effective_vectors(*old(cache), *store, collection_id@, now);
            exists|qnorm: i64|
                #![auto]
                {
                    &&& is_floor_sqrt(dot_spec(query_embedding@, query_embedding@), qnorm as int)
                    &&& qnorm > 0
                    &&& ms@.len() <= config.max_results
                    &&& sorted_matches(
                        Seq::new(ms@.len(), |j: int| ms@[j]@),
                    )
                    &&& forall|j: int|
                        0 <= j < ms@.len() ==> match_from(
                            (#[trigger] ms@[j])@,
                            query_embedding@,
                            qnorm,
                            vs,
                            *store,
                            collection_id@,
                            config.min_score,
                        )
                    &&& (!(config.use_approximate && vs.len() > APPROX_THRESHOLD) ==> ms@.len()
                        == vstd::math::min(
                        config.max_results as int,
                        eligible_count_views(query_embedding@, vs, qnorm, config.min_score),
                    ))
                    &&& ((config.use_approximate && vs.len() > APPROX_THRESHOLD && (forall|i: int|
                        0 <= i < vs.len() ==> eligible(
                            query_embedding@,
                            #[trigger] vs[i],
                            qnorm,
                            config.min_score,
                        ))) ==> ms@.len() >= vstd::math::min(
                        config.max_results as int,
                        vstd::math::min(candidate_target_spec(*config), vs.len() as int),
                    ))
                }
        }),
{
    match validate_embedding(query_embedding) {
        Ok(_) => {},
        Err(e) => {
            return Err(e);
        },
    }
    let qnorm = match calculate_norm(query_embedding) {
        Ok(n) => n,
        Err(e) => {
            return Err(e);
        },
    };
    let vectors = crate::cache::get_cached_vectors(cache, store, collection_id, now);
    let ghost vs = effective_vectors(*old(cache), *store, collection_id@, now);
    proof {
        assert(crate::util::views_of_vectors(vectors@) =~= vs);
        assert forall|i: int| 0 <= i < vs.len() implies (#[trigger] vs[i]) == vectors@[i]@ by {}
    }
    let pairs = if config.use_approximate && vectors.len() > APPROX_THRESHOLD {
        search_approximate(query_embedding, qnorm, &vectors, config)
    } else {
        let idxs = all_indices(vectors.len());
        let r = search_top_k(
            query_embedding,
            qnorm,
            &vectors,
            &idxs,
            config.min_score,
            config.max_results,
        );
        proof {
            lemma_counts_agree(query_embedding@, vectors@, idxs@, qnorm, config.min_score);
        }
        r
    };
    let matches = enrich_matches(
        store,
        collection_id,
        query_embedding,
        qnorm,
        &vectors,
        &pairs,
        config.min_score,
    );
    proof {
        assert forall|j: int|
            0 <= j < matches@.len() implies match_from(
            (#[trigger] matches@[j])@,
            query_embedding@,
            qnorm,
            vs,
            *store,
            collection_id@,
            config.min_score,
        ) by {
            let ix = pairs@[j].1;
            assert(vectors@[ix as int]@ == vs[ix as int]);
            assert(matches_vector(
                matches@[j]@,
                query_embedding@,
                qnorm,
                vs[ix as int],
                *store,
                collection_id@,
                config.min_score,
            ));
        }
        assert(sorted_matches(Seq::new(matches@.len(), |j: int| matches@[j]@)));
        if config.use_approximate && vectors@.len() > APPROX_THRESHOLD {
            if forall|i: int|
                0 <= i < vs.len() ==> eligible(
                    query_embedding@,
                    #[trigger] vs[i],
                    qnorm,
                    config.min_score,
                ) {
                assert forall|i: int|
                    0 <= i < vectors@.len() implies eligible(
                    query_embedding@,
                    (#[trigger] vectors@[i])@,
                    qnorm,
                    config.min_score,
                ) by {
                    assert(vs[i] == vectors@[i]@);
                }
                assert(pairs@.len() >= vstd::math::min(
                    config.max_results as int,
                    vstd::math::min(candidate_target_spec(*config), vs.len() as int),
                ));
            }
        }
    }
    Ok(matches)
}

/// Whether a vector's view appears in a view list.
pub open spec fn from_views(v: Vector, vs: Seq<VectorV>) -> bool {
    exists|p: int| 0 <= p < vs.len() && (#[trigger] vs[p]) == v@
}

/// The view of an optional allow-list of document ids.
pub open spec fn filter_views(df: Option<&Vec<String>>) -> Option<Seq<Seq<char>>> {
    match df {
        Some(ds) => Some(ds.deep_view()),
        None => None,
    }
}

/// Whether a vector passes the allow-list; no list admits everything.
pub open spec fn allowed_in(v: VectorV, fset: Option<Seq<Seq<char>>>) -> bool {
    match fset {
        Some(dv) => crate::util::seq_contains_string(dv, v.document_id),
        None => true,
    }
}

/// The vectors that take part in a filtered search.
pub open spec fn filtered_vectors(vs: Seq<VectorV>, fset: Option<Seq<Seq<char>>>) -> Seq<
    VectorV,
> {
    match fset {
        Some(_) => vs.filter(|v: VectorV| allowed_in(v, fset)),
        None => vs,
    }
}

/// Filtered search: only vectors of allow-listed documents take part, then
/// the ordinary ranking applies, approximately past the size threshold.
pub fn similarity_search_filtered(
    store: &crate::store::Store,
    cache: &mut crate::cache::BoundedCache,
    query_embedding: &Vec<i64>,
    collection_id: &String,
    document_filter: Option<&Vec<String>>,
    config: &SimilarityConfig,
    now: u64,
) -> (r: Result<Vec<crate::types::VectorMatch>, String>)
    requires
        old(cache).wf(),
        store.wf(),
    ensures
        final (cache).wf(),
        r is Ok <==> (valid_embedding_seq(query_embedding@) && dot_spec(
            query_embedding@,
            query_embedding@,
        ) >= 1),
        r matches Ok(ms) ==> ({
            let vs = effective_vectors(*old(cache), *store, collection_id@, now);
            exists|qnorm: i64|
                #![auto]
                {
                    &&& is_floor_sqrt(dot_spec(query_embedding@, query_embedding@), qnorm as int)
                    &&& qnorm > 0
                    &&& ms@.len() <= config.max_results
                    &&& sorted_matches(Seq::new(ms@.len(), |j: int| ms@[j]@))
                    &&& forall|j: int|
                        0 <= j < ms@.len() ==> match_from(
                            (#[trigger] ms@[j])@,
                            query_embedding@,
                            qnorm,
                            vs,
                            *store,
                            collection_id@,
                            config.min_score,
                        )
                    &&& (match document_filter {
                        Some(ds) => forall|j: int|
                            0 <= j < ms@.len() ==> crate::util::seq_contains_string(
                                ds.deep_view(),
                                (#[trigger] ms@[j])@.document_id,
                            ),
                        None => true,
                    })
                    &&& (!(config.use_approximate && filtered_vectors(
                        vs,
                        filter_views(document_filter),
                    ).len() > APPROX_THRESHOLD) ==> ms@.len() == vstd::math::min(
                        config.max_results as int,
                        eligible_count_views(
                            query_embedding@,
                            filtered_vectors(vs, filter_views(document_filter)),
                            qnorm,
                            config.min_score,
                        ),
                    ))
                }
        }),
{
    match validate_embedding(query_embedding) {
        Ok(_) => {},
        Err(e) => {
            return Err(e);
        },
    }
    let qnorm = match calculate_norm(query_embedding) {
        Ok(n) => n,
        Err(e) => {
            return Err(e);
        },
    };
    let vectors = crate::cache::get_cached_vectors(cache, store, collection_id, now);
    let ghost vs = effective_vectors(*old(cache), *store, collection_id@, now);
    proof {
        assert(crate::util::views_of_vectors(vectors@) =~= vs);
    }
    let n = vectors.len();
    let ghost fset: Option<Seq<Seq<char>>> = filter_views(document_filter);
    let mut owned: Vec<Vector> = Vec::new();
    let mut i: usize = 0;
    while i < n
        invariant
            0 <= i <= n,
            n == vectors@.len(),
            vs == crate::util::views_of_vectors(vectors@),
            fset == filter_views(document_filter),
            crate::util::views_of_vectors(owned@) == filtered_vectors(vs.take(i as int), fset),
            forall|j: int| 0 <= j < owned@.len() ==> from_views(#[trigger] owned@[j], vs),
            forall|j: int|
                0 <= j < owned@.len() ==> (fset matches Some(dv) ==> crate::util::seq_contains_string(
                    dv,
                    (#[trigger] owned@[j])@.document_id,
                )),
        decreases n - i,
    {
        let ghost pre = owned@;
        let keep = match document_filter {
            Some(ds) => crate::util::string_vec_contains(ds, &vectors[i].document_id),
            None => true,
        };
        proof {
            assert(keep == allowed_in(vs[i as int], fset));
        }
        if keep {
            let c = vectors[i].clone();
            owned.push(c);
            proof {
                assert(owned@[owned@.len() - 1]@ == vs[i as int]);
                assert forall|j: int|
                    0 <= j < owned@.len() implies from_views(#[trigger] owned@[j], vs) by {
                    if j < owned@.len() - 1 {
                        assert(owned@[j] == pre[j]);
                        assert(from_views(pre[j], vs));
                    } else {
                        assert(vs[i as int] == owned@[j]@);
                        assert(from_views(owned@[j], vs));
                    }
                }
            }
        }
        proof {
            assert(vs.take(i + 1).drop_last() =~= vs.take(i as int));
            assert(vs.take(i + 1).last() == vs[i as int]);
            match fset {
                Some(_) => {
                    reveal(Seq::filter);
                    if keep {
                        assert(crate::util::views_of_vectors(owned@)
                            =~= crate::util::views_of_vectors(pre).push(vs[i as int]));
                    }
                    assert(crate::util::views_of_vectors(owned@) =~= filtered_vectors(
                        vs.take(i + 1),
                        fset,
                    ));
                },
                None => {
                    assert(crate::util::views_of_vectors(owned@) =~= filtered_vectors(
                        vs.take(i + 1),
                        fset,
                    ));
                },
            }
        }
        i += 1;
    }
    proof {
        assert(vs.take(n as int) =~= vs);
        assert(crate::util::views_of_vectors(owned@) == filtered_vectors(vs, fset));
    }
    let pairs = if config.use_approximate && owned.len() > APPROX_THRESHOLD {
        search_approximate(query_embedding, qnorm, &owned, config)
    } else {
        let idxs = all_indices(owned.len());
        let r = search_top_k(
            query_embedding,
            qnorm,
            &owned,
            &idxs,
            config.min_score,
            config.max_results,
        );
        proof {
            lemma_counts_agree(query_embedding@, owned@, idxs@, qnorm, config.min_score);
        }
        r
    };
    let matches = enrich_matches(
        store,
        collection_id,
        query_embedding,
        qnorm,
        &owned,
        &pairs,
        config.min_score,
    );
    proof {
        assert forall|j: int|
            0 <= j < matches@.len() implies (match_from(
            (#[trigger] matches@[j])@,
            query_embedding@,
            qnorm,
            vs,
            *store,
            collection_id@,
            config.min_score,
        ) && (match document_filter {
            Some(ds) => crate::util::seq_contains_string(
                ds.deep_view(),
                matches@[j]@.document_id,
            ),
            None => true,
        })) by {
            let ix = pairs@[j].1;
            assert(fset matches Some(dv) ==> crate::util::seq_contains_string(
                dv,
                owned@[ix as int]@.document_id,
            ));
            assert(from_views(owned@[ix as int], vs));
            let p = choose|p: int| 0 <= p < vs.len() && (#[trigger] vs[p]) == owned@[ix as int]@;
            assert(matches_vector(
                matches@[j]@,
                query_embedding@,
                qnorm,
                vs[p],
                *store,
                collection_id@,
                config.min_score,
            ));
        }
        assert(sorted_matches(Seq::new(matches@.len(), |j: int| matches@[j]@)));
    }
    Ok(matches)
}

/// What one batch round guarantees for its query: some norm of the query
/// under which the round's matches are capped, sorted, exactly scored
/// against the effective set, and complete on the exact path.
pub open spec fn batch_round_ok(
    result: Seq<crate::types::VectorMatch>,
    q: Seq<i64>,
    vs: Seq<VectorV>,
    store: crate::store::Store,
    c: Seq<char>,
    config: SimilarityConfig,
) -> bool {
    exists|qnorm: i64|
        #![auto]
        {
            &&& is_floor_sqrt(dot_spec(q, q), qnorm as int)
            &&& qnorm > 0
            &&& result.len() <= config.max_results
            &&& sorted_matches(Seq::new(result.len(), |j: int| result[j]@))
            &&& (forall|j: int|
                0 <= j < result.len() ==> match_from(
                    (#[trigger] result[j])@,
                    q,
                    qnorm,
                    vs,
                    store,
                    c,
                    config.min_score,
                ))
            &&& (!(config.use_approximate && vs.len() > APPROX_THRESHOLD) ==> result.len()
                == vstd::math::min(
                config.max_results as int,
                eligible_count_views(q, vs, qnorm, config.min_score),
            ))
        }
}

/// Runs the same search for several queries in turn, one collection fetch
/// per query; the first invalid query fails the whole batch.  Every query
/// is answered over the same effective vector set: what the cache held at
/// the start, or the authoritative stored set.
pub fn compute_similarity_batch(
    store: &crate::store::Store,
    cache: &mut crate::cache::BoundedCache,
    query_embeddings: &Vec<Vec<i64>>,
    collection_id: &String,
    config: &SimilarityConfig,
    now: u64,
) -> (r: Result<Vec<Vec<crate::types::VectorMatch>>, String>)
    requires
        old(cache).wf(),
        store.wf(),
    ensures
        final (cache).wf(),
        r matches Ok(rs) ==> ({
            let vs = effective_vectors(*old(cache), *store, collection_id@, now);
            &&& rs@.len() == query_embeddings@.len()
            &&& forall|k: int|
                0 <= k < rs@.len() ==> batch_round_ok(
                    (#[trigger] rs@[k])@,
                    query_embeddings@[k]@,
                    vs,
                    *store,
                    collection_id@,
                    *config,
                )
        }),
        r is Ok <==> (forall|k: int|
            0 <= k < query_embeddings@.len() ==> (valid_embedding_seq(
                (#[trigger] query_embeddings@[k])@,
            ) && dot_spec(query_embeddings@[k]@, query_embeddings@[k]@) >= 1)),
{
    let ghost cache0 = *old(cache);
    let ghost vs = effective_vectors(cache0, *store, collection_id@, now);
    let n = query_embeddings.len();
    let mut out: Vec<Vec<crate::types::VectorMatch>> = Vec::new();
    let mut k: usize = 0;
    while k < n
        invariant
            0 <= k <= n,
            n == query_embeddings@.len(),
            store.wf(),
            cache.wf(),
            vs == effective_vectors(cache0, *store, collection_id@, now),
            fresh_key_after_search(cache0, *cache, *store, collection_id@, now),
            out@.len() == k,
            forall|k2: int|
                0 <= k2 < k ==> batch_round_ok(
                    (#[trigger] out@[k2])@,
                    query_embeddings@[k2]@,
                    vs,
                    *store,
                    collection_id@,
                    *config,
                ),
            forall|k2: int|
                0 <= k2 < k ==> (valid_embedding_seq((#[trigger] query_embeddings@[k2])@)
                    && dot_spec(query_embeddings@[k2]@, query_embeddings@[k2]@) >= 1),
        decreases n - k,
    {
        let ghost pre_cache = *cache;
        proof {
            // every round still runs over the set the batch started from
            assert(effective_vectors(pre_cache, *store, collection_id@, now) == vs) by {
                if crate::cache::fresh_key(pre_cache.entries@, collection_id@, now) {
                } else {
                    if crate::cache::fresh_key(cache0.entries@, collection_id@, now) {
                        assert(crate::cache::fresh_key(pre_cache.entries@, collection_id@, now));
                    }
                }
            }
        }
        match cosine_similarity_search(store, cache, &query_embeddings[k], collection_id, config, now) {
            Ok(ms) => {
                let ghost pre_out = out@;
                out.push(ms);
                proof {
                    assert(fresh_key_after_search(cache0, *cache, *store, collection_id@, now))
                        by {
                        if crate::cache::fresh_key(cache.entries@, collection_id@, now) {
                            assert(crate::util::views_of_vectors(
                                cache.entries@[collection_id@].vectors@,
                            ) == effective_vectors(pre_cache, *store, collection_id@, now));
                        }
                    }
                    let q = query_embeddings@[k as int]@;
                    let msv = out@[k as int]@;
                    let qn = choose|qnorm: i64|
                        #![auto]
                        {
                            &&& is_floor_sqrt(dot_spec(q, q), qnorm as int)
                            &&& qnorm > 0
                            &&& msv.len() <= config.max_results
                            &&& sorted_matches(Seq::new(msv.len(), |j: int| msv[j]@))
                            &&& (forall|j: int|
                                0 <= j < msv.len() ==> match_from(
                                    (#[trigger] msv[j])@,
                                    q,
                                    qnorm,
                                    vs,
                                    *store,
                                    collection_id@,
                                    config.min_score,
                                ))
                            &&& (!(config.use_approximate && vs.len() > APPROX_THRESHOLD)
                                ==> msv.len() == vstd::math::min(
                                config.max_results as int,
                                eligible_count_views(q, vs, qnorm, config.min_score),
                            ))
                        };
                    assert(batch_round_ok(msv, q, vs, *store, collection_id@, *config));
                    assert forall|k2: int|
                        0 <= k2 < k + 1 implies batch_round_ok(
                        (#[trigger] out@[k2])@,
                        query_embeddings@[k2]@,
                        vs,
                        *store,
                        collection_id@,
                        *config,
                    ) by {
                        if k2 < k {
                            assert(out@[k2] == pre_out[k2]);
                        }
                    }
                }
            },
            Err(e) => {
                return Err(e);
            },
        }
        k += 1;
    }
    Ok(out)
}

// =============================================================================
// DOCUMENT CENTROIDS
// =============================================================================

/// Truncating division: toward zero, as the fixed-point scores use it.
pub open spec fn trunc_div(a: int, b: int) -> int {
    if a >= 0 {
        a / b
    } else {
        -((-a) / b)
    }
}

/// The sum of one embedding column over a vector list.
pub open spec fn column_sum(vs: Seq<VectorV>, d: int) -> int
    decreases vs.len(),
{
    if vs.len() == 0 {
        0
    } else {
        column_sum(vs.drop_last(), d) + (if 0 <= d < vs.last().embedding.len() {
            vs.last().embedding[d] as int
        } else {
            0
        })
    }
}

/// One component of a document centroid: the truncated mean of the column,
/// clamped to the admissible component range.
pub open spec fn centroid_component(vs: Seq<VectorV>, d: int) -> int {
    let m = trunc_div(column_sum(vs, d), vs.len() as int);
    if m > MAX_COMPONENT_MICRO as int {
        MAX_COMPONENT_MICRO as int
    } else if m < -(MAX_COMPONENT_MICRO as int) {
        -(MAX_COMPONENT_MICRO as int)
    } else {
        m
    }
}

/// The arithmetic mean of a document's vectors, dimension by dimension.
/// Fails on an empty list, on mixed dimensions, and on out-of-range data.
pub fn calculate_document_centroid(vectors: &Vec<Vector>) -> (r: Result<Vec<i64>, String>)
    ensures
        r is Ok <==> ({
            &&& vectors@.len() > 0
            &&& valid_embedding_seq(vectors@[0]@.embedding)
            &&& forall|i: int|
                0 <= i < vectors@.len() ==> (#[trigger] vectors@[i])@.embedding.len()
                    == vectors@[0]@.embedding.len() && valid_embedding_seq(vectors@[i]@.embedding)
        }),
        r matches Ok(c) ==> ({
            &&& c@.len() == vectors@[0]@.embedding.len()
            &&& forall|d: int|
                0 <= d < c@.len() ==> (#[trigger] c@[d]) as int == centroid_component(
                    crate::util::views_of_vectors(vectors@),
                    d,
                )
        }),
{
    let n = vectors.len();
    if n == 0 {
        return Err(String::from_str("Cannot calculate centroid of empty vector set"));
    }
    let dim = vectors[0].embedding.len();
    let mut i: usize = 0;
    while i < n
        invariant
            0 < n == vectors@.len(),
            0 <= i <= n,
            dim == vectors@[0]@.embedding.len(),
            forall|j: int|
                0 <= j < i ==> (#[trigger] vectors@[j])@.embedding.len() == dim
                    && valid_embedding_seq(vectors@[j]@.embedding),
        decreases n - i,
    {
        if vectors[i].embedding.len() != dim {
            return Err(String::from_str("Dimension mismatch"));
        }
        match validate_embedding(&vectors[i].embedding) {
            Ok(_) => {},
            Err(e) => {
                return Err(e);
            },
        }
        i += 1;
    }
    let ghost vs = crate::util::views_of_vectors(vectors@);
    let mut centroid: Vec<i64> = Vec::new();
    let mut d: usize = 0;
    while d < dim
        invariant
            0 < n == vectors@.len(),
            0 <= d <= dim,
            dim == vectors@[0]@.embedding.len(),
            vs == crate::util::views_of_vectors(vectors@),
            forall|j: int|
                0 <= j < n ==> (#[trigger] vectors@[j])@.embedding.len() == dim
                    && valid_embedding_seq(vectors@[j]@.embedding),
            centroid@.len() == d,
            forall|d2: int|
                0 <= d2 < d ==> (#[trigger] centroid@[d2]) as int == centroid_component(vs, d2),
        decreases dim - d,
    {
        let mut sum: i128 = 0;
        let mut i2: usize = 0;
        while i2 < n
            invariant
                0 < n == vectors@.len(),
                0 <= i2 <= n,
                0 <= d < dim,
                dim == vectors@[0]@.embedding.len(),
                vs == crate::util::views_of_vectors(vectors@),
                forall|j: int|
                    0 <= j < n ==> (#[trigger] vectors@[j])@.embedding.len() == dim
                        && valid_embedding_seq(vectors@[j]@.embedding),
                sum == column_sum(vs.take(i2 as int), d as int),
                -(i2 as int) * (MAX_COMPONENT_MICRO as int) <= sum <= (i2 as int) * (
                MAX_COMPONENT_MICRO as int),
            decreases n - i2,
        {
            proof {
                assert(vs.take(i2 + 1).drop_last() =~= vs.take(i2 as int));
                assert(vs.take(i2 + 1).last() == vs[i2 as int]);
                assert(vs[i2 as int] == vectors@[i2 as int]@);
            }
            let e = vectors[i2].embedding[d];
            sum = sum + (e as i128);
            i2 += 1;
        }
        proof {
            assert(vs.take(n as int) =~= vs);
        }
        let mean: i64 = if sum >= 0 {
            let q2 = (sum as u128) / (n as u128);
            if q2 > (MAX_COMPONENT_MICRO as u128) {
                MAX_COMPONENT_MICRO
            } else {
                q2 as i64
            }
        } else {
            let q2 = ((-sum) as u128) / (n as u128);
            if q2 > (MAX_COMPONENT_MICRO as u128) {
                -MAX_COMPONENT_MICRO
            } else {
                -(q2 as i64)
            }
        };
        centroid.push(mean);
        d += 1;
    }
    Ok(centroid)
}

/// Whether a document has any vectors reachable through its owning
/// collection's index.
pub open spec fn source_has_vectors(store: crate::store::Store, d: Seq<char>) -> bool {
    source_vector_views(store, d).len() > 0
}

/// The vectors a document's similarity search starts from: those its
/// owning collection's index resolves for it.
pub open spec fn source_vector_views(store: crate::store::Store, d: Seq<char>) -> Seq<VectorV> {
    match crate::vectors::first_owner(store.collection_ids.deep_view(), store.documents@, d) {
        Some(c) => if store.vector_index@.contains_key(c) {
            crate::vectors::doc_vectors_of(store, store.vector_index@[c]@, d)
        } else {
            Seq::empty()
        },
        None => Seq::empty(),
    }
}

/// The centroid of a vector set: the clamped truncated mean, dimension by
/// dimension, at the first vector's length.
pub open spec fn doc_centroid(sv: Seq<VectorV>) -> Seq<i64> {
    Seq::new(sv[0].embedding.len(), |d: int| centroid_component(sv, d) as i64)
}

/// The condition under which a document's centroid search goes through:
/// vectors exist, their dimensions agree, and the centroid is a valid
/// non-zero embedding.
pub open spec fn centroid_searchable(sv: Seq<VectorV>) -> bool {
    &&& sv.len() > 0
    &&& forall|i: int|
        0 <= i < sv.len() ==> ((#[trigger] sv[i]).embedding.len() == sv[0].embedding.len()
            && valid_embedding_seq(sv[i].embedding))
    &&& valid_embedding_seq(doc_centroid(sv))
    &&& dot_spec(doc_centroid(sv), doc_centroid(sv)) >= 1
}

/// Finds documents similar to a source document: searches with the
/// centroid of the source's vectors and drops matches from the source
/// itself.  It succeeds exactly when the source's vectors admit a valid,
/// non-zero centroid; every returned match scores the centroid exactly
/// against a vector of the collection and never names the source.
pub fn find_similar_documents(
    store: &crate::store::Store,
    cache: &mut crate::cache::BoundedCache,
    source_document_id: &String,
    collection_id: &String,
    config: &SimilarityConfig,
    now: u64,
) -> (r: Result<Vec<crate::types::VectorMatch>, String>)
    requires
        old(cache).wf(),
        store.wf(),
    ensures
        final (cache).wf(),
        r is Ok <==> centroid_searchable(source_vector_views(*store, source_document_id@)),
        r matches Ok(ms) ==> ({
            let sv = source_vector_views(*store, source_document_id@);
            let cen = doc_centroid(sv);
            let vs = effective_vectors(*old(cache), *store, collection_id@, now);
            exists|qnorm: i64|
                #![auto]
                {
                    &&& is_floor_sqrt(dot_spec(cen, cen), qnorm as int)
                    &&& qnorm > 0
                    &&& ms@.len() <= config.max_results
                    &&& sorted_matches(Seq::new(ms@.len(), |j: int| ms@[j]@))
                    &&& forall|j: int|
                        0 <= j < ms@.len() ==> (match_from(
                            (#[trigger] ms@[j])@,
                            cen,
                            qnorm,
                            vs,
                            *store,
                            collection_id@,
                            config.min_score,
                        ) && ms@[j]@.document_id != source_document_id@)
                }
        }),
{
    let ghost sv = source_vector_views(*store, source_document_id@);
    let source_vectors = crate::vectors::get_document_vectors(store, source_document_id);
    proof {
        assert(crate::util::views_of_vectors(source_vectors@) =~= sv);
    }
    if source_vectors.len() == 0 {
        return Err(String::from_str("No vectors found for document"));
    }
    let centroid = match calculate_document_centroid(&source_vectors) {
        Ok(c) => c,
        Err(e) => {
            proof {
                assert(!centroid_searchable(sv)) by {
                    if centroid_searchable(sv) {
                        assert forall|i: int|
                            0 <= i < source_vectors@.len() implies ((
                        #[trigger] source_vectors@[i])@.embedding.len()
                            == source_vectors@[0]@.embedding.len() && valid_embedding_seq(
                            source_vectors@[i]@.embedding,
                        )) by {
                            assert(sv[i] == source_vectors@[i]@);
                            assert(sv[0] == source_vectors@[0]@);
                        }
                    }
                }
            }
            return Err(e);
        },
    };
    proof {
        assert(centroid@ =~= doc_centroid(sv)) by {
            assert forall|d: int|
                0 <= d < centroid@.len() implies centroid@[d] == doc_centroid(sv)[d] by {
                assert(centroid@[d] as int == centroid_component(
                    crate::util::views_of_vectors(source_vectors@),
                    d,
                ));
            }
        }
        assert forall|i: int|
            0 <= i < sv.len() implies ((#[trigger] sv[i]).embedding.len()
            == sv[0].embedding.len() && valid_embedding_seq(sv[i].embedding)) by {
            assert(sv[i] == source_vectors@[i]@);
            assert(sv[0] == source_vectors@[0]@);
        }
    }
    let matches = match cosine_similarity_search(
        store,
        cache,
        &centroid,
        collection_id,
        config,
        now,
    ) {
        Ok(ms) => ms,
        Err(e) => {
            proof {
                assert(!(valid_embedding_seq(centroid@) && dot_spec(centroid@, centroid@) >= 1));
                assert(!centroid_searchable(sv));
            }
            return Err(e);
        },
    };
    proof {
        assert(centroid_searchable(sv));
    }
    let n = matches.len();
    let mut out: Vec<crate::types::VectorMatch> = Vec::new();
    let mut j: usize = 0;
    while j < n
        invariant
            0 <= j <= n,
            n == matches@.len(),
            out@.len() <= j,
            sorted_matches(Seq::new(matches@.len(), |x: int| matches@[x]@)),
            n <= config.max_results,
            forall|x: int|
                0 <= x < out@.len() ==> (#[trigger] out@[x])@.document_id != source_document_id@,
            sorted_matches(Seq::new(out@.len(), |x: int| out@[x]@)),
            forall|x: int|
                0 <= x < out@.len() ==> (exists|y: int|
                    0 <= y < j && (#[trigger] out@[x])@ == matches@[y]@),
        decreases n - j,
    {
        if !matches[j].document_id.eq(source_document_id) {
            let ghost pre = out@;
            let m = matches[j].clone();
            proof {
                assert(m@ == matches@[j as int]@);
            }
            out.push(m);
            proof {
                assert forall|x: int|
                    0 <= x < out@.len() implies (exists|y: int|
                    0 <= y < j + 1 && (#[trigger] out@[x])@ == matches@[y]@) by {
                    if x < out@.len() - 1 {
                        let y = choose|y: int| 0 <= y < j && (#[trigger] pre[x])@ == matches@[y]@;
                        assert(out@[x]@ == matches@[y]@);
                    } else {
                        assert(out@[x]@ == matches@[j as int]@);
                    }
                }
                assert(sorted_matches(Seq::new(out@.len(), |x: int| out@[x]@))) by {
                    let ov = Seq::new(out@.len(), |x: int| out@[x]@);
                    let mv = Seq::new(matches@.len(), |x: int| matches@[x]@);
                    assert forall|x1: int, x2: int|
                        0 <= x1 < x2 < ov.len() implies (#[trigger] ov[x1]).score >= (
                    #[trigger] ov[x2]).score by {
                        if x2 == ov.len() - 1 {
                            let y = choose|y: int|
                                0 <= y < j && (#[trigger] pre[x1])@ == matches@[y]@;
                            assert(mv[y].score >= mv[j as int].score);
                            assert(ov[x1] == pre[x1]@);
                            assert(ov[x2] == matches@[j as int]@);
                        } else {
                            assert(ov[x1] == pre[x1]@ && ov[x2] == pre[x2]@);
                            let pv = Seq::new(pre.len(), |x: int| pre[x]@);
                            assert(pv[x1].score >= pv[x2].score);
                        }
                    }
                }
            }
        }
        j += 1;
    }
    Ok(out)
}

// =============================================================================
// IN-MEMORY INDEX
// =============================================================================

/// An item of the in-memory index: an id, its text, and its embedding with
/// a precomputed norm, all in micro-units.
#[derive(Debug)]
pub struct MemoryVectorItem {
    pub id: String,
    pub text: String,
    pub embedding: Vec<i64>,
    pub norm: i64,
}

/// Whether an item takes part in a search: the micro-unit analogue of
/// valid data of the query's dimension meeting any score floor.
pub open spec fn eligible_item(
    q: Seq<i64>,
    item: MemoryVectorItem,
    qnorm: i64,
    min_score: Option<i64>,
) -> bool {
    &&& valid_embedding_seq(item.embedding@)
    &&& item.embedding@.len() == q.len()
    &&& item.norm > 0
    &&& score_fits(score_spec(q, item.embedding@, qnorm, item.norm))
    &&& match min_score {
        Some(m) => score_spec(q, item.embedding@, qnorm, item.norm) >= m,
        None => true,
    }
}

/// How many items of a list are eligible.
pub open spec fn eligible_item_count(
    q: Seq<i64>,
    items: Seq<MemoryVectorItem>,
    qnorm: i64,
    min_score: Option<i64>,
) -> int
    decreases items.len(),
{
    if items.len() == 0 {
        0
    } else {
        eligible_item_count(q, items.drop_last(), qnorm, min_score) + (if eligible_item(
            q,
            items.last(),
            qnorm,
            min_score,
        ) {
            1int
        } else {
            0int
        })
    }
}

/// Whether a search result reports one of the items exactly: its score is
/// the cosine score of the query and that item, and id and text are the
/// item's.
pub open spec fn result_from_items(
    rec: crate::types::MemorySearchResult,
    q: Seq<i64>,
    qnorm: i64,
    items: Seq<MemoryVectorItem>,
) -> bool {
    exists|ix: int|
        0 <= ix < items.len() && (rec.score == score_spec(
            q,
            (#[trigger] items[ix]).embedding@,
            qnorm,
            items[ix].norm,
        ) && rec.document_id@ == items[ix].id@ && rec.text@ == items[ix].text@)
}

/// A small self-contained index without persistence, fed item by item and
/// searched linearly.
#[derive(Debug)]
pub struct MemoryVectorIndex {
    pub items: Vec<MemoryVectorItem>,
}

impl MemoryVectorIndex {
    pub fn new() -> (r: Self)
        ensures
            r.items@.len() == 0,
    {
        MemoryVectorIndex { items: Vec::new() }
    }

    /// Adds a pre-embedded item.
    pub fn add_item(&mut self, item: MemoryVectorItem)
        ensures
            final (self).items@ == old(self).items@.push(item),
    {
        self.items.push(item);
    }

    pub fn len(&self) -> (r: usize)
        ensures
            r == self.items@.len(),
    {
        self.items.len()
    }

    pub fn is_empty(&self) -> (r: bool)
        ensures
            r == (self.items@.len() == 0),
    {
        self.items.len() == 0
    }

    pub fn clear(&mut self)
        ensures
            final (self).items@.len() == 0,
    {
        self.items = Vec::new();
    }

    /// Linear search over the items: exact scores, sorted descending,
    /// capped; items whose data cannot be scored are skipped.
    pub fn search_similar(
        &self,
        query_embedding: &Vec<i64>,
        query_norm: i64,
        max_results: usize,
        min_score: Option<i64>,
    ) -> (r: Result<Vec<crate::types::MemorySearchResult>, String>)
        requires
            valid_embedding_seq(query_embedding@),
            query_norm > 0,
        ensures
            r is Ok,
            r matches Ok(ms) ==> ({
                &&& ms@.len() == vstd::math::min(
                    max_results as int,
                    eligible_item_count(
                        query_embedding@,
                        self.items@,
                        query_norm,
                        min_score,
                    ),
                )
                &&& ms@.len() <= max_results
                &&& forall|i: int, j: int|
                    0 <= i < j < ms@.len() ==> (#[trigger] ms@[i]).score >= (
                    #[trigger] ms@[j]).score
                &&& forall|j: int|
                    0 <= j < ms@.len() ==> result_from_items(
                        #[trigger] ms@[j],
                        query_embedding@,
                        query_norm,
                        self.items@,
                    )
            }),
    {
        let n = self.items.len();
        let mut scored: Vec<(i64, usize)> = Vec::new();
        let mut i: usize = 0;
        while i < n
            invariant
                0 <= i <= n,
                n == self.items@.len(),
                valid_embedding_seq(query_embedding@),
                query_norm > 0,
                scored@.len() == eligible_item_count(
                    query_embedding@,
                    self.items@.take(i as int),
                    query_norm,
                    min_score,
                ),
                forall|j: int|
                    0 <= j < scored@.len() ==> (((#[trigger] scored@[j]).1) < n && scored@[j].0
                        == score_spec(
                        query_embedding@,
                        self.items@[scored@[j].1 as int].embedding@,
                        query_norm,
                        self.items@[scored@[j].1 as int].norm,
                    )),
            decreases n - i,
        {
            proof {
                assert(self.items@.take(i + 1).drop_last() =~= self.items@.take(i as int));
                assert(self.items@.take(i + 1).last() == self.items@[i as int]);
            }
            let item = &self.items[i];
            match cosine_similarity(query_embedding, &item.embedding, query_norm, item.norm) {
                Ok(s) => {
                    let keep = match min_score {
                        Some(m) => s >= m,
                        None => true,
                    };
                    if keep {
                        scored.push((s, i));
                    }
                },
                Err(_) => {},
            }
            i += 1;
        }
        proof {
            assert(self.items@.take(n as int) =~= self.items@);
        }
        let ghost pre_sorted = scored@;
        let sorted = sort_by_score_desc(scored);
        proof {
            broadcast use vstd::seq_lib::group_to_multiset_ensures;

            assert forall|j: int|
                0 <= j < sorted@.len() implies (((#[trigger] sorted@[j]).1) < n && sorted@[j].0
                    == score_spec(
                    query_embedding@,
                    self.items@[sorted@[j].1 as int].embedding@,
                    query_norm,
                    self.items@[sorted@[j].1 as int].norm,
                )) by {
                assert(sorted@.contains(sorted@[j]));
                assert(sorted@.to_multiset().contains(sorted@[j]));
                assert(pre_sorted.to_multiset().contains(sorted@[j]));
                assert(pre_sorted.contains(sorted@[j]));
                let p = choose|p: int| 0 <= p < pre_sorted.len() && pre_sorted[p] == sorted@[j];
            }
        }
        let mut limited = sorted;
        let ghost full = limited@;
        limited.truncate(max_results);
        proof {
            if full.len() > max_results {
                assert(limited@ == full.subrange(0, max_results as int));
            } else {
                assert(limited@ == full);
            }
            assert forall|x1: int, x2: int|
                0 <= x1 < x2 < limited@.len() implies (#[trigger] limited@[x1]).0 >= (
            #[trigger] limited@[x2]).0 by {
                assert(limited@[x1] == full[x1]);
                assert(limited@[x2] == full[x2]);
            }
        }
        let m = limited.len();
        let mut out: Vec<crate::types::MemorySearchResult> = Vec::new();
        let mut j: usize = 0;
        while j < m
            invariant
                0 <= j <= m,
                m == limited@.len(),
                m <= max_results,
                n == self.items@.len(),
                out@.len() == j,
                sorted_desc(limited@),
                forall|x: int|
                    0 <= x < limited@.len() ==> (((#[trigger] limited@[x]).1) < n && limited@[x].0
                        == score_spec(
                        query_embedding@,
                        self.items@[limited@[x].1 as int].embedding@,
                        query_norm,
                        self.items@[limited@[x].1 as int].norm,
                    )),
                forall|x: int| 0 <= x < out@.len() ==> (#[trigger] out@[x]).score == limited@[x].0,
                forall|x: int|
                    0 <= x < out@.len() ==> result_from_items(
                        #[trigger] out@[x],
                        query_embedding@,
                        query_norm,
                        self.items@,
                    ),
            decreases m - j,
        {
            let ix = limited[j].1;
            let item = &self.items[ix];
            let rec = crate::types::MemorySearchResult {
                document_id: item.id.clone(),
                chunk_id: String::new(),
                score: limited[j].0,
                text: item.text.clone(),
            };
            let ghost pre_out = out@;
            out.push(rec);
            proof {
                assert((out@[out@.len() - 1]).score == score_spec(
                    query_embedding@,
                    self.items@[ix as int].embedding@,
                    query_norm,
                    self.items@[ix as int].norm,
                ));
                assert(result_from_items(
                    out@[out@.len() - 1],
                    query_embedding@,
                    query_norm,
                    self.items@,
                ));
                assert forall|x: int|
                    0 <= x < out@.len() implies result_from_items(
                    #[trigger] out@[x],
                    query_embedding@,
                    query_norm,
                    self.items@,
                ) by {
                    if x < out@.len() - 1 {
                        assert(out@[x] == pre_out[x]);
                    }
                }
            }
            j += 1;
        }
        proof {
            assert forall|x1: int, x2: int|
                0 <= x1 < x2 < out@.len() implies (#[trigger] out@[x1]).score >= (
            #[trigger] out@[x2]).score by {
                assert(out@[x1].score == limited@[x1].0);
                assert(out@[x2].score == limited@[x2].0);
            }
            assert(out@.len() <= max_results);
        }
        Ok(out)
    }
}

// =============================================================================
// APPROXIMATE PATH: COARSE CLUSTERING
// =============================================================================

/// The squared Euclidean distance of two component sequences of one
/// length; unmatched tail components count nothing.
pub open spec fn dist_sq_spec(a: Seq<i64>, b: Seq<i64>) -> int
    decreases a.len(),
{
    if a.len() == 0 || b.len() == 0 {
        0
    } else {
        dist_sq_spec(a.drop_last(), b.drop_last()) + (if a.len() == b.len() {
            (a.last() - b.last()) * (a.last() - b.last())
        } else {
            0
        })
    }
}

/// The squared Euclidean distance between two bounded embeddings of equal
/// length, exactly.
fn distance_sq(a: &Vec<i64>, b: &Vec<i64>) -> (r: i128)
    requires
        a@.len() == b@.len(),
        a@.len() <= MAX_DIMENSIONS,
        forall|i: int|
            0 <= i < a@.len() ==> -MAX_COMPONENT_MICRO <= #[trigger] a@[i] <= MAX_COMPONENT_MICRO,
        forall|i: int|
            0 <= i < b@.len() ==> -MAX_COMPONENT_MICRO <= #[trigger] b@[i] <= MAX_COMPONENT_MICRO,
    ensures
        r == dist_sq_spec(a@, b@),
        r >= 0,
{
    let n = a.len();
    let mut acc: i128 = 0;
    let mut i: usize = 0;
    while i < n
        invariant
            0 <= i <= n,
            n == a@.len(),
            n == b@.len(),
            n <= MAX_DIMENSIONS,
            forall|j: int|
                0 <= j < n ==> -MAX_COMPONENT_MICRO <= #[trigger] a@[j] <= MAX_COMPONENT_MICRO,
            forall|j: int|
                0 <= j < n ==> -MAX_COMPONENT_MICRO <= #[trigger] b@[j] <= MAX_COMPONENT_MICRO,
            acc == dist_sq_spec(a@.take(i as int), b@.take(i as int)),
            0 <= acc <= (i as int) * 4000000000000000000000000,
        decreases n - i,
    {
        let ghost mc = MAX_COMPONENT_MICRO as int;
        proof {
            assert(a@.take(i + 1).drop_last() =~= a@.take(i as int));
            assert(b@.take(i + 1).drop_last() =~= b@.take(i as int));
            assert(a@.take(i + 1).last() == a@[i as int]);
            assert(b@.take(i + 1).last() == b@[i as int]);
            assert((i as int) * 4000000000000000000000000 <= (MAX_DIMENSIONS as int)
                * 4000000000000000000000000) by (nonlinear_arith)
                requires
                    0 <= i as int <= MAX_DIMENSIONS as int;
            let av = a@[i as int] as int;
            let bv = b@[i as int] as int;
            assert(0 <= (av - bv) * (av - bv) <= 4000000000000000000000000) by (nonlinear_arith)
                requires
                    -2000000000000 <= av - bv <= 2000000000000;
        }
        let d: i128 = (a[i] as i128) - (b[i] as i128);
        acc = acc + d * d;
        proof {
            let av = a@[i as int] as int;
            let bv = b@[i as int] as int;
            assert((d as int) * (d as int) == (av - bv) * (av - bv));
        }
        i += 1;
    }
    proof {
        assert(a@.take(n as int) =~= a@);
        assert(b@.take(n as int) =~= b@);
    }
    acc
}

/// How many candidates the coarse pass gathers: the result cap times the
/// candidate factor (read as at least one), capped at the address space.
pub open spec fn candidate_target_spec(config: SimilarityConfig) -> int {
    let cf = if config.candidate_factor_micro > 0 {
        config.candidate_factor_micro as int
    } else {
        1_000_000
    };
    let raw = (config.max_results as int) * cf / 1_000_000;
    if raw > usize::MAX as int {
        usize::MAX as int
    } else {
        raw
    }
}

/// When every listed candidate is eligible, the eligible count is the list
/// length.
proof fn lemma_eligible_count_full(
    q: Seq<i64>,
    vectors: Seq<Vector>,
    idxs: Seq<usize>,
    qnorm: i64,
    min_score: Option<i64>,
)
    requires
        forall|i: int|
            0 <= i < idxs.len() ==> ((#[trigger] idxs[i]) < vectors.len() && eligible(
                q,
                vectors[idxs[i] as int]@,
                qnorm,
                min_score,
            )),
    ensures
        eligible_count(q, vectors, idxs, qnorm, min_score) == idxs.len(),
    decreases idxs.len(),
{
    if idxs.len() > 0 {
        let prefix = idxs.drop_last();
        assert forall|i: int|
            0 <= i < prefix.len() implies ((#[trigger] prefix[i]) < vectors.len() && eligible(
            q,
            vectors[prefix[i] as int]@,
            qnorm,
            min_score,
        )) by {
            assert(prefix[i] == idxs[i]);
        }
        lemma_eligible_count_full(q, vectors, prefix, qnorm, min_score);
        assert(idxs[idxs.len() - 1] == idxs.last());
    }
}

/// Approximate search: a coarse k-means pass picks promising clusters, and
/// the exact scorer ranks their members; when the chosen clusters cannot
/// supply the candidate target, the scan falls back to every vector.
/// Every reported entry is a real, exactly scored vector, and a fully
/// eligible collection yields at least the lesser of the cap and the
/// candidate target.
fn search_approximate(
    query: &Vec<i64>,
    qnorm: i64,
    vectors: &Vec<Vector>,
    config: &SimilarityConfig,
) -> (r: Vec<(i64, usize)>)
    requires
        valid_embedding_seq(query@),
        qnorm > 0,
        vectors@.len() > 0,
    ensures
        sorted_desc(r@),
        r@.len() <= config.max_results,
        forall|j: int|
            0 <= j < r@.len() ==> ({
                &&& ((#[trigger] r@[j]).1) < vectors@.len()
                &&& eligible(query@, vectors@[r@[j].1 as int]@, qnorm, config.min_score)
                &&& r@[j].0 == score_spec(
                    query@,
                    vectors@[r@[j].1 as int]@.embedding,
                    qnorm,
                    vectors@[r@[j].1 as int]@.norm,
                )
            }),
        forall|j1: int, j2: int|
            0 <= j1 < r@.len() && 0 <= j2 < r@.len() && j1 != j2 ==> (#[trigger] r@[j1]).1 != (
            #[trigger] r@[j2]).1,
        (forall|i: int|
            0 <= i < vectors@.len() ==> eligible(
                query@,
                (#[trigger] vectors@[i])@,
                qnorm,
                config.min_score,
            )) ==> r@.len() >= vstd::math::min(
            config.max_results as int,
            vstd::math::min(candidate_target_spec(*config), vectors@.len() as int),
        ),
{
    let n = vectors.len();
    let mut target_clusters: usize = n / 100;
    if target_clusters < 10 {
        target_clusters = 10;
    }
    if target_clusters > 100 {
        target_clusters = 100;
    }
    let (centroids, assignments) = simple_kmeans(vectors, target_clusters);
    let k = centroids.len();

    // Group vector indices by assigned cluster, in increasing order.
    let mut clusters: Vec<Vec<usize>> = Vec::new();
    let mut c: usize = 0;
    while c < k
        invariant
            0 <= c <= k,
            n == vectors@.len(),
            clusters@.len() == c,
            assignments@.len() == n,
            forall|i: int| 0 <= i < assignments@.len() ==> (#[trigger] assignments@[i]) < k,
            forall|c2: int, j: int|
                0 <= c2 < c && 0 <= j < (#[trigger] clusters@[c2])@.len() ==> ((
                #[trigger] clusters@[c2]@[j]) < n && assignments@[clusters@[c2]@[j] as int] == c2),
            forall|c2: int, j1: int, j2: int|
                0 <= c2 < c && 0 <= j1 < j2 < (#[trigger] clusters@[c2])@.len() ==> (
                #[trigger] clusters@[c2]@[j1]) < (#[trigger] clusters@[c2]@[j2]),
        decreases k - c,
    {
        let mut members: Vec<usize> = Vec::new();
        let mut i: usize = 0;
        while i < n
            invariant
                0 <= i <= n,
                n == vectors@.len(),
                assignments@.len() == n,
                forall|j: int|
                    0 <= j < members@.len() ==> ((#[trigger] members@[j]) < i
                        && assignments@[members@[j] as int] == c),
                forall|j1: int, j2: int|
                    0 <= j1 < j2 < members@.len() ==> (#[trigger] members@[j1]) < (
                    #[trigger] members@[j2]),
            decreases n - i,
        {
            if assignments[i] == c {
                members.push(i);
            }
            i += 1;
        }
        clusters.push(members);
        c += 1;
    }

    // Rank clusters by centroid similarity.
    let mut cluster_scores: Vec<(i64, usize)> = Vec::new();
    let mut c2: usize = 0;
    while c2 < k
        invariant
            0 <= c2 <= k,
            k == centroids@.len(),
            forall|j: int|
                0 <= j < cluster_scores@.len() ==> ((#[trigger] cluster_scores@[j]).1) < c2,
            forall|j1: int, j2: int|
                0 <= j1 < j2 < cluster_scores@.len() ==> (#[trigger] cluster_scores@[j1]).1 < (
                #[trigger] cluster_scores@[j2]).1,
        decreases k - c2,
    {
        match calculate_norm(&centroids[c2]) {
            Ok(cnorm) => {
                match cosine_similarity(query, &centroids[c2], qnorm, cnorm) {
                    Ok(s) => {
                        cluster_scores.push((s, c2));
                    },
                    Err(_) => {},
                }
            },
            Err(_) => {},
        }
        c2 += 1;
    }
    let ghost pre_ranked = cluster_scores@;
    let ranked = sort_by_score_desc(cluster_scores);
    proof {
        assert forall|j1: int, j2: int|
            0 <= j1 < pre_ranked.len() && 0 <= j2 < pre_ranked.len() && j1 != j2 implies (
        #[trigger] pre_ranked[j1]).1 != (#[trigger] pre_ranked[j2]).1 by {
            if j1 < j2 {
            } else {
            }
        }
        lemma_multiset_pointwise(pre_ranked, ranked@);
        assert forall|j: int| 0 <= j < ranked@.len() implies ((#[trigger] ranked@[j]).1) < k by {
            assert(pre_ranked.contains(ranked@[j]));
            let p = choose|p: int| 0 <= p < pre_ranked.len() && pre_ranked[p] == ranked@[j];
        }
    }

    // Accumulate the best clusters until they hold enough candidates.
    let candidate_target: usize = {
        let cf = if config.candidate_factor_micro > 0 {
            config.candidate_factor_micro
        } else {
            1_000_000
        };
        proof {
            assert((config.max_results as int) * (cf as int) <= u128::MAX as int)
                by (nonlinear_arith)
                requires
                    0 <= (config.max_results as int) <= 4294967295,
                    0 < (cf as int) <= 9223372036854775807;
        }
        let raw: u128 = (config.max_results as u128) * (cf as u128) / 1_000_000u128;
        if raw > (usize::MAX as u128) {
            usize::MAX
        } else {
            raw as usize
        }
    };
    let mut chosen: Vec<usize> = Vec::new();
    let mut total: usize = 0;
    let mut ci: usize = 0;
    let mut enough: bool = false;
    while !enough && ci < ranked.len()
        invariant
            0 <= ci <= ranked@.len(),
            clusters@.len() == k,
            forall|j: int| 0 <= j < ranked@.len() ==> ((#[trigger] ranked@[j]).1) < k,
            forall|j1: int, j2: int|
                0 <= j1 < ranked@.len() && 0 <= j2 < ranked@.len() && j1 != j2 ==> (
                #[trigger] ranked@[j1]).1 != (#[trigger] ranked@[j2]).1,
            forall|j: int|
                0 <= j < chosen@.len() ==> ((#[trigger] chosen@[j]) < k && (exists|p: int|
                    0 <= p < ci && (#[trigger] ranked@[p]).1 == chosen@[j])),
            forall|j1: int, j2: int|
                0 <= j1 < chosen@.len() && 0 <= j2 < chosen@.len() && j1 != j2 ==> (
                #[trigger] chosen@[j1]) != (#[trigger] chosen@[j2]),
        decreases (ranked@.len() - ci) + (if enough { 0int } else { 1int }),
    {
        let cid = ranked[ci].1;
        let ghost pre_chosen = chosen@;
        chosen.push(cid);
        proof {
            assert forall|j1: int, j2: int|
                0 <= j1 < chosen@.len() && 0 <= j2 < chosen@.len() && j1 != j2 implies (
            #[trigger] chosen@[j1]) != (#[trigger] chosen@[j2]) by {
                if j2 == chosen@.len() - 1 && j1 < j2 {
                    if chosen@[j1] == cid {
                        let p = choose|p: int|
                            0 <= p < ci && (#[trigger] ranked@[p]).1 == pre_chosen[j1];
                        assert(ranked@[p].1 == ranked@[ci as int].1);
                    }
                } else if j1 == chosen@.len() - 1 && j2 < j1 {
                    if chosen@[j2] == cid {
                        let p = choose|p: int|
                            0 <= p < ci && (#[trigger] ranked@[p]).1 == pre_chosen[j2];
                        assert(ranked@[p].1 == ranked@[ci as int].1);
                    }
                }
            }
            assert forall|j: int|
                0 <= j < chosen@.len() implies ((#[trigger] chosen@[j]) < k && (exists|p: int|
                0 <= p < ci + 1 && (#[trigger] ranked@[p]).1 == chosen@[j])) by {
                if j < chosen@.len() - 1 {
                    let p = choose|p: int| 0 <= p < ci && (#[trigger] ranked@[p]).1 == pre_chosen[j];
                    assert(ranked@[p].1 == chosen@[j]);
                } else {
                    assert(ranked@[ci as int].1 == chosen@[j]);
                }
            }
        }
        let size = clusters[cid].len();
        total = if total > usize::MAX - size {
            usize::MAX
        } else {
            total + size
        };
        if total >= candidate_target {
            enough = true;
        }
        ci += 1;
    }

    // Flatten the chosen clusters into one duplicate-free candidate list.
    let mut cand: Vec<usize> = Vec::new();
    let mut q: usize = 0;
    while q < chosen.len()
        invariant
            0 <= q <= chosen@.len(),
            n == vectors@.len(),
            assignments@.len() == n,
            clusters@.len() == k,
            forall|j: int| 0 <= j < chosen@.len() ==> ((#[trigger] chosen@[j]) < k),
            forall|j1: int, j2: int|
                0 <= j1 < chosen@.len() && 0 <= j2 < chosen@.len() && j1 != j2 ==> (
                #[trigger] chosen@[j1]) != (#[trigger] chosen@[j2]),
            forall|c3: int, j: int|
                0 <= c3 < clusters@.len() && 0 <= j < (#[trigger] clusters@[c3])@.len() ==> ((
                #[trigger] clusters@[c3]@[j]) < n && assignments@[clusters@[c3]@[j] as int] == c3),
            forall|c3: int, j1: int, j2: int|
                0 <= c3 < clusters@.len() && 0 <= j1 < j2 < (#[trigger] clusters@[c3])@.len() ==> (
                #[trigger] clusters@[c3]@[j1]) < (#[trigger] clusters@[c3]@[j2]),
            forall|j: int| 0 <= j < cand@.len() ==> ((#[trigger] cand@[j]) < n),
            forall|j: int|
                0 <= j < cand@.len() ==> (exists|p: int|
                    0 <= p < q && chosen@[p] == assignments@[(#[trigger] cand@[j]) as int]),
            cand@.no_duplicates(),
        decreases chosen@.len() - q,
    {
        let cid = chosen[q];
        let mn = clusters[cid].len();
        let mut mi: usize = 0;
        while mi < mn
            invariant
                0 <= mi <= mn,
                0 <= q < chosen@.len(),
                n == vectors@.len(),
                assignments@.len() == n,
                clusters@.len() == k,
                cid == chosen@[q as int],
                cid < k,
                mn == clusters@[cid as int]@.len(),
                forall|j: int| 0 <= j < chosen@.len() ==> ((#[trigger] chosen@[j]) < k),
                forall|j1: int, j2: int|
                    0 <= j1 < chosen@.len() && 0 <= j2 < chosen@.len() && j1 != j2 ==> (
                    #[trigger] chosen@[j1]) != (#[trigger] chosen@[j2]),
                forall|c3: int, j: int|
                    0 <= c3 < clusters@.len() && 0 <= j < (#[trigger] clusters@[c3])@.len() ==> ((
                    #[trigger] clusters@[c3]@[j]) < n && assignments@[clusters@[c3]@[j] as int]
                        == c3),
                forall|c3: int, j1: int, j2: int|
                    0 <= c3 < clusters@.len() && 0 <= j1 < j2 < (
                    #[trigger] clusters@[c3])@.len() ==> (#[trigger] clusters@[c3]@[j1]) < (
                    #[trigger] clusters@[c3]@[j2]),
                forall|j: int| 0 <= j < cand@.len() ==> ((#[trigger] cand@[j]) < n),
                forall|j: int|
                    0 <= j < cand@.len() ==> (exists|p: int|
                        0 <= p <= q && chosen@[p] == assignments@[(#[trigger] cand@[j]) as int]),
                forall|j: int|
                    0 <= j < cand@.len() && assignments@[(#[trigger] cand@[j]) as int] == cid ==> (
                    exists|j2: int| 0 <= j2 < mi && clusters@[cid as int]@[j2] == cand@[j]),
                cand@.no_duplicates(),
            decreases mn - mi,
        {
            let ix = clusters[cid][mi];
            let ghost pre_cand = cand@;
            cand.push(ix);
            proof {
                assert(assignments@[ix as int] == cid);
                assert(cand@.no_duplicates()) by {
                    assert forall|j1: int, j2: int|
                        0 <= j1 < cand@.len() && 0 <= j2 < cand@.len() && j1 != j2 implies (
                    #[trigger] cand@[j1]) != (#[trigger] cand@[j2]) by {
                        if j2 == cand@.len() - 1 && j1 < j2 {
                            if cand@[j1] == ix {
                                assert(assignments@[pre_cand[j1] as int] == cid);
                                let jj = choose|jj: int|
                                    0 <= jj < mi && #[trigger] clusters@[cid as int]@[jj]
                                        == pre_cand[j1];
                                assert(clusters@[cid as int]@[jj] < clusters@[cid as int]@[mi as int]);
                            }
                        } else if j1 == cand@.len() - 1 && j2 < j1 {
                            if cand@[j2] == ix {
                                assert(assignments@[pre_cand[j2] as int] == cid);
                                let jj = choose|jj: int|
                                    0 <= jj < mi && #[trigger] clusters@[cid as int]@[jj]
                                        == pre_cand[j2];
                                assert(clusters@[cid as int]@[jj] < clusters@[cid as int]@[mi as int]);
                            }
                        } else {
                            assert(cand@[j1] == pre_cand[j1] && cand@[j2] == pre_cand[j2]);
                        }
                    }
                }
                assert forall|j: int|
                    0 <= j < cand@.len() && assignments@[(#[trigger] cand@[j]) as int] == cid
                    implies (exists|j2: int|
                    0 <= j2 < mi + 1 && clusters@[cid as int]@[j2] == cand@[j]) by {
                    if j < cand@.len() - 1 {
                        let j2 = choose|j2: int|
                            0 <= j2 < mi && #[trigger] clusters@[cid as int]@[j2] == pre_cand[j];
                        assert(clusters@[cid as int]@[j2] == cand@[j]);
                    } else {
                        assert(clusters@[cid as int]@[mi as int] == cand@[j]);
                    }
                }
                assert forall|j: int|
                    0 <= j < cand@.len() implies (exists|p: int|
                    0 <= p <= q && chosen@[p] == assignments@[(#[trigger] cand@[j]) as int]) by {
                    if j < cand@.len() - 1 {
                        let p = choose|p: int|
                            0 <= p <= q && #[trigger] chosen@[p] == assignments@[pre_cand[j] as int];
                        assert(chosen@[p] == assignments@[cand@[j] as int]);
                    } else {
                        assert(chosen@[q as int] == assignments@[cand@[j] as int]);
                    }
                }
            }
            mi += 1;
        }
        proof {
            assert forall|j: int|
                0 <= j < cand@.len() implies (exists|p: int|
                0 <= p < q + 1 && chosen@[p] == assignments@[(#[trigger] cand@[j]) as int]) by {
                let p = choose|p: int|
                    0 <= p <= q && #[trigger] chosen@[p] == assignments@[cand@[j] as int];
            }
        }
        q += 1;
    }
    let final_cand = if cand.len() < candidate_target && cand.len() < n {
        all_indices(n)
    } else {
        cand
    };
    let result = search_top_k(
        query,
        qnorm,
        vectors,
        &final_cand,
        config.min_score,
        config.max_results,
    );
    proof {
        if forall|i: int|
            0 <= i < vectors@.len() ==> eligible(
                query@,
                (#[trigger] vectors@[i])@,
                qnorm,
                config.min_score,
            ) {
            assert forall|i: int|
                0 <= i < final_cand@.len() implies ((#[trigger] final_cand@[i]) < vectors@.len()
                && eligible(
                query@,
                vectors@[final_cand@[i] as int]@,
                qnorm,
                config.min_score,
            )) by {}
            lemma_eligible_count_full(
                query@,
                vectors@,
                final_cand@,
                qnorm,
                config.min_score,
            );
            assert(candidate_target as int == candidate_target_spec(*config));
            assert(final_cand@.len() >= vstd::math::min(
                candidate_target_spec(*config),
                vectors@.len() as int,
            ));
        }
    }
    result
}

// =============================================================================
// K-MEANS CLUSTERING
// =============================================================================

/// The squared distance between two embeddings when both are well formed
/// and of equal length.
fn dist_checked(a: &Vec<i64>, b: &Vec<i64>) -> (r: Option<i128>)
    ensures
        r is Some <==> (valid_embedding_seq(a@) && valid_embedding_seq(b@) && a@.len() == b@.len()),
        r matches Some(d) ==> d == dist_sq_spec(a@, b@) && d >= 0,
{
    match validate_embedding(a) {
        Ok(_) => {},
        Err(_) => {
            return None;
        },
    }
    match validate_embedding(b) {
        Ok(_) => {},
        Err(_) => {
            return None;
        },
    }
    if a.len() != b.len() {
        return None;
    }
    Some(distance_sq(a, b))
}

/// Seeds the centroids: the first vector first, then repeatedly the vector
/// farthest from every centroid chosen so far.
fn kmeans_plus_plus_init(vectors: &Vec<Vector>, k: usize) -> (r: Vec<Vec<i64>>)
    requires
        vectors@.len() > 0,
        k >= 1,
    ensures
        1 <= r@.len() <= k,
{
    let n = vectors.len();
    let mut centroids: Vec<Vec<i64>> = Vec::new();
    let first = crate::util::clone_i64_vec(&vectors[0].embedding);
    centroids.push(first);
    let mut round: usize = 1;
    while round < k
        invariant
            1 <= round <= k,
            n == vectors@.len(),
            n > 0,
            1 <= centroids@.len() <= round,
        decreases k - round,
    {
        let mut best_idx: usize = 0;
        let mut best_dist: i128 = -1;
        let mut i: usize = 0;
        while i < n
            invariant
                0 <= i <= n,
                n == vectors@.len(),
                0 <= best_idx < n,
                centroids@.len() >= 1,
            decreases n - i,
        {
            // the least distance from this vector to any chosen centroid
            let mut min_d: i128 = i128::MAX;
            let mut cday: usize = 0;
            let cn = centroids.len();
            while cday < cn
                invariant
                    0 <= cday <= cn,
                    cn == centroids@.len(),
                    0 <= i < n,
                    n == vectors@.len(),
                    min_d >= -1,
                decreases cn - cday,
            {
                match dist_checked(&vectors[i].embedding, &centroids[cday]) {
                    Some(d) => {
                        if d < min_d {
                            min_d = d;
                        }
                    },
                    None => {
                        min_d = 0;
                    },
                }
                cday += 1;
            }
            if min_d != i128::MAX && min_d > best_dist {
                best_dist = min_d;
                best_idx = i;
            }
            i += 1;
        }
        let chosen_embedding = crate::util::clone_i64_vec(&vectors[best_idx].embedding);
        centroids.push(chosen_embedding);
        round += 1;
    }
    centroids
}

/// One Lloyd's update: each centroid becomes the truncated mean of its
/// well-formed assigned vectors, and a cluster without any keeps its old
/// centroid.
fn update_centroids(
    vectors: &Vec<Vector>,
    assignments: &Vec<usize>,
    old_centroids: &Vec<Vec<i64>>,
    dim: usize,
) -> (r: Vec<Vec<i64>>)
    requires
        assignments@.len() == vectors@.len(),
        dim <= MAX_DIMENSIONS,
    ensures
        r@.len() == old_centroids@.len(),
{
    let k = old_centroids.len();
    let n = vectors.len();
    let mut out: Vec<Vec<i64>> = Vec::new();
    let mut c: usize = 0;
    while c < k
        invariant
            0 <= c <= k,
            k == old_centroids@.len(),
            n == vectors@.len(),
            assignments@.len() == n,
            dim <= MAX_DIMENSIONS,
            out@.len() == c,
        decreases k - c,
    {
        let mut sums: Vec<i128> = Vec::new();
        let mut d: usize = 0;
        while d < dim
            invariant
                0 <= d <= dim,
                sums@.len() == d,
                forall|x: int| 0 <= x < sums@.len() ==> (#[trigger] sums@[x]) == 0,
            decreases dim - d,
        {
            sums.push(0);
            d += 1;
        }
        let mut count: usize = 0;
        let mut i: usize = 0;
        while i < n
            invariant
                0 <= i <= n,
                n == vectors@.len(),
                assignments@.len() == n,
                dim <= MAX_DIMENSIONS,
                sums@.len() == dim,
                count <= i,
                forall|x: int|
                    0 <= x < dim ==> -(count as int) * (MAX_COMPONENT_MICRO as int) <= (
                    #[trigger] sums@[x]) <= (count as int) * (MAX_COMPONENT_MICRO as int),
            decreases n - i,
        {
            let take_it = assignments[i] == c && vectors[i].embedding.len() == dim
                && check_components(&vectors[i].embedding);
            if take_it {
                let mut d2: usize = 0;
                while d2 < dim
                    invariant
                        0 <= d2 <= dim,
                        0 <= i < n,
                        n == vectors@.len(),
                        dim <= MAX_DIMENSIONS,
                        count < usize::MAX,
                        count <= i,
                        sums@.len() == dim,
                        vectors@[i as int].embedding@.len() == dim,
                        forall|x: int|
                            0 <= x < dim ==> -MAX_COMPONENT_MICRO <= (
                            #[trigger] vectors@[i as int].embedding@[x]) <= MAX_COMPONENT_MICRO,
                        forall|x: int|
                            0 <= x < d2 ==> -((count + 1) as int) * (MAX_COMPONENT_MICRO as int)
                                <= (#[trigger] sums@[x]) <= ((count + 1) as int) * (
                            MAX_COMPONENT_MICRO as int),
                        forall|x: int|
                            d2 <= x < dim ==> -(count as int) * (MAX_COMPONENT_MICRO as int) <= (
                            #[trigger] sums@[x]) <= (count as int) * (MAX_COMPONENT_MICRO as int),
                    decreases dim - d2,
                {
                    let e = vectors[i].embedding[d2];
                    let updated = sums[d2] + (e as i128);
                    sums.set(d2, updated);
                    d2 += 1;
                }
                count += 1;
            }
            i += 1;
        }
        if count > 0 {
            let mut centroid: Vec<i64> = Vec::new();
            let mut d3: usize = 0;
            while d3 < dim
                invariant
                    0 <= d3 <= dim,
                    sums@.len() == dim,
                    count >= 1,
                    centroid@.len() == d3,
                    forall|x: int|
                        0 <= x < dim ==> -(count as int) * (MAX_COMPONENT_MICRO as int) <= (
                        #[trigger] sums@[x]) <= (count as int) * (MAX_COMPONENT_MICRO as int),
                decreases dim - d3,
            {
                let s = sums[d3];
                let mean: i64 = if s >= 0 {
                    let q2 = (s as u128) / (count as u128);
                    if q2 > (MAX_COMPONENT_MICRO as u128) {
                        MAX_COMPONENT_MICRO
                    } else {
                        q2 as i64
                    }
                } else {
                    let q2 = ((-s) as u128) / (count as u128);
                    if q2 > (MAX_COMPONENT_MICRO as u128) {
                        -MAX_COMPONENT_MICRO
                    } else {
                        -(q2 as i64)
                    }
                };
                centroid.push(mean);
                d3 += 1;
            }
            out.push(centroid);
        } else {
            out.push(crate::util::clone_i64_vec(&old_centroids[c]));
        }
        c += 1;
    }
    out
}

/// Whether every component is within the admissible range.
fn check_components(embedding: &Vec<i64>) -> (r: bool)
    ensures
        r == (forall|i: int|
            0 <= i < embedding@.len() ==> -MAX_COMPONENT_MICRO <= #[trigger] embedding@[i]
                <= MAX_COMPONENT_MICRO),
{
    let n = embedding.len();
    let mut i: usize = 0;
    while i < n
        invariant
            0 <= i <= n,
            n == embedding@.len(),
            forall|j: int|
                0 <= j < i ==> -MAX_COMPONENT_MICRO <= #[trigger] embedding@[j]
                    <= MAX_COMPONENT_MICRO,
        decreases n - i,
    {
        let e = embedding[i];
        if e < -MAX_COMPONENT_MICRO || e > MAX_COMPONENT_MICRO {
            return false;
        }
        i += 1;
    }
    true
}

/// Lloyd's iterations over a k-means++ seeding: assign each vector to its
/// nearest centroid, re-average, and stop after ten rounds or on a round
/// without any change.
fn simple_kmeans(vectors: &Vec<Vector>, k: usize) -> (r: (Vec<Vec<i64>>, Vec<usize>))
    requires
        vectors@.len() > 0,
        k >= 1,
    ensures
        r.1@.len() == vectors@.len(),
        r.0@.len() >= 1,
        forall|i: int| 0 <= i < r.1@.len() ==> (#[trigger] r.1@[i]) < r.0@.len(),
{
    let n = vectors.len();
    let kk = if k < n {
        k
    } else {
        n
    };
    let mut dim = vectors[0].embedding.len();
    if dim > MAX_DIMENSIONS {
        dim = MAX_DIMENSIONS;
    }
    let mut centroids = kmeans_plus_plus_init(vectors, kk);
    let mut assignments: Vec<usize> = Vec::new();
    let mut z: usize = 0;
    while z < n
        invariant
            0 <= z <= n,
            assignments@.len() == z,
            forall|i: int| 0 <= i < assignments@.len() ==> (#[trigger] assignments@[i]) == 0,
        decreases n - z,
    {
        assignments.push(0);
        z += 1;
    }
    let kc = centroids.len();
    proof {
        assert forall|i: int|
            0 <= i < assignments@.len() implies (#[trigger] assignments@[i]) < kc by {}
    }
    let mut iteration: usize = 0;
    while iteration < 10
        invariant
            0 <= iteration <= 10,
            n == vectors@.len(),
            assignments@.len() == n,
            centroids@.len() >= 1,
            forall|i: int|
                0 <= i < assignments@.len() ==> (#[trigger] assignments@[i]) < centroids@.len(),
            dim <= MAX_DIMENSIONS,
        decreases 10 - iteration,
    {
        let mut changed = false;
        let kcur = centroids.len();
        let mut i: usize = 0;
        while i < n
            invariant
                0 <= i <= n,
                n == vectors@.len(),
                assignments@.len() == n,
                kcur == centroids@.len(),
                kcur >= 1,
                forall|i2: int|
                    0 <= i2 < assignments@.len() ==> (#[trigger] assignments@[i2])
                        < centroids@.len(),
            decreases n - i,
        {
            let mut best_cluster: usize = 0;
            let mut best_dist: i128 = i128::MAX;
            let mut c4: usize = 0;
            while c4 < kcur
                invariant
                    0 <= c4 <= kcur,
                    kcur == centroids@.len(),
                    0 <= best_cluster < kcur,
                    0 <= i < n,
                    n == vectors@.len(),
                decreases kcur - c4,
            {
                let d = match dist_checked(&vectors[i].embedding, &centroids[c4]) {
                    Some(d) => d,
                    None => i128::MAX,
                };
                if d < best_dist {
                    best_dist = d;
                    best_cluster = c4;
                }
                c4 += 1;
            }
            if assignments[i] != best_cluster {
                assignments.set(i, best_cluster);
                changed = true;
            }
            i += 1;
        }
        if !changed {
            break ;
        }
        let updated = update_centroids(vectors, &assignments, &centroids, dim);
        proof {
            assert(updated@.len() == centroids@.len());
        }
        centroids = updated;
        iteration += 1;
    }
    (centroids, assignments)
}

/// Two equal entries at distinct positions put the value's count at two or
/// more.
/// more.
proof fn lemma_two_positions_count(s: Seq<(i64, usize)>, i1: int, i2: int)
    requires
        0 <= i1 < i2 < s.len(),
        s[i1] == s[i2],
    ensures
        s.to_multiset().count(s[i1]) >= 2,
{
    broadcast use vstd::seq_lib::group_to_multiset_ensures;

    let v = s[i1];
    let rest = s.remove(i1);
    assert(rest.to_multiset() =~= s.to_multiset().remove(v));
    assert(rest[i2 - 1] == s[i2]);
    assert(rest.contains(v));
    assert(rest.to_multiset().count(v) > 0);
    assert(s.to_multiset().count(v) == rest.to_multiset().count(v) + 1);
}

/// A count of two or more puts equal entries at two distinct positions.
proof fn lemma_count_two_positions(s: Seq<(i64, usize)>, v: (i64, usize))
    requires
        s.to_multiset().count(v) >= 2,
    ensures
        exists|i1: int, i2: int|
            0 <= i1 < s.len() && 0 <= i2 < s.len() && i1 != i2 && #[trigger] s[i1] == v
                && #[trigger] s[i2] == v,
{
    broadcast use vstd::seq_lib::group_to_multiset_ensures;

    assert(s.to_multiset().count(v) > 0);
    assert(s.contains(v));
    let i1 = choose|i1: int| 0 <= i1 < s.len() && s[i1] == v;
    let rest = s.remove(i1);
    assert(rest.to_multiset() =~= s.to_multiset().remove(v));
    assert(rest.to_multiset().count(v) >= 1);
    assert(rest.contains(v));
    let j = choose|j: int| 0 <= j < rest.len() && rest[j] == v;
    if j < i1 {
        assert(s[j] == rest[j]);
        assert(s[j] == v && s[i1] == v && j != i1);
    } else {
        assert(s[j + 1] == rest[j]);
        assert(s[j + 1] == v && s[i1] == v && j + 1 != i1);
    }
}

} // verus!

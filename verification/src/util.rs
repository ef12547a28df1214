use vstd::prelude::*;

verus! {

/// Relies on std's `String::push`: appends one character to the string.
#[verifier::external_body]
pub fn push_char(s: &mut String, c: char)
    ensures
        final (s)@ == old(s)@.push(c),
{
    s.push(c);
}

/// Whether a list of strings contains one with the given character sequence.
pub open spec fn seq_contains_string(v: Seq<Seq<char>>, s: Seq<char>) -> bool {
    exists|i: int| 0 <= i < v.len() && v[i] == s
}

pub fn string_vec_contains(v: &Vec<String>, s: &String) -> (r: bool)
    ensures
        r == seq_contains_string(v.deep_view(), s@),
{
    let n = v.len();
    let mut i: usize = 0;
    while i < n
        invariant
            0 <= i <= n,
            n == v@.len(),
            forall|j: int| 0 <= j < i ==> v.deep_view()[j] != s@,
        decreases n - i,
    {
        proof {
            assert(v.deep_view()[i as int] == v@[i as int]@);
        }
        if v[i].eq(s) {
            return true;
        }
        i += 1;
    }
    false
}

/// Removes every occurrence of `s` from the list, keeping the order of the
/// rest.
pub fn string_vec_remove(v: &mut Vec<String>, s: &String)
    ensures
        final (v).deep_view() == old(v).deep_view().filter(|x: Seq<char>| x != s@),
{
    let n = v.len();
    let mut out: Vec<String> = Vec::new();
    let mut i: usize = 0;
    while i < n
        invariant
            0 <= i <= n,
            n == v@.len(),
            out.deep_view() == v.deep_view().take(i as int).filter(|x: Seq<char>| x != s@),
        decreases n - i,
    {
        let ghost pre = out.deep_view();
        let keep = !v[i].eq(s);
        if keep {
            let c = v[i].clone();
            out.push(c);
        }
        proof {
            reveal(Seq::filter);
            assert(v.deep_view().take(i + 1).drop_last() =~= v.deep_view().take(i as int));
            assert(v.deep_view().take(i + 1).last() == v.deep_view()[i as int]);
            assert(v.deep_view()[i as int] == v@[i as int]@);
            if keep {
                assert(out.deep_view() =~= pre.push(v@[i as int]@));
            } else {
                assert(out.deep_view() =~= pre);
            }
            assert(out.deep_view() =~= v.deep_view().take(i + 1).filter(|x: Seq<char>| x != s@));
        }
        i += 1;
    }
    proof {
        assert(v.deep_view().take(n as int) =~= v.deep_view());
    }
    *v = out;
}

/// Clones a list of strings, preserving its character sequences.
pub fn clone_string_vec(v: &Vec<String>) -> (r: Vec<String>)
    ensures
        r.deep_view() == v.deep_view(),
        r@.len() == v@.len(),
{
    let r = v.clone();
    proof {
        assert(r@ =~= v@);
        assert(r.deep_view() =~= v.deep_view());
    }
    r
}

/// The sequence of views of a list of vectors.
pub open spec fn views_of_vectors(s: Seq<crate::types::Vector>) -> Seq<crate::types::VectorV> {
    Seq::new(s.len(), |i: int| s[i]@)
}

/// Clones a list of vectors, preserving every view.
pub fn clone_vector_vec(v: &Vec<crate::types::Vector>) -> (r: Vec<crate::types::Vector>)
    ensures
        views_of_vectors(r@) == views_of_vectors(v@),
        r@.len() == v@.len(),
{
    let r = v.clone();
    proof {
        assert forall|i: int| 0 <= i < r@.len() implies r@[i]@ == v@[i]@ by {
            assert(vstd::pervasive::cloned::<crate::types::Vector>(v[i], r[i]));
        }
        assert(views_of_vectors(r@) =~= views_of_vectors(v@));
    }
    r
}

/// Clones a list of fixed-point components, preserving the sequence.
pub fn clone_i64_vec(v: &Vec<i64>) -> (r: Vec<i64>)
    ensures
        r@ == v@,
{
    let r = v.clone();
    proof {
        assert(r@ =~= v@);
    }
    r
}

/// The whitespace characters the library trims against.
pub open spec fn is_space(c: char) -> bool {
    c == ' ' || c == '\t' || c == '\n' || c == '\r' || c == '\u{b}' || c == '\u{c}'
}

/// Whether a text holds any non-whitespace character: the library's notion
/// of "non-empty after trimming".
pub open spec fn has_non_space(s: Seq<char>) -> bool {
    exists|i: int| 0 <= i < s.len() && !is_space(#[trigger] s[i])
}

fn char_is_space(c: char) -> (r: bool)
    ensures
        r == is_space(c),
{
    c == ' ' || c == '\t' || c == '\n' || c == '\r' || c == '\u{b}' || c == '\u{c}'
}

pub fn string_has_non_space(s: &str) -> (r: bool)
    ensures
        r == has_non_space(s@),
{
    let n = s.unicode_len();
    let mut i: usize = 0;
    while i < n
        invariant
            0 <= i <= n,
            n == s@.len(),
            forall|j: int| 0 <= j < i ==> is_space(#[trigger] s@[j]),
        decreases n - i,
    {
        if !char_is_space(s.get_char(i)) {
            return true;
        }
        i += 1;
    }
    false
}

/// Character-for-character equality of two string slices.
pub fn str_equals(a: &str, b: &str) -> (r: bool)
    ensures
        r == (a@ == b@),
{
    let n = a.unicode_len();
    if n != b.unicode_len() {
        proof {
            assert(a@ != b@);
        }
        return false;
    }
    let mut i: usize = 0;
    while i < n
        invariant
            0 <= i <= n,
            n == a@.len(),
            n == b@.len(),
            forall|j: int| 0 <= j < i ==> a@[j] == b@[j],
        decreases n - i,
    {
        if a.get_char(i) != b.get_char(i) {
            return false;
        }
        i += 1;
    }
    proof {
        assert(a@ =~= b@);
    }
    true
}

/// Whether the needle occurs somewhere in the haystack, as a contiguous
/// character run.
pub open spec fn contains_sub(hay: Seq<char>, needle: Seq<char>) -> bool {
    exists|i: int|
        0 <= i && i + needle.len() <= hay.len() && #[trigger] hay.subrange(i, i + needle.len())
            == needle
}

pub fn str_contains(hay: &str, needle: &str) -> (r: bool)
    ensures
        r == contains_sub(hay@, needle@),
{
    let hn = hay.unicode_len();
    let nn = needle.unicode_len();
    if nn > hn {
        proof {
            if contains_sub(hay@, needle@) {
                let i = choose|i: int|
                    0 <= i && i + needle@.len() <= hay@.len() && #[trigger] hay@.subrange(
                        i,
                        i + needle@.len(),
                    ) == needle@;
            }
        }
        return false;
    }
    let mut i: usize = 0;
    while i <= hn - nn
        invariant
            0 <= i <= hn - nn + 1,
            nn <= hn,
            hn == hay@.len(),
            nn == needle@.len(),
            forall|x: int| 0 <= x < i ==> #[trigger] hay@.subrange(x, x + needle@.len()) != needle@,
        decreases hn - nn + 1 - i,
    {
        let mut j: usize = 0;
        let mut matched = true;
        while j < nn
            invariant
                0 <= j <= nn,
                0 <= i,
                i + nn <= hn,
                hn == hay@.len(),
                nn == needle@.len(),
                matched == (forall|x: int| 0 <= x < j ==> hay@[i + x] == needle@[x]),
            decreases nn - j,
        {
            let hc = hay.get_char(i + j);
            let nc = needle.get_char(j);
            let ghost pre_matched = matched;
            if hc != nc {
                matched = false;
            }
            proof {
                if matched {
                    assert forall|x: int| 0 <= x < j + 1 implies hay@[i + x] == needle@[x] by {}
                } else {
                    if pre_matched && hc == nc {
                        assert(false);
                    }
                    assert(!(forall|x: int| 0 <= x < j + 1 ==> hay@[i + x] == needle@[x])) by {
                        if forall|x: int| 0 <= x < j + 1 ==> hay@[i + x] == needle@[x] {
                            if pre_matched {
                                assert(hay@[i + j] == needle@[j as int]);
                            } else {
                                assert(forall|x: int| 0 <= x < j ==> hay@[i + x] == needle@[x]);
                            }
                        }
                    }
                }
            }
            j += 1;
        }
        if matched {
            proof {
                assert(hay@.subrange(i as int, i + needle@.len()) =~= needle@);
            }
            return true;
        }
        proof {
            assert(hay@.subrange(i as int, i + needle@.len()) != needle@) by {
                if hay@.subrange(i as int, i + needle@.len()) == needle@ {
                    assert forall|x: int| 0 <= x < nn implies hay@[i + x] == needle@[x] by {
                        assert(hay@.subrange(i as int, i + needle@.len())[x] == hay@[i + x]);
                    }
                }
            }
        }
        i += 1;
    }
    proof {
        if contains_sub(hay@, needle@) {
            let x = choose|x: int|
                0 <= x && x + needle@.len() <= hay@.len() && #[trigger] hay@.subrange(
                    x,
                    x + needle@.len(),
                ) == needle@;
            assert(x < i);
        }
    }
    false
}

/// The byte length of a string: the length of its UTF-8 encoding.
pub fn byte_len(s: &String) -> (r: usize)
    ensures
        r == crate::types::blen(s@),
{
    s.as_str().as_bytes().len()
}

/// A filtered sequence keeps no duplicates.
pub proof fn lemma_filter_no_dup<A>(s: Seq<A>, pred: spec_fn(A) -> bool)
    requires
        s.no_duplicates(),
    ensures
        s.filter(pred).no_duplicates(),
    decreases s.len(),
{
    reveal(Seq::filter);
    if s.len() > 0 {
        let prefix = s.drop_last();
        lemma_filter_no_dup(prefix, pred);
        if pred(s.last()) {
            assert forall|i: int|
                0 <= i < prefix.filter(pred).len() implies prefix.filter(pred)[i] != s.last() by {
                prefix.lemma_filter_pred(pred, i);
                let v = prefix.filter(pred)[i];
                lemma_filter_elem_from(prefix, pred, i);
                let j = choose|j: int| 0 <= j < prefix.len() && prefix[j] == v;
                assert(s[j] == v);
            }
        }
    }
}

/// Every element of a filtered sequence comes from the original.
pub proof fn lemma_filter_elem_from<A>(s: Seq<A>, pred: spec_fn(A) -> bool, i: int)
    requires
        0 <= i < s.filter(pred).len(),
    ensures
        exists|j: int| 0 <= j < s.len() && s[j] == s.filter(pred)[i],
    decreases s.len(),
{
    reveal(Seq::filter);
    if s.len() > 0 {
        let prefix = s.drop_last();
        if pred(s.last()) && i == s.filter(pred).len() - 1 {
            assert(s[s.len() - 1] == s.filter(pred)[i]);
        } else {
            lemma_filter_elem_from(prefix, pred, i);
            let j = choose|j: int| 0 <= j < prefix.len() && prefix[j] == s.filter(pred)[i];
            assert(s[j] == s.filter(pred)[i]);
        }
    }
}

/// Membership in a filtered sequence: exactly the original members that
/// satisfy the predicate.
pub proof fn lemma_filter_membership<A>(s: Seq<A>, pred: spec_fn(A) -> bool, x: A)
    ensures
        s.filter(pred).contains(x) <==> (s.contains(x) && pred(x)),
{
    if s.filter(pred).contains(x) {
        let i = choose|i: int| 0 <= i < s.filter(pred).len() && s.filter(pred)[i] == x;
        s.lemma_filter_pred(pred, i);
        lemma_filter_elem_from(s, pred, i);
    }
    if s.contains(x) && pred(x) {
        let i = choose|i: int| 0 <= i < s.len() && s[i] == x;
        s.lemma_filter_contains(pred, i);
    }
}

/// A UTF-8 encoding is at least as long as its character sequence.
pub proof fn lemma_utf8_ge_chars(s: Seq<char>)
    ensures
        vstd::utf8::encode_utf8(s).len() >= s.len(),
    decreases s.len(),
{
    if s.len() > 0 {
        lemma_utf8_ge_chars(s.drop_first());
        assert(vstd::utf8::encode_scalar(s[0] as u32).len() >= 1);
    }
}

/// Saturating addition on byte counts.
pub open spec fn sat_add_spec(a: u64, b: u64) -> u64 {
    if a + b <= u64::MAX {
        (a + b) as u64
    } else {
        u64::MAX
    }
}

pub fn sat_add_u64(a: u64, b: u64) -> (r: u64)
    ensures
        r == sat_add_spec(a, b),
{
    if a > u64::MAX - b {
        u64::MAX
    } else {
        a + b
    }
}

} // verus!
